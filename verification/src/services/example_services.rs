//! Example handlers: a bare greeting and a JSON lookup of animal names.
//!
//! The animal handler's body format is a single-field JSON object,
//! `{"id":N}`, read and written here against an exact grammar: optional
//! whitespace around the five tokens, a decimal identifier, nothing else.

use vstd::prelude::*;

use crate::request::{HttpRequest, ReqView};
use crate::response::{spec_json, HttpResponse, RespView};
use crate::service::RouteHandler;
use crate::text::{
    digits_val, find_non_digit, find_non_space, is_digit, scan_non_digit, scan_non_space, str_eq,
};

verus! {

/// Answers every request with an empty success.
pub struct HomeHandler;

/// The response with nothing but a status code.
pub open spec fn status_view(code: u16) -> RespView {
    RespView { status_code: code, body: Seq::empty(), headers: Seq::empty() }
}

impl RouteHandler for HomeHandler {
    open spec fn spec_respond(&self, request: ReqView) -> RespView {
        status_view(200)
    }

    fn respond(&self, request: HttpRequest) -> (r: HttpResponse) {
        let r = HttpResponse::new(200);
        proof {
            assert(r@ =~~= status_view(200));
        }
        r
    }
}

/// A lookup request: the identifier of the animal asked for.
pub struct AnimalRequest {
    pub id: u64,
}

/// A lookup result: the animal's name.
pub struct AnimalResponse {
    pub name: String,
}

/// The identifiers the responder knows, and their animals.
pub open spec fn spec_animal_name(id: u64) -> Option<Seq<char>> {
    if id == 1 {
        Some("Dog"@)
    } else if id == 2 {
        Some("Cat"@)
    } else {
        None
    }
}

/// Which identifier a request body denotes: optional whitespace, `{`, the
/// quoted key `id`, `:`, a decimal number that fits the identifier type
/// (as in JSON, without leading zeros), `}`, optional whitespace, and
/// nothing further.
pub open spec fn spec_parse_animal(s: Seq<char>) -> Option<u64> {
    let i0 = find_non_space(s, 0);
    if !(i0 < s.len() && s[i0] == '{') {
        None
    } else {
        let i1 = find_non_space(s, i0 + 1);
        if !(i1 + 4 <= s.len() && s.subrange(i1, i1 + 4) == "\"id\""@) {
            None
        } else {
            let i2 = find_non_space(s, i1 + 4);
            if !(i2 < s.len() && s[i2] == ':') {
                None
            } else {
                let i3 = find_non_space(s, i2 + 1);
                let e = find_non_digit(s, i3);
                if !(i3 < s.len() && e > i3 && (s[i3] != '0' || e == i3 + 1) && digits_val(
                    s.subrange(i3, e),
                ) <= u64::MAX as nat) {
                    None
                } else {
                    let i4 = find_non_space(s, e);
                    if !(i4 < s.len() && s[i4] == '}' && find_non_space(s, i4 + 1) == s.len()) {
                        None
                    } else {
                        Some(digits_val(s.subrange(i3, e)) as u64)
                    }
                }
            }
        }
    }
}

/// Reads the decimal digits `body[from..to]` as an identifier, refusing a
/// value that does not fit.
fn read_u64(body: &str, from: usize, to: usize) -> (r: Option<u64>)
    requires
        from < to <= body@.len(),
        forall|k: int| from <= k < to ==> is_digit(body@[k]),
    ensures
        match r {
            Some(v) => v as nat == digits_val(body@.subrange(from as int, to as int))
                && digits_val(body@.subrange(from as int, to as int)) <= u64::MAX as nat,
            None => digits_val(body@.subrange(from as int, to as int)) > u64::MAX as nat,
        },
{
    let ghost digits = body@.subrange(from as int, to as int);
    let mut val: u64 = 0;
    let mut i = from;
    while i < to
        invariant
            from <= i <= to,
            to <= body@.len(),
            digits == body@.subrange(from as int, to as int),
            forall|k: int| from <= k < to ==> is_digit(body@[k]),
            val as nat == digits_val(body@.subrange(from as int, i as int)),
        decreases to - i,
    {
        let c = body.get_char(i);
        let d: u64 = ((c as u32) - 48) as u64;
        let ghost pre = body@.subrange(from as int, i as int);
        let ghost post = body@.subrange(from as int, i + 1);
        proof {
            assert(post.take(post.len() - 1) =~= pre);
            assert(post[post.len() - 1] == body@[i as int]);
        }
        let next = match val.checked_mul(10) {
            Some(m) => m.checked_add(d),
            None => None,
        };
        match next {
            Some(v) => {
                val = v;
            },
            None => {
                proof {
                    assert(digits_val(post) > u64::MAX as nat);
                    crate::text::lemma_digits_val_prefix(digits, i + 1 - from as int);
                    assert(digits.take(i + 1 - from as int) =~= post);
                }
                return None;
            },
        }
        i += 1;
    }
    proof {
        assert(body@.subrange(from as int, i as int) == digits);
    }
    Some(val)
}

/// Reads an animal-lookup body, exactly as [`spec_parse_animal`] does.
pub fn parse_animal_request(body: &str) -> (r: Option<u64>)
    ensures
        r == spec_parse_animal(body@),
{
    let n = body.unicode_len();
    let i0 = scan_non_space(body, 0);
    if !(i0 < n && body.get_char(i0) == '{') {
        return None;
    }
    let i1 = scan_non_space(body, i0 + 1);
    if n - i1 < 4 {
        return None;
    }
    let key = body.substring_char(i1, i1 + 4);
    if !str_eq(key, "\"id\"") {
        proof {
            assert(body@.subrange(i1 as int, i1 + 4) != "\"id\""@);
        }
        return None;
    }
    let i2 = scan_non_space(body, i1 + 4);
    if !(i2 < n && body.get_char(i2) == ':') {
        return None;
    }
    let i3 = scan_non_space(body, i2 + 1);
    let e = scan_non_digit(body, i3);
    if !(i3 < n && e > i3) {
        return None;
    }
    if body.get_char(i3) == '0' && e != i3 + 1 {
        return None;
    }
    let val = match read_u64(body, i3, e) {
        Some(v) => v,
        None => {
            return None;
        },
    };
    let i4 = scan_non_space(body, e);
    if !(i4 < n && body.get_char(i4) == '}') {
        return None;
    }
    let i5 = scan_non_space(body, i4 + 1);
    if i5 < n {
        return None;
    }
    Some(val)
}

/// The JSON rendering of a lookup result: `{"name":` then the name in
/// quotes, then `}`. The names written here need no escaping.
pub open spec fn spec_animal_json(name: Seq<char>) -> Seq<char> {
    "{\"name\":\""@ + name + "\"}"@
}

impl AnimalResponse {
    /// Renders the result as its JSON body.
    pub fn to_json(&self) -> (r: String)
        ensures
            r@ == spec_animal_json(self.name@),
    {
        let mut s = "{\"name\":\"".to_owned();
        s.append(self.name.as_str());
        s.append("\"}");
        s
    }
}

/// Looks an animal up by the identifier in the request body: an unreadable
/// body is a bad request, an unknown identifier is not found, and a known
/// one is answered with the name as a JSON body.
pub struct AnimalResponder;

/// The responder's whole behaviour.
pub open spec fn spec_animal_respond(body: Seq<char>) -> RespView {
    match spec_parse_animal(body) {
        None => status_view(400),
        Some(id) => match spec_animal_name(id) {
            Some(name) => spec_json(status_view(200), Some(spec_animal_json(name))),
            None => status_view(404),
        },
    }
}

impl RouteHandler for AnimalResponder {
    open spec fn spec_respond(&self, request: ReqView) -> RespView {
        spec_animal_respond(request.body)
    }

    fn respond(&self, request: HttpRequest) -> (r: HttpResponse) {
        match parse_animal_request(request.body.as_str()) {
            None => {
                let r = HttpResponse::new(400);
                proof {
                    assert(r@ =~~= status_view(400));
                }
                r
            },
            Some(id) => {
                let name: &str = if id == 1 {
                    "Dog"
                } else if id == 2 {
                    "Cat"
                } else {
                    let r = HttpResponse::new(404);
                    proof {
                        assert(r@ =~~= status_view(404));
                    }
                    return r;
                };
                let animal = AnimalResponse { name: name.to_owned() };
                let encoded = animal.to_json();
                let base = HttpResponse::new(200);
                proof {
                    assert(base@ =~~= status_view(200));
                }
                base.json(Some(encoded))
            },
        }
    }
}

} // verus!
