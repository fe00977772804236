//! Response values and their wire encoding: a status line, the headers in
//! insertion order, an empty line, then the body.

use vstd::prelude::*;

pub mod response;

use crate::request::{encode_headers, pairs_view};
use crate::text::{byte_len, dec_str, lemma_byte_len_zero, usize_to_string};

verus! {

/// What the status crate's table renders for a status code: the code in
/// decimal, a space, and the canonical reason phrase.
pub uninterp spec fn status_text_of(code: u16) -> Seq<char>;

/// Relies on http's `StatusCode`: `from_u16` accepts exactly 100..=999, and
/// `Display` writes the code in decimal, one space, and the canonical
/// reason phrase of its fixed table (or a fixed placeholder for a code
/// without one) — a function of the code alone.
#[verifier::external_body]
fn status_text(code: u16) -> (r: String)
    requires
        100 <= code <= 999,
    ensures
        r@ == status_text_of(code),
        code == 200 ==> r@ == "200 OK"@,
        code == 400 ==> r@ == "400 Bad Request"@,
        code == 404 ==> r@ == "404 Not Found"@,
        code == 405 ==> r@ == "405 Method Not Allowed"@,
        code == 500 ==> r@ == "500 Internal Server Error"@,
{
    let status = http::StatusCode::from_u16(code).unwrap();
    format!("{}", status)
}

/// The mathematical image of a response.
#[verifier::ext_equal]
pub struct RespView {
    pub status_code: u16,
    pub body: Seq<char>,
    pub headers: Seq<(Seq<char>, Seq<char>)>,
}

/// A response under construction: a status code in the valid range,
/// headers in insertion order, and a body.
pub struct HttpResponse {
    pub status_code: u16,
    pub body: String,
    pub headers: Vec<(String, String)>,
}

impl View for HttpResponse {
    type V = RespView;

    open spec fn view(&self) -> RespView {
        RespView {
            status_code: self.status_code,
            body: self.body@,
            headers: pairs_view(self.headers@),
        }
    }
}

/// The wire image of a response.
pub open spec fn spec_build(v: RespView) -> Seq<char> {
    "HTTP/1.1 "@ + status_text_of(v.status_code) + "\r\n"@ + encode_headers(v.headers) + "\r\n"@
        + v.body
}

/// What [`HttpResponse::json`] yields: a content-type header always; on an
/// encoded body, the body and — while it is non-empty — its length in
/// bytes; on a failed encoding, an internal-error status with the body
/// discarded.
pub open spec fn spec_json(v: RespView, encoded: Option<Seq<char>>) -> RespView {
    let with_ct = RespView {
        status_code: v.status_code,
        body: v.body,
        headers: v.headers.push(("Content-Type"@, "application/json; charset=utf-8"@)),
    };
    let after = match encoded {
        Some(b) => RespView { status_code: with_ct.status_code, body: b, headers: with_ct.headers },
        None => RespView { status_code: 500, body: Seq::empty(), headers: with_ct.headers },
    };
    if after.body.len() > 0 {
        RespView {
            status_code: after.status_code,
            body: after.body,
            headers: after.headers.push(("Content-Length"@, dec_str(byte_len(after.body)))),
        }
    } else {
        after
    }
}

impl HttpResponse {
    /// The status code lies in the range the status line can carry.
    pub open spec fn wf(self) -> bool {
        100 <= self.status_code <= 999
    }

    /// An empty response with the given status.
    pub fn new(status_code: u16) -> (r: Self)
        requires
            100 <= status_code <= 999,
        ensures
            r@.status_code == status_code,
            r@.body == Seq::<char>::empty(),
            r@.headers == Seq::<(Seq<char>, Seq<char>)>::empty(),
            r.wf(),
    {
        let r = HttpResponse { status_code, body: String::new(), headers: Vec::new() };
        proof {
            assert(r@.headers =~= Seq::<(Seq<char>, Seq<char>)>::empty());
        }
        r
    }

    /// The headers in wire form, in insertion order.
    fn build_headers(&self) -> (r: String)
        ensures
            r@ == encode_headers(self@.headers),
    {
        let mut s = String::new();
        let m = self.headers.len();
        let mut i: usize = 0;
        proof {
            assert(s@ + encode_headers(self@.headers.take(0)) =~= Seq::<char>::empty());
            assert(encode_headers(self@.headers.take(0)) =~= Seq::<char>::empty());
        }
        while i < m
            invariant
                i <= m,
                m == self.headers@.len(),
                s@ == encode_headers(self@.headers.take(i as int)),
            decreases m - i,
        {
            let h = &self.headers[i];
            s.append(h.0.as_str());
            s.append(": ");
            s.append(h.1.as_str());
            s.append("\r\n");
            proof {
                crate::request::lemma_encode_headers_push(
                    self@.headers.take(i as int),
                    self@.headers[i as int],
                );
                assert(self@.headers.take(i + 1) =~= self@.headers.take(i as int).push(
                    self@.headers[i as int],
                ));
                assert(self@.headers[i as int] == (self.headers@[i as int].0@,
                self.headers@[i as int].1@));
                assert(s@ =~= encode_headers(self@.headers.take(i + 1)));
            }
            i += 1;
        }
        proof {
            assert(self@.headers.take(m as int) =~= self@.headers);
        }
        s
    }

    /// Serializes the response: status line, headers, an empty line, the
    /// body.
    pub fn build(self) -> (r: String)
        requires
            self.wf(),
        ensures
            r@ == spec_build(self@),
    {
        let mut s = "HTTP/1.1 ".to_owned();
        let st = status_text(self.status_code);
        s.append(st.as_str());
        s.append("\r\n");
        let hb = self.build_headers();
        s.append(hb.as_str());
        s.append("\r\n");
        s.append(self.body.as_str());
        s
    }

    /// Takes a JSON rendering of the body, made elsewhere: sets the
    /// content-type header; on `Some`, installs the body and, if
    /// non-empty, a content-length header counting its bytes; on `None`
    /// (the rendering failed), drops to an internal-error status and
    /// discards the body.
    pub fn json(self, encoded: Option<String>) -> (r: Self)
        ensures
            r@ == spec_json(self@, match encoded {
                Some(s) => Some(s@),
                None => None,
            }),
            self.wf() ==> r.wf(),
    {
        let ghost enc_view: Option<Seq<char>> = match encoded {
            Some(ref s) => Some(s@),
            None => None,
        };
        let mut resp = self;
        resp.headers.push(
            ("Content-Type".to_owned(), "application/json; charset=utf-8".to_owned()),
        );
        match encoded {
            Some(body) => {
                resp.body = body;
            },
            None => {
                resp.status_code = 500;
                resp.body = String::new();
            },
        }
        let bytes = resp.body.as_str().as_bytes();
        let blen = bytes.len();
        proof {
            broadcast use vstd::slice::axiom_spec_len;

            lemma_byte_len_zero(resp.body@);
            assert(bytes@ == vstd::utf8::encode_utf8(resp.body@));
            assert(blen as nat == byte_len(resp.body@));
        }
        if blen > 0 {
            let len_str = usize_to_string(blen);
            resp.headers.push(("Content-Length".to_owned(), len_str));
        }
        proof {
            assert(resp@.headers =~= spec_json(self@, enc_view).headers);
            assert(resp@ =~~= spec_json(self@, enc_view));
        }
        resp
    }
}

} // verus!
