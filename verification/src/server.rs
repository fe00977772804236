//! Compiled route patterns and the path matcher.
//!
//! A URI template such as `/animal/{id}` is compiled once, at registration,
//! into a token pattern: its literal characters kept verbatim, each
//! `{name}` replaced by a single-segment wildcard that matches one or more
//! characters other than `/`, with the ordered placeholder names recorded
//! beside it. A pattern matches a path when it matches some suffix of it
//! running to the end of the path (the pattern is anchored at the end, not
//! at the start).

use vstd::prelude::*;

use crate::http_constants::HttpMethod;
use crate::request::ParseError;
use crate::text::{push_char, scan_char};

verus! {

/// One element of a compiled pattern: a literal character, or the
/// single-segment wildcard a `{name}` placeholder compiles to.
#[derive(Debug, Clone, Copy, PartialEq, Eq, Structural)]
pub enum UriToken {
    Lit(char),
    Param,
}

/// The views of the placeholder names.
pub open spec fn strs_view(v: Seq<String>) -> Seq<Seq<char>> {
    Seq::new(v.len(), |i: int| v[i]@)
}

/// How many wildcards a pattern holds.
pub open spec fn count_params(toks: Seq<UriToken>) -> nat
    decreases toks.len(),
{
    if toks.len() == 0 {
        0
    } else {
        (if toks[0] is Param {
            1nat
        } else {
            0nat
        }) + count_params(toks.skip(1))
    }
}

/// The template compiler's running state: tokens and names emitted so far,
/// and the partially read placeholder name, if one is open.
#[verifier::ext_equal]
pub struct CompileState {
    pub tokens: Seq<UriToken>,
    pub params: Seq<Seq<char>>,
    pub in_param: bool,
    pub name: Seq<char>,
}

/// Before any character is read.
pub open spec fn compile_init() -> CompileState {
    CompileState { tokens: Seq::empty(), params: Seq::empty(), in_param: false, name: Seq::empty() }
}

/// One character of the template: `{` opens a placeholder, `}` closes it
/// and emits the wildcard, any other character extends the open name or is
/// kept as a literal.
pub open spec fn compile_step(st: CompileState, c: char) -> CompileState {
    if c == '{' {
        CompileState { tokens: st.tokens, params: st.params, in_param: true, name: st.name }
    } else if c == '}' {
        CompileState {
            tokens: st.tokens.push(UriToken::Param),
            params: st.params.push(st.name),
            in_param: false,
            name: Seq::empty(),
        }
    } else if st.in_param {
        CompileState {
            tokens: st.tokens,
            params: st.params,
            in_param: st.in_param,
            name: st.name.push(c),
        }
    } else {
        CompileState {
            tokens: st.tokens.push(UriToken::Lit(c)),
            params: st.params,
            in_param: st.in_param,
            name: st.name,
        }
    }
}

/// The compiler's state after the first `i` characters of the template.
pub open spec fn compile_at(tpl: Seq<char>, i: int) -> CompileState
    decreases i,
{
    if i <= 0 {
        compile_init()
    } else {
        compile_step(compile_at(tpl, i - 1), tpl[i - 1])
    }
}

/// The whole template, compiled.
pub open spec fn spec_compile(tpl: Seq<char>) -> CompileState {
    compile_at(tpl, tpl.len() as int)
}

/// One compile step keeps one name per wildcard.
pub proof fn lemma_compile_step_counts(st: CompileState, c: char)
    requires
        count_params(st.tokens) == st.params.len(),
    ensures
        count_params(compile_step(st, c).tokens) == compile_step(st, c).params.len(),
{
    if c == '{' {
    } else if c == '}' {
        lemma_count_params_push(st.tokens, UriToken::Param);
    } else if st.in_param {
    } else {
        lemma_count_params_push(st.tokens, UriToken::Lit(c));
    }
}

/// Compilation emits one name per wildcard, in the same order.
pub proof fn lemma_compile_counts(tpl: Seq<char>, i: int)
    requires
        0 <= i <= tpl.len(),
    ensures
        count_params(compile_at(tpl, i).tokens) == compile_at(tpl, i).params.len(),
    decreases i,
{
    if i > 0 {
        lemma_compile_counts(tpl, i - 1);
        lemma_compile_step_counts(compile_at(tpl, i - 1), tpl[i - 1]);
    }
}

/// Appending one token adds one to the count exactly when it is a wildcard.
pub proof fn lemma_count_params_push(toks: Seq<UriToken>, t: UriToken)
    ensures
        count_params(toks.push(t)) == count_params(toks) + (if t is Param {
            1nat
        } else {
            0nat
        }),
    decreases toks.len(),
{
    let p = toks.push(t);
    if toks.len() == 0 {
        assert(p[0] == t);
        assert(p.skip(1) =~= Seq::<UriToken>::empty());
        assert(count_params(p.skip(1)) == 0);
    } else {
        assert(p[0] == toks[0]);
        assert(p.skip(1) =~= toks.skip(1).push(t));
        lemma_count_params_push(toks.skip(1), t);
    }
}

/// One or more characters, none of them `/`: what a wildcard may take.
pub open spec fn seg_ok(s: Seq<char>) -> bool {
    s.len() >= 1 && forall|i: int| 0 <= i < s.len() ==> s[i] != '/'
}

/// A pattern consumes a text exactly: literals match their character,
/// each wildcard takes some non-empty run free of `/`.
pub open spec fn tokens_match(toks: Seq<UriToken>, text: Seq<char>) -> bool
    decreases toks.len(),
{
    if toks.len() == 0 {
        text.len() == 0
    } else {
        match toks[0] {
            UriToken::Lit(c) => text.len() > 0 && text[0] == c && tokens_match(
                toks.skip(1),
                text.skip(1),
            ),
            UriToken::Param => exists|k: int|
                1 <= k <= text.len() && seg_ok(text.take(k)) && tokens_match(
                    toks.skip(1),
                    text.skip(k),
                ),
        }
    }
}

/// A pattern consumes a text with the given wildcard values, in order.
pub open spec fn tokens_match_vals(
    toks: Seq<UriToken>,
    text: Seq<char>,
    vals: Seq<Seq<char>>,
) -> bool
    decreases toks.len(),
{
    if toks.len() == 0 {
        text.len() == 0 && vals.len() == 0
    } else {
        match toks[0] {
            UriToken::Lit(c) => text.len() > 0 && text[0] == c && tokens_match_vals(
                toks.skip(1),
                text.skip(1),
                vals,
            ),
            UriToken::Param => {
                &&& vals.len() > 0
                &&& 1 <= vals[0].len() <= text.len()
                &&& seg_ok(vals[0])
                &&& text.take(vals[0].len() as int) == vals[0]
                &&& tokens_match_vals(toks.skip(1), text.skip(vals[0].len() as int), vals.skip(1))
            },
        }
    }
}

/// The pattern matches the path when it consumes some suffix of it whole:
/// anchored at the end, free at the start.
pub open spec fn pattern_matches(toks: Seq<UriToken>, uri: Seq<char>) -> bool {
    exists|s: int| 0 <= s <= uri.len() && tokens_match(toks, uri.skip(s))
}

/// A run of `k` characters the wildcard at the pattern's head could take:
/// non-empty, free of `/`, with the rest of the pattern consuming the
/// rest of the text.
pub open spec fn usable_take(toks: Seq<UriToken>, text: Seq<char>, k: int) -> bool {
    1 <= k <= text.len() && seg_ok(text.take(k)) && tokens_match(toks.skip(1), text.skip(k))
}

/// The longest usable run of at most `k` characters, or zero when none.
pub open spec fn best_take(toks: Seq<UriToken>, text: Seq<char>, k: int) -> int
    decreases k
        when k >= 0
{
    if k <= 0 {
        0
    } else if usable_take(toks, text, k) {
        k
    } else {
        best_take(toks, text, k - 1)
    }
}

proof fn lemma_best_take_is(toks: Seq<UriToken>, text: Seq<char>, k: int, i: int)
    requires
        0 <= i <= k,
        i > 0 ==> usable_take(toks, text, i),
        forall|k2: int| i < k2 <= k ==> !usable_take(toks, text, k2),
    ensures
        best_take(toks, text, k) == i,
    decreases k,
{
    if i < k {
        assert(!usable_take(toks, text, k));
        lemma_best_take_is(toks, text, k - 1, i);
    }
}

proof fn lemma_best_take_props(toks: Seq<UriToken>, text: Seq<char>, k: int)
    requires
        k >= 0,
    ensures
        0 <= best_take(toks, text, k) <= k,
        best_take(toks, text, k) > 0 ==> usable_take(toks, text, best_take(toks, text, k)),
    decreases k,
{
    if k > 0 && !usable_take(toks, text, k) {
        lemma_best_take_props(toks, text, k - 1);
    }
}

proof fn lemma_best_take_pos(toks: Seq<UriToken>, text: Seq<char>, k: int, k0: int)
    requires
        1 <= k0 <= k,
        usable_take(toks, text, k0),
    ensures
        best_take(toks, text, k) >= k0,
        usable_take(toks, text, best_take(toks, text, k)),
    decreases k,
{
    if k > k0 && !usable_take(toks, text, k) {
        lemma_best_take_pos(toks, text, k - 1, k0);
    }
}

/// The one decomposition the matcher's backtracking finds: each wildcard
/// takes the longest usable run.
pub open spec fn greedy_vals(toks: Seq<UriToken>, text: Seq<char>) -> Option<Seq<Seq<char>>>
    decreases toks.len(),
{
    if toks.len() == 0 {
        if text.len() == 0 {
            Some(Seq::empty())
        } else {
            None
        }
    } else {
        match toks[0] {
            UriToken::Lit(c) => if text.len() > 0 && text[0] == c {
                greedy_vals(toks.skip(1), text.skip(1))
            } else {
                None
            },
            UriToken::Param => {
                let k = best_take(toks, text, text.len() as int);
                if k == 0 {
                    None
                } else {
                    match greedy_vals(toks.skip(1), text.skip(k)) {
                        Some(vs) => Some(seq![text.take(k)] + vs),
                        None => None,
                    }
                }
            },
        }
    }
}

/// The greedy reading is sound and complete: a pattern has a greedy
/// decomposition exactly where it matches, and that decomposition is a
/// genuine one.
pub proof fn lemma_greedy_reading(toks: Seq<UriToken>, text: Seq<char>)
    ensures
        tokens_match(toks, text) == (greedy_vals(toks, text) is Some),
        greedy_vals(toks, text) is Some ==> tokens_match_vals(
            toks,
            text,
            greedy_vals(toks, text).unwrap(),
        ),
{
    if tokens_match(toks, text) {
        lemma_match_greedy_some(toks, text);
    }
    if greedy_vals(toks, text) is Some {
        lemma_greedy_matches(toks, text, greedy_vals(toks, text).unwrap());
        lemma_match_vals_is_match(toks, text, greedy_vals(toks, text).unwrap());
    }
}

proof fn lemma_match_greedy_some(toks: Seq<UriToken>, text: Seq<char>)
    requires
        tokens_match(toks, text),
    ensures
        greedy_vals(toks, text) is Some,
    decreases toks.len(),
{
    if toks.len() > 0 {
        match toks[0] {
            UriToken::Lit(c) => {
                lemma_match_greedy_some(toks.skip(1), text.skip(1));
            },
            UriToken::Param => {
                let k0 = choose|k0: int|
                    1 <= k0 <= text.len() && seg_ok(text.take(k0)) && tokens_match(
                        toks.skip(1),
                        text.skip(k0),
                    );
                assert(usable_take(toks, text, k0));
                lemma_best_take_pos(toks, text, text.len() as int, k0);
                let k = best_take(toks, text, text.len() as int);
                lemma_match_greedy_some(toks.skip(1), text.skip(k));
            },
        }
    }
}

proof fn lemma_greedy_matches(toks: Seq<UriToken>, text: Seq<char>, vs: Seq<Seq<char>>)
    requires
        greedy_vals(toks, text) == Some(vs),
    ensures
        tokens_match_vals(toks, text, vs),
    decreases toks.len(),
{
    if toks.len() == 0 {
    } else {
        match toks[0] {
            UriToken::Lit(c) => {
                lemma_greedy_matches(toks.skip(1), text.skip(1), vs);
            },
            UriToken::Param => {
                let k = best_take(toks, text, text.len() as int);
                lemma_best_take_props(toks, text, text.len() as int);
                let rest = greedy_vals(toks.skip(1), text.skip(k)).unwrap();
                assert(vs == seq![text.take(k)] + rest);
                assert(vs[0] == text.take(k));
                assert(vs.skip(1) =~= rest);
                lemma_greedy_matches(toks.skip(1), text.skip(k), rest);
                assert(vs[0].len() == k);
                assert(text.take(vs[0].len() as int) == vs[0]);
            },
        }
    }
}

/// Whether the pattern tail `toks[ti..]` consumes `text[pos..]` whole.
fn match_at(toks: &Vec<UriToken>, ti: usize, text: &str, pos: usize) -> (r: bool)
    requires
        ti <= toks@.len(),
        pos <= text@.len(),
    ensures
        r == tokens_match(toks@.skip(ti as int), text@.skip(pos as int)),
    decreases toks@.len() - ti,
{
    let n = text.unicode_len();
    let ghost tk = toks@.skip(ti as int);
    let ghost x = text@.skip(pos as int);
    if ti == toks.len() {
        proof {
            assert(tk =~= Seq::<UriToken>::empty());
        }
        return pos == n;
    }
    proof {
        assert(tk[0] == toks@[ti as int]);
        assert(tk.skip(1) =~= toks@.skip(ti as int + 1));
    }
    match toks[ti] {
        UriToken::Lit(c) => {
            if pos < n && text.get_char(pos) == c {
                let r = match_at(toks, ti + 1, text, pos + 1);
                proof {
                    assert(x.skip(1) =~= text@.skip(pos as int + 1));
                    assert(x[0] == c);
                }
                r
            } else {
                proof {
                    if pos < n {
                        assert(x[0] != c);
                    }
                }
                false
            }
        },
        UriToken::Param => {
            let fs = scan_char(text, pos, '/');
            let cap = fs - pos;
            let m = toks.len();
            let mut k = cap;
            while k >= 1
                invariant
                    k <= cap,
                    pos + cap <= n,
                    n == text@.len(),
                    m == toks@.len(),
                    ti < m,
                    toks@[ti as int] == UriToken::Param,
                    cap == crate::text::find_char(text@, pos as int, '/') - pos,
                    forall|k2: int|
                        k < k2 <= cap ==> !tokens_match(
                            toks@.skip(ti as int + 1),
                            #[trigger] text@.skip(pos + k2),
                        ),
                decreases k,
            {
                if match_at(toks, ti + 1, text, pos + k) {
                    proof {
                        let xx = text@.skip(pos as int);
                        let tkk = toks@.skip(ti as int);
                        crate::text::lemma_find_char(text@, pos as int, '/');
                        assert(tkk[0] == toks@[ti as int]);
                        assert(tkk.skip(1) =~= toks@.skip(ti as int + 1));
                        assert(seg_ok(xx.take(k as int))) by {
                            assert(forall|i: int|
                                0 <= i < k ==> xx.take(k as int)[i] == text@[pos + i]);
                            assert(forall|i: int| pos <= i < pos + cap ==> text@[i] != '/');
                        }
                        assert(xx.skip(k as int) =~= text@.skip(pos + k));
                        assert(1 <= k as int <= xx.len());
                        assert(tokens_match(tkk, xx));
                    }
                    return true;
                }
                k -= 1;
            }
            proof {
                crate::text::lemma_find_char(text@, pos as int, '/');
                let fsi = crate::text::find_char(text@, pos as int, '/');
                assert forall|k2: int|
                    1 <= k2 <= x.len() implies !(seg_ok(x.take(k2)) && tokens_match(
                    tk.skip(1),
                    x.skip(k2),
                )) by {
                    if k2 <= cap {
                        assert(x.skip(k2) =~= text@.skip(pos + k2));
                        assert(!tokens_match(toks@.skip(ti as int + 1), text@.skip(pos + k2)));
                    } else {
                        // the wildcard would have to take the `/` at `fsi`
                        assert(fsi < text@.len());
                        assert(text@[fsi] == '/');
                        assert(x.take(k2)[cap as int] == text@[fsi]);
                        assert(!seg_ok(x.take(k2)));
                    }
                }
                assert(!tokens_match(tk, x));
            }
            false
        },
    }
}

/// Like [`match_at`], and hands back the wildcard values of the
/// decomposition it found.
fn extract_at(toks: &Vec<UriToken>, ti: usize, text: &str, pos: usize) -> (r: Option<Vec<String>>)
    requires
        ti <= toks@.len(),
        pos <= text@.len(),
    ensures
        match r {
            Some(vals) => {
                &&& tokens_match_vals(
                    toks@.skip(ti as int),
                    text@.skip(pos as int),
                    strs_view(vals@),
                )
                &&& greedy_vals(toks@.skip(ti as int), text@.skip(pos as int)) == Some(
                    strs_view(vals@),
                )
            },
            None => !tokens_match(toks@.skip(ti as int), text@.skip(pos as int)),
        },
    decreases toks@.len() - ti,
{
    let n = text.unicode_len();
    let ghost tk = toks@.skip(ti as int);
    let ghost x = text@.skip(pos as int);
    if ti == toks.len() {
        proof {
            assert(tk =~= Seq::<UriToken>::empty());
        }
        if pos == n {
            let vals: Vec<String> = Vec::new();
            proof {
                assert(strs_view(vals@) =~= Seq::<Seq<char>>::empty());
            }
            return Some(vals);
        }
        return None;
    }
    proof {
        assert(tk[0] == toks@[ti as int]);
        assert(tk.skip(1) =~= toks@.skip(ti as int + 1));
    }
    match toks[ti] {
        UriToken::Lit(c) => {
            if pos < n && text.get_char(pos) == c {
                let r = extract_at(toks, ti + 1, text, pos + 1);
                proof {
                    assert(x.skip(1) =~= text@.skip(pos as int + 1));
                    assert(x[0] == c);
                }
                r
            } else {
                proof {
                    if pos < n {
                        assert(x[0] != c);
                    }
                }
                None
            }
        },
        UriToken::Param => {
            let fs = scan_char(text, pos, '/');
            let cap = fs - pos;
            let m = toks.len();
            let mut k = cap;
            while k >= 1
                invariant
                    k <= cap,
                    pos + cap <= n,
                    n == text@.len(),
                    m == toks@.len(),
                    ti < m,
                    toks@[ti as int] == UriToken::Param,
                    cap == crate::text::find_char(text@, pos as int, '/') - pos,
                    forall|k2: int|
                        k < k2 <= cap ==> !tokens_match(
                            toks@.skip(ti as int + 1),
                            #[trigger] text@.skip(pos + k2),
                        ),
                decreases k,
            {
                match extract_at(toks, ti + 1, text, pos + k) {
                    Some(mut rest) => {
                        let ghost rv = strs_view(rest@);
                        let val = text.substring_char(pos, pos + k).to_owned();
                        rest.insert(0, val);
                        proof {
                            let xx = text@.skip(pos as int);
                            let tkk = toks@.skip(ti as int);
                            crate::text::lemma_find_char(text@, pos as int, '/');
                            let fsi = crate::text::find_char(text@, pos as int, '/');
                            assert(tkk[0] == toks@[ti as int]);
                            assert(tkk.skip(1) =~= toks@.skip(ti as int + 1));
                            assert(strs_view(rest@)[0] == val@);
                            assert(strs_view(rest@).skip(1) =~= rv);
                            assert(val@ =~= xx.take(k as int));
                            assert(seg_ok(xx.take(k as int))) by {
                                assert(forall|i: int|
                                    0 <= i < k ==> xx.take(k as int)[i] == text@[pos + i]);
                                assert(forall|i: int| pos <= i < pos + cap ==> text@[i] != '/');
                            }
                            assert(xx.skip(k as int) =~= text@.skip(pos + k));
                            assert(xx.take(val@.len() as int) == val@);
                            assert(tokens_match_vals(tkk, xx, strs_view(rest@)));
                            // this k is the longest usable take, so the
                            // result is the greedy decomposition
                            lemma_match_vals_is_match(tkk.skip(1), xx.skip(k as int), rv);
                            assert(usable_take(tkk, xx, k as int));
                            assert forall|k2: int|
                                (k as int) < k2 <= xx.len() implies !usable_take(
                                tkk,
                                xx,
                                k2,
                            ) by {
                                if k2 <= cap {
                                    assert(xx.skip(k2) =~= text@.skip(pos + k2));
                                    assert(!tokens_match(
                                        toks@.skip(ti as int + 1),
                                        text@.skip(pos + k2),
                                    ));
                                } else {
                                    assert(fsi < text@.len());
                                    assert(text@[fsi] == '/');
                                    assert(xx.take(k2)[cap as int] == text@[fsi]);
                                    assert(!seg_ok(xx.take(k2)));
                                }
                            }
                            lemma_best_take_is(tkk, xx, xx.len() as int, k as int);
                            assert(greedy_vals(tkk, xx) == Some(seq![xx.take(k as int)] + rv));
                            assert(strs_view(rest@) =~= seq![xx.take(k as int)] + rv);
                        }
                        return Some(rest);
                    },
                    None => {},
                }
                k -= 1;
            }
            proof {
                crate::text::lemma_find_char(text@, pos as int, '/');
                let fsi = crate::text::find_char(text@, pos as int, '/');
                assert forall|k2: int|
                    1 <= k2 <= x.len() implies !(seg_ok(x.take(k2)) && tokens_match(
                    tk.skip(1),
                    x.skip(k2),
                )) by {
                    if k2 <= cap {
                        assert(x.skip(k2) =~= text@.skip(pos + k2));
                        assert(!tokens_match(toks@.skip(ti as int + 1), text@.skip(pos + k2)));
                    } else {
                        assert(fsi < text@.len());
                        assert(text@[fsi] == '/');
                        assert(x.take(k2)[cap as int] == text@[fsi]);
                        assert(!seg_ok(x.take(k2)));
                    }
                }
                assert(!tokens_match(tk, x));
            }
            None
        },
    }
}

/// A compiled route pattern: the template it came from, its token pattern,
/// and the ordered placeholder names.
pub struct RouteAddress {
    pub uri_template: String,
    pub uri_tokens: Vec<UriToken>,
    pub uri_params: Vec<String>,
}

/// The values extracted for the placeholders, in template order.
pub open spec fn param_vals(ps: Seq<(String, String)>) -> Seq<Seq<char>> {
    Seq::new(ps.len(), |i: int| ps[i].1@)
}

/// A consumed text binds one value per wildcard.
pub proof fn lemma_match_vals_count(toks: Seq<UriToken>, text: Seq<char>, vals: Seq<Seq<char>>)
    requires
        tokens_match_vals(toks, text, vals),
    ensures
        vals.len() == count_params(toks),
    decreases toks.len(),
{
    if toks.len() > 0 {
        match toks[0] {
            UriToken::Lit(c) => {
                lemma_match_vals_count(toks.skip(1), text.skip(1), vals);
            },
            UriToken::Param => {
                lemma_match_vals_count(
                    toks.skip(1),
                    text.skip(vals[0].len() as int),
                    vals.skip(1),
                );
            },
        }
    }
}

impl RouteAddress {
    /// The compiled pattern and names agree with the template.
    pub open spec fn wf(self) -> bool {
        &&& self.uri_tokens@ == spec_compile(self.uri_template@).tokens
        &&& strs_view(self.uri_params@) == spec_compile(self.uri_template@).params
        &&& count_params(self.uri_tokens@) == self.uri_params@.len()
    }

    /// Compiles a URI template, one character at a time, exactly as
    /// [`spec_compile`] reads it.
    pub fn new(uri_template: String) -> (r: Self)
        ensures
            r.wf(),
            r.uri_template@ == uri_template@,
    {
        let n = uri_template.as_str().unicode_len();
        let mut tokens: Vec<UriToken> = Vec::new();
        let mut params: Vec<String> = Vec::new();
        let mut name = String::new();
        let mut in_param = false;
        let mut i: usize = 0;
        proof {
            assert(strs_view(params@) =~= compile_at(uri_template@, 0).params);
            assert(tokens@ =~= compile_at(uri_template@, 0).tokens);
        }
        while i < n
            invariant
                i <= n,
                n == uri_template@.len(),
                tokens@ == compile_at(uri_template@, i as int).tokens,
                strs_view(params@) == compile_at(uri_template@, i as int).params,
                name@ == compile_at(uri_template@, i as int).name,
                in_param == compile_at(uri_template@, i as int).in_param,
            decreases n - i,
        {
            let ghost st = compile_at(uri_template@, i as int);
            let c = uri_template.as_str().get_char(i);
            proof {
                assert(compile_at(uri_template@, i + 1) == compile_step(st, c));
            }
            if c == '{' {
                in_param = true;
            } else if c == '}' {
                tokens.push(UriToken::Param);
                params.push(name);
                name = String::new();
                in_param = false;
                proof {
                    assert(strs_view(params@) =~= compile_step(st, c).params);
                }
            } else if in_param {
                push_char(&mut name, c);
            } else {
                tokens.push(UriToken::Lit(c));
            }
            i += 1;
        }
        proof {
            lemma_compile_counts(uri_template@, n as int);
        }
        RouteAddress { uri_template, uri_tokens: tokens, uri_params: params }
    }

    /// Whether the pattern matches the path: it consumes some suffix of the
    /// path whole.
    pub fn is_match(&self, uri: &String) -> (r: bool)
        ensures
            r == pattern_matches(self.uri_tokens@, uri@),
    {
        let n = uri.as_str().unicode_len();
        let mut s: usize = 0;
        while s < n
            invariant
                s <= n,
                n == uri@.len(),
                forall|s2: int| 0 <= s2 < s ==> !tokens_match(self.uri_tokens@, #[trigger] uri@.skip(s2)),
            decreases n - s,
        {
            let hit = match_at(&self.uri_tokens, 0, uri.as_str(), s);
            proof {
                assert(self.uri_tokens@.skip(0) =~= self.uri_tokens@);
            }
            if hit {
                return true;
            }
            s += 1;
        }
        let r = match_at(&self.uri_tokens, 0, uri.as_str(), n);
        proof {
            assert(self.uri_tokens@.skip(0) =~= self.uri_tokens@);
            if !r {
                assert forall|s2: int| 0 <= s2 <= uri@.len() implies !tokens_match(
                    self.uri_tokens@,
                    uri@.skip(s2),
                ) by {}
            }
        }
        r
    }

    /// Extracts the placeholder values: each name mapped to the text its
    /// wildcard took, in template order; an unmatched path is rejected.
    /// The decomposition read is pinned: the match starts at the leftmost
    /// matching position, and each wildcard takes the longest usable run
    /// there — the [`greedy_vals`] reading.
    pub fn extract_uri_params(&self, uri: &String) -> (r: Result<
        Vec<(String, String)>,
        ParseError,
    >)
        requires
            count_params(self.uri_tokens@) == self.uri_params@.len(),
        ensures
            match r {
                Ok(ps) => {
                    &&& pattern_matches(self.uri_tokens@, uri@)
                    &&& ps@.len() == self.uri_params@.len()
                    &&& forall|j: int| 0 <= j < ps@.len() ==> (#[trigger] ps@[j].0)@ == self.uri_params@[j]@
                    &&& exists|s: int|
                        {
                            &&& 0 <= s <= uri@.len()
                            &&& tokens_match_vals(
                                self.uri_tokens@,
                                #[trigger] uri@.skip(s),
                                param_vals(ps@),
                            )
                            &&& greedy_vals(self.uri_tokens@, uri@.skip(s)) == Some(
                                param_vals(ps@),
                            )
                            &&& forall|s2: int|
                                0 <= s2 < s ==> !tokens_match(
                                    self.uri_tokens@,
                                    #[trigger] uri@.skip(s2),
                                )
                        }
                },
                Err(e) => {
                    &&& e == ParseError::Uri
                    &&& !pattern_matches(self.uri_tokens@, uri@)
                },
            },
    {
        let n = uri.as_str().unicode_len();
        let mut s: usize = 0;
        while s < n
            invariant
                s <= n,
                n == uri@.len(),
                count_params(self.uri_tokens@) == self.uri_params@.len(),
                forall|s2: int| 0 <= s2 < s ==> !tokens_match(self.uri_tokens@, #[trigger] uri@.skip(s2)),
            decreases n - s,
        {
            let step = extract_at(&self.uri_tokens, 0, uri.as_str(), s);
            proof {
                assert(self.uri_tokens@.skip(0) =~= self.uri_tokens@);
            }
            match step {
                Some(vals) => {
                    return Ok(self.zip_params(vals, Ghost(uri@.skip(s as int)), Ghost(uri@), Ghost(s as int)));
                },
                None => {},
            }
            s += 1;
        }
        match extract_at(&self.uri_tokens, 0, uri.as_str(), n) {
            Some(vals) => {
                proof {
                    assert(self.uri_tokens@.skip(0) =~= self.uri_tokens@);
                }
                Ok(self.zip_params(vals, Ghost(uri@.skip(n as int)), Ghost(uri@), Ghost(n as int)))
            },
            None => {
                proof {
                    assert(self.uri_tokens@.skip(0) =~= self.uri_tokens@);
                    assert forall|s2: int| 0 <= s2 <= uri@.len() implies !tokens_match(
                        self.uri_tokens@,
                        uri@.skip(s2),
                    ) by {}
                }
                Err(ParseError::Uri)
            },
        }
    }

    /// Pairs each placeholder name with the value its wildcard took.
    fn zip_params(
        &self,
        vals: Vec<String>,
        Ghost(text): Ghost<Seq<char>>,
        Ghost(uri): Ghost<Seq<char>>,
        Ghost(s): Ghost<int>,
    ) -> (r: Vec<(String, String)>)
        requires
            count_params(self.uri_tokens@) == self.uri_params@.len(),
            tokens_match_vals(self.uri_tokens@, text, strs_view(vals@)),
            greedy_vals(self.uri_tokens@, text) == Some(strs_view(vals@)),
            0 <= s <= uri.len(),
            text == uri.skip(s),
            forall|s2: int| 0 <= s2 < s ==> !tokens_match(self.uri_tokens@, #[trigger] uri.skip(s2)),
        ensures
            pattern_matches(self.uri_tokens@, uri),
            r@.len() == self.uri_params@.len(),
            forall|j: int| 0 <= j < r@.len() ==> (#[trigger] r@[j].0)@ == self.uri_params@[j]@,
            exists|s2: int|
                {
                    &&& 0 <= s2 <= uri.len()
                    &&& tokens_match_vals(
                        self.uri_tokens@,
                        #[trigger] uri.skip(s2),
                        param_vals(r@),
                    )
                    &&& greedy_vals(self.uri_tokens@, uri.skip(s2)) == Some(param_vals(r@))
                    &&& forall|s3: int|
                        0 <= s3 < s2 ==> !tokens_match(self.uri_tokens@, #[trigger] uri.skip(s3))
                },
    {
        proof {
            lemma_match_vals_count(self.uri_tokens@, text, strs_view(vals@));
            lemma_match_vals_is_match(self.uri_tokens@, text, strs_view(vals@));
        }
        let m = vals.len();
        let mut out: Vec<(String, String)> = Vec::new();
        let mut j: usize = 0;
        while j < m
            invariant
                j <= m,
                m == vals@.len(),
                m == self.uri_params@.len(),
                out@.len() == j,
                forall|i: int| 0 <= i < j ==> (#[trigger] out@[i].0)@ == self.uri_params@[i]@,
                forall|i: int| 0 <= i < j ==> (#[trigger] out@[i].1) == vals@[i],
            decreases m - j,
        {
            out.push((self.uri_params[j].clone(), vals[j].clone()));
            j += 1;
        }
        proof {
            assert(param_vals(out@) =~= strs_view(vals@));
            assert(tokens_match_vals(self.uri_tokens@, uri.skip(s), param_vals(out@)));
        }
        out
    }
}

/// A consumed text with values is a consumed text.
pub proof fn lemma_match_vals_is_match(toks: Seq<UriToken>, text: Seq<char>, vals: Seq<Seq<char>>)
    requires
        tokens_match_vals(toks, text, vals),
    ensures
        tokens_match(toks, text),
    decreases toks.len(),
{
    if toks.len() > 0 {
        match toks[0] {
            UriToken::Lit(c) => {
                lemma_match_vals_is_match(toks.skip(1), text.skip(1), vals);
            },
            UriToken::Param => {
                let k = vals[0].len() as int;
                lemma_match_vals_is_match(toks.skip(1), text.skip(k), vals.skip(1));
                assert(seg_ok(text.take(k)));
                assert(1 <= k <= text.len() && seg_ok(text.take(k)) && tokens_match(
                    toks.skip(1),
                    text.skip(k),
                ));
            },
        }
    }
}


/// Every wildcard value is a legal segment.
pub open spec fn vals_ok(vals: Seq<Seq<char>>) -> bool {
    forall|i: int| 0 <= i < vals.len() ==> seg_ok(#[trigger] vals[i])
}

/// The path a template denotes once each wildcard is given a value.
pub open spec fn instantiate(toks: Seq<UriToken>, vals: Seq<Seq<char>>) -> Seq<char>
    decreases toks.len(),
{
    if toks.len() == 0 {
        Seq::empty()
    } else {
        match toks[0] {
            UriToken::Lit(c) => seq![c] + instantiate(toks.skip(1), vals),
            UriToken::Param => if vals.len() > 0 {
                vals[0] + instantiate(toks.skip(1), vals.skip(1))
            } else {
                instantiate(toks.skip(1), vals)
            },
        }
    }
}

/// How many `/` characters a text holds.
pub open spec fn count_slash(s: Seq<char>) -> nat
    decreases s.len(),
{
    if s.len() == 0 {
        0
    } else {
        (if s[0] == '/' {
            1nat
        } else {
            0nat
        }) + count_slash(s.skip(1))
    }
}

/// Slash counting distributes over concatenation.
pub proof fn lemma_count_slash_concat(a: Seq<char>, b: Seq<char>)
    ensures
        count_slash(a + b) == count_slash(a) + count_slash(b),
    decreases a.len(),
{
    if a.len() == 0 {
        assert(a + b =~= b);
    } else {
        assert((a + b)[0] == a[0]);
        assert((a + b).skip(1) =~= a.skip(1) + b);
        lemma_count_slash_concat(a.skip(1), b);
    }
}

/// A text with no `/` counts zero.
pub proof fn lemma_count_slash_zero(s: Seq<char>)
    requires
        forall|i: int| 0 <= i < s.len() ==> s[i] != '/',
    ensures
        count_slash(s) == 0,
    decreases s.len(),
{
    if s.len() > 0 {
        assert(forall|i: int| 0 <= i < s.skip(1).len() ==> s.skip(1)[i] == s[i + 1]);
        lemma_count_slash_zero(s.skip(1));
    }
}

/// A text with a `/` counts at least one.
pub proof fn lemma_count_slash_pos(s: Seq<char>, i: int)
    requires
        0 <= i < s.len(),
        s[i] == '/',
    ensures
        count_slash(s) >= 1,
    decreases i,
{
    if s[0] != '/' {
        assert(s.skip(1)[i - 1] == s[i]);
        lemma_count_slash_pos(s.skip(1), i - 1);
    }
}

/// How many literal `/` tokens a pattern holds.
pub open spec fn count_lit_slash(toks: Seq<UriToken>) -> nat
    decreases toks.len(),
{
    if toks.len() == 0 {
        0
    } else {
        (if toks[0] == UriToken::Lit('/') {
            1nat
        } else {
            0nat
        }) + count_lit_slash(toks.skip(1))
    }
}

/// A matched text is the instantiation of the pattern with the matched
/// values, and every matched value is a legal segment.
pub proof fn lemma_match_vals_reconstruct(
    toks: Seq<UriToken>,
    text: Seq<char>,
    vals: Seq<Seq<char>>,
)
    requires
        tokens_match_vals(toks, text, vals),
    ensures
        text == instantiate(toks, vals),
        vals_ok(vals),
    decreases toks.len(),
{
    if toks.len() == 0 {
        assert(text =~= instantiate(toks, vals));
        assert(vals_ok(vals));
    } else {
        match toks[0] {
            UriToken::Lit(c) => {
                lemma_match_vals_reconstruct(toks.skip(1), text.skip(1), vals);
                assert(text =~= seq![c] + instantiate(toks.skip(1), vals));
            },
            UriToken::Param => {
                let k = vals[0].len() as int;
                lemma_match_vals_reconstruct(toks.skip(1), text.skip(k), vals.skip(1));
                assert(text =~= vals[0] + instantiate(toks.skip(1), vals.skip(1))) by {
                    assert(forall|i: int| 0 <= i < k ==> text[i] == vals[0][i]);
                }
                assert forall|i: int| 0 <= i < vals.len() implies seg_ok(#[trigger] vals[i]) by {
                    if i > 0 {
                        assert(vals.skip(1)[i - 1] == vals[i]);
                    }
                }
            },
        }
    }
}

/// An instantiated template matches itself with its own values.
pub proof fn lemma_instantiate_matches(toks: Seq<UriToken>, vals: Seq<Seq<char>>)
    requires
        count_params(toks) == vals.len(),
        vals_ok(vals),
    ensures
        tokens_match_vals(toks, instantiate(toks, vals), vals),
    decreases toks.len(),
{
    let text = instantiate(toks, vals);
    if toks.len() == 0 {
    } else {
        match toks[0] {
            UriToken::Lit(c) => {
                lemma_instantiate_matches(toks.skip(1), vals);
                assert(text == seq![c] + instantiate(toks.skip(1), vals));
                assert(text[0] == c);
                assert(text.skip(1) =~= instantiate(toks.skip(1), vals));
            },
            UriToken::Param => {
                assert(vals.len() == count_params(toks) >= 1);
                assert(forall|i: int|
                    0 <= i < vals.skip(1).len() ==> vals.skip(1)[i] == vals[i + 1]);
                lemma_instantiate_matches(toks.skip(1), vals.skip(1));
                let v0 = vals[0];
                let rest = instantiate(toks.skip(1), vals.skip(1));
                assert(text == v0 + rest);
                assert(seg_ok(v0));
                assert(text.take(v0.len() as int) =~= v0);
                assert(text.skip(v0.len() as int) =~= rest);
            },
        }
    }
}

/// Instantiation puts a `/` in the path for each literal `/` in the
/// pattern, and nowhere else.
pub proof fn lemma_instantiate_slashes(toks: Seq<UriToken>, vals: Seq<Seq<char>>)
    requires
        count_params(toks) == vals.len(),
        vals_ok(vals),
    ensures
        count_slash(instantiate(toks, vals)) == count_lit_slash(toks),
    decreases toks.len(),
{
    if toks.len() > 0 {
        match toks[0] {
            UriToken::Lit(c) => {
                lemma_instantiate_slashes(toks.skip(1), vals);
                lemma_count_slash_concat(seq![c], instantiate(toks.skip(1), vals));
                assert(count_slash(seq![c]) == (if c == '/' {
                    1nat
                } else {
                    0nat
                })) by {
                    assert(seq![c].skip(1) =~= Seq::<char>::empty());
                    assert(count_slash(Seq::<char>::empty()) == 0);
                    assert(seq![c][0] == c);
                }
            },
            UriToken::Param => {
                assert(vals.len() >= 1);
                assert(forall|i: int|
                    0 <= i < vals.skip(1).len() ==> vals.skip(1)[i] == vals[i + 1]);
                lemma_instantiate_slashes(toks.skip(1), vals.skip(1));
                lemma_count_slash_concat(vals[0], instantiate(toks.skip(1), vals.skip(1)));
                lemma_count_slash_zero(vals[0]);
            },
        }
    }
}

/// Each wildcard is immediately followed by a literal `/`, or ends the
/// pattern: placeholders occupy whole path segments.
pub open spec fn aligned(toks: Seq<UriToken>) -> bool {
    forall|i: int|
        0 <= i < toks.len() && (#[trigger] toks[i]) is Param ==> (i == toks.len() - 1 || toks[i
            + 1] == UriToken::Lit('/'))
}

/// On one text, an aligned pattern matches with only one set of values.
#[verifier::rlimit(100)]
#[verifier::spinoff_prover]
pub proof fn lemma_match_vals_unique(
    toks: Seq<UriToken>,
    text: Seq<char>,
    v1: Seq<Seq<char>>,
    v2: Seq<Seq<char>>,
)
    requires
        aligned(toks),
        tokens_match_vals(toks, text, v1),
        tokens_match_vals(toks, text, v2),
    ensures
        v1 == v2,
    decreases toks.len(),
{
    if toks.len() == 0 {
        assert(v1 =~= v2);
    } else {
        assert forall|i: int|
            0 <= i < toks.skip(1).len() && (#[trigger] toks.skip(1)[i]) is Param implies (i
            == toks.skip(1).len() - 1 || toks.skip(1)[i + 1] == UriToken::Lit('/')) by {
            assert(toks.skip(1)[i] == toks[i + 1]);
            if i < toks.skip(1).len() - 1 {
                assert(toks.skip(1)[i + 1] == toks[i + 2]);
            }
        }
        match toks[0] {
            UriToken::Lit(c) => {
                lemma_match_vals_unique(toks.skip(1), text.skip(1), v1, v2);
            },
            UriToken::Param => {
                let k1 = v1[0].len() as int;
                let k2 = v2[0].len() as int;
                if toks.len() == 1 {
                    assert(tokens_match_vals(toks.skip(1), text.skip(k1), v1.skip(1)));
                    assert(tokens_match_vals(toks.skip(1), text.skip(k2), v2.skip(1)));
                    assert(text.skip(k1).len() == 0);
                    assert(text.skip(k2).len() == 0);
                    assert(k1 == text.len());
                    assert(k2 == text.len());
                    assert(v1[0] == v2[0]);
                    assert(v1.skip(1).len() == 0 && v2.skip(1).len() == 0);
                    assert(v1 =~= v2);
                } else {
                    assert(toks[1int] == UriToken::Lit('/'));
                    assert(toks.skip(1)[0] == toks[1]);
                    // after the wildcard, both matches demand a '/'
                    assert(tokens_match_vals(toks.skip(1), text.skip(k1), v1.skip(1)));
                    assert(tokens_match_vals(toks.skip(1), text.skip(k2), v2.skip(1)));
                    assert(text.skip(k1).len() > 0 && text.skip(k1)[0] == '/');
                    assert(text.skip(k2).len() > 0 && text.skip(k2)[0] == '/');
                    assert(text[k1] == '/');
                    assert(text[k2] == '/');
                    // the wildcard values themselves hold no '/'
                    assert(forall|i: int| 0 <= i < k1 ==> text[i] == v1[0][i]);
                    assert(forall|i: int| 0 <= i < k2 ==> text[i] == v2[0][i]);
                    if k1 < k2 {
                        assert(v2[0][k1] == text[k1]);
                        assert(false);
                    }
                    if k2 < k1 {
                        assert(v1[0][k2] == text[k2]);
                        assert(false);
                    }
                    assert(v1[0] == v2[0]);
                    lemma_match_vals_unique(toks.skip(1), text.skip(k1), v1.skip(1), v2.skip(1));
                    assert(v1.len() == v2.len());
                    assert forall|i: int| 0 <= i < v1.len() implies v1[i] == v2[i] by {
                        if i > 0 {
                            assert(v1.skip(1)[i - 1] == v1[i]);
                            assert(v2.skip(1)[i - 1] == v2[i]);
                        }
                    }
                    assert(v1 =~= v2);
                }
            },
        }
    }
}

/// Parameter extraction: a path built from an aligned template, one legal
/// segment per placeholder, matches only at its start and only with those
/// segments; the extracted values are exactly the path's segments.
pub proof fn lemma_param_extraction(
    toks: Seq<UriToken>,
    vals: Seq<Seq<char>>,
    s: int,
    w: Seq<Seq<char>>,
)
    requires
        aligned(toks),
        toks.len() > 0,
        toks[0] == UriToken::Lit('/'),
        count_params(toks) == vals.len(),
        vals_ok(vals),
        0 <= s <= instantiate(toks, vals).len(),
        tokens_match_vals(toks, instantiate(toks, vals).skip(s), w),
    ensures
        s == 0,
        w == vals,
{
    let path = instantiate(toks, vals);
    if s >= 1 {
        // a strict suffix lost the leading '/', yet a match would need one
        // '/' per literal of the pattern, as the whole path has
        let y = path.skip(s);
        lemma_match_vals_reconstruct(toks, y, w);
        lemma_match_vals_count(toks, y, w);
        lemma_instantiate_slashes(toks, vals);
        lemma_instantiate_slashes(toks, w);
        assert(count_slash(path) == count_lit_slash(toks));
        assert(count_slash(y) == count_lit_slash(toks));
        assert(path[0] == '/') by {
            assert(path == seq!['/'] + instantiate(toks.skip(1), vals));
        }
        assert(path =~= path.take(s) + path.skip(s));
        lemma_count_slash_concat(path.take(s), path.skip(s));
        assert(path.take(s)[0] == '/');
        lemma_count_slash_pos(path.take(s), 0);
        assert(false);
    }
    assert(path.skip(0) =~= path);
    lemma_instantiate_matches(toks, vals);
    lemma_match_vals_unique(toks, path, w, vals);
}


/// A registered route, compiled: pattern, method, and the handler value
/// dispatched to on a match.
pub struct RegexRoute<H> {
    pub uri: RouteAddress,
    pub method: HttpMethod,
    pub handler: H,
}

/// The routing verdict for one request.
#[derive(Debug, PartialEq, Eq, Structural, Clone, Copy)]
pub enum RouteDecision {
    /// The index of the first route whose pattern matches the path and
    /// whose method equals the request's.
    Matched(usize),
    /// No route's pattern matches the path.
    NotFound,
    /// Some pattern matches the path, but none of those routes has the
    /// request's method.
    MethodNotAllowed,
}

/// What a correct routing verdict says of the table.
pub open spec fn decision_ok<H>(
    routes: Seq<RegexRoute<H>>,
    method: HttpMethod,
    target: Seq<char>,
    r: RouteDecision,
) -> bool {
    match r {
        RouteDecision::Matched(i) => {
            &&& 0 <= i < routes.len()
            &&& pattern_matches(routes[i as int].uri.uri_tokens@, target)
            &&& routes[i as int].method == method
            &&& forall|j: int|
                0 <= j < i ==> !(pattern_matches(
                    (#[trigger] routes[j]).uri.uri_tokens@,
                    target,
                ) && routes[j].method == method)
        },
        RouteDecision::NotFound => forall|j: int|
            0 <= j < routes.len() ==> !pattern_matches(
                (#[trigger] routes[j]).uri.uri_tokens@,
                target,
            ),
        RouteDecision::MethodNotAllowed => {
            &&& exists|j: int|
                0 <= j < routes.len() && pattern_matches(
                    (#[trigger] routes[j]).uri.uri_tokens@,
                    target,
                )
            &&& forall|j: int|
                0 <= j < routes.len() ==> !(pattern_matches(
                    (#[trigger] routes[j]).uri.uri_tokens@,
                    target,
                ) && routes[j].method == method)
        },
    }
}

/// Routes one request: the first registered route whose pattern matches
/// the path and whose method is the request's wins; a path that matches no
/// pattern is not found; one that matches only under other methods is not
/// allowed.
pub fn find_route<H>(routes: &Vec<RegexRoute<H>>, method: HttpMethod, target: &String) -> (r:
    RouteDecision)
    ensures
        decision_ok(routes@, method, target@, r),
{
    let n = routes.len();
    let mut any_path = false;
    let mut j: usize = 0;
    while j < n
        invariant
            j <= n,
            n == routes@.len(),
            any_path == exists|i: int|
                0 <= i < j && pattern_matches((#[trigger] routes@[i]).uri.uri_tokens@, target@),
            forall|i: int|
                0 <= i < j ==> !(pattern_matches(
                    (#[trigger] routes@[i]).uri.uri_tokens@,
                    target@,
                ) && routes@[i].method == method),
        decreases n - j,
    {
        let hit = routes[j].uri.is_match(target);
        if hit {
            if routes[j].method == method {
                return RouteDecision::Matched(j);
            }
            any_path = true;
        }
        j += 1;
    }
    if any_path {
        RouteDecision::MethodNotAllowed
    } else {
        RouteDecision::NotFound
    }
}

/// A routing verdict is determined: two correct verdicts for one table,
/// method and path are the same verdict.
pub proof fn lemma_decision_unique<H>(
    routes: Seq<RegexRoute<H>>,
    method: HttpMethod,
    target: Seq<char>,
    r1: RouteDecision,
    r2: RouteDecision,
)
    requires
        decision_ok(routes, method, target, r1),
        decision_ok(routes, method, target, r2),
    ensures
        r1 == r2,
{
    match (r1, r2) {
        (RouteDecision::Matched(i), RouteDecision::Matched(j)) => {
            if (i as int) < (j as int) {
                assert(!(pattern_matches(routes[i as int].uri.uri_tokens@, target)
                    && routes[i as int].method == method));
            } else if (j as int) < (i as int) {
                assert(!(pattern_matches(routes[j as int].uri.uri_tokens@, target)
                    && routes[j as int].method == method));
            }
        },
        (RouteDecision::Matched(i), RouteDecision::NotFound) => {
            assert(!pattern_matches(routes[i as int].uri.uri_tokens@, target));
        },
        (RouteDecision::NotFound, RouteDecision::Matched(i)) => {
            assert(!pattern_matches(routes[i as int].uri.uri_tokens@, target));
        },
        (RouteDecision::Matched(i), RouteDecision::MethodNotAllowed) => {
            assert(!(pattern_matches(routes[i as int].uri.uri_tokens@, target)
                && routes[i as int].method == method));
        },
        (RouteDecision::MethodNotAllowed, RouteDecision::Matched(i)) => {
            assert(!(pattern_matches(routes[i as int].uri.uri_tokens@, target)
                && routes[i as int].method == method));
        },
        (RouteDecision::NotFound, RouteDecision::MethodNotAllowed) => {
            let j = choose|j: int|
                0 <= j < routes.len() && pattern_matches(
                    (#[trigger] routes[j]).uri.uri_tokens@,
                    target,
                );
            assert(!pattern_matches(routes[j].uri.uri_tokens@, target));
        },
        (RouteDecision::MethodNotAllowed, RouteDecision::NotFound) => {
            let j = choose|j: int|
                0 <= j < routes.len() && pattern_matches(
                    (#[trigger] routes[j]).uri.uri_tokens@,
                    target,
                );
            assert(!pattern_matches(routes[j].uri.uri_tokens@, target));
        },
        _ => {},
    }
}

/// Method precedence: when exactly one path-matching route carries the
/// request's method, that route is selected, wherever path-matching routes
/// of other methods stand in the registration order.
pub proof fn lemma_method_precedence<H>(
    routes: Seq<RegexRoute<H>>,
    method: HttpMethod,
    target: Seq<char>,
    r: RouteDecision,
    j: int,
)
    requires
        decision_ok(routes, method, target, r),
        0 <= j < routes.len(),
        pattern_matches(routes[j].uri.uri_tokens@, target),
        routes[j].method == method,
        forall|k: int|
            0 <= k < routes.len() && k != j ==> !(pattern_matches(
                (#[trigger] routes[k]).uri.uri_tokens@,
                target,
            ) && routes[k].method == method),
    ensures
        r == RouteDecision::Matched(j as usize),
{
    match r {
        RouteDecision::Matched(i) => {
            if (i as int) < j {
                assert(false);
            } else if (i as int) > j {
                assert(!(pattern_matches(routes[j].uri.uri_tokens@, target) && routes[j].method
                    == method));
                assert(false);
            }
        },
        RouteDecision::NotFound => {
            assert(!pattern_matches(routes[j].uri.uri_tokens@, target));
            assert(false);
        },
        RouteDecision::MethodNotAllowed => {
            assert(!(pattern_matches(routes[j].uri.uri_tokens@, target) && routes[j].method
                == method));
            assert(false);
        },
    }
}


/// The engine's own answers, and a matched handler's.
pub open spec fn spec_engine_response<H: crate::service::RouteHandler>(
    routes: Seq<RegexRoute<H>>,
    req: crate::request::ReqView,
    d: RouteDecision,
) -> crate::response::RespView {
    match d {
        RouteDecision::Matched(i) => routes[i as int].handler.spec_respond(req),
        RouteDecision::NotFound => crate::response::RespView {
            status_code: 404,
            body: Seq::empty(),
            headers: Seq::empty(),
        },
        RouteDecision::MethodNotAllowed => crate::response::RespView {
            status_code: 405,
            body: Seq::empty(),
            headers: Seq::empty(),
        },
    }
}

/// Answers one decoded request from the table: not found when no pattern
/// matches the path, method not allowed when patterns match only under
/// other methods, and otherwise the response of the first route matching
/// both — exactly as [`find_route`] decides.
pub fn respond_to<H: crate::service::RouteHandler>(
    routes: &Vec<RegexRoute<H>>,
    request: crate::request::HttpRequest,
) -> (r: crate::response::HttpResponse)
    ensures
        r.wf(),
        exists|d: RouteDecision|
            {
                &&& #[trigger] decision_ok(routes@, request@.method, request@.uri, d)
                &&& r@ == spec_engine_response(routes@, request@, d)
            },
{
    let decision = find_route(routes, request.method, &request.uri);
    match decision {
        RouteDecision::Matched(i) => {
            let r = routes[i].handler.respond(request);
            proof {
                assert(decision_ok(routes@, request@.method, request@.uri, decision) && r@
                    == spec_engine_response(routes@, request@, decision));
            }
            r
        },
        RouteDecision::NotFound => {
            let r = crate::response::HttpResponse::new(404);
            proof {
                assert(r@ =~~= spec_engine_response(routes@, request@, decision));
                assert(decision_ok(routes@, request@.method, request@.uri, decision) && r@
                    == spec_engine_response(routes@, request@, decision));
            }
            r
        },
        RouteDecision::MethodNotAllowed => {
            let r = crate::response::HttpResponse::new(405);
            proof {
                assert(r@ =~~= spec_engine_response(routes@, request@, decision));
                assert(decision_ok(routes@, request@.method, request@.uri, decision) && r@
                    == spec_engine_response(routes@, request@, decision));
            }
            r
        },
    }
}

/// Decodes one request text and answers it: text the decoder rejects gets
/// the fixed bad-request answer; anything else is routed and answered, and
/// the response is serialized back to wire text.
pub fn handle_request_text<H: crate::service::RouteHandler>(
    routes: &Vec<RegexRoute<H>>,
    input: &str,
) -> (r: String)
    ensures
        match crate::request::spec_decode(input@) {
            Err(_) => r@ == crate::response::spec_build(
                crate::response::RespView {
                    status_code: 400,
                    body: Seq::empty(),
                    headers: Seq::empty(),
                },
            ),
            Ok(req) => exists|d: RouteDecision|
                {
                    &&& #[trigger] decision_ok(routes@, req.method, req.uri, d)
                    &&& r@ == crate::response::spec_build(spec_engine_response(routes@, req, d))
                },
        },
{
    match crate::request::read_http_request(input) {
        Ok(request) => {
            let resp = respond_to(routes, request);
            resp.build()
        },
        Err(_) => {
            let r = crate::response::HttpResponse::new(400);
            proof {
                assert(r@ =~~= crate::response::RespView {
                    status_code: 400,
                    body: Seq::<char>::empty(),
                    headers: Seq::<(Seq<char>, Seq<char>)>::empty(),
                });
            }
            r.build()
        },
    }
}

} // verus!
