//! The request decoder: one pass over the request text, line-oriented,
//! producing a structured [`HttpRequest`] or a [`ParseError`].
//!
//! The accepted grammar is stated by [`spec_decode`]: a request line of
//! three whitespace-separated tokens (method, raw target, version), header
//! lines of the form `name: value` terminated by a bare `\r\n`, and a body
//! spanning exactly the number of bytes a `Content-Length` header
//! announces (the text is measured by its UTF-8 encoding). Whitespace
//! here is the ASCII class; the exotic Unicode space characters are
//! ordinary characters to this grammar.

use vstd::prelude::*;

pub mod http_request;
pub mod tcp_stream_parser;

use crate::http_constants::{HttpMethod, HttpVersion};
use crate::text::{
    byte_len, chars_spanning, colon_space_at, find_char, find_colon_space, find_non_space,
    find_space, is_space, lemma_chars_spanning_full,
    lemma_chars_spanning_prefix, lemma_find_char, lemma_find_char_is, lemma_find_colon_space,
    lemma_find_colon_space_is, lemma_find_non_space, lemma_find_non_space_is, lemma_find_space,
    lemma_find_space_is, lemma_trimmed_len, lemma_trimmed_len_is, parse_usize, parse_usize_str,
    scan_char, scan_chars_spanning, scan_colon_space, scan_non_space, scan_space,
    scan_trimmed_len, str_eq, trimmed_len,
};

verus! {

/// Why a request could not be decoded.
#[derive(Debug, PartialEq, Eq, Structural, Clone, Copy)]
pub enum ParseError {
    RequestLine,
    Method,
    Version,
    Uri,
    Headers,
    Body,
}

impl ParseError {
    /// A human-readable description of the error.
    pub open spec fn spec_text(self) -> Seq<char> {
        match self {
            ParseError::RequestLine => "Invalid Request Line"@,
            ParseError::Method => "Invalid Method"@,
            ParseError::Version => "Invalid Version"@,
            ParseError::Uri => "Invalid Uri"@,
            ParseError::Headers => "Invalid Headers"@,
            ParseError::Body => "Invalid Body"@,
        }
    }

    /// A human-readable description of the error.
    pub fn text(self) -> (r: &'static str)
        ensures
            r@ == self.spec_text(),
    {
        match self {
            ParseError::RequestLine => "Invalid Request Line",
            ParseError::Method => "Invalid Method",
            ParseError::Version => "Invalid Version",
            ParseError::Uri => "Invalid Uri",
            ParseError::Headers => "Invalid Headers",
            ParseError::Body => "Invalid Body",
        }
    }
}

/// The mathematical image of a decoded request.
#[verifier::ext_equal]
pub struct ReqView {
    pub method: HttpMethod,
    pub uri: Seq<char>,
    pub version: HttpVersion,
    pub headers: Seq<(Seq<char>, Seq<char>)>,
    pub body: Seq<char>,
    pub query_params: Seq<(Seq<char>, Seq<char>)>,
}

/// A decoded request. `uri` is the target with any query part removed;
/// headers and query parameters keep their order and their duplicates.
#[derive(Debug)]
pub struct HttpRequest {
    pub method: HttpMethod,
    pub uri: String,
    pub version: HttpVersion,
    pub headers: Vec<(String, String)>,
    pub body: String,
    pub query_params: Vec<(String, String)>,
}

/// The views of a sequence of name/value pairs.
pub open spec fn pairs_view(v: Seq<(String, String)>) -> Seq<(Seq<char>, Seq<char>)> {
    Seq::new(v.len(), |i: int| (v[i].0@, v[i].1@))
}

impl View for HttpRequest {
    type V = ReqView;

    open spec fn view(&self) -> ReqView {
        ReqView {
            method: self.method,
            uri: self.uri@,
            version: self.version,
            headers: pairs_view(self.headers@),
            body: self.body@,
            query_params: pairs_view(self.query_params@),
        }
    }
}

/// How a method token reads.
pub open spec fn spec_parse_http_method(s: Seq<char>) -> Result<HttpMethod, ParseError> {
    if s == "GET"@ {
        Ok(HttpMethod::GET)
    } else if s == "POST"@ {
        Ok(HttpMethod::POST)
    } else if s == "PUT"@ {
        Ok(HttpMethod::PUT)
    } else if s == "DELETE"@ {
        Ok(HttpMethod::DELETE)
    } else {
        Err(ParseError::Method)
    }
}

/// Reads a method token.
pub fn parse_http_method(method: &str) -> (r: Result<HttpMethod, ParseError>)
    ensures
        r == spec_parse_http_method(method@),
{
    if str_eq(method, "GET") {
        Ok(HttpMethod::GET)
    } else if str_eq(method, "POST") {
        Ok(HttpMethod::POST)
    } else if str_eq(method, "PUT") {
        Ok(HttpMethod::PUT)
    } else if str_eq(method, "DELETE") {
        Ok(HttpMethod::DELETE)
    } else {
        Err(ParseError::Method)
    }
}

/// How a version token reads.
pub open spec fn spec_parse_http_version(s: Seq<char>) -> Result<HttpVersion, ParseError> {
    if s == "HTTP/1.0"@ {
        Ok(HttpVersion::Http10)
    } else if s == "HTTP/1.1"@ {
        Ok(HttpVersion::Http11)
    } else {
        Err(ParseError::Version)
    }
}

/// Reads a version token.
pub fn parse_http_version(version: &str) -> (r: Result<HttpVersion, ParseError>)
    ensures
        r == spec_parse_http_version(version@),
{
    if str_eq(version, "HTTP/1.0") {
        Ok(HttpVersion::Http10)
    } else if str_eq(version, "HTTP/1.1") {
        Ok(HttpVersion::Http11)
    } else {
        Err(ParseError::Version)
    }
}

/// The characters a raw target may not contain.
pub open spec fn is_reserved_uri_char(c: char) -> bool {
    c == '"' || c == '<' || c == '>' || c == '[' || c == ']' || c == '\\' || c == '^' || c == '`'
        || c == '{' || c == '|' || c == '}'
}

/// A raw target free of reserved characters.
pub open spec fn valid_uri(s: Seq<char>) -> bool {
    forall|i: int| 0 <= i < s.len() ==> !is_reserved_uri_char(s[i])
}

fn reserved_uri_char(c: char) -> (r: bool)
    ensures
        r == is_reserved_uri_char(c),
{
    c == '"' || c == '<' || c == '>' || c == '[' || c == ']' || c == '\\' || c == '^' || c == '`'
        || c == '{' || c == '|' || c == '}'
}

/// One query pair: the text before the first `=` names the parameter, the
/// text after it is the value; a missing `=` yields an empty value.
pub open spec fn split_pair(p: Seq<char>) -> (Seq<char>, Seq<char>) {
    let e = find_char(p, 0, '=');
    if e == p.len() {
        (p, Seq::empty())
    } else {
        (p.take(e), p.skip(e + 1))
    }
}

/// The query string split on `&`, each piece split on its first `=`.
pub open spec fn parse_query(q: Seq<char>) -> Seq<(Seq<char>, Seq<char>)>
    decreases q.len()
        via parse_query_decreases
{
    let amp = find_char(q, 0, '&');
    if amp == q.len() {
        seq![split_pair(q)]
    } else {
        seq![split_pair(q.take(amp))] + parse_query(q.skip(amp + 1))
    }
}

#[via_fn]
proof fn parse_query_decreases(q: Seq<char>) {
    lemma_find_char(q, 0, '&');
}

/// The end of the line starting at `pos`: one past the first `\n`, or the
/// end of the text when no `\n` follows.
pub open spec fn line_end(s: Seq<char>, pos: int) -> int {
    let nl = find_char(s, pos, '\n');
    if nl == s.len() {
        s.len() as int
    } else {
        nl + 1
    }
}

/// A header line, already stripped of trailing whitespace, split on its
/// first `": "`; a line without the separator is rejected.
pub open spec fn parse_header_line(line: Seq<char>) -> Option<(Seq<char>, Seq<char>)> {
    let trimmed = line.take(trimmed_len(line));
    let sep = find_colon_space(trimmed, 0);
    if sep == trimmed.len() {
        None
    } else {
        Some((trimmed.take(sep), trimmed.skip(sep + 2)))
    }
}

/// The outcome of reading the header block.
#[verifier::ext_equal]
pub struct HeaderPart {
    /// Name/value pairs in order of appearance, duplicates kept.
    pub headers: Seq<(Seq<char>, Seq<char>)>,
    /// The value of the last readable `Content-Length` header, if any.
    pub content_length: Option<nat>,
    /// Where the body begins: one past the terminating empty line.
    pub body_start: int,
}

/// A later `Content-Length` overrides an earlier one.
pub open spec fn combine_cl(first: Option<nat>, rest: Option<nat>) -> Option<nat> {
    if rest is Some {
        rest
    } else {
        first
    }
}

/// Reads header lines from `pos` until a bare `\r\n`; `None` when a line
/// has no `": "` separator (which includes running out of text).
pub open spec fn spec_parse_headers(t: Seq<char>, pos: int) -> Option<HeaderPart>
    decreases t.len() - pos
        when 0 <= pos <= t.len()
        via spec_parse_headers_decreases
{
    let le = line_end(t, pos);
    let line = t.subrange(pos, le);
    if line == seq!['\r', '\n'] {
        Some(HeaderPart { headers: Seq::empty(), content_length: None, body_start: le })
    } else {
        match parse_header_line(line) {
            None => None,
            Some(pair) => {
                let this_cl = if pair.0 == "Content-Length"@ {
                    parse_usize(pair.1)
                } else {
                    None
                };
                match spec_parse_headers(t, le) {
                    None => None,
                    Some(hp) => Some(
                        HeaderPart {
                            headers: seq![pair] + hp.headers,
                            content_length: combine_cl(this_cl, hp.content_length),
                            body_start: hp.body_start,
                        },
                    ),
                }
            },
        }
    }
}

#[via_fn]
proof fn spec_parse_headers_decreases(t: Seq<char>, pos: int) {
    if 0 <= pos <= t.len() {
        lemma_find_char(t, pos, '\n');
        if pos == t.len() {
            // the line is empty, `parse_header_line` rejects it, and the
            // recursive arm is never reached
            assert(t.subrange(pos, line_end(t, pos)).len() == 0);
            assert(parse_header_line(t.subrange(pos, line_end(t, pos))) is None);
        }
    }
}

/// The result of decoding: the whole request, or the first error the
/// grammar gives.
pub open spec fn spec_decode(t: Seq<char>) -> Result<ReqView, ParseError> {
    let rl_end = line_end(t, 0);
    let line = t.take(rl_end);
    let m0 = find_non_space(line, 0);
    if m0 >= line.len() {
        Err(ParseError::Method)
    } else {
        let m1 = find_space(line, m0);
        let method_tok = line.subrange(m0, m1);
        let u0 = find_non_space(line, m1);
        if u0 >= line.len() {
            Err(ParseError::Uri)
        } else {
            let u1 = find_space(line, u0);
            let raw_target = line.subrange(u0, u1);
            let v0 = find_non_space(line, u1);
            if v0 >= line.len() {
                Err(ParseError::Version)
            } else if !valid_uri(raw_target) {
                Err(ParseError::Uri)
            } else {
                let v1 = find_space(line, v0);
                let version_tok = line.subrange(v0, v1);
                let qm = find_char(raw_target, 0, '?');
                let target = raw_target.take(qm);
                let query_params = if qm == raw_target.len() {
                    Seq::<(Seq<char>, Seq<char>)>::empty()
                } else {
                    parse_query(raw_target.skip(qm + 1))
                };
                match spec_parse_http_method(method_tok) {
                    Err(e) => Err(e),
                    Ok(method) => match spec_parse_http_version(version_tok) {
                        Err(e) => Err(e),
                        Ok(version) => match spec_parse_headers(t, rl_end) {
                            None => Err(ParseError::Headers),
                            Some(hp) => {
                                let cl = hp.content_length.unwrap_or(0);
                                match chars_spanning(t.skip(hp.body_start), cl) {
                                    Some(k) => Ok(
                                        ReqView {
                                            method,
                                            uri: target,
                                            version,
                                            headers: hp.headers,
                                            body: t.subrange(hp.body_start, hp.body_start + k),
                                            query_params,
                                        },
                                    ),
                                    None => Err(ParseError::Body),
                                }
                            },
                        },
                    },
                }
            }
        }
    }
}

/// Decides [`valid_uri`].
pub fn is_valid_uri(uri: &str) -> (r: bool)
    ensures
        r == valid_uri(uri@),
{
    let n = uri.unicode_len();
    let mut i: usize = 0;
    while i < n
        invariant
            i <= n,
            n == uri@.len(),
            forall|k: int| 0 <= k < i ==> !is_reserved_uri_char(uri@[k]),
        decreases n - i,
    {
        if reserved_uri_char(uri.get_char(i)) {
            return false;
        }
        i += 1;
    }
    true
}

/// Reads a query string into its ordered name/value pairs.
fn parse_query_str(q: &str) -> (r: Vec<(String, String)>)
    ensures
        pairs_view(r@) == parse_query(q@),
{
    let mut acc: Vec<(String, String)> = Vec::new();
    let n = q.unicode_len();
    let mut pos: usize = 0;
    proof {
        assert(q@.skip(0) =~= q@);
        assert(pairs_view(acc@) + parse_query(q@.skip(0)) =~= parse_query(q@));
    }
    loop
        invariant
            pos <= n,
            n == q@.len(),
            pairs_view(acc@) + parse_query(q@.skip(pos as int)) == parse_query(q@),
        decreases n - pos,
    {
        let rest = q.substring_char(pos, n);
        proof {
            assert(rest@ =~= q@.skip(pos as int));
        }
        let rn = rest.unicode_len();
        let amp = scan_char(rest, 0, '&');
        let piece = rest.substring_char(0, amp);
        proof {
            if amp < rn {
                assert(piece@ =~= rest@.take(amp as int));
            } else {
                assert(piece@ =~= rest@);
            }
        }
        let pn = piece.unicode_len();
        let eq = scan_char(piece, 0, '=');
        let name = piece.substring_char(0, eq).to_owned();
        let value = if eq == pn {
            String::new()
        } else {
            piece.substring_char(eq + 1, pn).to_owned()
        };
        proof {
            let sp = split_pair(piece@);
            assert(name@ =~= sp.0);
            assert(value@ =~= sp.1);
        }
        acc.push((name, value));
        proof {
            assert(pairs_view(acc@) =~= pairs_view(acc@.take(acc@.len() - 1)) + seq![
                split_pair(piece@),
            ]);
        }
        if amp == rn {
            proof {
                assert(parse_query(rest@) == seq![split_pair(rest@)]);
                assert(pairs_view(acc@) =~= parse_query(q@));
            }
            return acc;
        }
        proof {
            assert(parse_query(rest@) == seq![split_pair(rest@.take(amp as int))] + parse_query(
                rest@.skip(amp + 1),
            ));
            assert(q@.skip(pos + amp + 1) =~= rest@.skip(amp + 1));
            assert(pairs_view(acc@) + parse_query(q@.skip(pos + amp + 1)) =~= parse_query(q@));
        }
        pos = pos + amp + 1;
    }
}

/// The view of an optional length.
pub open spec fn cl_view(c: Option<usize>) -> Option<nat> {
    match c {
        Some(v) => Some(v as nat),
        None => None,
    }
}

/// Header lines already read, folded onto what the remaining text yields.
pub open spec fn hdr_combine(
    acc_h: Seq<(Seq<char>, Seq<char>)>,
    acc_cl: Option<nat>,
    rest: Option<HeaderPart>,
) -> Option<HeaderPart> {
    match rest {
        None => None,
        Some(hp) => Some(
            HeaderPart {
                headers: acc_h + hp.headers,
                content_length: combine_cl(acc_cl, hp.content_length),
                body_start: hp.body_start,
            },
        ),
    }
}

/// Reads the header block beginning at `start`.
fn read_headers(input: &str, start: usize) -> (r: Result<
    (Vec<(String, String)>, Option<usize>, usize),
    ParseError,
>)
    requires
        start <= input@.len(),
    ensures
        match r {
            Ok(out) => {
                &&& out.2 <= input@.len()
                &&& spec_parse_headers(input@, start as int) == Some(
                    HeaderPart {
                        headers: pairs_view(out.0@),
                        content_length: cl_view(out.1),
                        body_start: out.2 as int,
                    },
                )
            },
            Err(e) => {
                &&& e == ParseError::Headers
                &&& spec_parse_headers(input@, start as int) is None
            },
        },
{
    let n = input.unicode_len();
    let mut pos = start;
    let mut acc: Vec<(String, String)> = Vec::new();
    let mut cl: Option<usize> = None;
    proof {
        assert(hdr_combine(
            pairs_view(acc@),
            cl_view(cl),
            spec_parse_headers(input@, start as int),
        ) =~~= spec_parse_headers(input@, start as int));
    }
    loop
        invariant
            start <= pos <= n,
            n == input@.len(),
            spec_parse_headers(input@, start as int) == hdr_combine(
                pairs_view(acc@),
                cl_view(cl),
                spec_parse_headers(input@, pos as int),
            ),
        decreases n - pos,
    {
        let nl = scan_char(input, pos, '\n');
        let le = if nl == n {
            n
        } else {
            nl + 1
        };
        proof {
            assert(le as int == line_end(input@, pos as int));
        }
        let line = input.substring_char(pos, le);
        let ghost lv = input@.subrange(pos as int, le as int);
        if str_eq(line, "\r\n") {
            proof {
                reveal_strlit("\r\n");
                assert(lv =~= seq!['\r', '\n']);
                assert(spec_parse_headers(input@, pos as int) == Some(
                    HeaderPart {
                        headers: Seq::<(Seq<char>, Seq<char>)>::empty(),
                        content_length: None::<nat>,
                        body_start: le as int,
                    },
                ));
                assert(pairs_view(acc@) + Seq::<(Seq<char>, Seq<char>)>::empty() =~= pairs_view(
                    acc@,
                ));
            }
            return Ok((acc, cl, le));
        }
        proof {
            reveal_strlit("\r\n");
            assert(lv != seq!['\r', '\n']) by {
                if lv =~= seq!['\r', '\n'] {
                    assert(line@ =~= "\r\n"@);
                }
            }
            lemma_trimmed_len(lv);
        }
        let tl = scan_trimmed_len(line);
        let trimmed = line.substring_char(0, tl);
        let ghost tv = lv.take(trimmed_len(lv));
        proof {
            assert(trimmed@ =~= tv);
        }
        let tn = trimmed.unicode_len();
        let sep = scan_colon_space(trimmed, 0);
        if sep == tn {
            proof {
                assert(parse_header_line(lv) is None);
            }
            return Err(ParseError::Headers);
        }
        let name = trimmed.substring_char(0, sep).to_owned();
        let value = trimmed.substring_char(sep + 2, tn).to_owned();
        let ghost pair = parse_header_line(lv).unwrap();
        proof {
            assert(name@ =~= pair.0);
            assert(value@ =~= pair.1);
        }
        let ghost this_cl = if pair.0 == "Content-Length"@ {
            parse_usize(pair.1)
        } else {
            None::<nat>
        };
        let ghost old_cl = cl;
        if str_eq(name.as_str(), "Content-Length") {
            match parse_usize_str(value.as_str()) {
                Some(v) => {
                    cl = Some(v);
                },
                None => {},
            }
        }
        proof {
            assert(cl_view(cl) == combine_cl(cl_view(old_cl), this_cl));
        }
        let ghost old_acc = acc;
        acc.push((name, value));
        proof {
            assert(pairs_view(acc@) =~= pairs_view(old_acc@) + seq![pair]);
            let rest_pos = spec_parse_headers(input@, pos as int);
            let rest_le = spec_parse_headers(input@, le as int);
            match rest_le {
                None => {
                    assert(rest_pos is None);
                },
                Some(hp) => {
                    assert(rest_pos == Some(
                        HeaderPart {
                            headers: seq![pair] + hp.headers,
                            content_length: combine_cl(this_cl, hp.content_length),
                            body_start: hp.body_start,
                        },
                    ));
                    assert(pairs_view(old_acc@) + (seq![pair] + hp.headers) =~= pairs_view(acc@)
                        + hp.headers);
                },
            }
            assert(spec_parse_headers(input@, start as int) == hdr_combine(
                pairs_view(acc@),
                cl_view(cl),
                rest_le,
            ));
        }
        pos = le;
    }
}

/// The wire image of one header line.
pub open spec fn encode_header(h: (Seq<char>, Seq<char>)) -> Seq<char> {
    h.0 + ": "@ + h.1 + "\r\n"@
}

/// The wire image of a header block, in order.
pub open spec fn encode_headers(hs: Seq<(Seq<char>, Seq<char>)>) -> Seq<char>
    decreases hs.len(),
{
    if hs.len() == 0 {
        Seq::empty()
    } else {
        encode_header(hs[0]) + encode_headers(hs.skip(1))
    }
}

/// Appending one header extends the block by one line.
pub proof fn lemma_encode_headers_push(hs: Seq<(Seq<char>, Seq<char>)>, h: (Seq<char>, Seq<char>))
    ensures
        encode_headers(hs.push(h)) == encode_headers(hs) + encode_header(h),
    decreases hs.len(),
{
    if hs.len() == 0 {
        let p = hs.push(h);
        assert(p[0] == h);
        assert(p.skip(1) =~= Seq::<(Seq<char>, Seq<char>)>::empty());
        assert(encode_headers(p.skip(1)) == Seq::<char>::empty());
        assert(encode_headers(p) == encode_header(h) + Seq::<char>::empty());
        assert(encode_headers(p) =~= encode_headers(hs) + encode_header(h));
    } else {
        assert(hs.push(h)[0] == hs[0]);
        assert(hs.push(h).skip(1) =~= hs.skip(1).push(h));
        lemma_encode_headers_push(hs.skip(1), h);
        assert(encode_headers(hs.push(h)) == encode_header(hs[0]) + (encode_headers(hs.skip(1))
            + encode_header(h)));
        assert(encode_headers(hs) == encode_header(hs[0]) + encode_headers(hs.skip(1)));
        vstd::seq_lib::lemma_concat_associative(
            encode_header(hs[0]),
            encode_headers(hs.skip(1)),
            encode_header(h),
        );
        assert(encode_headers(hs.push(h)) =~= encode_headers(hs) + encode_header(h));
    }
}

/// The full wire image of a request: request line, header block, an empty
/// line, then the body.
pub open spec fn spec_encode(v: ReqView) -> Seq<char> {
    v.method.spec_text() + " "@ + v.uri + " "@ + v.version.spec_text() + "\r\n"@ + encode_headers(
        v.headers,
    ) + "\r\n"@ + v.body
}

impl HttpRequest {
    /// Re-serializes the request in wire form. Query parameters are part of
    /// `uri` only if the caller put them there; they are not written back.
    pub fn encode(&self) -> (r: String)
        ensures
            r@ == spec_encode(self@),
    {
        let mut s = self.method.text().to_owned();
        s.append(" ");
        s.append(self.uri.as_str());
        s.append(" ");
        s.append(self.version.text());
        s.append("\r\n");
        let ghost head = self.method.spec_text() + " "@ + self@.uri + " "@
            + self.version.spec_text() + "\r\n"@;
        proof {
            assert(s@ + encode_headers(self@.headers.take(0)) =~= head);
        }
        let m = self.headers.len();
        let mut i: usize = 0;
        while i < m
            invariant
                i <= m,
                m == self.headers@.len(),
                head == self.method.spec_text() + " "@ + self@.uri + " "@
                    + self.version.spec_text() + "\r\n"@,
                s@ == head + encode_headers(self@.headers.take(i as int)),
            decreases m - i,
        {
            let h = &self.headers[i];
            s.append(h.0.as_str());
            s.append(": ");
            s.append(h.1.as_str());
            s.append("\r\n");
            proof {
                lemma_encode_headers_push(self@.headers.take(i as int), self@.headers[i as int]);
                assert(self@.headers.take(i + 1) =~= self@.headers.take(i as int).push(
                    self@.headers[i as int],
                ));
                assert(self@.headers[i as int] == (self.headers@[i as int].0@,
                self.headers@[i as int].1@));
                assert(s@ =~= head + encode_headers(self@.headers.take(i + 1)));
            }
            i += 1;
        }
        s.append("\r\n");
        s.append(self.body.as_str());
        proof {
            assert(self@.headers.take(m as int) =~= self@.headers);
            assert(s@ =~= spec_encode(self@));
        }
        s
    }
}

/// A header pair that survives re-serialization: the name holds no line
/// break and no `": "` of its own; the value is non-empty, holds no line
/// break, and does not end in whitespace.
pub open spec fn wf_header(h: (Seq<char>, Seq<char>)) -> bool {
    &&& forall|i: int| 0 <= i < h.0.len() ==> h.0[i] != '\n'
    &&& forall|i: int| 0 <= i < h.0.len() ==> !colon_space_at(h.0, i)
    &&& forall|i: int| 0 <= i < h.1.len() ==> h.1[i] != '\n'
    &&& h.1.len() > 0
    &&& !is_space(h.1[h.1.len() - 1])
}

/// The `Content-Length` the header block announces: the last readable one.
pub open spec fn effective_cl(hs: Seq<(Seq<char>, Seq<char>)>) -> Option<nat>
    decreases hs.len(),
{
    if hs.len() == 0 {
        None
    } else {
        let this = if hs[0].0 == "Content-Length"@ {
            parse_usize(hs[0].1)
        } else {
            None
        };
        combine_cl(this, effective_cl(hs.skip(1)))
    }
}

/// A request value whose wire image decodes back to itself: a non-empty
/// target without whitespace, reserved characters or a query part;
/// well-formed headers; a body of exactly the announced byte length; and
/// no query parameters (the encoder does not write them).
pub open spec fn wf_request(v: ReqView) -> bool {
    &&& v.uri.len() > 0
    &&& forall|i: int|
        0 <= i < v.uri.len() ==> !is_space(v.uri[i]) && !is_reserved_uri_char(v.uri[i])
            && v.uri[i] != '?'
    &&& forall|j: int| 0 <= j < v.headers.len() ==> wf_header(v.headers[j])
    &&& effective_cl(v.headers).unwrap_or(0) == byte_len(v.body)
    &&& v.query_params.len() == 0
}

/// The method's wire spelling: non-empty, free of whitespace, and read
/// back as the same method.
proof fn lemma_method_text(m: HttpMethod)
    ensures
        m.spec_text().len() > 0,
        forall|k: int| 0 <= k < m.spec_text().len() ==> !is_space(m.spec_text()[k]),
        spec_parse_http_method(m.spec_text()) == Ok::<HttpMethod, ParseError>(m),
{
    reveal_strlit("GET");
    reveal_strlit("POST");
    reveal_strlit("PUT");
    reveal_strlit("DELETE");
    assert(("GET"@).len() == 3);
    assert(("POST"@).len() == 4);
    assert(("PUT"@).len() == 3);
    assert(("DELETE"@).len() == 6);
    assert("GET"@ != "POST"@);
    assert("PUT"@[0] != "GET"@[0]);
    assert("PUT"@ != "GET"@);
    assert("DELETE"@ != "GET"@);
    assert("DELETE"@ != "POST"@);
}

/// The version's wire spelling: non-empty, free of whitespace, and read
/// back as the same version.
proof fn lemma_version_text(v: HttpVersion)
    ensures
        v.spec_text().len() > 0,
        forall|k: int| 0 <= k < v.spec_text().len() ==> !is_space(v.spec_text()[k]),
        spec_parse_http_version(v.spec_text()) == Ok::<HttpVersion, ParseError>(v),
{
    reveal_strlit("HTTP/1.0");
    reveal_strlit("HTTP/1.1");
    assert("HTTP/1.1"@[7] != "HTTP/1.0"@[7]);
    assert("HTTP/1.1"@ != "HTTP/1.0"@);
}

/// Reading the header block back from its wire image yields the same
/// pairs, their effective `Content-Length`, and the position after the
/// blank line.
#[verifier::rlimit(100)]
proof fn lemma_decode_headers(
    t: Seq<char>,
    pos: int,
    hs: Seq<(Seq<char>, Seq<char>)>,
    tail: Seq<char>,
)
    requires
        0 <= pos <= t.len(),
        t.skip(pos) == encode_headers(hs) + "\r\n"@ + tail,
        forall|j: int| 0 <= j < hs.len() ==> wf_header(hs[j]),
    ensures
        spec_parse_headers(t, pos) == Some(
            HeaderPart {
                headers: hs,
                content_length: effective_cl(hs),
                body_start: pos + encode_headers(hs).len() + 2,
            },
        ),
    decreases hs.len(),
{
    reveal_strlit("\r\n");
    reveal_strlit(": ");
    let rest = t.skip(pos);
    assert(forall|k: int| 0 <= k < rest.len() ==> rest[k] == t[pos + k]);
    if hs.len() == 0 {
        assert(rest =~= "\r\n"@ + tail);
        assert(rest[0] == '\r' && rest[1] == '\n');
        assert(t[pos] == '\r' && t[pos + 1] == '\n');
        lemma_find_char_is(t, pos, '\n', pos + 1);
        assert(line_end(t, pos) == pos + 2);
        assert(t.subrange(pos, pos + 2) =~= seq!['\r', '\n']);
        assert(spec_parse_headers(t, pos) == Some(
            HeaderPart {
                headers: Seq::<(Seq<char>, Seq<char>)>::empty(),
                content_length: None::<nat>,
                body_start: pos + 2,
            },
        ));
        assert(encode_headers(hs).len() == 0);
        assert(spec_parse_headers(t, pos).unwrap() =~~= HeaderPart {
            headers: hs,
            content_length: effective_cl(hs),
            body_start: pos + encode_headers(hs).len() + 2,
        });
    } else {
        let h = hs[0];
        let n0 = h.0.len() as int;
        let n1 = h.1.len() as int;
        let ll = n0 + n1 + 4;
        let eh = encode_header(h);
        assert(wf_header(h));
        assert(eh.len() == ll);
        // the characters of this header line inside t
        let after = encode_headers(hs.skip(1)) + "\r\n"@ + tail;
        assert(rest =~= eh + after);
        assert forall|k: int| 0 <= k < eh.len() implies t[pos + k] == eh[k] by {
            assert(rest[k] == (eh + after)[k]);
        }
        assert(forall|k: int| 0 <= k < n0 ==> eh[k] == h.0[k]);
        assert(eh[n0] == ':' && eh[n0 + 1] == ' ');
        assert(forall|k: int| 0 <= k < n1 ==> eh[n0 + 2 + k] == h.1[k]);
        assert(eh[ll - 2] == '\r' && eh[ll - 1] == '\n');
        // the line ends at the '\n' written after this header
        assert forall|k: int| pos <= k < pos + ll - 1 implies t[k] != '\n' by {
            let j = k - pos;
            if j < n0 {
                assert(eh[j] == h.0[j]);
            } else if j >= n0 + 2 && j < n0 + 2 + n1 {
                assert(eh[j] == h.1[j - n0 - 2]);
            }
        }
        lemma_find_char_is(t, pos, '\n', pos + ll - 1);
        assert(line_end(t, pos) == pos + ll);
        let line = t.subrange(pos, pos + ll);
        assert(line =~= eh);
        assert(line != seq!['\r', '\n']) by {
            assert(line.len() >= 5);
        }
        // trailing whitespace: exactly the final "\r\n"
        assert(!is_space(line[ll - 3])) by {
            assert(line[ll - 3] == h.1[n1 - 1]);
        }
        lemma_trimmed_len_is(line, ll - 2);
        let trimmed = line.take(ll - 2);
        assert(trimmed =~= h.0 + ": "@ + h.1);
        // the separator is the one written after the name
        assert(colon_space_at(trimmed, n0));
        assert forall|k: int| 0 <= k < n0 implies !colon_space_at(trimmed, k) by {
            if k < n0 - 1 {
                assert(trimmed[k] == h.0[k]);
                assert(trimmed[k + 1] == h.0[k + 1]);
                assert(!colon_space_at(h.0, k));
            } else {
                assert(trimmed[k + 1] == ':');
            }
        }
        lemma_find_colon_space_is(trimmed, 0, n0);
        let pair = parse_header_line(line).unwrap();
        assert(pair.0 =~= h.0);
        assert(pair.1 =~= h.1);
        // recurse over the remaining lines
        assert forall|j: int| 0 <= j < after.len() implies t.skip(pos + ll)[j] == after[j] by {
            assert(t.skip(pos + ll)[j] == t[pos + ll + j]);
            assert(rest[ll + j] == (eh + after)[ll + j]);
        }
        assert(t.skip(pos + ll) =~= encode_headers(hs.skip(1)) + "\r\n"@ + tail);
        assert(forall|j: int| 0 <= j < hs.skip(1).len() ==> hs.skip(1)[j] == hs[j + 1]);
        lemma_decode_headers(t, pos + ll, hs.skip(1), tail);
        let hp = spec_parse_headers(t, pos + ll).unwrap();
        assert(seq![pair] + hp.headers =~= hs);
        assert(spec_parse_headers(t, pos).unwrap().headers == hs);
        assert(spec_parse_headers(t, pos).unwrap().content_length == effective_cl(hs));
        assert(spec_parse_headers(t, pos).unwrap().body_start == pos + encode_headers(hs).len()
            + 2);
        assert(spec_parse_headers(t, pos) is Some);
        assert(spec_parse_headers(t, pos).unwrap() =~~= HeaderPart {
            headers: hs,
            content_length: effective_cl(hs),
            body_start: pos + encode_headers(hs).len() + 2,
        });
    }
}

/// Round trip: a well-formed request decodes back from its own wire image,
/// with the same method, target, version, headers and body.
#[verifier::rlimit(60)]
pub proof fn lemma_round_trip(v: ReqView)
    requires
        wf_request(v),
    ensures
        spec_decode(spec_encode(v)) == Ok::<ReqView, ParseError>(v),
{
    reveal_strlit(" ");
    reveal_strlit("\r\n");
    lemma_method_text(v.method);
    lemma_version_text(v.version);
    let m = v.method.spec_text();
    let ver = v.version.spec_text();
    let hb = encode_headers(v.headers);
    let t = spec_encode(v);
    let lm = m.len() as int;
    let lu = v.uri.len() as int;
    let lv = ver.len() as int;
    let rl = lm + 1 + lu + 1 + lv + 2;
    let head = m + " "@ + v.uri + " "@ + ver + "\r\n"@;
    let after = hb + "\r\n"@ + v.body;
    assert(t =~= head + after);
    assert(head.len() == rl);
    assert forall|k: int| 0 <= k < lm implies t[k] == m[k] by {
        assert(t[k] == (head + after)[k]);
        assert(head[k] == m[k]);
    }
    assert(head[lm] == ' ');
    assert(t[lm] == ' ');
    assert forall|k: int| 0 <= k < lu implies t[lm + 1 + k] == v.uri[k] by {
        assert(t[lm + 1 + k] == head[lm + 1 + k]);
        assert(head[lm + 1 + k] == v.uri[k]);
    }
    assert(head[lm + 1 + lu] == ' ');
    assert(t[lm + 1 + lu] == ' ');
    assert forall|k: int| 0 <= k < lv implies t[lm + 2 + lu + k] == ver[k] by {
        assert(t[lm + 2 + lu + k] == head[lm + 2 + lu + k]);
        assert(head[lm + 2 + lu + k] == ver[k]);
    }
    assert(head[rl - 2] == '\r' && head[rl - 1] == '\n');
    assert(t[rl - 2] == '\r' && t[rl - 1] == '\n');
    // the request line runs to the first '\n'
    assert forall|k: int| 0 <= k < rl - 1 implies t[k] != '\n' by {
        if k < lm {
            assert(!is_space(t[k]));
        } else if lm + 1 <= k < lm + 1 + lu {
            assert(!is_space(t[k]));
        } else if lm + 2 + lu <= k < lm + 2 + lu + lv {
            assert(!is_space(t[k]));
        }
    }
    lemma_find_char_is(t, 0, '\n', rl - 1);
    assert(line_end(t, 0) == rl);
    let line = t.take(rl);
    assert(line =~= head);
    // the three tokens sit where the encoder wrote them
    lemma_find_non_space_is(line, 0, 0);
    lemma_find_space_is(line, 0, lm);
    assert(line.subrange(0, lm) =~= m);
    lemma_find_non_space_is(line, lm, lm + 1);
    lemma_find_space_is(line, lm + 1, lm + 1 + lu);
    assert(line.subrange(lm + 1, lm + 1 + lu) =~= v.uri);
    lemma_find_non_space_is(line, lm + 1 + lu, lm + 2 + lu);
    assert(is_space(line[rl - 2]));
    lemma_find_space_is(line, lm + 2 + lu, rl - 2);
    assert(line.subrange(lm + 2 + lu, rl - 2) =~= ver);
    // no query part
    lemma_find_char_is(v.uri, 0, '?', lu);
    assert(v.uri.take(lu) =~= v.uri);
    // headers and body
    assert forall|j: int| 0 <= j < after.len() implies t.skip(rl)[j] == after[j] by {
        assert(t.skip(rl)[j] == t[rl + j]);
        assert(t[rl + j] == (head + after)[rl + j]);
    }
    assert(t.skip(rl) =~= hb + "\r\n"@ + v.body);
    lemma_decode_headers(t, rl, v.headers, v.body);
    let hp = spec_parse_headers(t, rl).unwrap();
    let bs = rl + hb.len() + 2;
    assert(hp.body_start == bs);
    assert(t.len() == bs + v.body.len());
    let cl = hp.content_length.unwrap_or(0);
    assert(cl == byte_len(v.body));
    assert(t.skip(bs) =~= v.body);
    lemma_chars_spanning_full(v.body);
    assert(chars_spanning(t.skip(bs), cl) == Some(v.body.len() as int));
    assert(t.subrange(bs, bs + v.body.len()) =~= v.body);
    assert(spec_decode(t).unwrap() =~~= v);
}

/// Every header pair the grammar reads is well-formed, its effective
/// `Content-Length` is the one the scan tracked, and the body begins
/// within the text.
proof fn lemma_parse_headers_wf(t: Seq<char>, pos: int)
    requires
        0 <= pos <= t.len(),
        spec_parse_headers(t, pos) is Some,
    ensures
        forall|j: int|
            0 <= j < spec_parse_headers(t, pos).unwrap().headers.len() ==> wf_header(
                #[trigger] spec_parse_headers(t, pos).unwrap().headers[j],
            ),
        effective_cl(spec_parse_headers(t, pos).unwrap().headers) == spec_parse_headers(
            t,
            pos,
        ).unwrap().content_length,
        pos <= spec_parse_headers(t, pos).unwrap().body_start <= t.len(),
    decreases t.len() - pos,
{
    lemma_find_char(t, pos, '\n');
    let le = line_end(t, pos);
    let line = t.subrange(pos, le);
    let hp = spec_parse_headers(t, pos).unwrap();
    if line == seq!['\r', '\n'] {
        assert(effective_cl(hp.headers) == hp.content_length);
    } else {
        let pair = parse_header_line(line).unwrap();
        let trimmed = line.take(trimmed_len(line));
        let sep = find_colon_space(trimmed, 0);
        lemma_trimmed_len(line);
        lemma_find_colon_space(trimmed, 0);
        let tl = trimmed.len() as int;
        // the line holds a '\n' at most as its final character, and the
        // trimmed part never keeps one
        assert(forall|k: int| 0 <= k < line.len() - 1 ==> line[k] != '\n');
        assert forall|k: int| 0 <= k < tl implies trimmed[k] != '\n' by {
            if k == line.len() - 1 {
                assert(is_space(line[k]));
                assert(!is_space(trimmed[tl - 1]));
                assert(k == tl - 1);
            }
        }
        // the separator found is the first: none hides inside the name
        assert(colon_space_at(trimmed, sep));
        let name = trimmed.take(sep);
        let value = trimmed.skip(sep + 2);
        assert forall|k: int| 0 <= k < name.len() implies !colon_space_at(name, k) by {
            if k + 1 < sep {
                assert(name[k] == trimmed[k]);
                assert(name[k + 1] == trimmed[k + 1]);
                assert(!colon_space_at(trimmed, k));
            }
        }
        // the value is non-empty and keeps no trailing whitespace
        assert(sep + 2 <= tl);
        if sep + 2 == tl {
            assert(trimmed[tl - 1] == ' ');
            assert(!is_space(trimmed[tl - 1]));
        }
        assert(value.len() > 0);
        assert(value[value.len() - 1] == trimmed[tl - 1]);
        assert(wf_header(pair));
        // the remaining lines, by induction
        lemma_parse_headers_wf(t, le);
        let rest = spec_parse_headers(t, le).unwrap();
        assert(hp.headers == seq![pair] + rest.headers);
        assert forall|j: int| 0 <= j < hp.headers.len() implies wf_header(
            #[trigger] hp.headers[j],
        ) by {
            if j > 0 {
                assert(hp.headers[j] == rest.headers[j - 1]);
            } else {
                assert(hp.headers[0] == pair);
            }
        }
        let this_cl = if pair.0 == "Content-Length"@ {
            parse_usize(pair.1)
        } else {
            None
        };
        assert(effective_cl(hp.headers) == combine_cl(this_cl, effective_cl(rest.headers))) by {
            assert(hp.headers[0] == pair);
            assert(hp.headers.skip(1) =~= rest.headers);
        }
    }
}

/// Every request value the grammar accepts is well-formed once its query
/// parameters are set aside (the encoder does not write them back).
proof fn lemma_decode_wf(t: Seq<char>, v: ReqView)
    requires
        spec_decode(t) == Ok::<ReqView, ParseError>(v),
        v.uri.len() > 0,
    ensures
        wf_request(
            ReqView {
                method: v.method,
                uri: v.uri,
                version: v.version,
                headers: v.headers,
                body: v.body,
                query_params: Seq::empty(),
            },
        ),
{
    let rl_end = line_end(t, 0);
    let line = t.take(rl_end);
    lemma_find_char(t, 0, '\n');
    let m0 = find_non_space(line, 0);
    let m1 = find_space(line, m0);
    let u0 = find_non_space(line, m1);
    let u1 = find_space(line, u0);
    lemma_find_non_space(line, 0);
    lemma_find_space(line, m0);
    lemma_find_non_space(line, m1);
    lemma_find_space(line, u0);
    let raw_target = line.subrange(u0, u1);
    let qm = find_char(raw_target, 0, '?');
    lemma_find_char(raw_target, 0, '?');
    let target = raw_target.take(qm);
    // the target token is non-empty and free of whitespace, reserved
    // characters and any query part
    assert(v.uri == target);
    assert forall|i: int|
        0 <= i < target.len() implies !is_space(target[i]) && !is_reserved_uri_char(target[i])
            && target[i] != '?' by {
        assert(target[i] == raw_target[i]);
        assert(raw_target[i] == line[u0 + i]);
        assert(!is_space(line[u0 + i]));
        assert(valid_uri(raw_target));
        assert(raw_target[i] != '?');
    }
    // the header block is well-formed and its effective length is the
    // body's byte length
    let hp = spec_parse_headers(t, rl_end).unwrap();
    lemma_parse_headers_wf(t, rl_end);
    assert(v.headers == hp.headers);
    let bs = hp.body_start;
    let cl = hp.content_length.unwrap_or(0);
    let k = chars_spanning(t.skip(bs), cl).unwrap();
    lemma_chars_spanning_prefix(t.skip(bs), cl, k);
    assert(t.skip(bs).take(k) =~= t.subrange(bs, bs + k));
    assert(byte_len(v.body) == cl);
}

/// Round trip from text: decoding text the grammar accepts and
/// re-serializing the result yields text that decodes back to the same
/// method, target, version, headers and body. Query parameters came from
/// the target's query part, which the encoder does not write back; a
/// target that was nothing but a query leaves no path to re-serialize and
/// stands outside this law.
pub proof fn lemma_decode_round_trip(t: Seq<char>, v: ReqView)
    requires
        spec_decode(t) == Ok::<ReqView, ParseError>(v),
        v.uri.len() > 0,
    ensures
        ({
            let w = ReqView {
                method: v.method,
                uri: v.uri,
                version: v.version,
                headers: v.headers,
                body: v.body,
                query_params: Seq::empty(),
            };
            spec_decode(spec_encode(w)) == Ok::<ReqView, ParseError>(w)
        }),
{
    let w = ReqView {
        method: v.method,
        uri: v.uri,
        version: v.version,
        headers: v.headers,
        body: v.body,
        query_params: Seq::empty(),
    };
    lemma_decode_wf(t, v);
    lemma_round_trip(w);
}

/// Whether an executable decoding and the grammar agree.
pub open spec fn decode_matches(
    r: Result<HttpRequest, ParseError>,
    s: Result<ReqView, ParseError>,
) -> bool {
    match r {
        Ok(req) => s == Ok::<ReqView, ParseError>(req@),
        Err(e) => s == Err::<ReqView, ParseError>(e),
    }
}

/// Decodes one request from its full text, exactly as [`spec_decode`]
/// reads the grammar. The body spans the announced number of bytes of the
/// text's UTF-8 encoding; a count that falls short or inside a character
/// is a body error.
pub fn read_http_request(input: &str) -> (r: Result<HttpRequest, ParseError>)
    ensures
        decode_matches(r, spec_decode(input@)),
{
    let n = input.unicode_len();
    let nl = scan_char(input, 0, '\n');
    let rl_end = if nl == n {
        n
    } else {
        nl + 1
    };
    proof {
        assert(rl_end as int == line_end(input@, 0));
    }
    let line = input.substring_char(0, rl_end);
    proof {
        assert(line@ =~= input@.take(line_end(input@, 0)));
    }
    let ln = line.unicode_len();
    let m0 = scan_non_space(line, 0);
    if m0 >= ln {
        return Err(ParseError::Method);
    }
    let m1 = scan_space(line, m0);
    let method_tok = line.substring_char(m0, m1);
    let u0 = scan_non_space(line, m1);
    if u0 >= ln {
        return Err(ParseError::Uri);
    }
    let u1 = scan_space(line, u0);
    let raw_target = line.substring_char(u0, u1);
    let v0 = scan_non_space(line, u1);
    if v0 >= ln {
        return Err(ParseError::Version);
    }
    if !is_valid_uri(raw_target) {
        return Err(ParseError::Uri);
    }
    let v1 = scan_space(line, v0);
    let version_tok = line.substring_char(v0, v1);
    let rtn = raw_target.unicode_len();
    let qm = scan_char(raw_target, 0, '?');
    let target = raw_target.substring_char(0, qm);
    let query_params: Vec<(String, String)> = if qm == rtn {
        Vec::new()
    } else {
        parse_query_str(raw_target.substring_char(qm + 1, rtn))
    };
    proof {
        if qm == rtn {
            assert(pairs_view(Seq::<(String, String)>::empty()) =~= Seq::<
                (Seq<char>, Seq<char>),
            >::empty());
        } else {
            assert(raw_target@.subrange(qm + 1, rtn as int) =~= raw_target@.skip(qm + 1));
        }
    }
    let method = match parse_http_method(method_tok) {
        Ok(m) => m,
        Err(e) => {
            return Err(e);
        },
    };
    let version = match parse_http_version(version_tok) {
        Ok(v) => v,
        Err(e) => {
            return Err(e);
        },
    };
    let (headers, cl_opt, body_start) = match read_headers(input, rl_end) {
        Ok(o) => o,
        Err(e) => {
            return Err(e);
        },
    };
    let cl = match cl_opt {
        Some(v) => v,
        None => 0,
    };
    let body: String;
    match scan_chars_spanning(input, body_start, cl) {
        Some(k) => {
            body = input.substring_char(body_start, body_start + k).to_owned();
        },
        None => {
            return Err(ParseError::Body);
        },
    }
    let req = HttpRequest {
        method,
        uri: target.to_owned(),
        version,
        headers,
        body,
        query_params,
    };
    proof {
        let v = spec_decode(input@).unwrap();
        assert(req@.uri =~= v.uri);
        assert(req@.body =~= v.body);
        assert(req@ =~~= v);
    }
    Ok(req)
}


/// The body length the head announces: how much a read loop must still
/// take off the stream after the blank line. A head whose header block is
/// not even well-formed announces nothing.
pub fn declared_content_length(head: &str) -> (r: usize)
    ensures
        r as nat == match spec_parse_headers(head@, line_end(head@, 0)) {
            Some(hp) => hp.content_length.unwrap_or(0),
            None => 0,
        },
{
    let n = head.unicode_len();
    let nl = scan_char(head, 0, '\n');
    let rl_end = if nl == n {
        n
    } else {
        nl + 1
    };
    proof {
        assert(rl_end as int == line_end(head@, 0));
    }
    match read_headers(head, rl_end) {
        Ok((_, cl, _)) => match cl {
            Some(v) => v,
            None => 0,
        },
        Err(_) => 0,
    }
}


} // verus!
