//! A reduced decoder that reads the request line alone: method, target and
//! version, with no headers, query or body handling.

use vstd::prelude::*;

use crate::text::{find_non_space, find_space, scan_non_space, scan_space, str_eq};

verus! {

/// Why the request line could not be read. `IO` stands for a failure of
/// the read itself, which the caller doing the reading reports.
#[derive(Debug, PartialEq, Eq, Structural, Clone, Copy)]
pub enum ParseError {
    Method,
    Version,
    Uri,
    IO,
}

/// The request methods the reduced decoder understands.
#[derive(Debug, PartialEq, Eq, Structural, Clone, Copy)]
pub enum HttpMethod {
    GET,
    POST,
    PUT,
    DELETE,
}

/// The protocol versions the reduced decoder understands.
#[derive(Debug, PartialEq, Eq, Structural, Clone, Copy)]
pub enum HttpVersion {
    Http10,
    Http11,
}

/// A request line, decoded.
#[derive(Debug)]
pub struct HttpRequest {
    pub method: HttpMethod,
    pub target: String,
    pub version: HttpVersion,
}

/// How a method token reads.
pub open spec fn spec_parse_http_method(s: Seq<char>) -> Result<HttpMethod, ParseError> {
    if s == "GET"@ {
        Ok(HttpMethod::GET)
    } else if s == "POST"@ {
        Ok(HttpMethod::POST)
    } else if s == "PUT"@ {
        Ok(HttpMethod::PUT)
    } else if s == "DELETE"@ {
        Ok(HttpMethod::DELETE)
    } else {
        Err(ParseError::Method)
    }
}

/// Reads a method token.
pub fn parse_http_method(method: &str) -> (r: Result<HttpMethod, ParseError>)
    ensures
        r == spec_parse_http_method(method@),
{
    if str_eq(method, "GET") {
        Ok(HttpMethod::GET)
    } else if str_eq(method, "POST") {
        Ok(HttpMethod::POST)
    } else if str_eq(method, "PUT") {
        Ok(HttpMethod::PUT)
    } else if str_eq(method, "DELETE") {
        Ok(HttpMethod::DELETE)
    } else {
        Err(ParseError::Method)
    }
}

/// How a version token reads.
pub open spec fn spec_parse_http_version(s: Seq<char>) -> Result<HttpVersion, ParseError> {
    if s == "HTTP/1.0"@ {
        Ok(HttpVersion::Http10)
    } else if s == "HTTP/1.1"@ {
        Ok(HttpVersion::Http11)
    } else {
        Err(ParseError::Version)
    }
}

/// Reads a version token.
pub fn parse_http_version(version: &str) -> (r: Result<HttpVersion, ParseError>)
    ensures
        r == spec_parse_http_version(version@),
{
    if str_eq(version, "HTTP/1.0") {
        Ok(HttpVersion::Http10)
    } else if str_eq(version, "HTTP/1.1") {
        Ok(HttpVersion::Http11)
    } else {
        Err(ParseError::Version)
    }
}

/// How the reduced decoder reads the first head line: three
/// whitespace-separated tokens, anything after them ignored.
pub open spec fn spec_decode(line: Seq<char>) -> Result<(HttpMethod, Seq<char>, HttpVersion),
    ParseError,
> {
    let m0 = find_non_space(line, 0);
    if m0 >= line.len() {
        Err(ParseError::Method)
    } else {
        let m1 = find_space(line, m0);
        let u0 = find_non_space(line, m1);
        if u0 >= line.len() {
            Err(ParseError::Uri)
        } else {
            let u1 = find_space(line, u0);
            let v0 = find_non_space(line, u1);
            if v0 >= line.len() {
                Err(ParseError::Version)
            } else {
                let v1 = find_space(line, v0);
                match spec_parse_http_method(line.subrange(m0, m1)) {
                    Err(e) => Err(e),
                    Ok(method) => match spec_parse_http_version(line.subrange(v0, v1)) {
                        Err(e) => Err(e),
                        Ok(version) => Ok((method, line.subrange(u0, u1), version)),
                    },
                }
            }
        }
    }
}

/// Decodes a request from the head lines already read off the stream: only
/// the first line is inspected. The caller reads the lines and must hand
/// over at least one.
pub fn decode(lines: &Vec<String>) -> (r: Result<HttpRequest, ParseError>)
    requires
        lines@.len() > 0,
    ensures
        match r {
            Ok(req) => spec_decode(lines@[0]@) == Ok::<_, ParseError>(
                (req.method, req.target@, req.version),
            ),
            Err(e) => spec_decode(lines@[0]@) == Err::<(HttpMethod, Seq<char>, HttpVersion), _>(e),
        },
{
    let header = &lines[0];
    let line = header.as_str();
    let n = line.unicode_len();
    let m0 = scan_non_space(line, 0);
    if m0 >= n {
        return Err(ParseError::Method);
    }
    let m1 = scan_space(line, m0);
    let u0 = scan_non_space(line, m1);
    if u0 >= n {
        return Err(ParseError::Uri);
    }
    let u1 = scan_space(line, u0);
    let v0 = scan_non_space(line, u1);
    if v0 >= n {
        return Err(ParseError::Version);
    }
    let v1 = scan_space(line, v0);
    let method = match parse_http_method(line.substring_char(m0, m1)) {
        Ok(m) => m,
        Err(e) => {
            return Err(e);
        },
    };
    let version = match parse_http_version(line.substring_char(v0, v1)) {
        Ok(v) => v,
        Err(e) => {
            return Err(e);
        },
    };
    let target = line.substring_char(u0, u1).to_owned();
    Ok(HttpRequest { method, target, version })
}

} // verus!
