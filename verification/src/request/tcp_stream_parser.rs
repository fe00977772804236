//! Request-line parsing with described failures: the same three tokens as
//! the reduced decoder, but each rejection carries a message naming what
//! was missing or unknown.

use vstd::prelude::*;

use crate::request::http_request::{HttpMethod, HttpRequest, HttpVersion};
use crate::text::{find_non_space, find_space, scan_non_space, scan_space, str_eq};

verus! {

/// A described parse failure.
#[derive(Debug, Clone)]
pub struct TcpStreamError(String);

impl TcpStreamError {
    /// The failure's description.
    pub closed spec fn spec_msg(self) -> Seq<char> {
        self.0@
    }

    /// The failure's description.
    pub fn msg(&self) -> (r: &str)
        ensures
            r@ == self.spec_msg(),
    {
        self.0.as_str()
    }
}

/// Reads a method token, describing an unknown one.
pub fn parse_http_method(method: &str) -> (r: Result<HttpMethod, TcpStreamError>)
    ensures
        match r {
            Ok(m) => crate::request::http_request::spec_parse_http_method(method@) == Ok::<
                _,
                crate::request::http_request::ParseError,
            >(m),
            Err(e) => {
                &&& crate::request::http_request::spec_parse_http_method(method@) is Err
                &&& e.spec_msg() == "Unknown HTTP Method "@ + method@
            },
        },
{
    if str_eq(method, "GET") {
        Ok(HttpMethod::GET)
    } else if str_eq(method, "POST") {
        Ok(HttpMethod::POST)
    } else if str_eq(method, "PUT") {
        Ok(HttpMethod::PUT)
    } else if str_eq(method, "DELETE") {
        Ok(HttpMethod::DELETE)
    } else {
        let mut m = "Unknown HTTP Method ".to_owned();
        m.append(method);
        Err(TcpStreamError(m))
    }
}

/// Reads a version token, describing an unknown one.
pub fn parse_http_version(version: &str) -> (r: Result<HttpVersion, TcpStreamError>)
    ensures
        match r {
            Ok(v) => crate::request::http_request::spec_parse_http_version(version@) == Ok::<
                _,
                crate::request::http_request::ParseError,
            >(v),
            Err(e) => {
                &&& crate::request::http_request::spec_parse_http_version(version@) is Err
                &&& e.spec_msg() == "Unknown HTTP Version "@ + version@
            },
        },
{
    if str_eq(version, "HTTP/1.0") {
        Ok(HttpVersion::Http10)
    } else if str_eq(version, "HTTP/1.1") {
        Ok(HttpVersion::Http11)
    } else {
        let mut m = "Unknown HTTP Version ".to_owned();
        m.append(version);
        Err(TcpStreamError(m))
    }
}

/// Which description each rejected request line gets: a missing token is
/// named, an unknown method or version token is quoted.
pub open spec fn spec_line_error_msg(line: Seq<char>) -> Seq<char> {
    let m0 = find_non_space(line, 0);
    if m0 >= line.len() {
        "no method found"@
    } else {
        let m1 = find_space(line, m0);
        let u0 = find_non_space(line, m1);
        if u0 >= line.len() {
            "no target found"@
        } else {
            let u1 = find_space(line, u0);
            let v0 = find_non_space(line, u1);
            if v0 >= line.len() {
                "no version found"@
            } else {
                let v1 = find_space(line, v0);
                if crate::request::http_request::spec_parse_http_method(
                    line.subrange(m0, m1),
                ) is Err {
                    "Unknown HTTP Method "@ + line.subrange(m0, m1)
                } else {
                    "Unknown HTTP Version "@ + line.subrange(v0, v1)
                }
            }
        }
    }
}

/// Parses the request line a stream began with. The caller reads the line;
/// an empty or truncated stream is its own failure to report.
pub fn parse_tcp_stream(request_line: &str) -> (r: Result<HttpRequest, TcpStreamError>)
    ensures
        match r {
            Ok(req) => crate::request::http_request::spec_decode(request_line@) == Ok::<
                _,
                crate::request::http_request::ParseError,
            >((req.method, req.target@, req.version)),
            Err(e) => {
                &&& crate::request::http_request::spec_decode(request_line@) is Err
                &&& e.spec_msg() == spec_line_error_msg(request_line@)
            },
        },
{
    let line = request_line;
    let n = line.unicode_len();
    let m0 = scan_non_space(line, 0);
    if m0 >= n {
        return Err(TcpStreamError("no method found".to_owned()));
    }
    let m1 = scan_space(line, m0);
    let u0 = scan_non_space(line, m1);
    if u0 >= n {
        return Err(TcpStreamError("no target found".to_owned()));
    }
    let u1 = scan_space(line, u0);
    let v0 = scan_non_space(line, u1);
    if v0 >= n {
        return Err(TcpStreamError("no version found".to_owned()));
    }
    let v1 = scan_space(line, v0);
    let method = match parse_http_method(line.substring_char(m0, m1)) {
        Ok(m) => m,
        Err(e) => {
            return Err(e);
        },
    };
    let version = match parse_http_version(line.substring_char(v0, v1)) {
        Ok(v) => v,
        Err(e) => {
            return Err(e);
        },
    };
    let target = line.substring_char(u0, u1).to_owned();
    Ok(HttpRequest { method, target, version })
}

} // verus!
