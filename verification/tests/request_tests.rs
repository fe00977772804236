use srv_http::http_constants::{HttpMethod, HttpVersion};
use srv_http::request::http_request;
use srv_http::request::tcp_stream_parser::parse_tcp_stream;
use srv_http::request::{read_http_request, ParseError};

fn test_request() -> &'static str {
    "GET /request?qp1=1&qp2=2 HTTP/1.1\r\n\
header1: header1\r\n\
header2: header2\r\n\
Content-Length: 22\r\n\
\r\n\
<body>some_body</body>\r\n\
\r\n\r\n
"
}

#[test]
fn parses_method() {
    let http_request = read_http_request(test_request()).unwrap();
    assert_eq!(http_request.method, HttpMethod::GET);
}

#[test]
fn parses_uri() {
    let http_request = read_http_request(test_request()).unwrap();
    assert_eq!(http_request.uri, "/request");
}

#[test]
fn parses_query_params() {
    let http_request = read_http_request(test_request()).unwrap();
    let mut query_params = http_request.query_params.iter();
    let first_qp = query_params.next().unwrap();
    let second_qp = query_params.next().unwrap();
    assert_eq!(first_qp, &("qp1".to_string(), "1".to_string()));
    assert_eq!(second_qp, &("qp2".to_string(), "2".to_string()));
}

#[test]
fn parses_version() {
    let http_request = read_http_request(test_request()).unwrap();
    assert_eq!(http_request.version, HttpVersion::Http11);
}

#[test]
fn parses_headers() {
    let http_request = read_http_request(test_request()).unwrap();
    let mut headers = http_request.headers.iter();
    let first_header = headers.next().unwrap();
    let second_header = headers.next().unwrap();
    assert_eq!(first_header, &("header1".to_string(), "header1".to_string()));
    assert_eq!(second_header, &("header2".to_string(), "header2".to_string()));
}

#[test]
fn parses_body() {
    let http_request = read_http_request(test_request()).unwrap();
    let expected = "<body>some_body</body>";
    assert_eq!(http_request.body, expected);
}

#[test]
fn rejects_unknown_method() {
    let r = read_http_request("BREW / HTTP/1.1\r\n\r\n");
    assert!(matches!(r, Err(ParseError::Method)));
}

#[test]
fn rejects_old_version() {
    // a request line carrying HTTP/0.9 is a decode failure
    let r = read_http_request("GET / HTTP/0.9\r\n\r\n");
    assert!(matches!(r, Err(ParseError::Version)));
}

#[test]
fn rejects_missing_tokens() {
    assert!(matches!(read_http_request(""), Err(ParseError::Method)));
    assert!(matches!(read_http_request("GET\r\n\r\n"), Err(ParseError::Uri)));
    assert!(matches!(read_http_request("GET /\r\n\r\n"), Err(ParseError::Version)));
}

#[test]
fn rejects_reserved_uri_characters() {
    let r = read_http_request("GET /a<b HTTP/1.1\r\n\r\n");
    assert!(matches!(r, Err(ParseError::Uri)));
}

#[test]
fn rejects_header_without_separator() {
    let r = read_http_request("GET / HTTP/1.1\r\nbadheader\r\n\r\n");
    assert!(matches!(r, Err(ParseError::Headers)));
}

#[test]
fn rejects_short_body() {
    let r = read_http_request("GET / HTTP/1.1\r\nContent-Length: 10\r\n\r\nabc");
    assert!(matches!(r, Err(ParseError::Body)));
}

#[test]
fn ignores_unreadable_content_length() {
    // a non-numeric length is ignored: the body stays empty
    let req = read_http_request("GET / HTTP/1.1\r\nContent-Length: ten\r\n\r\nabc").unwrap();
    assert_eq!(req.body, "");
    assert_eq!(req.headers.len(), 1);
}

#[test]
fn last_content_length_wins() {
    let req = read_http_request(
        "GET / HTTP/1.1\r\nContent-Length: 1\r\nContent-Length: 3\r\n\r\nabcdef",
    )
    .unwrap();
    assert_eq!(req.body, "abc");
}

#[test]
fn empty_query_value() {
    let req = read_http_request("GET /p?a&b=2 HTTP/1.1\r\n\r\n").unwrap();
    assert_eq!(req.query_params[0], ("a".to_string(), "".to_string()));
    assert_eq!(req.query_params[1], ("b".to_string(), "2".to_string()));
}

#[test]
fn encode_then_decode_round_trip() {
    let first = read_http_request(test_request()).unwrap();
    let wire = first.encode();
    let again = read_http_request(wire.as_str()).unwrap();
    assert_eq!(again.method, HttpMethod::GET);
    assert_eq!(again.uri, "/request");
    assert_eq!(again.version, HttpVersion::Http11);
    assert_eq!(again.headers, first.headers);
    assert_eq!(again.body, first.body);
}

#[test]
fn body_length_counts_bytes() {
    // a two-byte character satisfies a Content-Length of 2
    let req = read_http_request("POST /x HTTP/1.1\r\nContent-Length: 2\r\n\r\n\u{e9}").unwrap();
    assert_eq!(req.body, "\u{e9}");
    // a count that falls inside a character is a body error
    let r = read_http_request("POST /x HTTP/1.1\r\nContent-Length: 1\r\n\r\n\u{e9}");
    assert!(matches!(r, Err(ParseError::Body)));
}

#[test]
fn declared_content_length_reads_head() {
    let head = "POST /animal HTTP/1.1\r\nContent-Length: 8\r\n\r\n";
    assert_eq!(srv_http::request::declared_content_length(head), 8);
    assert_eq!(srv_http::request::declared_content_length("GET / HTTP/1.1\r\n\r\n"), 0);
}

#[test]
fn parse_error_text() {
    assert_eq!(ParseError::Method.text(), "Invalid Method");
    assert_eq!(ParseError::Body.text(), "Invalid Body");
}

#[test]
fn parses_method_token() {
    assert!(matches!(srv_http::request::parse_http_method("POST"), Ok(HttpMethod::POST)));
    assert!(matches!(srv_http::request::parse_http_method("post"), Err(ParseError::Method)));
}

#[test]
fn parses_version_token() {
    assert!(matches!(srv_http::request::parse_http_version("HTTP/1.0"), Ok(HttpVersion::Http10)));
    assert!(matches!(srv_http::request::parse_http_version("HTTP/2"), Err(ParseError::Version)));
}

#[test]
fn validates_uri_characters() {
    assert!(srv_http::request::is_valid_uri("/plain/path?q=1"));
    assert!(!srv_http::request::is_valid_uri("/a|b"));
    assert!(!srv_http::request::is_valid_uri("/tpl/{x}"));
}

#[test]
fn reduced_decoder_reads_first_line() {
    let lines = vec!["GET /where HTTP/1.1".to_string(), "ignored: yes".to_string()];
    let req = http_request::decode(&lines).unwrap();
    assert!(matches!(req.method, http_request::HttpMethod::GET));
    assert_eq!(req.target, "/where");
    assert!(matches!(req.version, http_request::HttpVersion::Http11));
}

#[test]
fn reduced_decoder_rejects_bad_method() {
    let lines = vec!["NOPE /where HTTP/1.1".to_string()];
    assert!(matches!(http_request::decode(&lines), Err(http_request::ParseError::Method)));
}

#[test]
fn stream_parser_reads_request_line() {
    let req = parse_tcp_stream("PUT /thing HTTP/1.0").unwrap();
    assert_eq!(req.target, "/thing");
}

#[test]
fn stream_parser_describes_unknown_method() {
    let err = parse_tcp_stream("NOPE /thing HTTP/1.0").unwrap_err();
    assert_eq!(err.msg(), "Unknown HTTP Method NOPE");
}
