use srv_http::http_constants::HttpMethod;
use srv_http::request::{HttpRequest, ParseError};
use srv_http::response::HttpResponse;
use srv_http::server::{
    find_route, handle_request_text, respond_to, RegexRoute, RouteAddress, RouteDecision,
};
use srv_http::service::RouteHandler;
use srv_http::services::example_services::{AnimalResponder, HomeHandler};

/// A closed set of handlers for these tests, dispatched by variant.
enum TestHandler {
    Home(HomeHandler),
    Animal(AnimalResponder),
}

impl RouteHandler for TestHandler {
    fn respond(&self, request: HttpRequest) -> HttpResponse {
        match self {
            TestHandler::Home(h) => h.respond(request),
            TestHandler::Animal(h) => h.respond(request),
        }
    }
}

fn test_routes() -> Vec<RegexRoute<TestHandler>> {
    vec![
        RegexRoute {
            uri: RouteAddress::new("/".to_string()),
            method: HttpMethod::GET,
            handler: TestHandler::Home(HomeHandler),
        },
        RegexRoute {
            uri: RouteAddress::new("/animal".to_string()),
            method: HttpMethod::POST,
            handler: TestHandler::Animal(AnimalResponder),
        },
    ]
}

#[test]
fn get_root_gives_empty_success() {
    let routes = test_routes();
    let reply = handle_request_text(&routes, "GET / HTTP/1.1\r\n\r\n");
    assert_eq!(reply, "HTTP/1.1 200 OK\r\n\r\n");
}

#[test]
fn missing_path_gives_not_found() {
    let routes = test_routes();
    let reply = handle_request_text(&routes, "GET /missing HTTP/1.1\r\n\r\n");
    assert_eq!(reply, "HTTP/1.1 404 Not Found\r\n\r\n");
}

#[test]
fn animal_lookup_renders_json() {
    let routes = test_routes();
    let reply = handle_request_text(
        &routes,
        "POST /animal HTTP/1.1\r\nContent-Length: 8\r\n\r\n{\"id\":1}",
    );
    assert_eq!(
        reply,
        "HTTP/1.1 200 OK\r\nContent-Type: application/json; charset=utf-8\r\nContent-Length: 14\r\n\r\n{\"name\":\"Dog\"}"
    );
}

#[test]
fn unknown_animal_gives_not_found() {
    let routes = test_routes();
    let reply = handle_request_text(
        &routes,
        "POST /animal HTTP/1.1\r\nContent-Length: 9\r\n\r\n{\"id\":99}",
    );
    assert_eq!(reply, "HTTP/1.1 404 Not Found\r\n\r\n");
}

#[test]
fn wrong_method_gives_method_not_allowed() {
    let routes = test_routes();
    let reply = handle_request_text(&routes, "PUT / HTTP/1.1\r\n\r\n");
    assert_eq!(reply, "HTTP/1.1 405 Method Not Allowed\r\n\r\n");
}

#[test]
fn undecodable_request_gives_bad_request() {
    let routes = test_routes();
    let reply = handle_request_text(&routes, "GET / HTTP/0.9\r\n\r\n");
    assert_eq!(reply, "HTTP/1.1 400 Bad Request\r\n\r\n");
}

#[test]
fn second_animal_is_known() {
    let routes = test_routes();
    let request = srv_http::request::read_http_request(
        "POST /animal HTTP/1.1\r\nContent-Length: 8\r\n\r\n{\"id\":2}",
    )
    .unwrap();
    let response = respond_to(&routes, request);
    assert_eq!(response.status_code, 200);
    assert_eq!(response.body, "{\"name\":\"Cat\"}");
}

#[test]
fn malformed_animal_body_is_bad_request() {
    let routes = test_routes();
    let reply = handle_request_text(
        &routes,
        "POST /animal HTTP/1.1\r\nContent-Length: 7\r\n\r\nnotjson",
    );
    assert_eq!(reply, "HTTP/1.1 400 Bad Request\r\n\r\n");
}

#[test]
fn method_precedence_ignores_registration_order() {
    // two routes on the same pattern, different methods: the request's
    // method picks the route, wherever the other stands
    let routes = vec![
        RegexRoute {
            uri: RouteAddress::new("/".to_string()),
            method: HttpMethod::PUT,
            handler: TestHandler::Home(HomeHandler),
        },
        RegexRoute {
            uri: RouteAddress::new("/".to_string()),
            method: HttpMethod::GET,
            handler: TestHandler::Home(HomeHandler),
        },
    ];
    let d = find_route(&routes, HttpMethod::GET, &"/".to_string());
    assert_eq!(d, RouteDecision::Matched(1));
    let d = find_route(&routes, HttpMethod::PUT, &"/".to_string());
    assert_eq!(d, RouteDecision::Matched(0));
    let d = find_route(&routes, HttpMethod::POST, &"/".to_string());
    assert_eq!(d, RouteDecision::MethodNotAllowed);
    let d = find_route(&routes, HttpMethod::GET, &"/elsewhere".to_string());
    assert_eq!(d, RouteDecision::NotFound);
}

#[test]
fn template_compilation_records_placeholders() {
    let addr = RouteAddress::new("/user/{id}/posts/{pid}".to_string());
    assert_eq!(addr.uri_params, vec!["id".to_string(), "pid".to_string()]);
    assert_eq!(addr.uri_template, "/user/{id}/posts/{pid}");
}

#[test]
fn matching_extracts_segment_values() {
    let addr = RouteAddress::new("/user/{id}/posts/{pid}".to_string());
    assert!(addr.is_match(&"/user/7/posts/91".to_string()));
    let params = addr.extract_uri_params(&"/user/7/posts/91".to_string()).unwrap();
    assert_eq!(
        params,
        vec![
            ("id".to_string(), "7".to_string()),
            ("pid".to_string(), "91".to_string()),
        ]
    );
}

#[test]
fn wildcard_never_crosses_a_segment() {
    let addr = RouteAddress::new("/user/{id}".to_string());
    assert!(!addr.is_match(&"/user/7/posts".to_string()));
    assert!(!addr.is_match(&"/user/".to_string()));
    assert!(addr.extract_uri_params(&"/user/7/posts".to_string()).is_err());
}

#[test]
fn pattern_is_anchored_at_the_end_only() {
    // the pattern is anchored at the end only: a match may begin inside
    // the path
    let addr = RouteAddress::new("/animal".to_string());
    assert!(addr.is_match(&"/animal".to_string()));
    assert!(addr.is_match(&"/zoo/animal".to_string()));
    assert!(!addr.is_match(&"/animal/detail".to_string()));
}

#[test]
fn extraction_is_leftmost_and_greedy() {
    // between two readings of an ambiguous template, each wildcard takes
    // the longest run that still lets the rest of the pattern match
    let addr = RouteAddress::new("/files/{a}x{b}".to_string());
    let params = addr.extract_uri_params(&"/files/1x2x3".to_string()).unwrap();
    assert_eq!(
        params,
        vec![
            ("a".to_string(), "1x2".to_string()),
            ("b".to_string(), "3".to_string()),
        ]
    );
}

#[test]
fn handle_request_is_deterministic_for_errors() {
    let routes: Vec<RegexRoute<TestHandler>> = Vec::new();
    let reply = handle_request_text(&routes, "GET /anything HTTP/1.1\r\n\r\n");
    assert_eq!(reply, "HTTP/1.1 404 Not Found\r\n\r\n");
}

#[test]
fn parse_error_maps_to_bad_request_text() {
    let _ = ParseError::RequestLine;
    let resp = srv_http::response::response::HttpResponse::new(400);
    assert_eq!(resp.build(), "HTTP/1.1 400 Bad Request\r\n\r\n");
    let resp = srv_http::response::response::HttpResponse::new(200);
    assert_eq!(resp.build(), "HTTP/1.1 200 OK\r\n\r\n");
}
