use srv_http::response::HttpResponse;
use srv_http::server_builder::HttpServerBuilder;
use srv_http::service::{HttpService, Route};
use srv_http::services::example_services::{parse_animal_request, AnimalResponse, HomeHandler};
use srv_http::services::test_service::{AnimalRequest, JsonResponder};
use srv_http::handler::handle::process_request;
use srv_http::http_constants::HttpMethod;
use srv_http::request::http_request::decode;
use srv_http::service::{JsonRouteHandler, RouteHandler};
use srv_http::text::{parse_usize_str, usize_to_string};

#[test]
fn builds_status_line_and_headers() {
    let mut resp = HttpResponse::new(200);
    resp.headers.push(("X-One".to_string(), "1".to_string()));
    resp.headers.push(("X-Two".to_string(), "2".to_string()));
    resp.body = "hello".to_string();
    assert_eq!(resp.build(), "HTTP/1.1 200 OK\r\nX-One: 1\r\nX-Two: 2\r\n\r\nhello");
}

#[test]
fn builds_unreasoned_status_codes_too() {
    let resp = HttpResponse::new(299);
    assert_eq!(resp.build(), "HTTP/1.1 299 <unknown status code>\r\n\r\n");
}

#[test]
fn json_installs_body_and_lengths() {
    let resp = HttpResponse::new(200).json(Some("{\"name\":\"Dog\"}".to_string()));
    assert_eq!(resp.status_code, 200);
    assert_eq!(resp.body, "{\"name\":\"Dog\"}");
    assert_eq!(
        resp.headers,
        vec![
            (
                "Content-Type".to_string(),
                "application/json; charset=utf-8".to_string()
            ),
            ("Content-Length".to_string(), "14".to_string()),
        ]
    );
}

#[test]
fn json_failure_becomes_internal_error() {
    let resp = HttpResponse::new(200).json(None);
    assert_eq!(resp.status_code, 500);
    assert_eq!(resp.body, "");
    assert_eq!(
        resp.headers,
        vec![(
            "Content-Type".to_string(),
            "application/json; charset=utf-8".to_string()
        )]
    );
}

#[test]
fn json_length_counts_bytes() {
    let resp = HttpResponse::new(200).json(Some("\u{e9}".to_string()));
    assert_eq!(resp.headers[1], ("Content-Length".to_string(), "2".to_string()));
}

#[test]
fn json_empty_body_gets_no_length() {
    let resp = HttpResponse::new(200).json(Some(String::new()));
    assert_eq!(resp.body, "");
    assert_eq!(resp.headers.len(), 1);
}

#[test]
fn animal_json_renders_exactly() {
    let animal = AnimalResponse { name: "Dog".to_string() };
    assert_eq!(animal.to_json(), "{\"name\":\"Dog\"}");
}

#[test]
fn animal_body_grammar() {
    assert_eq!(parse_animal_request("{\"id\":1}"), Some(1));
    assert_eq!(parse_animal_request(" { \"id\" : 42 } "), Some(42));
    assert_eq!(parse_animal_request("{\"id\":}"), None);
    assert_eq!(parse_animal_request("{\"id\":1} trailing"), None);
    assert_eq!(parse_animal_request("{\"name\":1}"), None);
    assert_eq!(parse_animal_request("{\"id\":99999999999999999999999}"), None);
    assert_eq!(parse_animal_request("{\"id\":0}"), Some(0));
    assert_eq!(parse_animal_request("{\"id\":01}"), None);
}

#[test]
fn json_responder_processes_objects() {
    let resp = JsonResponder.process(AnimalRequest { id: 1 });
    assert_eq!(resp.body, "{\"name\":\"Dog\"}");
    let resp = JsonResponder.process(AnimalRequest { id: 9 });
    assert_eq!(resp.status_code, 404);
}

#[test]
fn json_responder_answers_requests() {
    let request = srv_http::request::read_http_request(
        "POST /animal HTTP/1.1\r\nContent-Length: 8\r\n\r\n{\"id\":2}",
    )
    .unwrap();
    let resp = JsonResponder.respond(request);
    assert_eq!(resp.status_code, 200);
    assert_eq!(resp.body, "{\"name\":\"Cat\"}");
}

#[test]
fn builder_accumulates_configuration() {
    let builder = HttpServerBuilder::new()
        .bind("127.0.0.1:3001")
        .worker_pool_limit(32)
        .add_route(Route::new("/", HttpMethod::GET, HomeHandler))
        .add_route(Route::new("/animal/{id}", HttpMethod::POST, HomeHandler));
    let (bindings, routes, limit) = builder.into_parts();
    assert_eq!(bindings, vec!["127.0.0.1:3001".to_string()]);
    assert_eq!(limit, 32);
    assert_eq!(routes.len(), 2);
    assert_eq!(routes[1].uri.uri_template, "/animal/{id}");
    assert_eq!(routes[1].uri.uri_params, vec!["id".to_string()]);
    assert_eq!(routes[1].method, HttpMethod::POST);
}

#[test]
fn builder_default_pool_limit() {
    let builder: HttpServerBuilder<HomeHandler> = HttpServerBuilder::new();
    let (_, _, limit) = builder.into_parts();
    assert_eq!(limit, 16);
}

#[test]
fn service_collects_routes() {
    let mut service: HttpService<HomeHandler> = HttpService::new();
    service.add_route(Route::new("/", HttpMethod::GET, HomeHandler));
    let a = Route::new("/x", HttpMethod::GET, HomeHandler);
    let b = Route::new("/x", HttpMethod::GET, HomeHandler);
    let c = Route::new("/x", HttpMethod::PUT, HomeHandler);
    assert!(a == b);
    assert!(a != c);
}

#[test]
fn basic_handler_decides_canned_routes() {
    let lines = vec!["GET /sleep HTTP/1.1".to_string()];
    let req = decode(&lines).unwrap();
    let (pause, resp) = process_request(&req);
    assert!(pause);
    assert_eq!(resp.build(), "HTTP/1.1 200 OK\r\n\r\n");
    let lines = vec!["GET /nowhere HTTP/1.1".to_string()];
    let req = decode(&lines).unwrap();
    let (pause, resp) = process_request(&req);
    assert!(!pause);
    assert_eq!(resp.build(), "HTTP/1.1 400 Bad Request\r\n\r\n");
}

#[test]
fn decimal_rendering_and_reading() {
    assert_eq!(usize_to_string(0), "0");
    assert_eq!(usize_to_string(90210), "90210");
    assert_eq!(parse_usize_str("22"), Some(22));
    assert_eq!(parse_usize_str("+7"), Some(7));
    assert_eq!(parse_usize_str(""), None);
    assert_eq!(parse_usize_str("1x"), None);
    assert_eq!(parse_usize_str("99999999999999999999999999"), None);
}
