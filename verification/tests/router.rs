//! Tests of routing: first-match dispatch, capture groups, and the
//! NotFound outcome for unmatched requests.

use http_server::codec::parse_request;
use http_server::handlers::{demo_router, Context, DemoHandler, Handler, Router};
use http_server::types::{HttpError, HttpStatus, Method};

fn ctx() -> Context {
    Context { working_dir: String::from(".") }
}

#[test]
fn dispatch_matches_method_and_path() {
    let router = demo_router();
    let req = parse_request(b"GET / HTTP/1.1\r\n\r\n").unwrap();
    let resp = router.handle(&ctx(), req).unwrap();
    assert_eq!(resp.status, HttpStatus::OK);
    assert!(resp.body.is_none());
}

#[test]
fn dispatch_attaches_regex_captures() {
    let router = demo_router();
    let req = parse_request(b"GET /echo/hello-world HTTP/1.1\r\n\r\n").unwrap();
    let resp = router.handle(&ctx(), req).unwrap();
    assert_eq!(resp.status, HttpStatus::OK);
    assert_eq!(resp.body, Some(b"hello-world".to_vec()));
    assert_eq!(resp.get_header(b"content-length").unwrap(), &b"11".to_vec());
}

#[test]
fn dispatch_filters_by_method() {
    let router = demo_router();
    // GET /test-post is registered before POST /test-post and fails.
    let get = parse_request(b"GET /test-post HTTP/1.1\r\n\r\n").unwrap();
    assert_eq!(router.handle(&ctx(), get).unwrap_err(), HttpError(HttpStatus::BadRequest));
    // The POST route succeeds.
    let post = parse_request(b"POST /test-post HTTP/1.1\r\n\r\n").unwrap();
    let resp = router.handle(&ctx(), post).unwrap();
    assert_eq!(resp.status, HttpStatus::OK);
}

#[test]
fn dispatch_takes_first_registered_match() {
    // Two routes match the same path; the first registered one wins.
    let router = Router::default()
        .route(Method::Get, "^/dup$", DemoHandler::Error(HttpStatus::ServerError))
        .route(Method::Get, "^/dup$", DemoHandler::Root);
    let req = parse_request(b"GET /dup HTTP/1.1\r\n\r\n").unwrap();
    assert_eq!(router.handle(&ctx(), req).unwrap_err(), HttpError(HttpStatus::ServerError));
}

#[test]
fn dispatch_unmatched_is_not_found() {
    let router = demo_router();
    let req = parse_request(b"GET /missing HTTP/1.1\r\n\r\n").unwrap();
    assert_eq!(router.handle(&ctx(), req).unwrap_err(), HttpError(HttpStatus::NotFound));
    // An unregistered method misses too, even on a known path.
    let post = parse_request(b"POST /echo/abc HTTP/1.1\r\n\r\n").unwrap();
    assert_eq!(router.handle(&ctx(), post).unwrap_err(), HttpError(HttpStatus::NotFound));
}

#[test]
fn try_route_rejects_invalid_patterns() {
    let (router, ok) = Router::default().try_route(Method::Get, "^/ok$", DemoHandler::Root);
    assert!(ok);
    let (router, ok2) = router.try_route(Method::Get, "([unclosed", DemoHandler::Root);
    assert!(!ok2);
    assert_eq!(router.routes.len(), 1);
}

#[test]
fn user_agent_route_echoes_header() {
    let router = demo_router();
    let req =
        parse_request(b"GET /user-agent HTTP/1.1\r\nUser-Agent: tester/1.0\r\n\r\n").unwrap();
    let resp = router.handle(&ctx(), req).unwrap();
    assert_eq!(resp.body, Some(b"tester/1.0".to_vec()));
    // Without the header the route reports a client error.
    let bare = parse_request(b"GET /user-agent HTTP/1.1\r\n\r\n").unwrap();
    assert_eq!(router.handle(&ctx(), bare).unwrap_err(), HttpError(HttpStatus::BadRequest));
}
