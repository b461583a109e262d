//! Tests of the wire codec: request-head parsing, header lookup and
//! update, decimal formatting, and response serialization.

use http_server::ascii::{dec_parse, u64_to_dec};
use http_server::codec::{parse_request, serialize_error, serialize_response};
use http_server::types::{HttpStatus, Method, Response};

#[test]
fn parse_simple_get() {
    let req = parse_request(b"GET / HTTP/1.1\r\n\r\n").unwrap();
    assert_eq!(req.method, Method::Get);
    assert_eq!(req.path, b"/".to_vec());
    assert!(req.headers.is_empty());
    assert!(req.matches.is_none());
    assert!(req.body.is_none());
}

#[test]
fn parse_post_with_headers() {
    let head = b"POST /files/data.txt HTTP/1.1\r\nContent-Length: 5\r\nHost: localhost\r\n\r\n";
    let req = parse_request(head).unwrap();
    assert_eq!(req.method, Method::Post);
    assert_eq!(req.path, b"/files/data.txt".to_vec());
    assert_eq!(req.headers.len(), 2);
    assert_eq!(req.headers[0].0, b"Content-Length".to_vec());
    assert_eq!(req.headers[0].1, b"5".to_vec());
    assert_eq!(req.headers[1].0, b"Host".to_vec());
    assert_eq!(req.headers[1].1, b"localhost".to_vec());
}

#[test]
fn parse_stops_at_blank_line() {
    let head = b"GET /a HTTP/1.1\r\nX-One: 1\r\n\r\nnot: a-header\r\n";
    let req = parse_request(head).unwrap();
    assert_eq!(req.headers.len(), 1);
    assert_eq!(req.headers[0].0, b"X-One".to_vec());
}

#[test]
fn parse_accepts_bare_newlines() {
    let req = parse_request(b"GET /x HTTP/1.1\nUser-Agent: curl\n\n").unwrap();
    assert_eq!(req.path, b"/x".to_vec());
    assert_eq!(req.headers[0].1, b"curl".to_vec());
}

#[test]
fn parse_rejects_bad_heads() {
    // Empty input: no request line at all.
    assert!(parse_request(b"").is_err());
    // Unknown method.
    assert!(parse_request(b"PUT /x HTTP/1.1\r\n\r\n").is_err());
    // Wrong protocol version.
    assert!(parse_request(b"GET /x HTTP/1.0\r\n\r\n").is_err());
    // Path must start with a slash.
    assert!(parse_request(b"GET x HTTP/1.1\r\n\r\n").is_err());
    // Missing path.
    assert!(parse_request(b"GET HTTP/1.1\r\n\r\n").is_err());
    // Malformed header line (no value).
    assert!(parse_request(b"GET /x HTTP/1.1\r\nBroken:\r\n\r\n").is_err());
    // Malformed header line (no colon before the space).
    assert!(parse_request(b"GET /x HTTP/1.1\r\nBroken header\r\n\r\n").is_err());
}

#[test]
fn get_header_is_case_insensitive_first_match() {
    let head = b"GET / HTTP/1.1\r\nUser-Agent: first\r\nuser-agent: second\r\n\r\n";
    let req = parse_request(head).unwrap();
    assert_eq!(req.get_header(b"USER-AGENT").unwrap(), &b"first".to_vec());
    assert_eq!(req.get_header(b"user-agent").unwrap(), &b"first".to_vec());
    assert!(req.get_header(b"accept").is_none());
}

#[test]
fn set_header_overwrites_first_match_or_appends() {
    let mut resp = Response::empty();
    resp.set_header(b"X-Tag".to_vec(), b"one".to_vec());
    resp.set_header(b"x-tag".to_vec(), b"two".to_vec());
    assert_eq!(resp.headers.len(), 1);
    // The original key casing is kept; the value is replaced.
    assert_eq!(resp.headers[0].0, b"X-Tag".to_vec());
    assert_eq!(resp.headers[0].1, b"two".to_vec());
    resp.set_header(b"X-Other".to_vec(), b"three".to_vec());
    assert_eq!(resp.headers.len(), 2);
    assert_eq!(resp.get_header(b"x-other").unwrap(), &b"three".to_vec());
}

#[test]
fn decimal_formatting_is_exact() {
    assert_eq!(u64_to_dec(0), b"0".to_vec());
    assert_eq!(u64_to_dec(7), b"7".to_vec());
    assert_eq!(u64_to_dec(10), b"10".to_vec());
    assert_eq!(u64_to_dec(1234567890), b"1234567890".to_vec());
    assert_eq!(u64_to_dec(u64::MAX), b"18446744073709551615".to_vec());
}

#[test]
fn serialize_plain_text_response() {
    let resp = Response::plain_text(String::from("abc"));
    let bytes = serialize_response(&resp);
    assert_eq!(
        bytes,
        b"HTTP/1.1 200 OK\r\ncontent-length: 3\r\ncontent-type: text/plain\r\n\r\nabc".to_vec()
    );
}

#[test]
fn serialize_binary_response_content_length_is_exact() {
    // The declared content-length equals the body length, byte for byte.
    let body: Vec<u8> = vec![0, 1, 2, 3, 255];
    let resp = Response::binary(body.clone());
    let bytes = serialize_response(&resp);
    let expected_head =
        b"HTTP/1.1 200 OK\r\ncontent-length: 5\r\ncontent-type: application/octet-stream\r\n\r\n";
    assert_eq!(&bytes[..expected_head.len()], &expected_head[..]);
    assert_eq!(&bytes[expected_head.len()..], &body[..]);
}

#[test]
fn serialize_empty_and_created() {
    assert_eq!(serialize_response(&Response::empty()), b"HTTP/1.1 200 OK\r\n\r\n".to_vec());
    assert_eq!(
        serialize_response(&Response::created()),
        b"HTTP/1.1 201 Created\r\n\r\n".to_vec()
    );
}

#[test]
fn serialize_error_statuses() {
    assert_eq!(
        serialize_error(HttpStatus::NotFound),
        b"HTTP/1.1 404 Not Found\r\n\r\n".to_vec()
    );
    assert_eq!(
        serialize_error(HttpStatus::BadRequest),
        b"HTTP/1.1 400 Bad Request\r\n\r\n".to_vec()
    );
    assert_eq!(
        serialize_error(HttpStatus::ServerError),
        b"HTTP/1.1 500 Internal Server Error\r\n\r\n".to_vec()
    );
}

#[test]
fn decimal_parsing_is_exact() {
    assert_eq!(dec_parse(b"0"), Some(0));
    assert_eq!(dec_parse(b"42"), Some(42));
    assert_eq!(dec_parse(b"007"), Some(7));
    assert_eq!(dec_parse(b"18446744073709551615"), Some(u64::MAX));
    // Empty, non-digit, and overflowing inputs are rejected.
    assert_eq!(dec_parse(b""), None);
    assert_eq!(dec_parse(b"12a"), None);
    assert_eq!(dec_parse(b"-1"), None);
    assert_eq!(dec_parse(b"18446744073709551616"), None);
}
