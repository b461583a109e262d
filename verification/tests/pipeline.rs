//! End-to-end tests of the connection pipeline: request-head bytes in,
//! response bytes out, with routing and compression middleware active.

use std::io::Read;

use http_server::handlers::{demo_router, Context, DemoHandler};
use http_server::server::{default_middleware, ConnectionHandler};
use http_server::CompressionFactory;
use http_server::Router;

fn pipeline() -> ConnectionHandler<Router<DemoHandler>, CompressionFactory> {
    ConnectionHandler::new(
        Context { working_dir: String::from(".") },
        demo_router(),
        default_middleware(),
    )
}

/// Split serialized response bytes into (head lines, body).
fn split_response(bytes: &[u8]) -> (Vec<String>, Vec<u8>) {
    let sep = b"\r\n\r\n";
    let pos = bytes.windows(sep.len()).position(|w| w == sep).expect("no blank line");
    let head = String::from_utf8(bytes[..pos].to_vec()).expect("head is not UTF-8");
    let lines = head.split("\r\n").map(|s| s.to_string()).collect();
    (lines, bytes[pos + sep.len()..].to_vec())
}

#[test]
fn test_root() {
    let out = pipeline().handle(b"GET / HTTP/1.1\r\n\r\n").unwrap();
    assert_eq!(out, b"HTTP/1.1 200 OK\r\n\r\n".to_vec());
}

#[test]
fn test_echo() {
    let out = pipeline().handle(b"GET /echo/abc HTTP/1.1\r\n\r\n").unwrap();
    let (lines, body) = split_response(&out);
    assert_eq!(lines[0], "HTTP/1.1 200 OK");
    assert!(lines.contains(&String::from("content-type: text/plain")));
    assert!(lines.contains(&String::from("content-length: 3")));
    assert_eq!(body, b"abc".to_vec());
}

#[test]
fn test_not_found() {
    let out = pipeline().handle(b"GET /missing HTTP/1.1\r\n\r\n").unwrap();
    assert_eq!(out, b"HTTP/1.1 404 Not Found\r\n\r\n".to_vec());
}

#[test]
fn test_user_agent() {
    let out = pipeline()
        .handle(b"GET /user-agent HTTP/1.1\r\nUser-Agent: codecrafters\r\n\r\n")
        .unwrap();
    let (lines, body) = split_response(&out);
    assert_eq!(lines[0], "HTTP/1.1 200 OK");
    assert_eq!(body, b"codecrafters".to_vec());
}

#[test]
fn test_post() {
    let out = pipeline().handle(b"POST /test-post HTTP/1.1\r\n\r\n").unwrap();
    let (lines, _) = split_response(&out);
    assert_eq!(lines[0], "HTTP/1.1 200 OK");
}

#[test]
fn malformed_head_gets_bad_request() {
    let out = pipeline().handle(b"NONSENSE\r\n\r\n").unwrap();
    assert_eq!(out, b"HTTP/1.1 400 Bad Request\r\n\r\n".to_vec());
}

#[test]
fn gzip_applies_when_advertised() {
    let out = pipeline()
        .handle(b"GET /echo/abc HTTP/1.1\r\nAccept-Encoding: gzip\r\n\r\n")
        .unwrap();
    let (lines, body) = split_response(&out);
    assert_eq!(lines[0], "HTTP/1.1 200 OK");
    assert!(lines.contains(&String::from("content-encoding: gzip")));
    // The declared content-length is the compressed byte count, not the
    // original body's length.
    let declared = lines
        .iter()
        .find_map(|l| l.strip_prefix("content-length: ").map(|v| v.to_string()))
        .expect("no content-length");
    assert_eq!(declared, body.len().to_string());
    assert_ne!(body, b"abc".to_vec());
    // The body round-trips through gzip back to the original.
    let mut decoder = flate2::read::GzDecoder::new(&body[..]);
    let mut plain = Vec::new();
    decoder.read_to_end(&mut plain).expect("gzip decode failed");
    assert_eq!(plain, b"abc".to_vec());
}

#[test]
fn gzip_applies_among_other_encodings() {
    let out = pipeline()
        .handle(b"GET /echo/xy HTTP/1.1\r\nAccept-Encoding: deflate, gzip, br\r\n\r\n")
        .unwrap();
    let (lines, _) = split_response(&out);
    assert!(lines.contains(&String::from("content-encoding: gzip")));
}

#[test]
fn gzip_skipped_without_matching_scheme() {
    let out = pipeline()
        .handle(b"GET /echo/abc HTTP/1.1\r\nAccept-Encoding: deflate, gzipped\r\n\r\n")
        .unwrap();
    let (lines, body) = split_response(&out);
    assert!(!lines.iter().any(|l| l.starts_with("content-encoding")));
    assert_eq!(body, b"abc".to_vec());
}

#[test]
fn gzip_leaves_bodyless_responses_alone() {
    // A response without a body has no body-related headers to adjust:
    // the compression hook passes it through unchanged.
    let out = pipeline().handle(b"GET / HTTP/1.1\r\nAccept-Encoding: gzip\r\n\r\n").unwrap();
    assert_eq!(out, b"HTTP/1.1 200 OK\r\n\r\n".to_vec());
}

#[test]
fn gzip_output_is_reproducible() {
    // The locked encoder writes reproducible streams: the same body
    // compresses to the same bytes on every run.
    let first = pipeline()
        .handle(b"GET /echo/abc HTTP/1.1\r\nAccept-Encoding: gzip\r\n\r\n")
        .unwrap();
    let second = pipeline()
        .handle(b"GET /echo/abc HTTP/1.1\r\nAccept-Encoding: gzip\r\n\r\n")
        .unwrap();
    assert_eq!(first, second);
}
