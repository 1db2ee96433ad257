use cjk_proxy::http::head::{HttpCommon, HttpRequest, HttpResponse};
use cjk_proxy::http::{HttpError, HttpUrl};

#[test]
fn request_head_parses() {
    let raw = b"GET http://example.com/index.html HTTP/1.1\r\nHost: example.com\r\nContent-Length: 12\r\n\r\nhello";
    let (n, req) = HttpRequest::parse(raw).unwrap().unwrap();
    assert_eq!(n, raw.len() - 5);
    assert_eq!(req.method, "get");
    assert_eq!(req.url.to_text(), "http://example.com:80/index.html");
    assert_eq!(req.common.get_header("HOST"), Some("example.com"));
    assert_eq!(req.common.get_content_length(), Some(12));
    assert_eq!(req.common.get_content_type(), None);
}

#[test]
fn request_head_partial_and_invalid() {
    assert!(HttpRequest::parse(b"GET / HTTP/1.1\r\nHost: a").unwrap().is_none());
    assert_eq!(HttpRequest::parse(b"\x05\x01\x00").unwrap_err(), HttpError::Malformed);
    // A target without a scheme or a port is refused.
    assert_eq!(HttpRequest::parse(b"GET example.com HTTP/1.1\r\n\r\n").unwrap_err(), HttpError::PortRequired);
}

#[test]
fn stream_request_accepts_paths() {
    let raw = b"POST /api/config HTTP/1.1\r\nContent-Type: application/json\r\n\r\n";
    let (n, req) = HttpRequest::parse_stream(raw).unwrap().unwrap();
    assert_eq!(n, raw.len());
    assert_eq!(req.method, "post");
    assert!(matches!(req.url, HttpUrl::PathOnly { .. }));
    assert_eq!(req.url.path(), "/api/config");
    assert_eq!(req.common.get_content_type(), Some("application/json"));
}

#[test]
fn request_head_writes() {
    let req = HttpRequest {
        common: HttpCommon { headers: vec![("Host".to_string(), "a.b".to_string())] },
        method: "GET".to_string(),
        url: HttpUrl::PathOnly { path: "/x".to_string() },
    };
    let mut out = Vec::new();
    req.to_writer(&mut out);
    assert_eq!(out, b"GET /x HTTP/1.1\r\nHost: a.b\r\n\r\n".to_vec());
}

#[test]
fn response_head_parses() {
    let raw = b"HTTP/1.1 101 Switching Protocols\r\nUpgrade: websocket\r\n\r\n";
    let (n, res) = HttpResponse::parse(raw).unwrap().unwrap();
    assert_eq!(n, raw.len());
    assert_eq!(res.status_code, 101);
    assert_eq!(res.common().get_header("upgrade"), Some("websocket"));
    assert!(HttpResponse::parse(b"HTTP/1.1 200 OK\r\n").unwrap().is_none());
}

#[test]
fn content_length_must_be_a_number() {
    let c = HttpCommon { headers: vec![("content-length".to_string(), "abc".to_string())] };
    assert_eq!(c.get_content_length(), None);
    let c = HttpCommon {
        headers: vec![("X".to_string(), "1".to_string()), ("Content-Length".to_string(), "+7".to_string())],
    };
    assert_eq!(c.get_content_length(), Some(7));
}
