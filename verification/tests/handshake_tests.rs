use cjk_proxy::handshake::{
    handshake_http, http_handshake_type, parse_socks5_greeting, socks5_auth_method, socks5_request_step,
    start_step, HandshakeError, HandshakeType, Handshaker, ParseState, Socks5Step, SocksState, StartStep,
};
use cjk_proxy::http::head::HttpRequest;
use cjk_proxy::http::HttpUrl;
use cjk_proxy::ip::{IpAddr, SocketAddr};
use cjk_proxy::proxy::ProxyRequest;
use cjk_proxy::socks5::Address;

#[test]
fn socks_greeting_is_detected() {
    match start_step(ParseState::Init, &[5, 2, 0, 2]) {
        StartStep::Socks(n, s) => {
            assert_eq!(n, 4);
            assert_eq!(s.auths, vec![0, 2]);
        }
        _ => panic!("expected a SOCKS5 greeting"),
    }
    // One byte 5 may begin a greeting but begins no HTTP request.
    assert!(matches!(start_step(ParseState::Init, &[5]), StartStep::ReadMore(ParseState::SocksPartial)));
    assert!(matches!(start_step(ParseState::Init, b"GET"), StartStep::ReadMore(ParseState::HttpPartial)));
    assert!(matches!(parse_socks5_greeting(&[5, 1]), Ok(None)));
}

#[test]
fn http_request_is_detected() {
    let raw = b"CONNECT example.com:443 HTTP/1.1\r\nHost: example.com\r\n\r\n";
    match start_step(ParseState::Init, raw) {
        StartStep::Http(n, req) => {
            assert_eq!(n, raw.len());
            assert_eq!(req.method, "connect");
        }
        _ => panic!("expected an HTTP request"),
    }
    // Not SOCKS5 (first byte is not 5) and an HTTP head still coming.
    assert!(matches!(start_step(ParseState::Init, b"GET / HT"), StartStep::ReadMore(ParseState::HttpPartial)));
    assert!(matches!(start_step(ParseState::Init, &[5, 3, 0]), StartStep::ReadMore(ParseState::SocksPartial)));
    assert!(matches!(
        start_step(ParseState::Init, &[4, 1, 0, 0]),
        StartStep::Fail(HandshakeError::NotSocksOrHttp { .. })
    ));
    assert!(matches!(start_step(ParseState::SocksPartial, &[6, 1]), StartStep::Fail(HandshakeError::Socks(_))));
}

#[test]
fn http_requests_become_proxy_requests() {
    let (_, req) = HttpRequest::parse(b"CONNECT example.com:443 HTTP/1.1\r\n\r\n").unwrap().unwrap();
    match handshake_http(req).unwrap() {
        ProxyRequest::TCP { dst } => assert_eq!(dst.to_text(), "example.com:443"),
        _ => panic!("expected TCP"),
    }
    let (_, req) = HttpRequest::parse(b"GET https://example.com/a?b HTTP/1.1\r\nX: y\r\n\r\n").unwrap().unwrap();
    let p = handshake_http(req).unwrap();
    assert_eq!(http_handshake_type(&p), HandshakeType::Http);
    match p {
        ProxyRequest::HTTP { dst, https, req } => {
            assert_eq!(dst.to_text(), "example.com:443");
            assert!(https);
            assert_eq!(req.method, "get");
            assert!(matches!(req.url, HttpUrl::PathOnly { .. }));
            assert_eq!(req.url.path(), "/a?b");
            assert_eq!(req.common.get_header("x"), Some("y"));
        }
        _ => panic!("expected HTTP"),
    }
    let (_, req) = HttpRequest::parse(b"GET example.com:80/a HTTP/1.1\r\n\r\n").unwrap().unwrap();
    assert_eq!(handshake_http(req).unwrap_err(), HandshakeError::UnknownScheme);
}

#[test]
fn socks5_negotiation() {
    assert_eq!(socks5_auth_method(&SocksState { auths: vec![2, 0] }), 0);
    assert_eq!(socks5_auth_method(&SocksState { auths: vec![2] }), 0xff);
    match socks5_request_step(&[5, 1, 0, 1, 10, 0, 0, 1, 0, 80]) {
        Socks5Step::Connect(n, dst) => {
            assert_eq!(n, 10);
            assert_eq!(dst.to_text(), "10.0.0.1:80");
        }
        _ => panic!("expected a connect request"),
    }
    assert!(matches!(socks5_request_step(&[5, 3, 0, 1, 0, 0, 0, 0, 0, 0]), Socks5Step::BindUdp(10)));
    assert!(matches!(socks5_request_step(&[5, 2, 0, 1, 0, 0, 0, 0, 0, 0]), Socks5Step::Unsupported));
    assert!(matches!(socks5_request_step(&[5, 1]), Socks5Step::ReadMore));
    assert!(matches!(socks5_request_step(&[4, 1, 0]), Socks5Step::Fail(_)));
}

#[test]
fn handshake_answers() {
    let bound = SocketAddr { ip: IpAddr::V4([127, 0, 0, 1]), port: 1080 };
    let (bytes, r) = Handshaker(HandshakeType::Socks5).respond_ok(Some(bound));
    assert!(r.is_ok());
    assert_eq!(bytes, vec![5, 0, 0, 1, 127, 0, 0, 1, 4, 56]);
    let (bytes, r) = Handshaker(HandshakeType::Socks5).respond_ok(None);
    assert_eq!(r.unwrap_err(), HandshakeError::BoundAddressRequired);
    assert_eq!(bytes, vec![5, 1, 0, 1, 0, 0, 0, 0, 0, 0]);
    let (bytes, _) = Handshaker(HandshakeType::HttpTcpChannel).respond_ok(None);
    assert_eq!(bytes, b"HTTP/1.1 200 OK\r\n\r\n".to_vec());
    let (bytes, _) = Handshaker(HandshakeType::Http).respond_ok(None);
    assert!(bytes.is_empty());
    assert_eq!(Handshaker(HandshakeType::Http).respond_err(), b"HTTP/1.1 500 Internal server error\r\n\r\n".to_vec());
    assert_eq!(Handshaker(HandshakeType::Socks5).respond_err(), vec![5, 1, 0, 1, 0, 0, 0, 0, 0, 0]);
    let _ = Address::default();
}
