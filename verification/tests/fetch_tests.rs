use cjk_proxy::fetch::proxy_fetch_request;
use cjk_proxy::http::HttpUrl as RequestTarget;
use cjk_proxy::url::UrlError;

fn pair(a: &str, b: &str) -> (String, String) {
    (a.to_string(), b.to_string())
}

#[test]
fn fetch_request_names_whole_url() {
    let (target, req) = proxy_fetch_request(
        "https://example.com/a",
        "POST",
        vec![pair("Accept", "*/*")],
        Some(("application/json", 5)),
    )
    .unwrap();
    assert!(target.is_https);
    assert_eq!(target.path, "/a");
    assert_eq!(req.method, "POST");
    assert!(matches!(&req.url, RequestTarget::PathOnly { path } if path == "https://example.com:443/a"));
    assert_eq!(
        req.common.headers,
        vec![
            pair("Accept", "*/*"),
            pair("Content-Type", "application/json"),
            pair("Content-Length", "5"),
            pair("Host", "example.com:443"),
        ]
    );
}

#[test]
fn fetch_request_keeps_given_host() {
    let (_, req) = proxy_fetch_request("http://10.0.0.1:8080", "GET", vec![pair("HOST", "x")], None).unwrap();
    assert!(matches!(&req.url, RequestTarget::PathOnly { path } if path == "http://10.0.0.1:8080/"));
    assert_eq!(req.common.headers, vec![pair("HOST", "x")]);
    assert!(matches!(proxy_fetch_request("ftp://x/", "GET", vec![], None), Err(UrlError::UnknownScheme)));
}
