use cjk_proxy::http::HttpUrl;
use cjk_proxy::url::Url;

#[test]
fn test_url() {
    struct TestCase {
        input: &'static str,
        expect: Option<&'static str>,
        expect_error: bool,
    }

    let cases = vec![
        TestCase { input: "google.com", expect: None, expect_error: true },
        TestCase { input: "google.com:443", expect: Some("google.com:443"), expect_error: false },
        TestCase {
            input: "https://google.com/testpath",
            expect: Some("https://google.com:443/testpath"),
            expect_error: false,
        },
        TestCase { input: "http://google.com", expect: Some("http://google.com:80"), expect_error: false },
        TestCase { input: "ftp://google.com", expect: None, expect_error: true },
    ];

    for TestCase { input, expect, expect_error } in cases {
        let actual = HttpUrl::from_str(input).map(|v| v.to_text());
        if expect_error {
            assert!(actual.is_err(), "Parsing input: {input}");
        } else {
            assert_eq!(actual.unwrap(), expect.unwrap())
        }
    }
}

#[test]
fn test_decoding() {
    struct TestCase {
        input: &'static str,
        expect_error: bool,
        expect_scheme: &'static str,
        expect_host: &'static str,
        expect_port: Option<u16>,
        expect_path: &'static str,
    }

    let cases = [
        TestCase {
            input: "https://www.google.com/go",
            expect_scheme: "https",
            expect_host: "www.google.com",
            expect_port: None,
            expect_path: "/go",
            expect_error: false,
        },
        TestCase {
            input: "https://www.google.com:443/go",
            expect_scheme: "https",
            expect_host: "www.google.com",
            expect_port: Some(443),
            expect_path: "/go",
            expect_error: false,
        },
        TestCase {
            input: "https://www.google.com",
            expect_scheme: "https",
            expect_host: "www.google.com",
            expect_port: None,
            expect_path: "",
            expect_error: false,
        },
        TestCase {
            input: "https://www.google.com:80",
            expect_scheme: "https",
            expect_host: "www.google.com",
            expect_port: Some(80),
            expect_path: "",
            expect_error: false,
        },
        TestCase {
            input: "www.google.com/go",
            expect_scheme: "",
            expect_host: "www.google.com",
            expect_port: None,
            expect_path: "/go",
            expect_error: false,
        },
        TestCase {
            input: "www.google.com:80/go",
            expect_scheme: "",
            expect_host: "www.google.com",
            expect_port: Some(80),
            expect_path: "/go",
            expect_error: false,
        },
        TestCase {
            input: "www.google.com:80",
            expect_scheme: "",
            expect_host: "www.google.com",
            expect_port: Some(80),
            expect_path: "",
            expect_error: false,
        },
        TestCase {
            input: "/go",
            expect_scheme: "",
            expect_host: "",
            expect_port: None,
            expect_path: "/go",
            expect_error: false,
        },
        TestCase {
            input: "www.google.com:/go",
            expect_scheme: "",
            expect_host: "",
            expect_port: None,
            expect_path: "/go",
            expect_error: true,
        },
    ];

    for TestCase { input, expect_error, expect_host, expect_path, expect_port, expect_scheme } in cases {
        match Url::try_from(input) {
            Ok(url) => {
                assert!(!expect_error);
                assert_eq!(expect_host, url.host);
                assert_eq!(expect_path, url.path);
                assert_eq!(expect_port, url.port);
                assert_eq!(expect_scheme, url.scheme);
            }
            Err(e) => {
                if !expect_error {
                    panic!("Error parsing {input}: {e:?}");
                }
            }
        }
    }
}

#[test]
fn printed_targets_read_back() {
    for input in [
        "https://google.com/testpath",
        "http://google.com",
        "google.com:443",
        "  /a/b?c=d ",
        "http://1.2.3.4/x",
        "001.2.3.4:80/",
        "http:// spaced:81/p",
        "a:b:8080/z",
    ] {
        let first = HttpUrl::from_str(input).unwrap().to_text();
        let again = HttpUrl::from_str(&first).unwrap().to_text();
        assert_eq!(first, again, "Printing {input}");
    }
    // A dotted host is printed in std's form.
    assert_eq!(HttpUrl::from_str("http://1.2.3.4/x").unwrap().to_text(), "http://1.2.3.4:80/x");
}
