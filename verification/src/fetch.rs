//! The request that fetches a URL through an HTTP proxy.
use vstd::prelude::*;

use crate::http::head::{common_view, find_header, HttpCommon, HttpRequest};
use crate::http::{push_chars, HttpUrl as RequestTarget, HttpUrlView};
use crate::socks5::address_text;
use crate::text::{chars_to_string, dec, dec_chars, str_chars};
use crate::url::{parse_http_url_spec, HttpUrl, UrlError};

verus! {

/// The scheme of a URL with its separator: `http://` or `https://`.
pub open spec fn scheme_prefix(https: bool) -> Seq<char> {
    if https {
        "https://"@
    } else {
        "http://"@
    }
}

/// The headers of a fetch: the ones given; then, when there is a body, its
/// type and its length; then `Host`, naming the target, unless a header of
/// that name (in any case) is there already.
pub open spec fn fetch_headers(
    given: Seq<(Seq<char>, Seq<char>)>,
    body: Option<(Seq<char>, nat)>,
    host: Seq<char>,
) -> Seq<(Seq<char>, Seq<char>)> {
    let with_body = match body {
        Some((t, n)) => given.push(("Content-Type"@, t)).push(("Content-Length"@, dec(n))),
        None => given,
    };
    if find_header(with_body, "host"@) is None {
        with_body.push(("Host"@, host))
    } else {
        with_body
    }
}

/// The headers given, as plain values.
pub open spec fn headers_view(hs: Seq<(String, String)>) -> Seq<(Seq<char>, Seq<char>)> {
    hs.map_values(|h: (String, String)| (h.0@, h.1@))
}

/// The request that fetches `url` with `method` through an HTTP proxy, and
/// the target it reads from the URL: the request's path is the whole URL,
/// written again from its scheme, address and path; its headers are those of
/// [`fetch_headers`]. A URL that does not read fails as reading it fails.
pub fn proxy_fetch_request(
    url: &str,
    method: &str,
    headers: Vec<(String, String)>,
    body: Option<(&str, usize)>,
) -> (r: Result<(HttpUrl, HttpRequest), UrlError>)
    ensures
        match parse_http_url_spec(url@) {
            Err(e) => r matches Err(x) && x == e,
            Ok((https, address, path)) => r matches Ok((target, req)) && target.is_https == https
                && target.address@ == address && target.path@ == path && req@.method == method@
                && req@.url == (HttpUrlView::PathOnly { path: scheme_prefix(https) + address_text(address) + path })
                && req@.headers == fetch_headers(
                headers_view(headers@),
                match body {
                    Some((t, n)) => Some((t@, n as nat)),
                    None => None,
                },
                address_text(address),
            ),
        },
{
    let ghost given = headers_view(headers@);
    let mut hs = headers;
    match body {
        Some((t, n)) => {
            hs.push(("Content-Type".to_owned(), t.to_owned()));
            hs.push(("Content-Length".to_owned(), chars_to_string(dec_chars(n as u64).as_slice())));
        },
        None => {},
    }
    let ghost with_body = headers_view(hs@);
    proof {
        match body {
            Some((t, n)) => {
                assert(with_body =~= given.push(("Content-Type"@, t@)).push(("Content-Length"@, dec(n as nat))));
            },
            None => {
                assert(with_body =~= given);
            },
        }
    }
    let target = match HttpUrl::try_from(url) {
        Ok(t) => t,
        Err(e) => return Err(e),
    };
    let host = target.address.to_text();
    let mut common = HttpCommon { headers: hs };
    if common.get_header("host").is_none() {
        common.headers.push(("Host".to_owned(), host.clone()));
        proof { assert(common_view(&common) =~= with_body.push(("Host"@, host@))); }
    }
    let mut path = if target.is_https {
        str_chars("https://")
    } else {
        str_chars("http://")
    };
    push_chars(&mut path, str_chars(host.as_str()).as_slice());
    push_chars(&mut path, str_chars(target.path.as_str()).as_slice());
    let req = HttpRequest {
        common,
        method: method.to_owned(),
        url: RequestTarget::PathOnly { path: chars_to_string(path.as_slice()) },
    };
    proof {
        assert(path@ =~= scheme_prefix(target.is_https) + address_text(target.address@) + target.path@);
    }
    Ok((target, req))
}

} // verus!
