use vstd::prelude::*;

use crate::socks5::{
    address_of, address_text, last_index_of, lemma_last_index_of, lemma_last_index_of_at, rfind_char, sub_chars,
    Address, AddressView,
};
use crate::ip::{lemma_v4_text_roundtrip, parse_ipv4_spec, v4_text};
use crate::text::{
    chars_to_string, dec, index_of, lemma_index_of, parse_uint, parse_uint_spec, str_chars,
};
use crate::url::find_char;

pub mod head;

verus! {

/// Why an HTTP message or URL could not be read.
#[derive(Debug, Clone, Copy, PartialEq, Eq, Structural)]
pub enum HttpError {
    /// The port after the last colon is not a decimal number below 65536.
    InvalidPort,
    /// A colon ends the host part.
    NoPortSpecified,
    /// A URL without a scheme names no port.
    PortRequired,
    /// The request head is malformed.
    Malformed,
    /// The request head has no method.
    NoMethod,
    /// The request head has no path.
    NoPath,
    /// The response head has no status code.
    NoStatusCode,
}

/// The target of an HTTP request: a path, an address and a path, or a scheme,
/// an address and a path.
#[derive(Debug)]
pub enum HttpUrl {
    PathOnly { path: String },
    WithAddress { address: Address, path: String },
    WithScheme { https: bool, address: Address, path: String },
}

/// An [`HttpUrl`] as plain values.
pub enum HttpUrlView {
    PathOnly { path: Seq<char> },
    WithAddress { address: AddressView, path: Seq<char> },
    WithScheme { https: bool, address: AddressView, path: Seq<char> },
}

impl View for HttpUrl {
    type V = HttpUrlView;

    open spec fn view(&self) -> HttpUrlView {
        match self {
            HttpUrl::PathOnly { path } => HttpUrlView::PathOnly { path: path@ },
            HttpUrl::WithAddress { address, path } => HttpUrlView::WithAddress {
                address: address@,
                path: path@,
            },
            HttpUrl::WithScheme { https, address, path } => HttpUrlView::WithScheme {
                https: *https,
                address: address@,
                path: path@,
            },
        }
    }
}

/// Whether `c` is white space as std's `char::is_whitespace` says (Unicode
/// `White_Space`).
pub open spec fn is_whitespace(c: char) -> bool {
    ||| '\t' <= c <= '\r'
    ||| c == ' '
    ||| c == '\u{85}'
    ||| c == '\u{a0}'
    ||| c == '\u{1680}'
    ||| '\u{2000}' <= c <= '\u{200a}'
    ||| c == '\u{2028}'
    ||| c == '\u{2029}'
    ||| c == '\u{202f}'
    ||| c == '\u{205f}'
    ||| c == '\u{3000}'
}

fn char_is_whitespace(c: char) -> (r: bool)
    ensures
        r == is_whitespace(c),
{
    ('\t' <= c && c <= '\r') || c == ' ' || c == '\u{85}' || c == '\u{a0}' || c == '\u{1680}'
        || ('\u{2000}' <= c && c <= '\u{200a}') || c == '\u{2028}' || c == '\u{2029}' || c
        == '\u{202f}' || c == '\u{205f}' || c == '\u{3000}'
}

/// Number of white-space characters at the start of `s`.
pub open spec fn leading_ws(s: Seq<char>) -> nat
    decreases s.len(),
{
    if s.len() > 0 && is_whitespace(s[0]) {
        1 + leading_ws(s.drop_first())
    } else {
        0
    }
}

/// Number of white-space characters at the end of `s`.
pub open spec fn trailing_ws(s: Seq<char>) -> nat
    decreases s.len(),
{
    if s.len() > 0 && is_whitespace(s.last()) {
        1 + trailing_ws(s.drop_last())
    } else {
        0
    }
}

/// `s` without white space at either end, as std's `str::trim`.
pub open spec fn trim(s: Seq<char>) -> Seq<char> {
    let a = leading_ws(s);
    let t = s.skip(a as int);
    t.take(t.len() - trailing_ws(t))
}

proof fn lemma_leading_ws(s: Seq<char>, i: int)
    requires
        0 <= i <= s.len(),
        forall|k: int| 0 <= k < i ==> is_whitespace(#[trigger] s[k]),
        i == s.len() || !is_whitespace(s[i]),
    ensures
        leading_ws(s) == i,
    decreases i,
{
    if i > 0 {
        let t = s.drop_first();
        assert forall|k: int| 0 <= k < i - 1 implies is_whitespace(#[trigger] t[k]) by {
            assert(t[k] == s[k + 1]);
        }
        if i - 1 < t.len() {
            assert(t[i - 1] == s[i]);
        }
        lemma_leading_ws(t, i - 1);
    }
}

proof fn lemma_trailing_ws(s: Seq<char>, j: int)
    requires
        0 <= j <= s.len(),
        forall|k: int| j <= k < s.len() ==> is_whitespace(#[trigger] s[k]),
        j == 0 || !is_whitespace(s[j - 1]),
    ensures
        trailing_ws(s) == s.len() - j,
    decreases s.len() - j,
{
    if j < s.len() {
        let t = s.drop_last();
        assert forall|k: int| j <= k < t.len() implies is_whitespace(#[trigger] t[k]) by {
            assert(t[k] == s[k]);
        }
        if j > 0 {
            assert(t[j - 1] == s[j - 1]);
        }
        lemma_trailing_ws(t, j);
    }
}

/// `s` without white space at either end.
pub fn trim_chars(s: &[char]) -> (r: Vec<char>)
    ensures
        r@ == trim(s@),
{
    let mut i: usize = 0;
    while i < s.len() && char_is_whitespace(s[i])
        invariant
            i <= s.len(),
            forall|k: int| 0 <= k < i ==> is_whitespace(#[trigger] s@[k]),
        decreases s.len() - i,
    {
        i = i + 1;
    }
    proof { lemma_leading_ws(s@, i as int); }
    let mut j: usize = s.len();
    while j > i && char_is_whitespace(s[j - 1])
        invariant
            i <= j <= s.len(),
            forall|k: int| j <= k < s.len() ==> is_whitespace(#[trigger] s@[k]),
        decreases j,
    {
        j = j - 1;
    }
    proof {
        let t = s@.skip(i as int);
        assert forall|k: int| j - i <= k < t.len() implies is_whitespace(#[trigger] t[k]) by {
            assert(t[k] == s@[i + k]);
        }
        if j > i {
            assert(t[j - i - 1] == s@[j - 1]);
        }
        lemma_trailing_ws(t, j - i);
        assert(t.take(t.len() - trailing_ws(t)) =~= s@.subrange(i as int, j as int));
    }
    sub_chars(s, i, j)
}

/// `http://`
pub open spec fn http_scheme() -> Seq<char> {
    seq!['h', 't', 't', 'p', ':', '/', '/']
}

/// `https://`
pub open spec fn https_scheme() -> Seq<char> {
    seq!['h', 't', 't', 'p', 's', ':', '/', '/']
}

/// The scheme a request target starts with, if any, and what follows it.
pub open spec fn split_scheme(url: Seq<char>) -> (Option<bool>, Seq<char>) {
    if url.len() >= 7 && url.take(7) == http_scheme() {
        (Some(false), url.skip(7))
    } else if url.len() >= 8 && url.take(8) == https_scheme() {
        (Some(true), url.skip(8))
    } else {
        (None::<bool>, url)
    }
}

/// The host-and-port part before the first slash, and the path from it on
/// (`/` when there is none).
pub open spec fn split_path(rest: Seq<char>) -> (Seq<char>, Seq<char>) {
    match index_of(rest, '/') {
        Some(u) => (rest.take(u), rest.skip(u)),
        None => (rest, seq!['/']),
    }
}

/// The host and the port of a host-and-port part: the port after the last
/// colon, else the scheme's default port.
pub open spec fn split_host_port(hp: Seq<char>, scheme: Option<bool>) -> Result<(Seq<char>, u16), HttpError> {
    match last_index_of(hp, ':') {
        Some(u) => if u < hp.len() - 1 {
            match parse_uint_spec(hp.skip(u + 1), 0xffff) {
                Some(p) => Ok((hp.take(u), p as u16)),
                None => Err(HttpError::InvalidPort),
            }
        } else {
            Err(HttpError::NoPortSpecified)
        },
        None => match scheme {
            Some(true) => Ok((hp, 443u16)),
            Some(false) => Ok((hp, 80u16)),
            None => Err(HttpError::PortRequired),
        },
    }
}

/// What reading an HTTP request target gives (`HttpUrl::from_str`).
pub open spec fn parse_http_url_spec(s: Seq<char>) -> Result<HttpUrlView, HttpError> {
    let url = trim(s);
    if url.len() > 0 && url[0] == '/' {
        Ok(HttpUrlView::PathOnly { path: url })
    } else {
        let (scheme, rest) = split_scheme(url);
        let (hp, path) = split_path(rest);
        match split_host_port(hp, scheme) {
            Err(e) => Err(e),
            Ok((host, port)) => {
                let address = address_of(host, port);
                match scheme {
                    Some(https) => Ok(HttpUrlView::WithScheme { https, address, path }),
                    None => Ok(HttpUrlView::WithAddress { address, path }),
                }
            },
        }
    }
}

/// The path written for a URL with an address: `/` alone is left out.
pub open spec fn sanitised_path(p: Seq<char>) -> Seq<char> {
    if p == seq!['/'] { Seq::empty() } else { p }
}

/// The text of an HTTP request target (`Display for HttpUrl`).
pub open spec fn http_url_text(u: HttpUrlView) -> Seq<char> {
    match u {
        HttpUrlView::PathOnly { path } => path,
        HttpUrlView::WithAddress { address, path } => address_text(address) + sanitised_path(path),
        HttpUrlView::WithScheme { https, address, path } => if https {
            https_scheme() + address_text(address) + sanitised_path(path)
        } else {
            http_scheme() + address_text(address) + sanitised_path(path)
        },
    }
}

/// Where the white space at the start of a text stops.
proof fn lemma_leading_ws_stop(s: Seq<char>)
    ensures
        leading_ws(s) <= s.len(),
        leading_ws(s) < s.len() ==> !is_whitespace(s[leading_ws(s) as int]),
    decreases s.len(),
{
    if s.len() > 0 && is_whitespace(s[0]) {
        let t = s.drop_first();
        lemma_leading_ws_stop(t);
        if leading_ws(t) < t.len() {
            assert(t[leading_ws(t) as int] == s[leading_ws(s) as int]);
        }
    }
}

/// Where the white space at the end of a text starts.
proof fn lemma_trailing_ws_stop(s: Seq<char>)
    ensures
        trailing_ws(s) <= s.len(),
        trailing_ws(s) < s.len() ==> !is_whitespace(s[s.len() - 1 - trailing_ws(s)]),
    decreases s.len(),
{
    if s.len() > 0 && is_whitespace(s.last()) {
        let t = s.drop_last();
        lemma_trailing_ws_stop(t);
        if trailing_ws(t) < t.len() {
            assert(t[t.len() - 1 - trailing_ws(t)] == s[s.len() - 1 - trailing_ws(s)]);
        }
    }
}

/// A trimmed text neither starts nor ends with white space.
proof fn lemma_trim_ends(s: Seq<char>)
    ensures
        trim(s).len() > 0 ==> !is_whitespace(trim(s)[0]) && !is_whitespace(trim(s).last()),
{
    let a = leading_ws(s);
    lemma_leading_ws_stop(s);
    let t = s.skip(a as int);
    lemma_trailing_ws_stop(t);
    let r = trim(s);
    if r.len() > 0 {
        assert(r[0] == t[0]);
        assert(t[0] == s[a as int]);
        assert(r.last() == t[t.len() - 1 - trailing_ws(t)]);
    }
}

/// A text that neither starts nor ends with white space is its own trim.
proof fn lemma_trim_noop(s: Seq<char>)
    requires
        s.len() > 0,
        !is_whitespace(s[0]),
        !is_whitespace(s.last()),
    ensures
        trim(s) == s,
{
    lemma_leading_ws(s, 0);
    lemma_trailing_ws(s, s.len() as int);
    assert(s.skip(0) =~= s);
    assert(s.take(s.len() as int) =~= s);
}

/// Whether a character is a decimal digit; no digit is white space, a colon
/// or a slash.
proof fn lemma_digit_plain(c: char)
    requires
        crate::text::is_digit(c),
    ensures
        !is_whitespace(c),
        c != ':',
        c != '/',
        c != '.',
{
}

/// The address part of a printed URL, followed by its printed path, reads
/// back as the host text, the port and the path.
proof fn lemma_host_port_tail(h: Seq<char>, p: u16, sp: Seq<char>)
    requires
        forall|j: int| 0 <= j < h.len() ==> h[j] != '/',
        sp.len() > 0 ==> sp[0] == '/',
    ensures
        ({
            let a = h + seq![':'] + dec(p as nat);
            let rest = a + sp;
            &&& forall|j: int| 0 <= j < a.len() ==> a[j] != '/'
            &&& sp.len() > 0 ==> index_of(rest, '/') == Some(a.len() as int)
            &&& sp.len() == 0 ==> index_of(rest, '/') == None::<int>
            &&& last_index_of(a, ':') == Some(h.len() as int)
            &&& (h.len() as int) < a.len() - 1
            &&& parse_uint_spec(a.skip(h.len() as int + 1), 0xffff) == Some(p as nat)
            &&& a.take(h.len() as int) == h
            &&& crate::text::is_digit(a.last())
        }),
{
    let d = dec(p as nat);
    crate::text::lemma_dec(p as nat);
    crate::text::lemma_parse_dec(p as nat, 0xffff);
    let a = h + seq![':'] + d;
    let rest = a + sp;
    assert forall|j: int| 0 <= j < a.len() implies a[j] != '/' by {
        if j < h.len() {
            assert(a[j] == h[j]);
        } else if j > h.len() {
            assert(a[j] == d[j - h.len() - 1]);
            lemma_digit_plain(d[j - h.len() - 1]);
        }
    }
    assert forall|j: int| h.len() < j < a.len() implies a[j] != ':' by {
        assert(a[j] == d[j - h.len() - 1]);
        lemma_digit_plain(d[j - h.len() - 1]);
    }
    assert(a[h.len() as int] == ':');
    lemma_last_index_of_at(a, ':', h.len() as int);
    assert(a.skip(h.len() as int + 1) =~= d);
    assert(a.take(h.len() as int) =~= h);
    assert(a.last() == d.last());
    if sp.len() > 0 {
        assert forall|j: int| 0 <= j < a.len() implies rest[j] != '/' by {
            assert(rest[j] == a[j]);
        }
        assert(rest[a.len() as int] == sp[0]);
        crate::text::lemma_index_of_at(rest, '/', a.len() as int);
    } else {
        assert(rest =~= a);
        crate::text::lemma_index_of_none(rest, '/');
    }
}

/// The text of a scheme, with its separator.
pub open spec fn scheme_text(scheme: Option<bool>) -> Seq<char> {
    match scheme {
        Some(true) => https_scheme(),
        Some(false) => http_scheme(),
        None => Seq::empty(),
    }
}

/// The host of an address as it is printed: an IPv4 address in dotted
/// decimal, a name as it is.
pub open spec fn printed_host(host: Seq<char>) -> Seq<char> {
    match parse_ipv4_spec(host) {
        Some(o) => v4_text(o),
        None => host,
    }
}

/// What reading leaves after the scheme, split at the first slash: a host
/// part without slashes that begins the rest, and a path that starts with a
/// slash and, when it was read, ends where the text ends.
proof fn lemma_split_path_facts(url: Seq<char>)
    ensures
        ({
            let (scheme, rest) = split_scheme(url);
            let (hp, path) = split_path(rest);
            &&& scheme is None ==> rest == url
            &&& forall|j: int| 0 <= j < hp.len() ==> hp[j] != '/' && hp[j] == rest[j]
            &&& hp.len() <= rest.len()
            &&& path.len() > 0 && path[0] == '/'
            &&& sanitised_path(path).len() > 0 ==> sanitised_path(path).last() == url.last()
        }),
{
    let (scheme, rest) = split_scheme(url);
    lemma_index_of(rest, '/');
    match index_of(rest, '/') {
        Some(u) => {
            let path = rest.skip(u);
            assert(path.last() == rest.last());
            if scheme is Some {
                if scheme == Some(false) {
                    assert(rest.last() == url.last());
                } else {
                    assert(rest.last() == url.last());
                }
            }
        },
        None => {},
    }
}

/// How a host is printed: without slashes, beginning with a digit or with the
/// host's own first character, and read back as the same address.
proof fn lemma_printed_host(host: Seq<char>, port: u16)
    requires
        forall|j: int| 0 <= j < host.len() ==> host[j] != '/',
    ensures
        forall|j: int| 0 <= j < printed_host(host).len() ==> printed_host(host)[j] != '/',
        printed_host(host).len() > 0 ==> (printed_host(host)[0] == host[0] || crate::text::is_digit(printed_host(host)[0])),
        address_text(address_of(host, port)) == printed_host(host) + seq![':'] + dec(port as nat),
        address_of(printed_host(host), port) == address_of(host, port),
{
    match parse_ipv4_spec(host) {
        Some(o) => {
            crate::text::lemma_dec(o[0] as nat);
            lemma_v4_text_no_slash(o);
            assert(v4_text(o)[0] == dec(o[0] as nat)[0]);
            lemma_v4_text_roundtrip(o);
        },
        None => {},
    }
}

/// Reading the scheme off a print gives the scheme it was printed with.
proof fn lemma_split_scheme_of_print(scheme: Option<bool>, a: Seq<char>, sp: Seq<char>)
    requires
        a.len() > 0,
        crate::text::is_digit(a.last()),
        forall|j: int| 0 <= j < a.len() ==> a[j] != '/',
    ensures
        split_scheme(scheme_text(scheme) + (a + sp)) == (scheme, a + sp),
{
    let tail = a + sp;
    let t = scheme_text(scheme) + tail;
    match scheme {
        Some(false) => {
            assert(t.take(7) =~= http_scheme());
            assert(t.skip(7) =~= tail);
        },
        Some(true) => {
            assert(t.take(7)[4] != http_scheme()[4]);
            assert(t.take(8) =~= https_scheme());
            assert(t.skip(8) =~= tail);
        },
        None => {
            assert(t =~= tail);
            lemma_no_scheme_in_print(a, sp);
        },
    }
}

/// The target with an address that a scheme, an address and a path make.
pub open spec fn target_with_address(scheme: Option<bool>, address: AddressView, path: Seq<char>) -> HttpUrlView {
    match scheme {
        Some(https) => HttpUrlView::WithScheme { https, address, path },
        None => HttpUrlView::WithAddress { address, path },
    }
}

/// A target with an address is printed as its scheme, its address and its
/// path, `/` left out.
proof fn lemma_print_shape(scheme: Option<bool>, address: AddressView, path: Seq<char>)
    ensures
        http_url_text(target_with_address(scheme, address, path)) == scheme_text(scheme) + (address_text(address)
            + sanitised_path(path)),
{
    let t = http_url_text(target_with_address(scheme, address, path));
    match scheme {
        Some(true) => assert(t =~= scheme_text(scheme) + (address_text(address) + sanitised_path(path))),
        Some(false) => assert(t =~= scheme_text(scheme) + (address_text(address) + sanitised_path(path))),
        None => assert(t =~= scheme_text(scheme) + (address_text(address) + sanitised_path(path))),
    }
}

/// A print of a scheme, a host without slashes, a port and a path reads back
/// as that scheme, the host's address, the port and the path.
proof fn lemma_read_print(scheme: Option<bool>, h: Seq<char>, port: u16, path: Seq<char>)
    requires
        forall|j: int| 0 <= j < h.len() ==> h[j] != '/',
        path.len() > 0 && path[0] == '/',
        sanitised_path(path).len() > 0 ==> !is_whitespace(sanitised_path(path).last()),
        scheme is None && h.len() > 0 ==> !is_whitespace(h[0]),
    ensures
        parse_http_url_spec(scheme_text(scheme) + ((h + seq![':'] + dec(port as nat)) + sanitised_path(path)))
            == Ok::<HttpUrlView, HttpError>(target_with_address(scheme, address_of(h, port), path)),
{
    let sp = sanitised_path(path);
    lemma_host_port_tail(h, port, sp);
    let a = h + seq![':'] + dec(port as nat);
    lemma_digit_plain(a.last());
    lemma_split_scheme_of_print(scheme, a, sp);
    let tail = a + sp;
    let t = scheme_text(scheme) + tail;
    assert(!is_whitespace(t[0]) && t[0] != '/') by {
        if scheme is Some {
            assert(t[0] == 'h');
        } else if h.len() > 0 {
            assert(t[0] == h[0]);
        } else {
            assert(t[0] == ':');
        }
    }
    assert(!is_whitespace(t.last())) by {
        if sp.len() > 0 {
            assert(t.last() == sp.last());
        } else {
            assert(t.last() == a.last());
        }
    }
    lemma_trim_noop(t);
    let path2 = if sp.len() > 0 { sp } else { seq!['/'] };
    assert(tail.take(a.len() as int) =~= a);
    assert(tail.skip(a.len() as int) =~= sp);
    assert(split_path(tail) == (a, path2));
    assert(path2 =~= path);
    assert(split_host_port(a, scheme) == Ok::<(Seq<char>, u16), HttpError>((h, port)));
}

/// Printing an HTTP request target that was read, and reading the print,
/// gives the same target back: the print is the target's canonical form.
pub proof fn lemma_http_url_text_roundtrip(s: Seq<char>)
    requires
        parse_http_url_spec(s) is Ok,
    ensures
        parse_http_url_spec(http_url_text(parse_http_url_spec(s)->Ok_0)) == parse_http_url_spec(s),
{
    let url = trim(s);
    lemma_trim_ends(s);
    if url.len() > 0 && url[0] == '/' {
        lemma_trim_noop(url);
    } else {
        let (scheme, rest) = split_scheme(url);
        let (hp, path) = split_path(rest);
        lemma_split_path_facts(url);
        let (host, port) = split_host_port(hp, scheme)->Ok_0;
        lemma_last_index_of(hp, ':');
        assert(forall|j: int| 0 <= j < host.len() ==> host[j] == hp[j]);
        let address = address_of(host, port);
        assert(parse_http_url_spec(s) == Ok::<HttpUrlView, HttpError>(target_with_address(scheme, address, path)));
        lemma_printed_host(host, port);
        let h = printed_host(host);
        lemma_print_shape(scheme, address, path);
        if h.len() > 0 && h[0] != host[0] {
            lemma_digit_plain(h[0]);
        }
        if scheme is None && h.len() > 0 && h[0] == host[0] {
            assert(host[0] == url[0]);
        }
        lemma_read_print(scheme, h, port, path);
    }
}

/// A print without a scheme does not look like one with a scheme: its
/// address part ends with a digit before the first slash.
proof fn lemma_no_scheme_in_print(a: Seq<char>, sp: Seq<char>)
    requires
        a.len() > 0,
        crate::text::is_digit(a.last()),
        forall|j: int| 0 <= j < a.len() ==> a[j] != '/',
    ensures
        !((a + sp).len() >= 7 && (a + sp).take(7) == http_scheme()),
        !((a + sp).len() >= 8 && (a + sp).take(8) == https_scheme()),
{
    let t = a + sp;
    if t.len() >= 7 && t.take(7) == http_scheme() {
        assert(t[5] == t.take(7)[5]);
        assert(t[5] == '/');
        if a.len() > 5 {
            assert(t[5] == a[5]);
        }
        assert(t[a.len() - 1] == a.last());
        assert(t[a.len() - 1] == t.take(7)[a.len() - 1]);
    }
    if t.len() >= 8 && t.take(8) == https_scheme() {
        assert(t[6] == t.take(8)[6]);
        assert(t[6] == '/');
        if a.len() > 6 {
            assert(t[6] == a[6]);
        }
        assert(t[a.len() - 1] == a.last());
        assert(t[a.len() - 1] == t.take(8)[a.len() - 1]);
    }
}

/// The dotted text of an IPv4 address holds no slash.
proof fn lemma_v4_text_no_slash(o: Seq<u8>)
    requires
        o.len() == 4,
    ensures
        forall|j: int| 0 <= j < v4_text(o).len() ==> v4_text(o)[j] != '/',
{
    let t = v4_text(o);
    crate::text::lemma_dec(o[0] as nat);
    crate::text::lemma_dec(o[1] as nat);
    crate::text::lemma_dec(o[2] as nat);
    crate::text::lemma_dec(o[3] as nat);
    let d0 = dec(o[0] as nat);
    let d1 = dec(o[1] as nat);
    let d2 = dec(o[2] as nat);
    let d3 = dec(o[3] as nat);
    assert forall|j: int| 0 <= j < t.len() implies t[j] != '/' by {
        let l0 = d0.len() as int;
        let l1 = d1.len() as int;
        let l2 = d2.len() as int;
        if j < l0 {
            assert(t[j] == d0[j]);
            lemma_digit_plain(d0[j]);
        } else if j == l0 {
        } else if j < l0 + 1 + l1 {
            assert(t[j] == d1[j - l0 - 1]);
            lemma_digit_plain(d1[j - l0 - 1]);
        } else if j == l0 + 1 + l1 {
        } else if j < l0 + l1 + 2 + l2 {
            assert(t[j] == d2[j - l0 - l1 - 2]);
            lemma_digit_plain(d2[j - l0 - l1 - 2]);
        } else if j == l0 + l1 + 2 + l2 {
        } else {
            assert(t[j] == d3[j - l0 - l1 - l2 - 3]);
            lemma_digit_plain(d3[j - l0 - l1 - l2 - 3]);
        }
    }
}

fn starts_with(s: &[char], p: &[char]) -> (r: bool)
    ensures
        r == (s@.len() >= p@.len() && s@.take(p@.len() as int) == p@),
{
    if s.len() < p.len() {
        return false;
    }
    let mut i: usize = 0;
    while i < p.len()
        invariant
            p.len() <= s.len(),
            i <= p.len(),
            forall|k: int| 0 <= k < i ==> s@[k] == p@[k],
        decreases p.len() - i,
    {
        if s[i] != p[i] {
            proof { assert(s@.take(p@.len() as int)[i as int] != p@[i as int]); }
            return false;
        }
        i = i + 1;
    }
    proof { assert(s@.take(p@.len() as int) =~= p@); }
    true
}

/// Appends the characters of `more`.
pub fn push_chars(out: &mut Vec<char>, more: &[char])
    ensures
        final(out)@ == old(out)@ + more@,
{
    let mut i: usize = 0;
    while i < more.len()
        invariant
            i <= more.len(),
            out@ == old(out)@ + more@.take(i as int),
        decreases more.len() - i,
    {
        out.push(more[i]);
        i = i + 1;
        proof { assert(out@ =~= old(out)@ + more@.take(i as int)); }
    }
    proof { assert(more@.take(more@.len() as int) =~= more@); }
}

impl HttpUrl {
    /// Reads an HTTP request target: a path, `host:port[/path]`, or
    /// `http[s]://host[:port][/path]`.
    pub fn from_str(s: &str) -> (r: Result<HttpUrl, HttpError>)
        ensures
            match parse_http_url_spec(s@) {
                Ok(v) => r matches Ok(u) && u@ == v,
                Err(e) => r matches Err(x) && x == e,
            },
    {
        let raw = str_chars(s);
        let url = trim_chars(raw.as_slice());
        let n = url.len();
        if n > 0 && url[0] == '/' {
            return Ok(HttpUrl::PathOnly { path: chars_to_string(url.as_slice()) });
        }
        let http = ['h', 't', 't', 'p', ':', '/', '/'];
        let https = ['h', 't', 't', 'p', 's', ':', '/', '/'];
        proof {
            assert(http@ =~= http_scheme());
            assert(https@ =~= https_scheme());
        }
        let (scheme, rest): (Option<bool>, Vec<char>) = if starts_with(url.as_slice(), &http) {
            proof { assert(url@.subrange(7, n as int) =~= url@.skip(7)); }
            (Some(false), sub_chars(url.as_slice(), 7, n))
        } else if starts_with(url.as_slice(), &https) {
            proof { assert(url@.subrange(8, n as int) =~= url@.skip(8)); }
            (Some(true), sub_chars(url.as_slice(), 8, n))
        } else {
            proof { assert(url@.subrange(0, n as int) =~= url@); }
            (None, sub_chars(url.as_slice(), 0, n))
        };
        let rn = rest.len();
        proof { lemma_index_of(rest@, '/'); }
        let (hp, path) = match find_char(rest.as_slice(), '/') {
            Some(u) => {
                proof {
                    assert(rest@.subrange(0, u as int) =~= rest@.take(u as int));
                    assert(rest@.subrange(u as int, rn as int) =~= rest@.skip(u as int));
                }
                (sub_chars(rest.as_slice(), 0, u), sub_chars(rest.as_slice(), u, rn))
            },
            None => {
                let mut p = Vec::new();
                p.push('/');
                proof {
                    assert(p@ =~= seq!['/']);
                    assert(rest@.subrange(0, rn as int) =~= rest@);
                }
                (sub_chars(rest.as_slice(), 0, rn), p)
            },
        };
        let hn = hp.len();
        proof { lemma_last_index_of(hp@, ':'); }
        let (host, port): (Vec<char>, u16) = match rfind_char(hp.as_slice(), ':') {
            Some(u) => {
                if u < hn - 1 {
                    let pc = sub_chars(hp.as_slice(), u + 1, hn);
                    proof { assert(pc@ =~= hp@.skip(u + 1)); }
                    match parse_uint(pc.as_slice(), 0xffff) {
                        Some(p) => {
                            let h = sub_chars(hp.as_slice(), 0, u);
                            proof { assert(h@ =~= hp@.take(u as int)); }
                            (h, p as u16)
                        },
                        None => return Err(HttpError::InvalidPort),
                    }
                } else {
                    return Err(HttpError::NoPortSpecified);
                }
            },
            None => {
                proof { assert(hp@.subrange(0, hn as int) =~= hp@); }
                match scheme {
                    Some(true) => (sub_chars(hp.as_slice(), 0, hn), 443u16),
                    Some(false) => (sub_chars(hp.as_slice(), 0, hn), 80u16),
                    None => return Err(HttpError::PortRequired),
                }
            },
        };
        let address = Address::from_host_port(chars_to_string(host.as_slice()), port);
        let path = chars_to_string(path.as_slice());
        match scheme {
            Some(https) => Ok(HttpUrl::WithScheme { https, address, path }),
            None => Ok(HttpUrl::WithAddress { address, path }),
        }
    }

    /// The path of the target.
    pub fn path(&self) -> (r: &String)
        ensures
            r@ == match self@ {
                HttpUrlView::PathOnly { path } => path,
                HttpUrlView::WithAddress { path, .. } => path,
                HttpUrlView::WithScheme { path, .. } => path,
            },
    {
        match self {
            HttpUrl::PathOnly { path } => path,
            HttpUrl::WithAddress { path, .. } => path,
            HttpUrl::WithScheme { path, .. } => path,
        }
    }

    /// The text of the target, as `Display` writes it.
    pub fn to_text(&self) -> (r: String)
        ensures
            r@ == http_url_text(self@),
    {
        match self {
            HttpUrl::PathOnly { path } => path.clone(),
            HttpUrl::WithAddress { address, path } => {
                let mut out = str_chars(address.to_text().as_str());
                push_chars(&mut out, sanitise_path_for_url(&str_chars(path.as_str())).as_slice());
                chars_to_string(out.as_slice())
            },
            HttpUrl::WithScheme { https, address, path } => {
                let mut out: Vec<char> = if *https {
                    let v = vec!['h', 't', 't', 'p', 's', ':', '/', '/'];
                    proof { assert(v@ =~= https_scheme()); }
                    v
                } else {
                    let v = vec!['h', 't', 't', 'p', ':', '/', '/'];
                    proof { assert(v@ =~= http_scheme()); }
                    v
                };
                push_chars(&mut out, str_chars(address.to_text().as_str()).as_slice());
                push_chars(&mut out, sanitise_path_for_url(&str_chars(path.as_str())).as_slice());
                chars_to_string(out.as_slice())
            },
        }
    }
}

/// The path to write after an address: nothing for `/`.
pub fn sanitise_path_for_url(p: &Vec<char>) -> (r: Vec<char>)
    ensures
        r@ == sanitised_path(p@),
{
    if p.len() == 1 && p[0] == '/' {
        proof { assert(p@ =~= seq!['/']); }
        Vec::new()
    } else {
        proof {
            if p@ == seq!['/'] {
                assert(p@[0] == '/');
            }
        }
        sub_chars(p.as_slice(), 0, p.len())
    }
}

/// The head of an answer written by the proxy's own servers: status line,
/// content type (`application/octet-stream` when none is given), content
/// length and open access-control headers, then an empty line.
pub open spec fn response_head_text(code: u16, status_msg: Option<Seq<char>>, content_type: Option<Seq<char>>, body_len: nat) -> Seq<char> {
    "HTTP/1.1 "@ + crate::text::dec(code as nat)
        + match status_msg { Some(m) => seq![' '] + m, None => Seq::empty() }
        + "\r\nContent-Type: "@
        + match content_type { Some(t) => t, None => "application/octet-stream"@ }
        + "\r\nContent-Length: "@ + crate::text::dec(body_len)
        + "\r\nAccess-Control-Allow-Headers: *\r\nAccess-Control-Allow-Origin: *\r\nAccess-Control-Allow-Methods: *\r\n\r\n"@
}

/// The head of an answer, read line by line: the status line is
/// `HTTP/1.1`, a space, the code in decimal, then, when a status message is
/// given, a space and the message, then CRLF; the next line is
/// `Content-Type: ` and the content type (`application/octet-stream` when
/// none is given); the one after is `Content-Length: ` and the body's length
/// in decimal; and the head ends with an empty line.
pub proof fn lemma_response_head_lines(
    code: u16,
    status_msg: Option<Seq<char>>,
    content_type: Option<Seq<char>>,
    body_len: nat,
)
    ensures
        ({
            let t = response_head_text(code, status_msg, content_type, body_len);
            let d = dec(code as nat);
            let c: int = 9 + d.len() as int;
            let sl: int = match status_msg {
                Some(m) => c + 1 + m.len() + 2,
                None => c + 2,
            };
            let ct = match content_type {
                Some(x) => x,
                None => "application/octet-stream"@,
            };
            let q: int = sl + 14 + ct.len() + 2;
            let l = dec(body_len);
            &&& t.len() >= q + 16 + l.len() + 4
            &&& t.take(9) == "HTTP/1.1 "@
            &&& crate::text::all_digits(t.subrange(9, c))
            &&& crate::text::digits_value(t.subrange(9, c)) == code
            &&& t.subrange(9, c).len() > 0
            &&& match status_msg {
                Some(m) => t[c] == ' ' && t.subrange(c + 1, c + 1 + m.len()) == m,
                None => true,
            }
            &&& t[sl - 2] == '\r' && t[sl - 1] == '\n'
            &&& t.subrange(sl, sl + 14) == "Content-Type: "@
            &&& t.subrange(sl + 14, sl + 14 + ct.len()) == ct
            &&& t[q - 2] == '\r' && t[q - 1] == '\n'
            &&& t.subrange(q, q + 16) == "Content-Length: "@
            &&& crate::text::all_digits(t.subrange(q + 16, q + 16 + l.len()))
            &&& crate::text::digits_value(t.subrange(q + 16, q + 16 + l.len())) == body_len
            &&& t[q + 16 + l.len()] == '\r' && t[q + 17 + l.len()] == '\n'
            &&& t.skip(t.len() - 4) == "\r\n\r\n"@
        }),
{
    reveal_strlit("HTTP/1.1 ");
    reveal_strlit("\r\nContent-Type: ");
    reveal_strlit("application/octet-stream");
    reveal_strlit("\r\nContent-Length: ");
    reveal_strlit("\r\nAccess-Control-Allow-Headers: *\r\nAccess-Control-Allow-Origin: *\r\nAccess-Control-Allow-Methods: *\r\n\r\n");
    reveal_strlit("Content-Type: ");
    reveal_strlit("Content-Length: ");
    reveal_strlit("\r\n\r\n");
    crate::text::lemma_dec(code as nat);
    crate::text::lemma_dec(body_len);
    let t = response_head_text(code, status_msg, content_type, body_len);
    let d = dec(code as nat);
    let sm = match status_msg {
        Some(m) => seq![' '] + m,
        None => Seq::<char>::empty(),
    };
    let ct = match content_type {
        Some(x) => x,
        None => "application/octet-stream"@,
    };
    let l = dec(body_len);
    let p1 = "HTTP/1.1 "@;
    let p2 = "\r\nContent-Type: "@;
    let p3 = "\r\nContent-Length: "@;
    let p4 = "\r\nAccess-Control-Allow-Headers: *\r\nAccess-Control-Allow-Origin: *\r\nAccess-Control-Allow-Methods: *\r\n\r\n"@;
    assert(t == p1 + d + sm + p2 + ct + p3 + l + p4);
    let c: int = 9 + d.len() as int;
    let sl: int = c + sm.len() + 2;
    let q: int = sl + 14 + ct.len() + 2;
    assert(t.take(9) =~= p1);
    assert(t.subrange(9, c) =~= d);
    match status_msg {
        Some(m) => {
            assert(t.subrange(c + 1, c + 1 + m.len()) =~= m);
        },
        None => {},
    }
    assert(t.subrange(sl, sl + 14) =~= "Content-Type: "@);
    assert(t.subrange(sl + 14, sl + 14 + ct.len()) =~= ct);
    assert(t.subrange(q, q + 16) =~= "Content-Length: "@);
    assert(t.subrange(q + 16, q + 16 + l.len()) =~= l);
    assert(t.skip(t.len() - 4) =~= "\r\n\r\n"@);
}

/// The bytes of the head of an answer (see [`response_head_text`]); the body
/// follows it when it is not empty.
pub fn http_response_head(code: u16, status_msg: Option<&str>, content_type: Option<&str>, body_len: usize) -> (r: Vec<u8>)
    ensures
        r@ == vstd::utf8::encode_utf8(response_head_text(
            code,
            match status_msg { Some(m) => Some(m@), None => None },
            match content_type { Some(t) => Some(t@), None => None },
            body_len as nat,
        )),
{
    let mut out = str_chars("HTTP/1.1 ");
    push_chars(&mut out, crate::text::dec_chars(code as u64).as_slice());
    match status_msg {
        Some(m) => {
            out.push(' ');
            push_chars(&mut out, str_chars(m).as_slice());
        },
        None => {},
    }
    push_chars(&mut out, str_chars("\r\nContent-Type: ").as_slice());
    match content_type {
        Some(t) => push_chars(&mut out, str_chars(t).as_slice()),
        None => push_chars(&mut out, str_chars("application/octet-stream").as_slice()),
    }
    push_chars(&mut out, str_chars("\r\nContent-Length: ").as_slice());
    push_chars(&mut out, crate::text::dec_chars(body_len as u64).as_slice());
    push_chars(
        &mut out,
        str_chars("\r\nAccess-Control-Allow-Headers: *\r\nAccess-Control-Allow-Origin: *\r\nAccess-Control-Allow-Methods: *\r\n\r\n").as_slice(),
    );
    proof {
        assert(out@ =~= response_head_text(
            code,
            match status_msg { Some(m) => Some(m@), None => None },
            match content_type { Some(t) => Some(t@), None => None },
            body_len as nat,
        ));
    }
    crate::text::string_bytes(&chars_to_string(out.as_slice()))
}
} // verus!
