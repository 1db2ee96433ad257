use vstd::prelude::*;

use crate::socks5::{
    address_of, last_index_of, lemma_last_index_of, rfind_char, sub_chars, Address, AddressView,
};
use crate::text::{
    chars_eq_ignore_case, chars_to_string, eq_ignore_case, index_of, lemma_index_of, parse_uint,
    parse_uint_spec, str_chars,
};

verus! {

/// Why a URL could not be read.
#[derive(Debug, Clone, Copy, PartialEq, Eq, Structural)]
pub enum UrlError {
    /// A colon with nothing before or after it in the host part.
    InvalidHostOrPort,
    /// A port that is not a decimal number below 65536.
    InvalidPort,
    /// A scheme other than `http` or `https`.
    UnknownScheme,
}

/// The parts of a URL: `scheme://host:port/path`, each part optional.
pub struct Url {
    pub scheme: String,
    pub host: String,
    pub port: Option<u16>,
    pub path: String,
}

/// The first position at or after `i` where `pat` occurs in `s`.
pub open spec fn find_seq_from(s: Seq<char>, pat: Seq<char>, i: int) -> Option<int>
    decreases s.len() - i,
{
    if i < 0 || i + pat.len() > s.len() {
        None
    } else if s.subrange(i, i + pat.len()) == pat {
        Some(i)
    } else if i >= s.len() {
        None
    } else {
        find_seq_from(s, pat, i + 1)
    }
}

/// Where `find_seq_from` finds the pattern, it lies within the sequence.
pub proof fn lemma_find_seq_from(s: Seq<char>, pat: Seq<char>, i: int)
    ensures
        find_seq_from(s, pat, i) matches Some(v) ==> i <= v && v + pat.len() <= s.len()
            && s.subrange(v, v + pat.len()) == pat,
    decreases s.len() - i,
{
    if !(i < 0 || i + pat.len() > s.len()) && s.subrange(i, i + pat.len()) != pat && i < s.len() {
        lemma_find_seq_from(s, pat, i + 1);
    }
}

/// The separator between a URL's scheme and the rest.
pub open spec fn scheme_sep() -> Seq<char> {
    seq![':', '/', '/']
}

/// What reading a URL gives: scheme, host, port and path as std's `str::find`
/// and `rfind` cut them, or the error.
pub open spec fn parse_url_spec(url: Seq<char>) -> Result<(Seq<char>, Seq<char>, Option<u16>, Seq<char>), UrlError> {
    let (scheme, rest) = match find_seq_from(url, scheme_sep(), 0) {
        Some(v) => (url.take(v), url.skip(v + 3)),
        None => (Seq::<char>::empty(), url),
    };
    let (hp, path) = match index_of(rest, '/') {
        Some(v) => (rest.take(v), rest.skip(v)),
        None => (rest, Seq::<char>::empty()),
    };
    match last_index_of(hp, ':') {
        Some(v) => if v > 0 && v < hp.len() - 1 {
            match parse_uint_spec(hp.skip(v + 1), 0xffff) {
                Some(p) => Ok((scheme, hp.take(v), Some(p as u16), path)),
                None => Err(UrlError::InvalidPort),
            }
        } else {
            Err(UrlError::InvalidHostOrPort)
        },
        None => Ok((scheme, hp, None::<u16>, path)),
    }
}

fn find_scheme_sep(s: &[char]) -> (r: Option<usize>)
    ensures
        match find_seq_from(s@, scheme_sep(), 0) {
            Some(v) => r == Some(v as usize),
            None => r.is_none(),
        },
        r matches Some(v) ==> v + 3 <= s@.len(),
{
    let mut i: usize = 0;
    while s.len() >= 3 && i <= s.len() - 3
        invariant
            find_seq_from(s@, scheme_sep(), 0) == find_seq_from(s@, scheme_sep(), i as int),
        decreases s.len() - i,
    {
        if s[i] == ':' && s[i + 1] == '/' && s[i + 2] == '/' {
            proof { assert(s@.subrange(i as int, i + 3) =~= scheme_sep()); }
            return Some(i);
        }
        proof {
            assert(s@.subrange(i as int, i + 3)[0] == s@[i as int]);
            assert(s@.subrange(i as int, i + 3) != scheme_sep());
        }
        i = i + 1;
    }
    None
}

/// Finds the first occurrence of `c`.
pub fn find_char(s: &[char], c: char) -> (r: Option<usize>)
    ensures
        match index_of(s@, c) {
            None => r.is_none(),
            Some(i) => r == Some(i as usize),
        },
        r matches Some(i) ==> i < s@.len(),
{
    proof { lemma_index_of(s@, c); }
    let mut i: usize = 0;
    while i < s.len()
        invariant
            i <= s.len(),
            forall|j: int| 0 <= j < i ==> s@[j] != c,
            match index_of(s@, c) {
                Some(k) => 0 <= k < s@.len() && s@[k] == c && forall|j: int| 0 <= j < k ==> s@[j] != c,
                None => forall|j: int| 0 <= j < s@.len() ==> s@[j] != c,
            },
        decreases s.len() - i,
    {
        if s[i] == c {
            return Some(i);
        }
        i = i + 1;
    }
    None
}

impl Url {
    /// Reads a URL.
    pub fn try_from(url: &str) -> (r: Result<Url, UrlError>)
        ensures
            match parse_url_spec(url@) {
                Ok((scheme, host, port, path)) => r matches Ok(u) && u.scheme@ == scheme
                    && u.host@ == host && u.port == port && u.path@ == path,
                Err(e) => r matches Err(x) && x == e,
            },
    {
        let s = str_chars(url);
        let n = s.len();
        let (scheme, rest) = match find_scheme_sep(s.as_slice()) {
            Some(v) => (sub_chars(s.as_slice(), 0, v), sub_chars(s.as_slice(), v + 3, n)),
            None => (Vec::new(), sub_chars(s.as_slice(), 0, n)),
        };
        proof {
            lemma_find_seq_from(s@, scheme_sep(), 0);
            assert(s@.subrange(0, n as int) =~= s@);
            if let Some(v) = find_seq_from(s@, scheme_sep(), 0) {
                assert(s@.subrange(0, v) =~= s@.take(v));
                assert(s@.subrange(v + 3, n as int) =~= s@.skip(v + 3));
            }
            assert(scheme@ =~= parse_url_spec_scheme(url@));
        }
        let rn = rest.len();
        let (hp, path) = match find_char(rest.as_slice(), '/') {
            Some(v) => (sub_chars(rest.as_slice(), 0, v), sub_chars(rest.as_slice(), v, rn)),
            None => (sub_chars(rest.as_slice(), 0, rn), Vec::new()),
        };
        proof {
            lemma_index_of(rest@, '/');
            assert(rest@.subrange(0, rn as int) =~= rest@);
            if let Some(v) = index_of(rest@, '/') {
                assert(rest@.subrange(0, v) =~= rest@.take(v));
                assert(rest@.subrange(v, rn as int) =~= rest@.skip(v));
            }
            assert(path@ =~= (match index_of(rest@, '/') {
                Some(v) => rest@.skip(v),
                None => Seq::<char>::empty(),
            }));
        }
        let hn = hp.len();
        proof { lemma_last_index_of(hp@, ':'); }
        let (host, port) = match rfind_char(hp.as_slice(), ':') {
            Some(v) => {
                if v > 0 && v < hn - 1 {
                    let pc = sub_chars(hp.as_slice(), v + 1, hn);
                    proof { assert(pc@ =~= hp@.skip(v + 1)); }
                    match parse_uint(pc.as_slice(), 0xffff) {
                        Some(p) => {
                            let h = sub_chars(hp.as_slice(), 0, v);
                            proof { assert(h@ =~= hp@.take(v as int)); }
                            (h, Some(p as u16))
                        },
                        None => return Err(UrlError::InvalidPort),
                    }
                } else {
                    return Err(UrlError::InvalidHostOrPort);
                }
            },
            None => (sub_chars(hp.as_slice(), 0, hn), None),
        };
        proof { assert(hp@.subrange(0, hn as int) =~= hp@); }
        Ok(Url {
            scheme: chars_to_string(scheme.as_slice()),
            host: chars_to_string(host.as_slice()),
            port,
            path: chars_to_string(path.as_slice()),
        })
    }
}

/// The scheme part of a URL.
pub open spec fn parse_url_spec_scheme(url: Seq<char>) -> Seq<char> {
    match find_seq_from(url, scheme_sep(), 0) {
        Some(v) => url.take(v),
        None => Seq::<char>::empty(),
    }
}

/// An HTTP destination: whether it is HTTPS, the address and the path.
pub struct HttpUrl {
    pub is_https: bool,
    pub address: Address,
    pub path: String,
}

/// What reading an HTTP URL gives: the scheme decides HTTPS and the default
/// port, an empty path becomes `/`.
pub open spec fn parse_http_url_spec(url: Seq<char>) -> Result<(bool, AddressView, Seq<char>), UrlError> {
    match parse_url_spec(url) {
        Err(e) => Err(e),
        Ok((scheme, host, port, path)) => {
            if eq_ignore_case(scheme, seq!['h', 't', 't', 'p']) || eq_ignore_case(
                scheme,
                seq!['h', 't', 't', 'p', 's'],
            ) {
                let https = !eq_ignore_case(scheme, seq!['h', 't', 't', 'p']);
                let default_port: u16 = if https { 443 } else { 80 };
                let p = match port {
                    Some(p) => p,
                    None => default_port,
                };
                let path = if path.len() == 0 { seq!['/'] } else { path };
                Ok((https, address_of(host, p), path))
            } else {
                Err(UrlError::UnknownScheme)
            }
        },
    }
}

impl HttpUrl {
    /// Reads an HTTP URL.
    pub fn try_from(url: &str) -> (r: Result<HttpUrl, UrlError>)
        ensures
            match parse_http_url_spec(url@) {
                Ok((https, addr, path)) => r matches Ok(u) && u.is_https == https && u.address@
                    == addr && u.path@ == path,
                Err(e) => r matches Err(x) && x == e,
            },
    {
        let u = match Url::try_from(url) {
            Ok(u) => u,
            Err(e) => return Err(e),
        };
        let scheme = str_chars(u.scheme.as_str());
        let http = ['h', 't', 't', 'p'];
        let https = ['h', 't', 't', 'p', 's'];
        proof {
            assert(http@ =~= seq!['h', 't', 't', 'p']);
            assert(https@ =~= seq!['h', 't', 't', 'p', 's']);
        }
        let (is_https, default_port) = if chars_eq_ignore_case(scheme.as_slice(), &http) {
            (false, 80u16)
        } else if chars_eq_ignore_case(scheme.as_slice(), &https) {
            (true, 443u16)
        } else {
            return Err(UrlError::UnknownScheme);
        };
        let path_chars = str_chars(u.path.as_str());
        let path = if path_chars.len() == 0 {
            let mut p = String::new();
            crate::text::string_push(&mut p, '/');
            proof { assert(p@ =~= seq!['/']); }
            p
        } else {
            u.path
        };
        let port = match u.port {
            Some(p) => p,
            None => default_port,
        };
        Ok(HttpUrl { is_https, address: Address::from_host_port(u.host, port), path })
    }
}

} // verus!
