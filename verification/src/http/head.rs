//! Heads of HTTP messages: the request line or status code, and the headers.
use vstd::prelude::*;
use vstd::utf8::*;

use crate::bytes::put_slice;
use crate::http::{http_url_text, parse_http_url_spec, push_chars, HttpError, HttpUrl, HttpUrlView};
use crate::text::{
    chars_eq_ignore_case, chars_to_string, eq_ignore_case, lossy_string, lower, lower_chars,
    parse_uint, parse_uint_spec, str_chars, string_bytes, utf8_lossy,
};

verus! {

/// The parts of a head that the HTTP parser found, as it found them.
#[derive(Debug)]
pub struct HeadFields {
    /// How many bytes the head took, up to the start of the body.
    pub len: usize,
    pub method: Option<String>,
    pub path: Option<String>,
    pub code: Option<u16>,
    pub headers: Vec<(String, Vec<u8>)>,
}

/// What the HTTP parser made of a buffer: a whole head, a head that goes on
/// past the buffer, or bytes that are no head.
#[derive(Debug)]
pub enum ParsedHead {
    Complete(HeadFields),
    Partial,
    Invalid,
}

/// [`HeadFields`] as plain values.
pub struct HeadFieldsView {
    pub len: nat,
    pub method: Option<Seq<char>>,
    pub path: Option<Seq<char>>,
    pub code: Option<u16>,
    pub headers: Seq<(Seq<char>, Seq<u8>)>,
}

/// [`ParsedHead`] as plain values.
pub enum ParsedHeadView {
    Complete(HeadFieldsView),
    Partial,
    Invalid,
}

impl View for ParsedHead {
    type V = ParsedHeadView;

    open spec fn view(&self) -> ParsedHeadView {
        match self {
            ParsedHead::Complete(f) => ParsedHeadView::Complete(HeadFieldsView {
                len: f.len as nat,
                method: match f.method { Some(m) => Some(m@), None => None },
                path: match f.path { Some(p) => Some(p@), None => None },
                code: f.code,
                headers: f.headers@.map_values(|h: (String, Vec<u8>)| (h.0@, h.1@)),
            }),
            ParsedHead::Partial => ParsedHeadView::Partial,
            ParsedHead::Invalid => ParsedHeadView::Invalid,
        }
    }
}

/// What httparse's request parser makes of a buffer, with room for
/// `max_headers` headers.
pub uninterp spec fn httparse_request(buf: Seq<u8>, max_headers: nat) -> ParsedHeadView;

/// The number of headers the proxy's request and response readers make room for.
pub const MAX_HEADERS: usize = 32;

/// What httparse's response parser, with room for 32 headers, makes of a buffer.
pub uninterp spec fn httparse_response(buf: Seq<u8>) -> ParsedHeadView;

/// Runs httparse's `Request::parse` on `buf` with room for `max_headers`
/// headers. Claimed: the result is a function of the bytes and the room
/// alone, and a complete head takes no more bytes than there are; a request
/// has no status code. What httparse accepts is left unsaid.
#[verifier::external_body]
pub(crate) fn parse_request_bytes(buf: &[u8], max_headers: usize) -> (r: ParsedHead)
    ensures
        r@ == httparse_request(buf@, max_headers as nat),
        r matches ParsedHead::Complete(f) ==> f.len <= buf@.len() && f.code is None,
{
    let mut headers = vec![httparse::EMPTY_HEADER; max_headers];
    let mut req = httparse::Request::new(&mut headers);
    match req.parse(buf) {
        Ok(httparse::Status::Complete(len)) => ParsedHead::Complete(HeadFields {
            len,
            method: req.method.map(|m| m.to_string()),
            path: req.path.map(|p| p.to_string()),
            code: None,
            headers: req.headers.iter().map(|h| (h.name.to_string(), h.value.to_vec())).collect(),
        }),
        Ok(httparse::Status::Partial) => ParsedHead::Partial,
        Err(_) => ParsedHead::Invalid,
    }
}

/// Runs httparse's `Response::parse` on `buf` with room for 32 headers.
/// Claimed: the result is a function of the bytes alone, and a complete head
/// takes no more bytes than there are; a response has no method or path. What
/// httparse accepts is left unsaid.
#[verifier::external_body]
fn parse_response_bytes(buf: &[u8]) -> (r: ParsedHead)
    ensures
        r@ == httparse_response(buf@),
        r matches ParsedHead::Complete(f) ==> f.len <= buf@.len() && f.method is None && f.path is None,
{
    let mut headers = [httparse::EMPTY_HEADER; 32];
    let mut res = httparse::Response::new(&mut headers);
    match res.parse(buf) {
        Ok(httparse::Status::Complete(len)) => ParsedHead::Complete(HeadFields {
            len,
            method: None,
            path: None,
            code: res.code,
            headers: res.headers.iter().map(|h| (h.name.to_string(), h.value.to_vec())).collect(),
        }),
        Ok(httparse::Status::Partial) => ParsedHead::Partial,
        Err(_) => ParsedHead::Invalid,
    }
}

/// The headers of an HTTP message, names and values as text, in order.
#[derive(Debug)]
pub struct HttpCommon {
    pub headers: Vec<(String, String)>,
}

/// The headers as plain values.
pub open spec fn common_view(c: &HttpCommon) -> Seq<(Seq<char>, Seq<char>)> {
    c.headers@.map_values(|h: (String, String)| (h.0@, h.1@))
}

/// The value of the first header whose name equals `n` up to ASCII case.
pub open spec fn find_header(hs: Seq<(Seq<char>, Seq<char>)>, n: Seq<char>) -> Option<Seq<char>>
    decreases hs.len(),
{
    if hs.len() == 0 {
        None
    } else if eq_ignore_case(hs[0].0, n) {
        Some(hs[0].1)
    } else {
        find_header(hs.drop_first(), n)
    }
}

/// The characters of `content-length`.
pub open spec fn content_length_name() -> Seq<char> {
    seq!['c', 'o', 'n', 't', 'e', 'n', 't', '-', 'l', 'e', 'n', 'g', 't', 'h']
}

/// The characters of `content-type`.
pub open spec fn content_type_name() -> Seq<char> {
    seq!['c', 'o', 'n', 't', 'e', 'n', 't', '-', 't', 'y', 'p', 'e']
}

/// The characters of `transfer-encoding`.
pub open spec fn transfer_encoding_name() -> Seq<char> {
    seq!['t', 'r', 'a', 'n', 's', 'f', 'e', 'r', '-', 'e', 'n', 'c', 'o', 'd', 'i', 'n', 'g']
}

/// The body length a head declares: its `content-length` header read as a
/// decimal number that fits in a `usize`.
pub open spec fn content_length_spec(hs: Seq<(Seq<char>, Seq<char>)>) -> Option<nat> {
    match find_header(hs, content_length_name()) {
        Some(v) => parse_uint_spec(v, usize::MAX as nat),
        None => None,
    }
}

impl HttpCommon {
    /// The value of the first header named `n`, up to ASCII case.
    pub fn get_header(&self, n: &str) -> (r: Option<&str>)
        ensures
            match find_header(common_view(self), n@) {
                Some(v) => r matches Some(x) && x@ == v,
                None => r is None,
            },
    {
        let name = str_chars(n);
        let ghost hs = common_view(self);
        let mut i: usize = 0;
        proof { assert(hs.skip(0) =~= hs); }
        while i < self.headers.len()
            invariant
                i <= self.headers@.len(),
                hs == common_view(self),
                name@ == n@,
                find_header(hs, n@) == find_header(hs.skip(i as int), n@),
            decreases self.headers.len() - i,
        {
            let k = str_chars(self.headers[i].0.as_str());
            proof {
                let t = hs.skip(i as int);
                assert(t[0] == hs[i as int]);
                assert(t.drop_first() =~= hs.skip(i + 1));
            }
            if chars_eq_ignore_case(k.as_slice(), name.as_slice()) {
                return Some(self.headers[i].1.as_str());
            }
            i = i + 1;
        }
        None
    }

    /// The `content-length` header as a number.
    pub fn get_content_length(&self) -> (r: Option<usize>)
        ensures
            match content_length_spec(common_view(self)) {
                Some(v) => r == Some(v as usize),
                None => r is None,
            },
    {
        let name = "content-length";
        proof { reveal_strlit("content-length"); assert(name@ =~= content_length_name()); }
        match self.get_header(name) {
            Some(v) => {
                let cs = str_chars(v);
                match parse_uint(cs.as_slice(), usize::MAX as u64) {
                    Some(x) => Some(x as usize),
                    None => None,
                }
            },
            None => None,
        }
    }

    /// The `content-type` header.
    pub fn get_content_type(&self) -> (r: Option<&str>)
        ensures
            match find_header(common_view(self), content_type_name()) {
                Some(v) => r matches Some(x) && x@ == v,
                None => r is None,
            },
    {
        let name = "content-type";
        proof { reveal_strlit("content-type"); assert(name@ =~= content_type_name()); }
        self.get_header(name)
    }
}

/// The headers of a parsed head, values read as UTF-8 with invalid sequences
/// replaced.
pub open spec fn text_headers(hs: Seq<(Seq<char>, Seq<u8>)>) -> Seq<(Seq<char>, Seq<char>)> {
    hs.map_values(|h: (Seq<char>, Seq<u8>)| (h.0, utf8_lossy(h.1)))
}

/// Turns parsed headers into text headers.
pub fn headers_to_text(hs: &Vec<(String, Vec<u8>)>) -> (r: HttpCommon)
    ensures
        common_view(&r) == text_headers(hs@.map_values(|h: (String, Vec<u8>)| (h.0@, h.1@))),
{
    let mut out: Vec<(String, String)> = Vec::new();
    let mut i: usize = 0;
    while i < hs.len()
        invariant
            i <= hs@.len(),
            out@.len() == i,
            forall|k: int| 0 <= k < i ==> (#[trigger] out@[k]).0@ == hs@[k].0@ && out@[k].1@ == utf8_lossy(hs@[k].1@),
        decreases hs.len() - i,
    {
        let name = hs[i].0.clone();
        let value = lossy_string(hs[i].1.as_slice());
        out.push((name, value));
        i = i + 1;
    }
    let r = HttpCommon { headers: out };
    proof {
        assert(common_view(&r) =~= text_headers(hs@.map_values(|h: (String, Vec<u8>)| (h.0@, h.1@))));
    }
    r
}

/// An HTTP request head: method (lower case), target and headers.
#[derive(Debug)]
pub struct HttpRequest {
    pub common: HttpCommon,
    pub method: String,
    pub url: HttpUrl,
}

/// An [`HttpRequest`] as plain values.
pub struct HttpRequestView {
    pub headers: Seq<(Seq<char>, Seq<char>)>,
    pub method: Seq<char>,
    pub url: HttpUrlView,
}

impl View for HttpRequest {
    type V = HttpRequestView;

    open spec fn view(&self) -> HttpRequestView {
        HttpRequestView { headers: common_view(&self.common), method: self.method@, url: self.url@ }
    }
}

/// The request a parsed head stands for: no request yet while the head is
/// partial; a request when it is complete and has a method, a path and a
/// target that reads as a URL; the first of those that fails otherwise.
pub open spec fn request_from_head_spec(h: ParsedHeadView) -> Result<Option<(nat, HttpRequestView)>, HttpError> {
    match h {
        ParsedHeadView::Partial => Ok(None),
        ParsedHeadView::Invalid => Err(HttpError::Malformed),
        ParsedHeadView::Complete(f) => match f.method {
            None => Err(HttpError::NoMethod),
            Some(m) => match f.path {
                None => Err(HttpError::NoPath),
                Some(p) => match parse_http_url_spec(p) {
                    Err(e) => Err(e),
                    Ok(u) => Ok(Some((f.len, HttpRequestView { headers: text_headers(f.headers), method: lower(m), url: u }))),
                },
            },
        },
    }
}

/// The request a parsed head from a client stream stands for: as
/// [`request_from_head_spec`], but a missing method or path reads as empty.
pub open spec fn stream_request_spec(h: ParsedHeadView) -> Result<Option<(nat, HttpRequestView)>, HttpError> {
    match h {
        ParsedHeadView::Partial => Ok(None),
        ParsedHeadView::Invalid => Err(HttpError::Malformed),
        ParsedHeadView::Complete(f) => {
            let m = match f.method { Some(m) => m, None => Seq::empty() };
            let p = match f.path { Some(p) => p, None => Seq::empty() };
            match parse_http_url_spec(p) {
                Err(e) => Err(e),
                Ok(u) => Ok(Some((f.len, HttpRequestView { headers: text_headers(f.headers), method: lower(m), url: u }))),
            }
        },
    }
}

/// How a parse result compares with its plain-value statement.
pub open spec fn request_result_matches(
    r: Result<Option<(usize, HttpRequest)>, HttpError>,
    s: Result<Option<(nat, HttpRequestView)>, HttpError>,
) -> bool {
    match s {
        Ok(None) => r matches Ok(None),
        Ok(Some((n, v))) => r matches Ok(Some((x, req))) && x == n && req@ == v,
        Err(e) => r matches Err(x) && x == e,
    }
}

/// The characters of ` HTTP/1.1` and a line end.
pub open spec fn http11_line_end() -> Seq<char> {
    seq![' ', 'H', 'T', 'T', 'P', '/', '1', '.', '1', '\r', '\n']
}

/// The text of headers: each as name, colon, space, value and line end.
pub open spec fn headers_text(hs: Seq<(Seq<char>, Seq<char>)>) -> Seq<char>
    decreases hs.len(),
{
    if hs.len() == 0 {
        Seq::empty()
    } else {
        hs[0].0 + seq![':', ' '] + hs[0].1 + seq!['\r', '\n'] + headers_text(hs.drop_first())
    }
}

/// The text of a request head as it is sent.
pub open spec fn request_head_text(r: HttpRequestView) -> Seq<char> {
    r.method + seq![' '] + http_url_text(r.url) + http11_line_end() + headers_text(r.headers) + seq!['\r', '\n']
}

/// The headers are written one line each, in order: the text of headers is
/// that of those before any header, then its line (name, colon, space,
/// value, CRLF), then that of those after it.
pub proof fn lemma_headers_text_split(hs: Seq<(Seq<char>, Seq<char>)>, k: int)
    requires
        0 <= k < hs.len(),
    ensures
        headers_text(hs) == headers_text(hs.take(k)) + (hs[k].0 + seq![':', ' '] + hs[k].1 + seq!['\r', '\n'])
            + headers_text(hs.skip(k + 1)),
    decreases k,
{
    if k == 0 {
        assert(hs.take(0) =~= Seq::<(Seq<char>, Seq<char>)>::empty());
        assert(hs.skip(1) =~= hs.drop_first());
        assert(headers_text(hs.take(0)) == Seq::<char>::empty());
        assert(headers_text(hs) =~= Seq::<char>::empty() + (hs[0].0 + seq![':', ' '] + hs[0].1 + seq!['\r', '\n'])
            + headers_text(hs.skip(1)));
    } else {
        let t = hs.drop_first();
        lemma_headers_text_split(t, k - 1);
        assert(t.take(k - 1) =~= hs.take(k).drop_first());
        assert(t.skip(k) =~= hs.skip(k + 1));
        assert(t[k - 1] == hs[k]);
        let line0 = hs[0].0 + seq![':', ' '] + hs[0].1 + seq!['\r', '\n'];
        assert(hs.take(k)[0] == hs[0]);
        assert(headers_text(hs.take(k)) == line0 + headers_text(hs.take(k).drop_first()));
    }
}

/// A request head as it is sent: the method, a space, the URL's text, a space
/// and `HTTP/1.1` with CRLF, then the header lines, then an empty line.
pub proof fn lemma_request_head_lines(r: HttpRequestView)
    ensures
        ({
            let t = request_head_text(r);
            let m = r.method.len() as int;
            let u = http_url_text(r.url).len() as int;
            &&& t.take(m) == r.method
            &&& t[m] == ' '
            &&& t.subrange(m + 1, m + 1 + u) == http_url_text(r.url)
            &&& t.subrange(m + 1 + u, m + 12 + u) == seq![' ', 'H', 'T', 'T', 'P', '/', '1', '.', '1', '\r', '\n']
            &&& t.skip(m + 12 + u) == headers_text(r.headers) + seq!['\r', '\n']
        }),
{
    let t = request_head_text(r);
    let m = r.method.len() as int;
    let u = http_url_text(r.url).len() as int;
    assert(t.take(m) =~= r.method);
    assert(t.subrange(m + 1, m + 1 + u) =~= http_url_text(r.url));
    assert(t.subrange(m + 1 + u, m + 12 + u) =~= http11_line_end());
    assert(t.skip(m + 12 + u) =~= headers_text(r.headers) + seq!['\r', '\n']);
}

impl HttpRequest {
    /// The request made of a parsed head (see [`request_from_head_spec`]).
    pub fn from_head(head: ParsedHead) -> (r: Result<Option<(usize, HttpRequest)>, HttpError>)
        ensures
            request_result_matches(r, request_from_head_spec(head@)),
    {
        match head {
            ParsedHead::Partial => Ok(None),
            ParsedHead::Invalid => Err(HttpError::Malformed),
            ParsedHead::Complete(f) => {
                let m = match &f.method {
                    Some(m) => m,
                    None => return Err(HttpError::NoMethod),
                };
                let method = chars_to_string(lower_chars(str_chars(m.as_str()).as_slice()).as_slice());
                let p = match &f.path {
                    Some(p) => p,
                    None => return Err(HttpError::NoPath),
                };
                let common = headers_to_text(&f.headers);
                match HttpUrl::from_str(p.as_str()) {
                    Ok(url) => Ok(Some((f.len, HttpRequest { common, method, url }))),
                    Err(e) => Err(e),
                }
            },
        }
    }

    /// The request made of a parsed head from a client stream (see
    /// [`stream_request_spec`]).
    pub fn from_stream_head(head: ParsedHead) -> (r: Result<Option<(usize, HttpRequest)>, HttpError>)
        ensures
            request_result_matches(r, stream_request_spec(head@)),
    {
        match head {
            ParsedHead::Partial => Ok(None),
            ParsedHead::Invalid => Err(HttpError::Malformed),
            ParsedHead::Complete(f) => {
                let m = match &f.method {
                    Some(m) => str_chars(m.as_str()),
                    None => Vec::new(),
                };
                let method = chars_to_string(lower_chars(m.as_slice()).as_slice());
                let p = match &f.path {
                    Some(p) => p.clone(),
                    None => String::new(),
                };
                let common = headers_to_text(&f.headers);
                match HttpUrl::from_str(p.as_str()) {
                    Ok(url) => Ok(Some((f.len, HttpRequest { common, method, url }))),
                    Err(e) => Err(e),
                }
            },
        }
    }

    /// Reads a request head from the start of `buf`: nothing while it is
    /// incomplete, the request and its length once it is complete.
    pub fn parse(buf: &[u8]) -> (r: Result<Option<(usize, HttpRequest)>, HttpError>)
        ensures
            request_result_matches(r, request_from_head_spec(httparse_request(buf@, MAX_HEADERS as nat))),
            r matches Ok(Some((n, _))) ==> n <= buf@.len(),
    {
        Self::from_head(parse_request_bytes(buf, MAX_HEADERS))
    }

    /// Reads a request head sent by a client (see [`stream_request_spec`]).
    pub fn parse_stream(buf: &[u8]) -> (r: Result<Option<(usize, HttpRequest)>, HttpError>)
        ensures
            request_result_matches(r, stream_request_spec(httparse_request(buf@, MAX_HEADERS as nat))),
            r matches Ok(Some((n, _))) ==> n <= buf@.len(),
    {
        Self::from_stream_head(parse_request_bytes(buf, MAX_HEADERS))
    }

    /// Appends the head as it is sent: request line, headers, empty line.
    pub fn to_writer(&self, w: &mut Vec<u8>)
        ensures
            final(w)@ == old(w)@ + encode_utf8(request_head_text(self@)),
    {
        let mut out: Vec<char> = str_chars(self.method.as_str());
        out.push(' ');
        push_chars(&mut out, str_chars(self.url.to_text().as_str()).as_slice());
        let tail = " HTTP/1.1\r\n";
        proof { reveal_strlit(" HTTP/1.1\r\n"); assert(tail@ =~= http11_line_end()); }
        push_chars(&mut out, str_chars(tail).as_slice());
        let ghost hs = common_view(&self.common);
        let ghost start = out@;
        let mut i: usize = 0;
        proof { assert(hs.skip(0) =~= hs); assert(start + Seq::<char>::empty() =~= start); }
        while i < self.common.headers.len()
            invariant
                i <= self.common.headers@.len(),
                hs == common_view(&self.common),
                out@ + headers_text(hs.skip(i as int)) == start + headers_text(hs),
            decreases self.common.headers.len() - i,
        {
            let ghost before = out@;
            push_chars(&mut out, str_chars(self.common.headers[i].0.as_str()).as_slice());
            out.push(':');
            out.push(' ');
            push_chars(&mut out, str_chars(self.common.headers[i].1.as_str()).as_slice());
            out.push('\r');
            out.push('\n');
            proof {
                let t = hs.skip(i as int);
                assert(t[0] == hs[i as int]);
                assert(t.drop_first() =~= hs.skip(i + 1));
                assert(out@ + headers_text(hs.skip(i + 1)) =~= before + headers_text(t));
            }
            i = i + 1;
        }
        proof { assert(hs.skip(i as int).len() == 0); }
        out.push('\r');
        out.push('\n');
        proof { assert(out@ =~= request_head_text(self@)); }
        let bytes = string_bytes(&chars_to_string(out.as_slice()));
        put_slice(w, bytes.as_slice());
    }
}

/// An HTTP response head: headers and status code.
#[derive(Debug)]
pub struct HttpResponse {
    pub common: HttpCommon,
    pub status_code: u16,
}

/// An [`HttpResponse`] as plain values.
pub struct HttpResponseView {
    pub headers: Seq<(Seq<char>, Seq<char>)>,
    pub status_code: u16,
}

impl View for HttpResponse {
    type V = HttpResponseView;

    open spec fn view(&self) -> HttpResponseView {
        HttpResponseView { headers: common_view(&self.common), status_code: self.status_code }
    }
}

/// The response a parsed head stands for: no response yet while it is
/// partial; a response once it is complete and has a status code.
pub open spec fn response_from_head_spec(h: ParsedHeadView) -> Result<Option<(nat, HttpResponseView)>, HttpError> {
    match h {
        ParsedHeadView::Partial => Ok(None),
        ParsedHeadView::Invalid => Err(HttpError::Malformed),
        ParsedHeadView::Complete(f) => match f.code {
            None => Err(HttpError::NoStatusCode),
            Some(c) => Ok(Some((f.len, HttpResponseView { headers: text_headers(f.headers), status_code: c }))),
        },
    }
}

/// How a response parse result compares with its plain-value statement.
pub open spec fn response_result_matches(
    r: Result<Option<(usize, HttpResponse)>, HttpError>,
    s: Result<Option<(nat, HttpResponseView)>, HttpError>,
) -> bool {
    match s {
        Ok(None) => r matches Ok(None),
        Ok(Some((n, v))) => r matches Ok(Some((x, res))) && x == n && res@ == v,
        Err(e) => r matches Err(x) && x == e,
    }
}

impl HttpResponse {
    /// The headers of the response.
    pub fn common(&self) -> (r: &HttpCommon)
        ensures
            common_view(r) == self@.headers,
    {
        &self.common
    }

    /// The response made of a parsed head (see [`response_from_head_spec`]).
    pub fn from_head(head: ParsedHead) -> (r: Result<Option<(usize, HttpResponse)>, HttpError>)
        ensures
            response_result_matches(r, response_from_head_spec(head@)),
    {
        match head {
            ParsedHead::Partial => Ok(None),
            ParsedHead::Invalid => Err(HttpError::Malformed),
            ParsedHead::Complete(f) => match f.code {
                None => Err(HttpError::NoStatusCode),
                Some(c) => Ok(Some((f.len, HttpResponse { common: headers_to_text(&f.headers), status_code: c }))),
            },
        }
    }

    /// Reads a response head from the start of `buf`: nothing while it is
    /// incomplete, the response and its length once it is complete.
    pub fn parse(buf: &[u8]) -> (r: Result<Option<(usize, HttpResponse)>, HttpError>)
        ensures
            response_result_matches(r, response_from_head_spec(httparse_response(buf@))),
            r matches Ok(Some((n, _))) ==> n <= buf@.len(),
    {
        Self::from_head(parse_response_bytes(buf))
    }
}

/// How the body after a head is delimited.
#[derive(Debug, Clone, Copy, PartialEq, Eq, Structural)]
pub enum BodyKind {
    /// A body of this many bytes.
    Length(usize),
    /// A body in chunks.
    Chunked,
    /// No body.
    Empty,
}

/// The characters of `chunked`.
pub open spec fn chunked_name() -> Seq<char> {
    seq!['c', 'h', 'u', 'n', 'k', 'e', 'd']
}

/// How the body is delimited: by a `content-length` above zero, else by a
/// `transfer-encoding` of `chunked` (any case), else there is none.
pub open spec fn body_kind_spec(hs: Seq<(Seq<char>, Seq<char>)>) -> BodyKind {
    match content_length_spec(hs) {
        Some(n) if n > 0 => BodyKind::Length(n as usize),
        _ => match find_header(hs, transfer_encoding_name()) {
            Some(e) if eq_ignore_case(e, chunked_name()) => BodyKind::Chunked,
            _ => BodyKind::Empty,
        },
    }
}

/// Whether a head declares a body length above zero.
pub open spec fn declares_length(hs: Seq<(Seq<char>, Seq<char>)>) -> bool {
    content_length_spec(hs) matches Some(n) && n > 0
}

/// Whether a head's transfer encoding is `chunked`, in any case.
pub open spec fn declares_chunked(hs: Seq<(Seq<char>, Seq<char>)>) -> bool {
    find_header(hs, transfer_encoding_name()) matches Some(e) && eq_ignore_case(e, chunked_name())
}

/// How a body is delimited follows the head: a content length above zero
/// gives that many bytes, whatever the transfer encoding says; without one,
/// a `chunked` transfer encoding gives a chunked body; otherwise the body is
/// empty.
pub proof fn lemma_body_kind_follows_head(hs: Seq<(Seq<char>, Seq<char>)>)
    ensures
        declares_length(hs) ==> body_kind_spec(hs) == BodyKind::Length(content_length_spec(hs)->0 as usize),
        !declares_length(hs) && declares_chunked(hs) ==> body_kind_spec(hs) == BodyKind::Chunked,
        !declares_length(hs) && !declares_chunked(hs) ==> body_kind_spec(hs) == BodyKind::Empty,
        body_kind_spec(hs) matches BodyKind::Length(n) ==> n > 0 && content_length_spec(hs) == Some(n as nat),
{
}

impl HttpCommon {
    /// How the body after these headers is delimited.
    pub fn body_kind(&self) -> (r: BodyKind)
        ensures
            r == body_kind_spec(common_view(self)),
            declares_length(common_view(self)) ==> r == BodyKind::Length(
                content_length_spec(common_view(self))->0 as usize,
            ),
            !declares_length(common_view(self)) && declares_chunked(common_view(self)) ==> r == BodyKind::Chunked,
            !declares_length(common_view(self)) && !declares_chunked(common_view(self)) ==> r == BodyKind::Empty,
    {
        proof { lemma_body_kind_follows_head(common_view(self)); }
        match self.get_content_length() {
            Some(n) if n > 0 => BodyKind::Length(n),
            _ => {
                let name = "transfer-encoding";
                proof { reveal_strlit("transfer-encoding"); assert(name@ =~= transfer_encoding_name()); }
                match self.get_header(name) {
                    Some(e) => {
                        let chunked = vec!['c', 'h', 'u', 'n', 'k', 'e', 'd'];
                        proof { assert(chunked@ =~= chunked_name()); }
                        if chars_eq_ignore_case(str_chars(e).as_slice(), chunked.as_slice()) {
                            BodyKind::Chunked
                        } else {
                            BodyKind::Empty
                        }
                    },
                    None => BodyKind::Empty,
                }
            },
        }
    }
}

/// What httparse's `parse_chunk_size` makes of the start of a buffer.
pub enum ChunkSize {
    /// A chunk-size line of this many bytes, announcing a chunk of this size.
    Complete(usize, u64),
    /// The line goes on past the buffer.
    Partial,
    /// No chunk-size line.
    Invalid,
}

/// What httparse's `parse_chunk_size` makes of a buffer: the line's length
/// and the chunk's size, or more bytes needed, or none there.
pub uninterp spec fn httparse_chunk_size(buf: Seq<u8>) -> (u8, nat, u64);

/// Runs httparse's `parse_chunk_size`. Claimed: the result is a function of
/// the bytes alone (0 complete, 1 partial, 2 invalid, with the line length
/// and the size), and a complete line is no longer than the bytes. Which
/// lines are accepted is left unsaid.
#[verifier::external_body]
fn parse_chunk_size_bytes(buf: &[u8]) -> (r: ChunkSize)
    ensures
        match r {
            ChunkSize::Complete(n, len) => httparse_chunk_size(buf@) == (0u8, n as nat, len) && n <= buf@.len(),
            ChunkSize::Partial => httparse_chunk_size(buf@).0 == 1,
            ChunkSize::Invalid => httparse_chunk_size(buf@).0 == 2,
        },
{
    match httparse::parse_chunk_size(buf) {
        Ok(httparse::Status::Complete((n, len))) => ChunkSize::Complete(n, len),
        Ok(httparse::Status::Partial) => ChunkSize::Partial,
        Err(_) => ChunkSize::Invalid,
    }
}

/// What one look at the buffered bytes of a chunked body decides.
#[derive(Debug, Clone, Copy, PartialEq, Eq, Structural)]
pub enum ChunkStep {
    /// Read more bytes first.
    ReadMore,
    /// A chunk: skip `offset` bytes of size line, take the `have` bytes of
    /// the chunk that are buffered, and read `need` more.
    Data { offset: usize, have: usize, need: usize },
    /// The last chunk: the body is complete.
    End,
    /// More chunk bytes are buffered than the chunk holds.
    Overrun,
    /// The bytes are no chunk-size line.
    Invalid,
}

/// Looks at the buffered bytes of a chunked body.
pub fn chunk_step(buf: &[u8]) -> (r: ChunkStep)
    ensures
        ({
            let (kind, n, len) = httparse_chunk_size(buf@);
            if kind == 0 {
                if len == 0 {
                    r == ChunkStep::End
                } else if buf@.len() - n > len {
                    r == ChunkStep::Overrun
                } else {
                    r == (ChunkStep::Data { offset: n as usize, have: (buf@.len() - n) as usize, need: (len - (buf@.len() - n)) as usize })
                }
            } else if kind == 1 {
                r == ChunkStep::ReadMore
            } else {
                r == ChunkStep::Invalid
            }
        }),
{
    match parse_chunk_size_bytes(buf) {
        ChunkSize::Complete(offset, len) => {
            if len == 0 {
                return ChunkStep::End;
            }
            let have = buf.len() - offset;
            if have as u64 > len {
                ChunkStep::Overrun
            } else {
                ChunkStep::Data { offset, have, need: (len - have as u64) as usize }
            }
        },
        ChunkSize::Partial => ChunkStep::ReadMore,
        ChunkSize::Invalid => ChunkStep::Invalid,
    }
}
} // verus!
