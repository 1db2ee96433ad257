//! The first exchange with a client: finding out whether it speaks SOCKS5 or
//! HTTP, and what it asks for. The reading and writing is done by the caller;
//! each function here takes the bytes received so far and decides.
use vstd::prelude::*;

use crate::http::head::{httparse_request, request_from_head_spec, HttpRequest, HttpRequestView, MAX_HEADERS};
use crate::http::{HttpError, HttpUrl, HttpUrlView};
use crate::proxy::ProxyRequest;
use crate::socks5::req::{
    conn_reply_wire, parse_conn_request_spec, parse_greeting_spec, ClientConnRequest, ClientGreeting,
    ConnStatusCode, CMD_BIND_UDP, CMD_CONNECT_TCP,
};
use crate::socks5::{Address, AddressView, ParseError, AUTH_NOT_ACCEPTED, AUTH_NO_PASSWORD};
use crate::ip::{IpAddr, SocketAddr};
use crate::text::{chars_eq_ignore_case, eq_ignore_case, str_chars};

verus! {

/// Why a handshake failed.
#[derive(Debug, Clone, Copy, PartialEq, Eq, Structural)]
pub enum HandshakeError {
    /// The first bytes are neither a SOCKS5 greeting nor an HTTP request.
    NotSocksOrHttp { socks: ParseError, http: HttpError },
    /// A SOCKS5 message could not be read.
    Socks(ParseError),
    /// An HTTP request could not be read.
    Http(HttpError),
    /// The client offered no method without authentication.
    InvalidAuth,
    /// The client asked for a SOCKS5 command other than connect or UDP.
    InvalidCommand,
    /// A `CONNECT` target has no address.
    NoAddress,
    /// A forwarded request's target has no `http` or `https` scheme.
    UnknownScheme,
    /// A SOCKS5 handshake was answered without a bound address.
    BoundAddressRequired,
}

/// What a SOCKS5 greeting offered.
#[derive(Debug)]
pub struct SocksState {
    pub auths: Vec<u8>,
}

/// Which kind of opening is still expected: either, or only one of them
/// after the other has been ruled out.
#[derive(Debug, Clone, Copy, PartialEq, Eq, Structural)]
pub enum ParseState {
    Init,
    SocksPartial,
    HttpPartial,
}

/// How the client is to be answered.
#[derive(Debug, Clone, Copy, PartialEq, Eq, Structural)]
pub enum HandshakeType {
    Socks5,
    Http,
    HttpTcpChannel,
}

/// The outcome of a handshake, kept to answer the client later.
#[derive(Debug)]
pub struct Handshaker(pub HandshakeType);

/// Reads a SOCKS5 greeting from the start of `buf`.
pub fn parse_socks5_greeting(buf: &[u8]) -> (r: Result<Option<(usize, SocksState)>, ParseError>)
    ensures
        match parse_greeting_spec(buf@) {
            Ok(None) => r matches Ok(None),
            Ok(Some((n, auths))) => r matches Ok(Some((m, s))) && m == n && s.auths@ == auths,
            Err(e) => r matches Err(x) && x == e,
        },
{
    match ClientGreeting::parse(buf) {
        Err(e) => Err(e),
        Ok(None) => Ok(None),
        Ok(Some((offset, g))) => Ok(Some((offset, SocksState { auths: g.auths }))),
    }
}

/// What one look at the bytes received so far decides.
#[derive(Debug)]
pub enum StartStep {
    /// Read more bytes, then look again in this state.
    ReadMore(ParseState),
    /// A SOCKS5 greeting of this many bytes.
    Socks(usize, SocksState),
    /// An HTTP request head of this many bytes.
    Http(usize, HttpRequest),
    /// Give up.
    Fail(HandshakeError),
}

/// The decision of [`start_step`] for a state and the bytes received so far.
pub open spec fn start_step_ok(state: ParseState, b: Seq<u8>, r: StartStep) -> bool {
    let g = parse_greeting_spec(b);
    let h = request_from_head_spec(httparse_request(b, MAX_HEADERS as nat));
    match state {
        ParseState::Init => match (g, h) {
            (Ok(Some((n, auths))), _) => r matches StartStep::Socks(m, s) && m == n && s.auths@ == auths,
            (_, Ok(Some((n, req)))) => r matches StartStep::Http(m, x) && m == n && x@ == req,
            (Ok(None), Ok(None)) => r matches StartStep::ReadMore(ParseState::Init),
            (Err(e1), Err(e2)) => r matches StartStep::Fail(HandshakeError::NotSocksOrHttp { socks, http })
                && socks == e1 && http == e2,
            (Err(_), Ok(None)) => r matches StartStep::ReadMore(ParseState::HttpPartial),
            (Ok(None), Err(_)) => r matches StartStep::ReadMore(ParseState::SocksPartial),
        },
        ParseState::HttpPartial => match h {
            Err(e) => r matches StartStep::Fail(HandshakeError::Http(x)) && x == e,
            Ok(None) => r matches StartStep::ReadMore(ParseState::HttpPartial),
            Ok(Some((n, req))) => r matches StartStep::Http(m, x) && m == n && x@ == req,
        },
        ParseState::SocksPartial => match g {
            Err(e) => r matches StartStep::Fail(HandshakeError::Socks(x)) && x == e,
            Ok(None) => r matches StartStep::ReadMore(ParseState::SocksPartial),
            Ok(Some((n, auths))) => r matches StartStep::Socks(m, s) && m == n && s.auths@ == auths,
        },
    }
}

/// Looks at the bytes received so far and decides whether the client opened
/// with a SOCKS5 greeting or an HTTP request, needs to send more, or sent
/// neither.
pub fn start_step(state: ParseState, buf: &[u8]) -> (r: StartStep)
    ensures
        start_step_ok(state, buf@, r),
        r matches StartStep::Socks(n, _) ==> n <= buf@.len(),
        r matches StartStep::Http(n, _) ==> n <= buf@.len(),
{
    match state {
        ParseState::Init => {
            let g = parse_socks5_greeting(buf);
            let h = HttpRequest::parse(buf);
            match (g, h) {
                (Ok(None), Ok(None)) => StartStep::ReadMore(ParseState::Init),
                (Ok(Some((offset, s))), _) => StartStep::Socks(offset, s),
                (_, Ok(Some((offset, req)))) => StartStep::Http(offset, req),
                (Err(e1), Err(e2)) => StartStep::Fail(HandshakeError::NotSocksOrHttp { socks: e1, http: e2 }),
                (Err(_), Ok(None)) => StartStep::ReadMore(ParseState::HttpPartial),
                (Ok(None), Err(_)) => StartStep::ReadMore(ParseState::SocksPartial),
            }
        },
        ParseState::HttpPartial => match HttpRequest::parse(buf) {
            Err(e) => StartStep::Fail(HandshakeError::Http(e)),
            Ok(None) => StartStep::ReadMore(ParseState::HttpPartial),
            Ok(Some((offset, req))) => StartStep::Http(offset, req),
        },
        ParseState::SocksPartial => match parse_socks5_greeting(buf) {
            Err(e) => StartStep::Fail(HandshakeError::Socks(e)),
            Ok(None) => StartStep::ReadMore(ParseState::SocksPartial),
            Ok(Some((offset, s))) => StartStep::Socks(offset, s),
        },
    }
}

/// The characters of `connect`.
pub open spec fn connect_name() -> Seq<char> {
    seq!['c', 'o', 'n', 'n', 'e', 'c', 't']
}

/// What an HTTP request asks of the proxy: a `CONNECT` (any case) opens a TCP
/// channel to its target's address; any other method forwards the request,
/// which then needs an `http` or `https` target, with only its path left in it.
pub fn handshake_http(r: HttpRequest) -> (res: Result<ProxyRequest, HandshakeError>)
    ensures
        eq_ignore_case(r@.method, connect_name()) ==> match r@.url {
            HttpUrlView::PathOnly { .. } => res == Err::<ProxyRequest, HandshakeError>(HandshakeError::NoAddress),
            HttpUrlView::WithAddress { address, .. } => res matches Ok(ProxyRequest::TCP { dst }) && dst@ == address,
            HttpUrlView::WithScheme { address, .. } => res matches Ok(ProxyRequest::TCP { dst }) && dst@ == address,
        },
        !eq_ignore_case(r@.method, connect_name()) ==> match r@.url {
            HttpUrlView::WithScheme { https, address, path } => res matches Ok(ProxyRequest::HTTP { dst, https: s, req })
                && dst@ == address && s == https && req@ == (HttpRequestView {
                    headers: r@.headers,
                    method: r@.method,
                    url: HttpUrlView::PathOnly { path },
                }),
            _ => res == Err::<ProxyRequest, HandshakeError>(HandshakeError::UnknownScheme),
        },
{
    let connect = "connect";
    proof { reveal_strlit("connect"); assert(connect@ =~= connect_name()); }
    let is_connect = chars_eq_ignore_case(str_chars(r.method.as_str()).as_slice(), str_chars(connect).as_slice());
    let HttpRequest { common, method, url } = r;
    if is_connect {
        match url {
            HttpUrl::PathOnly { .. } => Err(HandshakeError::NoAddress),
            HttpUrl::WithAddress { address, .. } => Ok(ProxyRequest::TCP { dst: address }),
            HttpUrl::WithScheme { address, .. } => Ok(ProxyRequest::TCP { dst: address }),
        }
    } else {
        match url {
            HttpUrl::WithScheme { https, address, path } => Ok(ProxyRequest::HTTP {
                dst: address,
                https,
                req: HttpRequest { common, method, url: HttpUrl::PathOnly { path } },
            }),
            _ => Err(HandshakeError::UnknownScheme),
        }
    }
}

/// How a client that asked by HTTP is answered: a forwarded request gets the
/// upstream's reply, a TCP channel gets a `200 OK` first.
pub fn http_handshake_type(req: &ProxyRequest) -> (r: HandshakeType)
    ensures
        r == (if req is TCP { HandshakeType::HttpTcpChannel } else { HandshakeType::Http }),
{
    match req {
        ProxyRequest::TCP { .. } => HandshakeType::HttpTcpChannel,
        _ => HandshakeType::Http,
    }
}

/// The authentication method to answer a SOCKS5 greeting with: none needed
/// when the client offers that, otherwise the refusal.
pub fn socks5_auth_method(state: &SocksState) -> (r: u8)
    ensures
        r == (if state.auths@.contains(AUTH_NO_PASSWORD) { AUTH_NO_PASSWORD } else { AUTH_NOT_ACCEPTED }),
{
    let mut i: usize = 0;
    while i < state.auths.len()
        invariant
            i <= state.auths@.len(),
            forall|k: int| 0 <= k < i ==> state.auths@[k] != AUTH_NO_PASSWORD,
        decreases state.auths.len() - i,
    {
        if state.auths[i] == AUTH_NO_PASSWORD {
            return AUTH_NO_PASSWORD;
        }
        i = i + 1;
    }
    AUTH_NOT_ACCEPTED
}

/// What one look at the bytes of a SOCKS5 request decides.
#[derive(Debug)]
pub enum Socks5Step {
    /// Read more bytes, then look again.
    ReadMore,
    /// A connect request of this many bytes.
    Connect(usize, Address),
    /// A UDP request of this many bytes.
    BindUdp(usize),
    /// Another command: answer "command not supported" and give up.
    Unsupported,
    /// Give up.
    Fail(ParseError),
}

/// Looks at the bytes of a SOCKS5 request received so far.
pub fn socks5_request_step(buf: &[u8]) -> (r: Socks5Step)
    ensures
        match parse_conn_request_spec(buf@) {
            Err(e) => r matches Socks5Step::Fail(x) && x == e,
            Ok(None) => r matches Socks5Step::ReadMore,
            Ok(Some((n, cmd, addr))) => if cmd == CMD_CONNECT_TCP {
                r matches Socks5Step::Connect(m, dst) && m == n && dst@ == addr
            } else if cmd == CMD_BIND_UDP {
                r matches Socks5Step::BindUdp(m) && m == n
            } else {
                r matches Socks5Step::Unsupported
            },
        },
{
    match ClientConnRequest::parse(buf) {
        Err(e) => Socks5Step::Fail(e),
        Ok(None) => Socks5Step::ReadMore,
        Ok(Some((offset, req))) => {
            if req.cmd.0 == CMD_CONNECT_TCP {
                Socks5Step::Connect(offset, req.address)
            } else if req.cmd.0 == CMD_BIND_UDP {
                Socks5Step::BindUdp(offset)
            } else {
                Socks5Step::Unsupported
            }
        },
    }
}

/// The bytes of `HTTP/1.1 200 OK` and an empty line.
pub open spec fn http_ok_bytes() -> Seq<u8> {
    seq![72u8, 84, 84, 80, 47, 49, 46, 49, 32, 50, 48, 48, 32, 79, 75, 13, 10, 13, 10]
}

/// The bytes of `HTTP/1.1 500 Internal server error` and an empty line.
pub open spec fn http_error_bytes() -> Seq<u8> {
    seq![72u8, 84, 84, 80, 47, 49, 46, 49, 32, 53, 48, 48, 32, 73, 110, 116, 101, 114, 110, 97, 108,
        32, 115, 101, 114, 118, 101, 114, 32, 101, 114, 114, 111, 114, 13, 10, 13, 10]
}

/// The zero IPv4 address with port zero, as plain values.
pub open spec fn zero_address() -> AddressView {
    AddressView::Ip { octets: seq![0u8, 0u8, 0u8, 0u8], port: 0 }
}

/// The answer to a SOCKS5 connection request with a code and an address.
fn socks5_reply(code: ConnStatusCode, addr: &Address) -> (r: Vec<u8>)
    requires
        addr@ is Ip,
    ensures
        r@ == conn_reply_wire(code.0, addr@),
{
    match ClientConnRequest::respond_bytes(code, addr) {
        Some(v) => v,
        None => Vec::new(),
    }
}

impl Handshaker {
    /// What to send a client once its request has been carried out, and
    /// whether the handshake then stands. A SOCKS5 client gets "granted" with
    /// the bound address, or "failed" when there is none, which is an error;
    /// an HTTP channel gets `200 OK`; a forwarded request gets nothing.
    pub fn respond_ok(&self, bound_address: Option<SocketAddr>) -> (r: (Vec<u8>, Result<(), HandshakeError>))
        ensures
            match (self.0, bound_address) {
                (HandshakeType::Socks5, Some(a)) => r.0@ == conn_reply_wire(0, Address::IP(a)@) && r.1 is Ok,
                (HandshakeType::Socks5, None) => r.0@ == conn_reply_wire(1, zero_address())
                    && r.1 == Err::<(), HandshakeError>(HandshakeError::BoundAddressRequired),
                (HandshakeType::Http, _) => r.0@.len() == 0 && r.1 is Ok,
                (HandshakeType::HttpTcpChannel, _) => r.0@ == http_ok_bytes() && r.1 is Ok,
            },
    {
        match (self.0, bound_address) {
            (HandshakeType::Socks5, Some(a)) => (socks5_reply(ConnStatusCode::granted(), &Address::IP(a)), Ok(())),
            (HandshakeType::Socks5, None) => {
                (socks5_reply(ConnStatusCode::failed(), &Address::default()), Err(HandshakeError::BoundAddressRequired))
            },
            (HandshakeType::Http, _) => (Vec::new(), Ok(())),
            (HandshakeType::HttpTcpChannel, _) => {
                // `HTTP/1.1 200 OK` and an empty line.
                let b: Vec<u8> = vec![72u8, 84, 84, 80, 47, 49, 46, 49, 32, 50, 48, 48, 32, 79, 75, 13, 10, 13, 10];
                proof { assert(b@ =~= http_ok_bytes()); }
                (b, Ok(()))
            },
        }
    }

    /// What to send a client whose request failed: "failed" to a SOCKS5
    /// client, `500 Internal server error` to an HTTP one.
    pub fn respond_err(&self) -> (r: Vec<u8>)
        ensures
            self.0 == HandshakeType::Socks5 ==> r@ == conn_reply_wire(1, zero_address()),
            self.0 != HandshakeType::Socks5 ==> r@ == http_error_bytes(),
    {
        match self.0 {
            HandshakeType::Socks5 => socks5_reply(ConnStatusCode::failed(), &Address::default()),
            _ => {
                // `HTTP/1.1 500 Internal server error` and an empty line.
                let b: Vec<u8> = vec![72u8, 84, 84, 80, 47, 49, 46, 49, 32, 53, 48, 48, 32, 73, 110, 116, 101, 114,
                    110, 97, 108, 32, 115, 101, 114, 118, 101, 114, 32, 101, 114, 114, 111, 114, 13, 10, 13, 10];
                proof { assert(b@ =~= http_error_bytes()); }
                b
            },
        }
    }
}

} // verus!
