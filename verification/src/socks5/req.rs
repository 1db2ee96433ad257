use vstd::prelude::*;

use crate::bytes::sub_vec;
use crate::socks5::{address_wire, parse_address_spec, Address, AddressView, Field, ParseError};

verus! {

/// The reply code of a SOCKS5 connection request.
#[derive(Debug, Copy, Clone, Eq, PartialEq, Structural)]
pub struct ConnStatusCode(pub u8);

impl ConnStatusCode {
    /// The request was granted.
    pub fn granted() -> (r: Self)
        ensures
            r.0 == 0,
    {
        ConnStatusCode(0)
    }

    /// The request failed.
    pub fn failed() -> (r: Self)
        ensures
            r.0 == 1,
    {
        ConnStatusCode(0x1)
    }

    /// The command is not supported.
    pub fn unsupported_command() -> (r: Self)
        ensures
            r.0 == 7,
    {
        ConnStatusCode(0x7)
    }
}

/// The command of a SOCKS5 connection request.
#[derive(Debug, Copy, Clone, Eq, PartialEq, Structural)]
pub struct Command(pub u8);

/// The command number of a TCP connection.
pub const CMD_CONNECT_TCP: u8 = 1;
/// The command number of a UDP association.
pub const CMD_BIND_UDP: u8 = 3;

/// A SOCKS5 connection request: a command and a destination.
#[derive(Debug, Clone)]
pub struct ClientConnRequest {
    pub cmd: Command,
    pub address: Address,
}

/// What reading a SOCKS5 connection request from `b` gives: `Ok(None)` when
/// more bytes are needed, otherwise the length read, the command and the
/// destination.
pub open spec fn parse_conn_request_spec(b: Seq<u8>) -> Result<Option<(nat, u8, AddressView)>, ParseError> {
    if b.len() < 3 {
        Ok(None)
    } else if b[0] != 5 {
        Err(ParseError::Unexpected { field: Field::Protocol, value: b[0] })
    } else if b[2] != 0 {
        Err(ParseError::Unexpected { field: Field::Rsv, value: b[2] })
    } else {
        match parse_address_spec(b.skip(3)) {
            Err(e) => Err(e),
            Ok(None) => Ok(None),
            Ok(Some((n, a))) => Ok(Some((3 + n, b[1], a))),
        }
    }
}

/// The bytes of a reply to a SOCKS5 connection request.
pub open spec fn conn_reply_wire(code: u8, bound: AddressView) -> Seq<u8> {
    seq![5u8, code, 0u8] + address_wire(bound)
}

impl ClientConnRequest {
    /// Reads a SOCKS5 connection request from the start of `buf`.
    pub fn parse(buf: &[u8]) -> (r: Result<Option<(usize, ClientConnRequest)>, ParseError>)
        ensures
            match parse_conn_request_spec(buf@) {
                Ok(None) => r matches Ok(None),
                Ok(Some((n, c, a))) => r matches Ok(Some((m, req))) && m == n && req.cmd.0 == c
                    && req.address@ == a,
                Err(e) => r == Err::<Option<(usize, ClientConnRequest)>, ParseError>(e),
            },
    {
        if buf.len() < 3 {
            return Ok(None);
        }
        if buf[0] != 5 {
            return Err(ParseError::Unexpected { field: Field::Protocol, value: buf[0] });
        }
        let cmd = buf[1];
        if buf[2] != 0 {
            return Err(ParseError::Unexpected { field: Field::Rsv, value: buf[2] });
        }
        let tail = sub_vec(buf, 3, buf.len());
        proof { assert(tail@ =~= buf@.skip(3)); }
        match Address::parse(tail.as_slice()) {
            Err(e) => Err(e),
            Ok(None) => Ok(None),
            Ok(Some((offset, address))) => Ok(
                Some((3 + offset, ClientConnRequest { cmd: Command(cmd), address })),
            ),
        }
    }

    /// The reply to send for a connection request: version, code, reserved
    /// byte and the bound address. `None` when the address cannot be written.
    pub fn respond_bytes(code: ConnStatusCode, bound_addr: &Address) -> (r: Option<Vec<u8>>)
        ensures
            bound_addr@.writable() ==> (r matches Some(v) && v@ == conn_reply_wire(code.0, bound_addr@)),
            !bound_addr@.writable() ==> r.is_none(),
    {
        let mut out: Vec<u8> = Vec::new();
        out.push(5);
        out.push(code.0);
        out.push(0);
        if bound_addr.write_to(&mut out) {
            proof { assert(out@ =~= conn_reply_wire(code.0, bound_addr@)); }
            Some(out)
        } else {
            None
        }
    }
}

/// The greeting a SOCKS5 client opens with: the authentication methods it offers.
#[derive(Debug, Clone)]
pub struct ClientGreeting {
    pub auths: Vec<u8>,
}

/// What reading a SOCKS5 greeting from `b` gives: `Ok(None)` when more bytes are
/// needed, otherwise the length read and the offered methods.
pub open spec fn parse_greeting_spec(b: Seq<u8>) -> Result<Option<(nat, Seq<u8>)>, ParseError> {
    if b.len() < 2 {
        Ok(None)
    } else if b[0] != 5 {
        Err(ParseError::Unexpected { field: Field::Protocol, value: b[0] })
    } else if b.len() < 2 + b[1] {
        Ok(None)
    } else {
        Ok(Some(((2 + b[1]) as nat, b.subrange(2, 2 + b[1]))))
    }
}

impl ClientGreeting {
    /// Reads a SOCKS5 greeting from the start of `buf`.
    pub fn parse(buf: &[u8]) -> (r: Result<Option<(usize, ClientGreeting)>, ParseError>)
        ensures
            match parse_greeting_spec(buf@) {
                Ok(None) => r matches Ok(None),
                Ok(Some((n, auths))) => r matches Ok(Some((m, g))) && m == n && g.auths@ == auths,
                Err(e) => r == Err::<Option<(usize, ClientGreeting)>, ParseError>(e),
            },
    {
        if buf.len() < 2 {
            return Ok(None);
        }
        if buf[0] != 5 {
            return Err(ParseError::Unexpected { field: Field::Protocol, value: buf[0] });
        }
        let n = buf[1] as usize;
        if buf.len() < 2 + n {
            return Ok(None);
        }
        let auths = sub_vec(buf, 2, 2 + n);
        Ok(Some((2 + n, ClientGreeting { auths })))
    }

    /// The reply choosing an authentication method: version and method.
    pub fn respond_bytes(method: u8) -> (r: Vec<u8>)
        ensures
            r@ == seq![5u8, method],
    {
        let mut out: Vec<u8> = Vec::new();
        out.push(5);
        out.push(method);
        proof { assert(out@ =~= seq![5u8, method]); }
        out
    }
}

} // verus!
