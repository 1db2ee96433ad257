use vstd::prelude::*;
use vstd::utf8::*;

use crate::ip::{ip_chars, ip_text, parse_ipv4, parse_ipv4_spec, IpAddr, SocketAddr};
use crate::bytes::{be16, be16_value, get_u16, lemma_be16_roundtrip, put_slice, put_u16, sub_vec};
use crate::text::{chars_to_string, dec, dec_chars, str_chars, string_bytes, string_push, utf8_string};

pub mod req;
pub mod udp;

verus! {

broadcast use {encode_utf8_valid_utf8, encode_utf8_decode_utf8, decode_utf8_encode_utf8};

/// SOCKS5 authentication method: no authentication.
pub const AUTH_NO_PASSWORD: u8 = 0;
/// SOCKS5 authentication reply: no acceptable method.
pub const AUTH_NOT_ACCEPTED: u8 = 0xff;

/// SOCKS5 address type: IPv4.
pub const ATYP_IPV4: u8 = 1;
/// SOCKS5 address type: domain name.
pub const ATYP_DOMAIN: u8 = 3;
/// SOCKS5 address type: IPv6.
pub const ATYP_IPV6: u8 = 4;

/// The field of a SOCKS5 message that held an unexpected value.
#[derive(Debug, Clone, Copy, PartialEq, Eq, Structural)]
pub enum Field {
    Protocol,
    Rsv,
    AddressType,
}

/// Why a SOCKS5 message could not be read.
#[derive(Debug, Clone, Copy, PartialEq, Eq, Structural)]
pub enum ParseError {
    /// A field held a value that the protocol does not allow.
    Unexpected { field: Field, value: u8 },
    /// A domain name that is not UTF-8.
    InvalidDomain,
}

/// Where a connection goes: an IP endpoint or a host name with a port.
#[derive(Debug, Clone)]
pub enum Address {
    IP(SocketAddr),
    Name { host: String, port: u16 },
}

/// An [`Address`] as plain values.
pub enum AddressView {
    Ip { octets: Seq<u8>, port: u16 },
    Name { host: Seq<char>, port: u16 },
}

impl View for Address {
    type V = AddressView;

    open spec fn view(&self) -> AddressView {
        match self {
            Address::IP(a) => AddressView::Ip { octets: a.ip.octets(), port: a.port },
            Address::Name { host, port } => AddressView::Name { host: host@, port: *port },
        }
    }
}

impl AddressView {
    /// The port of the address.
    pub open spec fn port(self) -> u16 {
        match self {
            AddressView::Ip { port, .. } => port,
            AddressView::Name { port, .. } => port,
        }
    }

    /// Whether the address can be written in SOCKS5 form: an IP of four or
    /// sixteen octets, or a name of at most 255 UTF-8 bytes.
    pub open spec fn writable(self) -> bool {
        match self {
            AddressView::Ip { octets, .. } => octets.len() == 4 || octets.len() == 16,
            AddressView::Name { host, .. } => encode_utf8(host).len() <= 255,
        }
    }
}

/// The SOCKS5 encoding of an address (RFC 1928): type, address, port.
pub open spec fn address_wire(a: AddressView) -> Seq<u8> {
    match a {
        AddressView::Ip { octets, port } => if octets.len() == 4 {
            seq![ATYP_IPV4] + octets + be16(port)
        } else {
            seq![ATYP_IPV6] + octets + be16(port)
        },
        AddressView::Name { host, port } => seq![ATYP_DOMAIN, encode_utf8(host).len() as u8]
            + encode_utf8(host) + be16(port),
    }
}

/// What reading a SOCKS5 address from the start of `b` gives: `Ok(None)` when
/// more bytes are needed, otherwise the length read and the address.
pub open spec fn parse_address_spec(b: Seq<u8>) -> Result<Option<(nat, AddressView)>, ParseError> {
    if b.len() == 0 {
        Ok(None)
    } else if b[0] == ATYP_IPV4 {
        if b.len() < 7 {
            Ok(None)
        } else {
            Ok(Some((7, AddressView::Ip { octets: b.subrange(1, 5), port: be16_value(b[5], b[6]) })))
        }
    } else if b[0] == ATYP_IPV6 {
        if b.len() < 19 {
            Ok(None)
        } else {
            Ok(Some((19, AddressView::Ip { octets: b.subrange(1, 17), port: be16_value(b[17], b[18]) })))
        }
    } else if b[0] == ATYP_DOMAIN {
        if b.len() < 2 || b.len() < 4 + b[1] {
            Ok(None)
        } else {
            let n = b[1] as int;
            let name = b.subrange(2, 2 + n);
            if valid_utf8(name) {
                Ok(Some(((4 + n) as nat, AddressView::Name {
                    host: decode_utf8(name),
                    port: be16_value(b[2 + n], b[3 + n]),
                })))
            } else {
                Err(ParseError::InvalidDomain)
            }
        }
    } else {
        Err(ParseError::Unexpected { field: Field::AddressType, value: b[0] })
    }
}

impl Default for Address {
    fn default() -> (r: Self)
        ensures
            r@ == (AddressView::Ip { octets: seq![0u8, 0u8, 0u8, 0u8], port: 0 }),
    {
        let zero = [0u8; 4];
        proof { assert(zero@ =~= seq![0u8, 0u8, 0u8, 0u8]); }
        Address::IP(SocketAddr { ip: IpAddr::V4(zero), port: 0 })
    }
}

impl Address {
    /// Whether two addresses are the same.
    pub fn same_as(&self, other: &Address) -> (r: bool)
        ensures
            r == (self@ == other@),
    {
        match (self, other) {
            (Address::IP(a), Address::IP(b)) => {
                if a.port != b.port {
                    return false;
                }
                match (a.ip, b.ip) {
                    (IpAddr::V4(x), IpAddr::V4(y)) => {
                        let r = x[0] == y[0] && x[1] == y[1] && x[2] == y[2] && x[3] == y[3];
                        proof {
                            if r { assert(x@ =~= y@); }
                        }
                        assert(r == (self@ == other@));
                        r
                    },
                    (IpAddr::V6(x), IpAddr::V6(y)) => {
                        let mut i: usize = 0;
                        while i < 16
                            invariant
                                i <= 16,
                                forall|k: int| 0 <= k < i ==> x@[k] == y@[k],
                                self@ == (AddressView::Ip { octets: x@, port: a.port }),
                                other@ == (AddressView::Ip { octets: y@, port: b.port }),
                            decreases 16 - i,
                        {
                            if x[i] != y[i] {
                                proof { assert(x@[i as int] != y@[i as int]); }
                                return false;
                            }
                            i = i + 1;
                        }
                        proof { assert(x@ =~= y@); }
                        true
                    },
                    (IpAddr::V4(x), IpAddr::V6(y)) => {
                        proof { assert(x@.len() != y@.len()); }
                        false
                    },
                    (IpAddr::V6(x), IpAddr::V4(y)) => {
                        proof { assert(x@.len() != y@.len()); }
                        false
                    },
                }
            },
            (Address::Name { host: h1, port: p1 }, Address::Name { host: h2, port: p2 }) => {
                let r = *p1 == *p2 && h1.eq(h2);
                assert(r == (self@ == other@));
                r
            },
            (Address::IP(_), Address::Name { .. }) => {
                assert(self@ != other@);
                false
            },
            (Address::Name { .. }, Address::IP(_)) => {
                assert(self@ != other@);
                false
            },
        }
    }

    /// The port of the address.
    pub fn get_port(&self) -> (r: u16)
        ensures
            r == self@.port(),
    {
        match self {
            Address::IP(a) => a.port,
            Address::Name { port, .. } => *port,
        }
    }

    /// A copy of the address.
    pub fn duplicate(&self) -> (r: Address)
        ensures
            r@ == self@,
    {
        match self {
            Address::IP(a) => Address::IP(*a),
            Address::Name { host, port } => Address::Name { host: host.clone(), port: *port },
        }
    }

    /// Reads a SOCKS5 address from the start of `b`.
    pub fn parse(b: &[u8]) -> (r: Result<Option<(usize, Address)>, ParseError>)
        ensures
            match parse_address_spec(b@) {
                Ok(None) => r == Ok::<Option<(usize, Address)>, ParseError>(None),
                Ok(Some((n, a))) => r matches Ok(Some((m, x))) && m == n && x@ == a,
                Err(e) => r == Err::<Option<(usize, Address)>, ParseError>(e),
            },
    {
        if b.len() == 0 {
            return Ok(None);
        }
        let t = b[0];
        if t == ATYP_IPV4 {
            if b.len() < 7 {
                return Ok(None);
            }
            let ip = [b[1], b[2], b[3], b[4]];
            let port = get_u16(b, 5);
            let r = Address::IP(SocketAddr { ip: IpAddr::V4(ip), port });
            proof { assert(ip@ =~= b@.subrange(1, 5)); }
            Ok(Some((7, r)))
        } else if t == ATYP_IPV6 {
            if b.len() < 19 {
                return Ok(None);
            }
            let ip = [b[1], b[2], b[3], b[4], b[5], b[6], b[7], b[8], b[9], b[10], b[11], b[12],
                b[13], b[14], b[15], b[16]];
            let port = get_u16(b, 17);
            let r = Address::IP(SocketAddr { ip: IpAddr::V6(ip), port });
            proof { assert(ip@ =~= b@.subrange(1, 17)); }
            Ok(Some((19, r)))
        } else if t == ATYP_DOMAIN {
            if b.len() < 2 || b.len() < 4 + b[1] as usize {
                return Ok(None);
            }
            let n = b[1] as usize;
            let name = sub_vec(b, 2, 2 + n);
            let port = get_u16(b, 2 + n);
            match utf8_string(name) {
                Some(host) => Ok(Some((4 + n, Address::Name { host, port }))),
                None => Err(ParseError::InvalidDomain),
            }
        } else {
            Err(ParseError::Unexpected { field: Field::AddressType, value: t })
        }
    }

    /// Length of the SOCKS5 encoding of the address.
    pub fn write_len(&self) -> (r: usize)
        ensures
            self@.writable() ==> r == address_wire(self@).len(),
            r <= 259,
    {
        match self {
            Address::IP(a) => match a.ip {
                IpAddr::V4(_) => 7,
                IpAddr::V6(_) => 19,
            },
            Address::Name { host, .. } => {
                let b = host.as_str().as_bytes();
                if b.len() > 255 { 0 } else { 4 + b.len() }
            },
        }
    }

    /// Appends the SOCKS5 encoding of the address; a name longer than 255 bytes
    /// cannot be written, and nothing is appended then.
    pub fn write_to(&self, out: &mut Vec<u8>) -> (r: bool)
        ensures
            r == self@.writable(),
            r ==> final(out)@ == old(out)@ + address_wire(self@),
            !r ==> final(out)@ == old(out)@,
    {
        match self {
            Address::IP(a) => {
                match a.ip {
                    IpAddr::V4(o) => {
                        out.push(ATYP_IPV4);
                        put_slice(out, &o);
                    },
                    IpAddr::V6(o) => {
                        out.push(ATYP_IPV6);
                        put_slice(out, &o);
                    },
                }
                put_u16(out, a.port);
                proof { assert(final(out)@ =~= old(out)@ + address_wire(self@)); }
                true
            },
            Address::Name { host, port } => {
                let b = string_bytes(host);
                if b.len() > 255 {
                    return false;
                }
                out.push(ATYP_DOMAIN);
                out.push(b.len() as u8);
                put_slice(out, b.as_slice());
                put_u16(out, *port);
                proof { assert(final(out)@ =~= old(out)@ + address_wire(self@)); }
                true
            },
        }
    }
}

/// The address for a host text and a port: an IP endpoint when the text is an
/// IP address, a name otherwise.
pub open spec fn address_of(host: Seq<char>, port: u16) -> AddressView {
    match parse_ipv4_spec(host) {
        Some(o) => AddressView::Ip { octets: o, port },
        None => AddressView::Name { host, port },
    }
}

/// The text of an address: `host:port`, with an IPv6 address in brackets.
pub open spec fn address_text(a: AddressView) -> Seq<char> {
    match a {
        AddressView::Ip { octets, port } => if octets.len() == 16 {
            seq!['['] + ip_text(octets) + seq![']', ':'] + dec(port as nat)
        } else {
            ip_text(octets) + seq![':'] + dec(port as nat)
        },
        AddressView::Name { host, port } => host + seq![':'] + dec(port as nat),
    }
}

/// The last index of `c` in `s`.
pub open spec fn last_index_of(s: Seq<char>, c: char) -> Option<int>
    decreases s.len(),
{
    if s.len() == 0 {
        None
    } else if s.last() == c {
        Some(s.len() - 1)
    } else {
        last_index_of(s.drop_last(), c)
    }
}

/// `s` without surrounding square brackets, if it has them.
pub open spec fn strip_brackets(s: Seq<char>) -> Seq<char> {
    if s.len() >= 2 && s[0] == '[' && s.last() == ']' { s.subrange(1, s.len() - 1) } else { s }
}

/// What reading `host:port` text gives: the part after the last colon is the
/// port, the part before is the host (an IP address, possibly in brackets, or
/// a name).
pub open spec fn parse_address_text(s: Seq<char>) -> Option<AddressView> {
    match last_index_of(s, ':') {
        None => None,
        Some(i) => match crate::text::parse_uint_spec(s.subrange(i + 1, s.len() as int), 0xffff) {
            None => None,
            Some(port) => {
                let host = s.subrange(0, i);
                match parse_ipv4_spec(strip_brackets(host)) {
                    Some(o) => Some(AddressView::Ip { octets: o, port: port as u16 }),
                    None => Some(AddressView::Name { host, port: port as u16 }),
                }
            },
        },
    }
}

/// `last_index_of` gives a position holding `c`, with no `c` after it.
pub proof fn lemma_last_index_of(s: Seq<char>, c: char)
    ensures
        match last_index_of(s, c) {
            Some(i) => 0 <= i < s.len() && s[i] == c && forall|j: int| i < j < s.len() ==> s[j] != c,
            None => forall|j: int| 0 <= j < s.len() ==> s[j] != c,
        },
    decreases s.len(),
{
    if s.len() > 0 && s.last() != c {
        let t = s.drop_last();
        lemma_last_index_of(t, c);
        assert(forall|j: int| 0 <= j < t.len() ==> t[j] == s[j]);
    }
}

/// `last_index_of` finds the last position holding `c`.
pub proof fn lemma_last_index_of_at(s: Seq<char>, c: char, k: int)
    requires
        0 <= k < s.len(),
        s[k] == c,
        forall|j: int| k < j < s.len() ==> s[j] != c,
    ensures
        last_index_of(s, c) == Some(k),
{
    lemma_last_index_of(s, c);
}

/// The text of an address reads back as the address, for an IPv4 endpoint
/// and for a name that does not read as an IPv4 address (with or without
/// brackets).
pub proof fn lemma_address_text_roundtrip(a: AddressView)
    requires
        a is Ip ==> a->octets.len() == 4,
        a is Name ==> parse_ipv4_spec(strip_brackets(a->host)) is None,
    ensures
        parse_address_text(address_text(a)) == Some(a),
{
    let h = match a {
        AddressView::Ip { octets, .. } => crate::ip::v4_text(octets),
        AddressView::Name { host, .. } => host,
    };
    let p = a.port();
    let d = dec(p as nat);
    crate::text::lemma_dec(p as nat);
    crate::text::lemma_parse_dec(p as nat, 0xffff);
    let t = h + seq![':'] + d;
    assert(address_text(a) =~= t);
    assert forall|j: int| h.len() < j < t.len() implies t[j] != ':' by {
        assert(t[j] == d[j - h.len() - 1]);
        assert(crate::text::is_digit(d[j - h.len() - 1]));
    }
    lemma_last_index_of_at(t, ':', h.len() as int);
    assert(t.subrange(h.len() as int + 1, t.len() as int) =~= d);
    assert(t.subrange(0, h.len() as int) =~= h);
    match a {
        AddressView::Ip { octets, .. } => {
            crate::text::lemma_dec(octets[0] as nat);
            assert(h[0] == dec(octets[0] as nat)[0]);
            assert(crate::text::is_digit(h[0]));
            assert(strip_brackets(h) == h);
            crate::ip::lemma_v4_text_roundtrip(octets);
        },
        AddressView::Name { .. } => {},
    }
}

/// Finds the last occurrence of `c`.
pub fn rfind_char(s: &[char], c: char) -> (r: Option<usize>)
    ensures
        match last_index_of(s@, c) {
            None => r.is_none(),
            Some(i) => r == Some(i as usize),
        },
        r matches Some(i) ==> i < s@.len(),
{
    let mut i = s.len();
    proof { assert(s@.take(i as int) =~= s@); }
    while i > 0
        invariant
            i <= s.len(),
            last_index_of(s@, c) == last_index_of(s@.take(i as int), c),
        decreases i,
    {
        proof {
            assert(s@.take(i as int).drop_last() =~= s@.take(i - 1));
        }
        if s[i - 1] == c {
            return Some(i - 1);
        }
        i = i - 1;
    }
    None
}

/// A copy of `s` from `start` to `end`.
pub fn sub_chars(s: &[char], start: usize, end: usize) -> (r: Vec<char>)
    requires
        start <= end <= s@.len(),
    ensures
        r@ == s@.subrange(start as int, end as int),
{
    let mut r: Vec<char> = Vec::new();
    let mut i: usize = start;
    while i < end
        invariant
            start <= i <= end <= s@.len(),
            r@ == s@.subrange(start as int, i as int),
        decreases end - i,
    {
        r.push(s[i]);
        i = i + 1;
        proof { assert(r@ =~= s@.subrange(start as int, i as int)); }
    }
    r
}

impl Address {
    /// The address for a host text and a port: an IP endpoint when the host is
    /// an IP address, a name otherwise.
    pub fn from_host_port(host: String, port: u16) -> (r: Address)
        ensures
            r@ == address_of(host@, port),
    {
        let chars = str_chars(host.as_str());
        match parse_ipv4(chars.as_slice()) {
            Some(ip) => Address::IP(SocketAddr { ip: IpAddr::V4(ip), port }),
            None => Address::Name { host, port },
        }
    }

    /// Reads `host:port` text.
    pub fn parse_text(s: &str) -> (r: Option<Address>)
        ensures
            match parse_address_text(s@) {
                None => r.is_none(),
                Some(a) => r matches Some(x) && x@ == a,
            },
    {
        let chars = str_chars(s);
        let i = match rfind_char(chars.as_slice(), ':') {
            None => return None,
            Some(i) => i,
        };
        let n = chars.len();
        proof { lemma_last_index_of(s@, ':'); }
        let port_chars = sub_chars(chars.as_slice(), i + 1, n);
        let port = match crate::text::parse_uint(port_chars.as_slice(), 0xffff) {
            None => return None,
            Some(p) => p as u16,
        };
        let host = sub_chars(chars.as_slice(), 0, i);
        let n = host.len();
        let ip_text_chars = if n >= 2 && host[0] == '[' && host[n - 1] == ']' {
            sub_chars(host.as_slice(), 1, n - 1)
        } else {
            sub_chars(host.as_slice(), 0, n)
        };
        proof {
            assert(host@.subrange(0, n as int) =~= host@);
        }
        match parse_ipv4(ip_text_chars.as_slice()) {
            Some(ip) => Some(Address::IP(SocketAddr { ip: IpAddr::V4(ip), port })),
            None => Some(Address::Name { host: chars_to_string(host.as_slice()), port }),
        }
    }

    /// The text of the address, `host:port`.
    pub fn to_text(&self) -> (r: String)
        ensures
            r@ == address_text(self@),
    {
        let (mut r, port) = match self {
            Address::IP(a) => {
                let t = chars_to_string(ip_chars(&a.ip).as_slice());
                match a.ip {
                    IpAddr::V6(_) => {
                        let mut r = String::new();
                        string_push(&mut r, '[');
                        let tc = str_chars(t.as_str());
                        let mut i: usize = 0;
                        while i < tc.len()
                            invariant
                                i <= tc.len(),
                                r@ == seq!['['] + tc@.take(i as int),
                            decreases tc.len() - i,
                        {
                            string_push(&mut r, tc[i]);
                            i = i + 1;
                            proof { assert(r@ =~= seq!['['] + tc@.take(i as int)); }
                        }
                        string_push(&mut r, ']');
                        proof { assert(tc@.take(tc.len() as int) =~= tc@); }
                        (r, a.port)
                    },
                    IpAddr::V4(_) => (t, a.port),
                }
            },
            Address::Name { host, port } => (host.clone(), *port),
        };
        let ghost head = r@;
        string_push(&mut r, ':');
        let d = dec_chars(port as u64);
        let mut i: usize = 0;
        while i < d.len()
            invariant
                i <= d.len(),
                r@ == head + seq![':'] + d@.take(i as int),
            decreases d.len() - i,
        {
            string_push(&mut r, d[i]);
            i = i + 1;
            proof { assert(r@ =~= head + seq![':'] + d@.take(i as int)); }
        }
        proof {
            assert(d@.take(d.len() as int) =~= d@);
            assert(r@ =~= address_text(self@));
        }
        r
    }
}

impl PartialEq for Address {
    fn eq(&self, other: &Self) -> (r: bool) {
        self.same_as(other)
    }
}

impl vstd::std_specs::cmp::PartialEqSpecImpl for Address {
    open spec fn obeys_eq_spec() -> bool {
        true
    }

    open spec fn eq_spec(&self, other: &Self) -> bool {
        self@ == other@
    }
}

/// Reading back the SOCKS5 encoding of a writable address gives the address
/// and the length of its encoding, whatever follows it.
pub proof fn lemma_address_roundtrip(a: AddressView, rest: Seq<u8>)
    requires
        a.writable(),
    ensures
        parse_address_spec(address_wire(a) + rest) == Ok::<Option<(nat, AddressView)>, ParseError>(
            Some((address_wire(a).len(), a)),
        ),
{
    let w = address_wire(a);
    let b = w + rest;
    lemma_be16_roundtrip(a.port());
    match a {
        AddressView::Ip { octets, port } => {
            if octets.len() == 4 {
                assert(b.subrange(1, 5) =~= octets);
                assert(b[5] == be16(port)[0] && b[6] == be16(port)[1]);
            } else {
                assert(b.subrange(1, 17) =~= octets);
                assert(b[17] == be16(port)[0] && b[18] == be16(port)[1]);
            }
        },
        AddressView::Name { host, port } => {
            let e = encode_utf8(host);
            let n = e.len() as int;
            assert(b[1] == e.len() as u8);
            assert(b.subrange(2, 2 + n) =~= e);
            assert(b[2 + n] == be16(port)[0] && b[3 + n] == be16(port)[1]);
        },
    }
}

} // verus!
