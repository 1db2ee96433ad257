use vstd::prelude::*;

use crate::bytes::{get_u16, lemma_be16_value_zero, put_slice, put_u16, sub_vec};
use crate::socks5::{address_wire, lemma_address_roundtrip, parse_address_spec, Address, AddressView};

verus! {

/// Why bytes are not a SOCKS5 UDP packet.
#[derive(Debug, Clone, Copy, PartialEq, Eq, Structural)]
pub enum UdpPacketError {
    /// Fewer than two bytes: no reserved field.
    MissingReserved,
    /// The reserved field is not zero.
    ReservedNotZero,
    /// No fragment number.
    MissingFragment,
    /// No complete, valid address after the fragment number.
    InvalidAddress,
}

/// What reading a SOCKS5 UDP packet (RFC 1928, section 7) from `b` gives: the
/// address, the fragment number and where the payload starts.
pub open spec fn parse_udp_spec(b: Seq<u8>) -> Result<(AddressView, u8, nat), UdpPacketError> {
    if b.len() < 2 {
        Err(UdpPacketError::MissingReserved)
    } else if b[0] != 0 || b[1] != 0 {
        Err(UdpPacketError::ReservedNotZero)
    } else if b.len() < 3 {
        Err(UdpPacketError::MissingFragment)
    } else {
        match parse_address_spec(b.skip(3)) {
            Ok(Some((n, a))) => Ok((a, b[2], 3 + n)),
            _ => Err(UdpPacketError::InvalidAddress),
        }
    }
}

/// The bytes of a SOCKS5 UDP packet: reserved zeros, fragment number, address
/// and payload.
pub open spec fn udp_wire(addr: AddressView, frag_no: u8, payload: Seq<u8>) -> Seq<u8> {
    seq![0u8, 0u8, frag_no] + address_wire(addr) + payload
}

/// A checked SOCKS5 UDP packet held in its bytes.
pub struct UdpPacket {
    buf: Vec<u8>,
    data_offset: usize,
}

impl UdpPacket {
    /// The bytes of the packet.
    pub closed spec fn bytes(self) -> Seq<u8> {
        self.buf@
    }

    /// Well-formedness: the bytes are a valid packet whose payload starts at
    /// the recorded offset.
    pub closed spec fn wf(self) -> bool {
        parse_udp_spec(self.buf@) matches Ok((_, _, off)) && off == self.data_offset
    }

    /// The destination address of the packet.
    pub open spec fn addr_view(self) -> AddressView {
        parse_udp_spec(self.bytes())->Ok_0.0
    }

    /// The fragment number of the packet.
    pub open spec fn frag_view(self) -> u8 {
        parse_udp_spec(self.bytes())->Ok_0.1
    }

    /// The payload of the packet.
    pub open spec fn payload_view(self) -> Seq<u8> {
        self.bytes().skip(parse_udp_spec(self.bytes())->Ok_0.2 as int)
    }

    /// Checks that `buf` holds a SOCKS5 UDP packet.
    pub fn new_checked(buf: Vec<u8>) -> (r: Result<UdpPacket, UdpPacketError>)
        ensures
            match parse_udp_spec(buf@) {
                Ok(_) => r matches Ok(p) && p.wf() && p.bytes() == buf@,
                Err(e) => r == Err::<UdpPacket, UdpPacketError>(e),
            },
    {
        if buf.len() < 2 {
            return Err(UdpPacketError::MissingReserved);
        }
        if get_u16(buf.as_slice(), 0) != 0 {
            proof { lemma_be16_value_zero(buf@[0], buf@[1]); }
            return Err(UdpPacketError::ReservedNotZero);
        }
        proof { lemma_be16_value_zero(buf@[0], buf@[1]); }
        if buf.len() < 3 {
            return Err(UdpPacketError::MissingFragment);
        }
        let tail = sub_vec(buf.as_slice(), 3, buf.len());
        proof { assert(tail@ =~= buf@.skip(3)); }
        match Address::parse(tail.as_slice()) {
            Ok(Some((n, _))) => Ok(UdpPacket { buf, data_offset: 3 + n }),
            _ => Err(UdpPacketError::InvalidAddress),
        }
    }

    /// The bytes of the packet, given back.
    pub fn into_inner(self) -> (r: Vec<u8>)
        ensures
            r@ == self.bytes(),
    {
        self.buf
    }

    /// The bytes of the packet.
    pub fn inner(&self) -> (r: &Vec<u8>)
        ensures
            r@ == self.bytes(),
    {
        &self.buf
    }

    /// The fragment number.
    pub fn frag_no(&self) -> (r: u8)
        requires
            self.wf(),
        ensures
            r == self.bytes()[2],
            r == parse_udp_spec(self.bytes())->Ok_0.1,
    {
        self.buf[2]
    }

    /// The destination address.
    pub fn addr(&self) -> (r: Address)
        requires
            self.wf(),
        ensures
            r@ == self.addr_view(),
    {
        let tail = sub_vec(self.buf.as_slice(), 3, self.buf.len());
        proof { assert(tail@ =~= self.buf@.skip(3)); }
        match Address::parse(tail.as_slice()) {
            Ok(Some((_, a))) => a,
            _ => {
                proof { assert(false); }
                Address::default()
            },
        }
    }

    /// The payload after the address.
    pub fn payload(&self) -> (r: &[u8])
        requires
            self.wf(),
        ensures
            r@ == self.payload_view(),
    {
        &self.buf.as_slice()[self.data_offset..self.buf.len()]
    }
}

/// A SOCKS5 UDP packet to be written.
pub struct UdpRepr {
    pub addr: Address,
    pub payload: Vec<u8>,
    pub frag_no: u8,
}

impl UdpRepr {
    /// Length of everything before the payload.
    pub fn header_write_len(&self) -> (r: usize)
        ensures
            self.addr@.writable() ==> r == 3 + address_wire(self.addr@).len(),
            r <= 262,
    {
        3 + self.addr.write_len()
    }

    /// Length of the whole packet.
    pub fn write_len(&self) -> (r: usize)
        requires
            262 + self.payload@.len() <= usize::MAX,
        ensures
            self.addr@.writable() ==> r == udp_wire(self.addr@, self.frag_no, self.payload@).len(),
    {
        self.header_write_len() + self.payload.len()
    }

    /// Appends the packet; fails, appending only the header's first bytes, when
    /// the address cannot be written.
    pub fn write_to(&self, out: &mut Vec<u8>) -> (r: bool)
        ensures
            r == self.addr@.writable(),
            r ==> final(out)@ == old(out)@ + udp_wire(self.addr@, self.frag_no, self.payload@),
    {
        put_u16(out, 0);
        out.push(self.frag_no);
        if !self.addr.write_to(out) {
            return false;
        }
        put_slice(out, self.payload.as_slice());
        proof {
            assert(crate::bytes::be16(0u16) =~= seq![0u8, 0u8]) by {
                assert((0u16 >> 8u16) as u8 == 0u8 && (0u16 & 0xffu16) as u8 == 0u8) by (bit_vector);
            }
            assert(final(out)@ =~= old(out)@ + udp_wire(self.addr@, self.frag_no, self.payload@));
        }
        true
    }
}

/// Reading back a written SOCKS5 UDP packet gives its address, fragment number
/// and payload.
pub proof fn lemma_udp_roundtrip(addr: AddressView, frag_no: u8, payload: Seq<u8>)
    requires
        addr.writable(),
    ensures
        ({
            let b = udp_wire(addr, frag_no, payload);
            &&& parse_udp_spec(b) matches Ok((a, f, off))
            &&& a == addr
            &&& f == frag_no
            &&& b.skip(off as int) == payload
        }),
{
    let b = udp_wire(addr, frag_no, payload);
    lemma_address_roundtrip(addr, payload);
    assert(b.skip(3) =~= address_wire(addr) + payload);
    assert(b.skip(3 + address_wire(addr).len() as int) =~= payload);
}

} // verus!
