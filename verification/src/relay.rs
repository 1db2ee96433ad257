//! The bookkeeping of the UDP relays: which peer address a packet carries
//! when it crosses a stream, and when a relay closes.
//!
//! A packet put on a stream carries its peer's address only when that address
//! differs from the one the previous packet went to or came from; the other
//! end takes a packet without an address to the last address it saw.
use vstd::prelude::*;

use crate::bytes::sub_vec;
use crate::counter::Counter;
use crate::socks5::udp::{udp_wire, UdpPacket, UdpRepr};
use crate::socks5::{Address, AddressView};

verus! {

/// The port of the domain name service: a relay to it closes after the first
/// answer.
pub const DNS_PORT: u16 = 53;

/// An optional address as plain values.
pub open spec fn opt_address_view(a: Option<Address>) -> Option<AddressView> {
    match a {
        Some(x) => Some(x@),
        None => None,
    }
}

/// What a sender puts on the stream for a packet of `cur`, when the packet
/// before it was of `last`: nothing when the address did not change.
pub open spec fn elided(last: Option<AddressView>, cur: AddressView) -> Option<AddressView> {
    if last == Some(cur) {
        None
    } else {
        Some(cur)
    }
}

/// Where a receiver takes a packet that carries `carried`, when the packet
/// before it went to `last`: the address carried, else the last one.
pub open spec fn restored(last: Option<AddressView>, carried: Option<AddressView>) -> Option<AddressView> {
    match carried {
        Some(a) => Some(a),
        None => last,
    }
}

/// The addresses a sender puts on the stream for packets of `addrs`, in turn.
pub open spec fn elide_all(last: Option<AddressView>, addrs: Seq<AddressView>) -> Seq<Option<AddressView>>
    decreases addrs.len(),
{
    if addrs.len() == 0 {
        Seq::empty()
    } else {
        seq![elided(last, addrs[0])] + elide_all(Some(addrs[0]), addrs.drop_first())
    }
}

/// Where a receiver takes packets that carry `carried`, in turn.
pub open spec fn restore_all(last: Option<AddressView>, carried: Seq<Option<AddressView>>) -> Seq<Option<AddressView>>
    decreases carried.len(),
{
    if carried.len() == 0 {
        Seq::empty()
    } else {
        let r = restored(last, carried[0]);
        seq![r] + restore_all(r, carried.drop_first())
    }
}

/// The sending end of a stream of packets: the address it last put on the
/// stream.
#[derive(Debug)]
pub struct AddressElider {
    pub last: Option<Address>,
}

impl AddressElider {
    /// The last address put on the stream, as plain values.
    pub open spec fn last_view(&self) -> Option<AddressView> {
        opt_address_view(self.last)
    }

    /// A sender that has put nothing on the stream yet.
    pub fn new() -> (r: AddressElider)
        ensures
            r.last_view() == None::<AddressView>,
    {
        AddressElider { last: None }
    }

    /// The address to put on the stream with a packet of `addr`: none when
    /// it is the one of the packet before.
    pub fn elide(&mut self, addr: &Address) -> (r: Option<Address>)
        ensures
            opt_address_view(r) == elided(old(self).last_view(), addr@),
            final(self).last_view() == Some(addr@),
    {
        let same = match &self.last {
            Some(last) => last.same_as(addr),
            None => false,
        };
        if same {
            None
        } else {
            self.last = Some(addr.duplicate());
            Some(addr.duplicate())
        }
    }
}

/// The receiving end of a stream of packets: the address the last packet
/// went to.
#[derive(Debug)]
pub struct AddressRestorer {
    pub last: Option<Address>,
}

impl AddressRestorer {
    /// The address the last packet went to, as plain values.
    pub open spec fn last_view(&self) -> Option<AddressView> {
        opt_address_view(self.last)
    }

    /// A receiver whose packets go to `initial` until one carries an address.
    pub fn new(initial: Option<Address>) -> (r: AddressRestorer)
        ensures
            r.last_view() == opt_address_view(initial),
    {
        AddressRestorer { last: initial }
    }

    /// Where a packet that carries `carried` goes; `None` when it carries no
    /// address and none was seen before.
    pub fn restore(&mut self, carried: Option<Address>) -> (r: Option<Address>)
        ensures
            opt_address_view(r) == restored(old(self).last_view(), opt_address_view(carried)),
            final(self).last_view() == opt_address_view(r),
    {
        match carried {
            Some(a) => {
                self.last = Some(a.duplicate());
                Some(a)
            },
            None => match &self.last {
                Some(l) => Some(l.duplicate()),
                None => None,
            },
        }
    }
}

/// Whether a relay closes after the first answer: it goes to the domain name
/// service.
pub fn closes_after_answer(dst: &Address) -> (r: bool)
    ensures
        r == (dst@.port() == DNS_PORT),
{
    dst.get_port() == DNS_PORT
}

/// What the relay-to-stream direction does with a SOCKS5 UDP packet: a
/// fragment is dropped (`None`); any other packet goes on the stream with the
/// address that the sender puts there (`Some`).
pub fn relay_packet_to_stream(elider: &mut AddressElider, pkt: &UdpPacket) -> (r: Option<Option<Address>>)
    requires
        pkt.wf(),
    ensures
        pkt.frag_view() != 0 ==> r is None && *final(elider) == *old(elider),
        pkt.frag_view() == 0 ==> (r matches Some(a) && opt_address_view(a) == elided(
            old(elider).last_view(),
            pkt.addr_view(),
        ) && final(elider).last_view() == Some(pkt.addr_view())),
{
    if pkt.frag_no() != 0 {
        return None;
    }
    let addr = pkt.addr();
    Some(elider.elide(&addr))
}

/// Adds to the sent-bytes counter `tx` the number of bytes the write of a
/// packet onto the stream reported, wrapping around at the top of `usize`.
pub fn count_sent(tx: &mut Counter, written: usize)
    ensures
        final(tx).value() == (if old(tx).value() + written > usize::MAX {
            old(tx).value() + written - (usize::MAX + 1)
        } else {
            old(tx).value() + written
        }),
{
    tx.inc(written);
}

/// What the stream-to-relay direction does with a payload that carries
/// `carried`, read from a stream packet of `packet_len` bytes: the SOCKS5 UDP
/// packet, unfragmented, for where it goes; `None` when it goes nowhere, or
/// its address cannot be written. A packet that has somewhere to go adds its
/// length to the received-bytes counter `rx`.
pub fn stream_packet_to_relay(
    restorer: &mut AddressRestorer,
    rx: &mut Counter,
    carried: Option<Address>,
    payload: &[u8],
    packet_len: usize,
) -> (r: Option<Vec<u8>>)
    ensures
        final(restorer).last_view() == restored(old(restorer).last_view(), opt_address_view(carried)),
        restored(old(restorer).last_view(), opt_address_view(carried)) is None ==> final(rx).value() == old(
            rx,
        ).value(),
        restored(old(restorer).last_view(), opt_address_view(carried)) is Some ==> final(rx).value() == (if old(
            rx,
        ).value() + packet_len > usize::MAX {
            old(rx).value() + packet_len - (usize::MAX + 1)
        } else {
            old(rx).value() + packet_len
        }),
        match restored(old(restorer).last_view(), opt_address_view(carried)) {
            None => r is None,
            Some(a) => if a.writable() {
                r matches Some(v) && v@ == udp_wire(a, 0, payload@)
            } else {
                r is None
            },
        },
{
    match restorer.restore(carried) {
        None => None,
        Some(addr) => {
            rx.inc(packet_len);
            let body = sub_vec(payload, 0, payload.len());
            proof { assert(body@ =~= payload@); }
            let repr = UdpRepr { addr, payload: body, frag_no: 0 };
            let mut out: Vec<u8> = Vec::new();
            if repr.write_to(&mut out) {
                proof { assert(out@ =~= udp_wire(repr.addr@, 0, payload@)); }
                Some(out)
            } else {
                None
            }
        },
    }
}

/// A receiver that starts where the sender started takes every packet to the
/// address it was sent from: restoring what was elided gives back each
/// address in turn.
pub proof fn lemma_elision_roundtrip(last: Option<AddressView>, addrs: Seq<AddressView>)
    ensures
        restore_all(last, elide_all(last, addrs)) == addrs.map_values(|a: AddressView| Some(a)),
    decreases addrs.len(),
{
    if addrs.len() == 0 {
        assert(restore_all(last, elide_all(last, addrs)) =~= addrs.map_values(|a: AddressView| Some(a)));
    } else {
        let e = elide_all(last, addrs);
        let rest = addrs.drop_first();
        lemma_elision_roundtrip(Some(addrs[0]), rest);
        assert(e[0] == elided(last, addrs[0]));
        assert(restored(last, e[0]) == Some(addrs[0]));
        assert(e.drop_first() =~= elide_all(Some(addrs[0]), rest));
        assert(restore_all(last, e) =~= seq![Some(addrs[0])] + restore_all(Some(addrs[0]), e.drop_first()));
        assert(addrs.map_values(|a: AddressView| Some(a)) =~= seq![Some(addrs[0])] + rest.map_values(
            |a: AddressView| Some(a),
        ));
    }
}

} // verus!
