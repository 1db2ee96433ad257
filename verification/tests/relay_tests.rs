use cjk_proxy::ip::{IpAddr, SocketAddr};
use cjk_proxy::counter::Counter;
use cjk_proxy::relay::{
    closes_after_answer, count_sent, relay_packet_to_stream, stream_packet_to_relay, AddressElider, AddressRestorer,
};
use cjk_proxy::socks5::udp::{UdpPacket, UdpRepr};
use cjk_proxy::socks5::Address;

fn ip(a: u8, b: u8, c: u8, d: u8, port: u16) -> Address {
    Address::IP(SocketAddr { ip: IpAddr::V4([a, b, c, d]), port })
}

fn packet(addr: &Address, frag_no: u8, payload: &[u8]) -> UdpPacket {
    let mut buf = Vec::new();
    assert!(UdpRepr { addr: addr.clone(), payload: payload.to_vec(), frag_no }.write_to(&mut buf));
    UdpPacket::new_checked(buf).expect("a packet")
}

#[test]
fn reply_from_same_peer_carries_no_address() {
    let server = ip(127, 0, 0, 1, 9000);
    let mut elider = AddressElider::new();
    // The first answer names its peer, the second from the same peer does not.
    assert!(elider.elide(&server) == Some(server.clone()));
    assert!(elider.elide(&server).is_none());
    let other = ip(127, 0, 0, 1, 9001);
    assert!(elider.elide(&other) == Some(other.clone()));
    assert!(elider.elide(&server) == Some(server.clone()));
}

#[test]
fn packet_without_address_goes_to_last_one() {
    let first = ip(10, 0, 0, 1, 53);
    let mut restorer = AddressRestorer::new(Some(first.clone()));
    assert!(restorer.restore(None) == Some(first.clone()));
    let second = Address::Name { host: "example.com".to_string(), port: 80 };
    assert!(restorer.restore(Some(second.clone())) == Some(second.clone()));
    assert!(restorer.restore(None) == Some(second));

    let mut empty = AddressRestorer::new(None);
    assert!(empty.restore(None).is_none());
}

#[test]
fn elided_addresses_are_restored() {
    let a = ip(1, 2, 3, 4, 5);
    let b = ip(5, 6, 7, 8, 9);
    let sent = vec![a.clone(), a.clone(), b.clone(), b.clone(), a.clone()];
    let mut elider = AddressElider::new();
    let mut restorer = AddressRestorer::new(None);
    for addr in &sent {
        let carried = elider.elide(addr);
        assert!(restorer.restore(carried) == Some(addr.clone()));
    }
}

#[test]
fn fragments_are_dropped() {
    let peer = ip(8, 8, 8, 8, 53);
    let mut elider = AddressElider::new();
    assert!(relay_packet_to_stream(&mut elider, &packet(&peer, 1, b"x")).is_none());
    assert!(elider.last.is_none());
    assert!(relay_packet_to_stream(&mut elider, &packet(&peer, 0, b"x")) == Some(Some(peer.clone())));
    assert!(relay_packet_to_stream(&mut elider, &packet(&peer, 0, b"y")) == Some(None));
}

#[test]
fn stream_payload_becomes_socks5_packet() {
    let peer = ip(1, 2, 3, 4, 0x1234);
    let mut restorer = AddressRestorer::new(None);
    let mut rx = Counter::new(0);
    assert!(stream_packet_to_relay(&mut restorer, &mut rx, None, b"hi", 9).is_none());
    assert_eq!(rx.get(), 0);
    let out = stream_packet_to_relay(&mut restorer, &mut rx, Some(peer.clone()), b"hi", 9).unwrap();
    assert_eq!(out, vec![0, 0, 0, 1, 1, 2, 3, 4, 0x12, 0x34, b'h', b'i']);
    assert_eq!(rx.get(), 9);
    let again = stream_packet_to_relay(&mut restorer, &mut rx, None, b"!", 3).unwrap();
    assert_eq!(again, vec![0, 0, 0, 1, 1, 2, 3, 4, 0x12, 0x34, b'!']);
    assert_eq!(rx.get(), 12);
    let mut full = Counter::new(usize::MAX);
    stream_packet_to_relay(&mut restorer, &mut full, None, b"!", 2).unwrap();
    assert_eq!(full.get(), 1);
}

#[test]
fn dns_relay_closes_after_answer() {
    assert!(closes_after_answer(&ip(8, 8, 8, 8, 53)));
    assert!(!closes_after_answer(&ip(8, 8, 8, 8, 54)));
    assert!(closes_after_answer(&Address::Name { host: "dns".to_string(), port: 53 }));
}

#[test]
fn sent_bytes_are_counted() {
    let mut tx = Counter::new(5);
    count_sent(&mut tx, 12);
    assert_eq!(tx.get(), 17);
    let mut top = Counter::new(usize::MAX - 1);
    count_sent(&mut top, 3);
    assert_eq!(top.get(), 1);
}
