use cjk_proxy::socks5::udp::{UdpPacket, UdpRepr};
use cjk_proxy::ip::{ip_chars, IpAddr, SocketAddr};
use cjk_proxy::socks5::req::{ClientConnRequest, ClientGreeting, ConnStatusCode};
use cjk_proxy::socks5::{Address, Field, ParseError};

#[test]
fn encoding_works() {
    let payload = b"hello, world".to_vec();
    let addr: Address = Address::parse_text("localhost:9090").unwrap();

    let mut buf = vec![0u8; 0];
    assert!(UdpRepr { addr: addr.clone(), payload: payload.clone(), frag_no: 1 }.write_to(&mut buf), "To write");

    let pkt = UdpPacket::new_checked(buf).expect("To have a packet");
    assert!(pkt.addr() == addr);
    assert_eq!(pkt.frag_no(), 1);
    assert_eq!(pkt.payload(), payload.as_slice());
}

fn v6_text(groups: [u16; 8]) -> String {
    let mut o = [0u8; 16];
    for (i, g) in groups.iter().enumerate() {
        o[2 * i] = (g >> 8) as u8;
        o[2 * i + 1] = (g & 0xff) as u8;
    }
    ip_chars(&IpAddr::V6(o)).into_iter().collect()
}

#[test]
fn ipv6_text_is_canonical() {
    assert_eq!(v6_text([0x2001, 0xdb8, 0, 0, 0, 0, 0, 1]), "2001:db8::1");
    assert_eq!(v6_text([0; 8]), "::");
    assert_eq!(v6_text([0, 0, 0, 0, 0, 0, 0, 1]), "::1");
    assert_eq!(v6_text([1, 0, 0, 0, 0, 0, 0, 0]), "1::");
    assert_eq!(v6_text([1, 0, 0, 2, 0, 0, 0, 3]), "1:0:0:2::3");
    assert_eq!(v6_text([1, 0, 0, 2, 0, 0, 3, 4]), "1::2:0:0:3:4");
    assert_eq!(v6_text([1, 0, 2, 3, 4, 5, 6, 7]), "1:0:2:3:4:5:6:7");
    assert_eq!(v6_text([0, 0, 0, 0, 0, 0xffff, 0x0102, 0x0304]), "::ffff:1.2.3.4");
    assert_eq!(v6_text([0xfe80, 0, 0, 0, 0xabcd, 0, 0, 0xffff]), "fe80::abcd:0:0:ffff");
}

#[test]
fn ipv6_address_text_has_brackets() {
    let mut o = [0u8; 16];
    o[15] = 1;
    let a = Address::IP(SocketAddr { ip: IpAddr::V6(o), port: 80 });
    assert_eq!(a.to_text(), "[::1]:80");
    let v4 = Address::IP(SocketAddr { ip: IpAddr::V4([127, 0, 0, 1]), port: 8080 });
    assert_eq!(v4.to_text(), "127.0.0.1:8080");
}

#[test]
fn address_text_reads_back() {
    let v4 = Address::IP(SocketAddr { ip: IpAddr::V4([10, 0, 0, 254]), port: 65535 });
    assert!(Address::parse_text(&v4.to_text()).unwrap() == v4);
    let name = Address::Name { host: "example.com".to_string(), port: 0 };
    assert!(Address::parse_text(&name.to_text()).unwrap() == name);
    // A name that reads as an IPv4 address comes back as one.
    let dotted = Address::Name { host: "[1.2.3.4]".to_string(), port: 1 };
    assert!(Address::parse_text(&dotted.to_text()).unwrap() != dotted);
}

#[test]
fn connection_requests_and_replies() {
    let raw = [5u8, 1, 0, 3, 11, b'e', b'x', b'a', b'm', b'p', b'l', b'e', b'.', b'c', b'o', b'm', 0x01, 0xbb, 9];
    let (n, req) = ClientConnRequest::parse(&raw).unwrap().unwrap();
    assert_eq!(n, 18);
    assert_eq!(req.cmd.0, 1);
    assert!(req.address == Address::Name { host: "example.com".to_string(), port: 443 });
    assert!(matches!(ClientConnRequest::parse(&raw[..10]), Ok(None)));
    assert!(matches!(
        ClientConnRequest::parse(&[4, 1, 0, 1]),
        Err(ParseError::Unexpected { field: Field::Protocol, value: 4 })
    ));
    let bound = Address::IP(SocketAddr { ip: IpAddr::V4([1, 2, 3, 4]), port: 8080 });
    assert_eq!(
        ClientConnRequest::respond_bytes(ConnStatusCode::granted(), &bound).unwrap(),
        vec![5, 0, 0, 1, 1, 2, 3, 4, 0x1f, 0x90]
    );
    let long = Address::Name { host: "x".repeat(300), port: 1 };
    assert!(ClientConnRequest::respond_bytes(ConnStatusCode::failed(), &long).is_none());
    let (n, g) = ClientGreeting::parse(&[5, 2, 0, 2, 7]).unwrap().unwrap();
    assert_eq!((n, g.auths), (4, vec![0, 2]));
    assert_eq!(ClientGreeting::respond_bytes(0), vec![5, 0]);
}
