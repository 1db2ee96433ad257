use cjk_proxy::dns::answer::{Answer, AnswerName, AnswerRecord};
use cjk_proxy::dns::labeled::Labeled;
use cjk_proxy::dns::message::{Header, Message, CLASS_IN, TYPE_A, TYPE_AAAA};
use cjk_proxy::dns::question::Question;
use cjk_proxy::dns::req;
use cjk_proxy::dns::DnsError;
use cjk_proxy::ip::{IpAddr, SocketAddr};
use cjk_proxy::dns::direct::parse_id;

#[test]
fn message_label_works() {
    let domain = "www.163.com";
    let l: Labeled = Labeled::from_str(domain).unwrap();
    assert_eq!(domain, l.to_text().as_str());

    let mut buf = Vec::new();
    l.to_writer(&mut buf);
    buf.extend_from_slice(b"hello, world");
    let (buf, parsed) = Labeled::parse(&buf).unwrap();
    assert_eq!(parsed, l);
    assert_eq!(buf, b"hello, world");
}

#[test]
fn req_label_works() {
    let domain = "www.163.com";
    let l: req::Labeled = req::Labeled::from_str(domain).unwrap();
    assert_eq!(domain, l.to_text().as_str());

    let mut buf = Vec::new();
    l.to_writer(&mut buf);
    buf.extend_from_slice(b"hello, world");
    let (offset, parsed) = req::Labeled::parse(&buf).unwrap();
    assert_eq!(parsed, l);
    assert_eq!(&buf[offset..], b"hello, world");
}

#[test]
fn label_wire_bytes() {
    let l = Labeled::from_str("a.bc").unwrap();
    let mut buf = Vec::new();
    l.to_writer(&mut buf);
    assert_eq!(buf, vec![1, b'a', 2, b'b', b'c', 0]);
    let labels: Vec<String> = l.iter().into_iter().map(|v| v.into_iter().collect()).collect();
    assert_eq!(labels, vec!["a".to_string(), "bc".to_string()]);
}

#[test]
fn label_check_errors() {
    assert_eq!(Labeled::from_str("a..b").unwrap_err(), DnsError::EmptyLabel);
    assert_eq!(Labeled::from_str("").unwrap_err(), DnsError::EmptyLabel);
    assert_eq!(Labeled::from_str("a.").unwrap_err(), DnsError::EmptyLabel);
    let long = "x".repeat(256);
    assert_eq!(Labeled::from_str(&long).unwrap_err(), DnsError::LabelTooLong);
    assert!(Labeled::from_str(&"x".repeat(255)).is_ok());
}

#[test]
fn label_parse_without_terminator() {
    assert_eq!(Labeled::parse(&[3, b'a', b'b', b'c']).unwrap_err(), DnsError::NoNameTerminator);
    assert!(req::Labeled::parse(&[3, b'a', b'b', b'c']).is_none());
}

#[test]
fn buffered_label_text() {
    let l = Labeled::Buffered(vec![3, b'w', b'w', b'w', 1, b'x']);
    assert_eq!(l.to_text(), "www.x");
    // A length byte past the end stops the labels.
    let l = Labeled::Buffered(vec![3, b'w', b'w', b'w', 9, b'x']);
    assert_eq!(l.to_text(), "www");
    assert!(Labeled::default().to_text().is_empty());
}

#[test]
fn header_fields() {
    let h = Header::new_request(0);
    assert!(h.is_request());
    assert_eq!(h.opcode(), 0);
    assert_eq!(h.value(), 0);
    let h = Header::new_request(2);
    assert_eq!(h.opcode(), 2);
    assert_eq!(h.value(), 0x1000);
    let h = Header::new_response(2);
    assert!(!h.is_request());
    assert_eq!(h.response_code(), 2);
    assert_eq!(h.value(), 0x8002);
    let h = Header::from_bits(0x0580);
    assert!(h.is_aa());
    assert!(!h.is_truncated());
    assert!(h.recursion_desired());
    assert!(h.recursion_available());
    let h = Header::from_bits(0x0200);
    assert!(h.is_truncated());
    assert!(!h.is_aa());
}

#[test]
fn question_roundtrip() {
    let q = Question { domain_name: Labeled::from_str("example.org").unwrap(), t: TYPE_AAAA, class: CLASS_IN };
    let mut buf = Vec::new();
    q.to_writer(&mut buf);
    buf.push(42);
    let (rest, parsed) = Question::parse(&buf).unwrap();
    assert_eq!(rest, &[42]);
    assert_eq!(parsed.domain_name, q.domain_name);
    assert_eq!(parsed.t, TYPE_AAAA);
    assert_eq!(parsed.class, CLASS_IN);
    assert_eq!(Question::parse(&[0, 0, 1]).unwrap_err(), DnsError::InsufficientQuestion);
}

#[test]
fn resolve_request_roundtrip() {
    let mut buf = Vec::new();
    Message::new_resolve_request(&mut buf, 0x1234, "www.google.com").unwrap();
    assert_eq!(&buf[..12], &[0x12, 0x34, 0, 0, 0, 1, 0, 0, 0, 0, 0, 0]);
    let (rest, m) = Message::parse(&buf).unwrap();
    assert!(rest.is_empty());
    assert_eq!(m.id, 0x1234);
    assert!(m.header.is_request());
    assert_eq!(m.questions.len(), 1);
    assert_eq!(m.questions[0].domain_name.to_text(), "www.google.com");
    assert_eq!(m.questions[0].t, TYPE_A);
    assert_eq!(m.questions[0].class, CLASS_IN);
    assert!(m.answers.is_empty());

    let mut buf = Vec::new();
    assert_eq!(Message::new_resolve_request(&mut buf, 1, "bad..name").unwrap_err(), DnsError::EmptyLabel);
    assert!(buf.is_empty());
    assert_eq!(Message::parse(&[0; 11]).unwrap_err(), DnsError::InvalidHeaderLength);
}

#[test]
fn resolve_answer_bytes() {
    let mut buf = Vec::new();
    Message::new_resolve_answer(&mut buf, 7, 300, &IpAddr::V4([1, 2, 3, 4])).unwrap();
    assert_eq!(
        buf,
        vec![0, 7, 0x80, 0, 0, 0, 0, 1, 0, 0, 0, 0, 0, 1, 0, 1, 0, 0, 1, 44, 0, 4, 1, 2, 3, 4]
    );
    let mut buf = Vec::new();
    assert_eq!(
        Message::new_resolve_answer(&mut buf, 7, 1u64 << 32, &IpAddr::V4([1, 2, 3, 4])).unwrap_err(),
        DnsError::ExcessiveTtl
    );
    assert_eq!(buf.len(), 12);
}

#[test]
fn answer_parse_and_records() {
    // Pointer name 0xc00c, type A, class IN, ttl 60, four bytes of data.
    let bytes = [0xc0, 0x0c, 0, 1, 0, 1, 0, 0, 0, 60, 0, 4, 10, 0, 0, 1];
    let (rest, a) = Answer::parse(&bytes).unwrap();
    assert!(matches!(a.name, AnswerName::Pointer(12)));
    assert_eq!(a.ttl, 60);
    assert!(matches!(a.record, AnswerRecord::A([10, 0, 0, 1])));
    // The record data is left in the bytes that follow.
    assert_eq!(rest, &[10, 0, 0, 1]);
    assert_eq!(Answer::parse(&bytes[..11]).unwrap_err(), DnsError::InsufficientAnswer);
    assert_eq!(Answer::parse(&bytes[..15]).unwrap_err(), DnsError::InsufficientRecord);
    assert_eq!(Answer::parse(&[0xc0]).unwrap_err(), DnsError::InsufficientAnswerName);

    let r = AnswerRecord::new(TYPE_A, CLASS_IN, vec![1, 2, 3]);
    assert!(matches!(r, AnswerRecord::Other(1, 1, _)));
    assert_eq!(r.record_type(), TYPE_A);
    let r = AnswerRecord::new(TYPE_AAAA, CLASS_IN, vec![0; 16]);
    assert!(matches!(r, AnswerRecord::AAAA(_)));
    assert_eq!(r.record_class(), CLASS_IN);

    let big = Answer { name: AnswerName::Pointer(1), ttl: 1, record: AnswerRecord::Other(5, 1, vec![0; 70000]) };
    let mut buf = Vec::new();
    assert_eq!(big.to_writer(&mut buf).unwrap_err(), DnsError::RecordTooBig);
    // The head was written before the data was refused; the pointer carries 0x4000.
    assert_eq!(buf, vec![0x40, 1, 0, 5, 0, 1, 0, 0, 0, 1]);
}

#[test]
fn req_message_stops_at_bad_record() {
    let mut buf = Vec::new();
    req::Message::new_resolve_request(&mut buf, 9, "a.b").unwrap();
    // Claim two questions while only one is there.
    buf[5] = 2;
    let m = req::Message::parse(&buf).unwrap();
    assert_eq!(m.id, 9);
    assert_eq!(m.questions.len(), 1);
    assert_eq!(m.questions[0].domain_name.to_text(), "a.b");
    assert!(req::Message::parse(&buf[..11]).is_none());

    let mut buf = Vec::new();
    let addr = SocketAddr { ip: IpAddr::V4([8, 8, 4, 4]), port: 53 };
    req::Message::new_resolve_answer(&mut buf, 3, 10, &addr).unwrap();
    assert_eq!(&buf[12..], &[0, 1, 0, 1, 0, 0, 0, 10, 0, 4, 8, 8, 4, 4]);
}

#[test]
fn message_id_is_first_two_bytes() {
    assert_eq!(parse_id(&[0x12, 0x34, 0x01]), Ok(0x1234));
    assert_eq!(parse_id(&[0x12]), Err(DnsError::InvalidHeaderLength));
}
