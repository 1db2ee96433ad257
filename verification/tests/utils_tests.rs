use cjk_proxy::box_buf::BoxBuf;
use cjk_proxy::counter::Counter;
use cjk_proxy::utils::{frame_len, write_lengthed, FrameError};

#[test]
fn frames() {
    let mut buf = vec![9u8];
    write_lengthed(&mut buf, b"{\"a\":1}").unwrap();
    assert_eq!(buf, b"\x09\x00\x07{\"a\":1}".to_vec());
    assert_eq!(frame_len(&buf[1..]), 7);
    let big = vec![0u8; 70000];
    let mut buf = Vec::new();
    assert_eq!(write_lengthed(&mut buf, &big).unwrap_err(), FrameError::TooBig(70000));
    assert_eq!(buf.len(), 70002);
}

#[test]
fn box_buf_and_counter() {
    let b = BoxBuf::new(vec![1, 2, 3]);
    assert_eq!(b.as_slice(), &[1, 2, 3]);
    let mut c = Counter::new(usize::MAX);
    c.inc(2);
    assert_eq!(c.get(), 1);
    c.set(5);
    assert_eq!(c.get(), 5);
}

#[test]
fn test_lengthed_encoding() {
    let data = "hello, world";
    let mut buf = Vec::<u8>::new();
    write_lengthed(&mut buf, &serde_json::to_vec(&data).unwrap()).unwrap();
    let len = frame_len(&buf);
    let expected: String = serde_json::from_slice(&buf[2..2 + len]).unwrap();
    assert_eq!(expected, data);
}

#[test]
fn test_client_server_http() {}
