use cjk_proxy::bytes::{get_u16, get_u32, put_u16, put_u32, sub_vec};
use cjk_proxy::text::{chars_eq_ignore_case, dec_chars, lower_chars, parse_uint, split_bytes, split_chars, str_chars};

fn chars(s: &str) -> Vec<char> {
    s.chars().collect()
}

#[test]
fn numbers_read_and_write() {
    assert_eq!(parse_uint(&chars("65535"), 0xffff), Some(65535));
    assert_eq!(parse_uint(&chars("65536"), 0xffff), None);
    assert_eq!(parse_uint(&chars("+7"), 10), Some(7));
    assert_eq!(parse_uint(&chars(""), 10), None);
    assert_eq!(parse_uint(&chars("1a"), 10), None);
    assert_eq!(dec_chars(0), chars("0"));
    assert_eq!(dec_chars(1234567890), chars("1234567890"));
    assert_eq!(parse_uint(&dec_chars(u64::MAX), u64::MAX), Some(u64::MAX));
}

#[test]
fn texts_split_and_compare() {
    assert_eq!(split_chars(&chars("a.b..c"), '.'), vec![chars("a"), chars("b"), chars(""), chars("c")]);
    assert_eq!(split_bytes(b"x\ny\n", b'\n'), vec![b"x".to_vec(), b"y".to_vec(), Vec::new()]);
    assert!(chars_eq_ignore_case(&chars("GeoIP"), &chars("geoip")));
    assert!(!chars_eq_ignore_case(&chars("GeoIP"), &chars("geoi")));
    assert_eq!(lower_chars(&chars("ÀBc")), chars("Àbc"));
    assert_eq!(str_chars("héllo"), chars("héllo"));
}

#[test]
fn big_endian_fields() {
    let mut out = Vec::new();
    put_u16(&mut out, 0x1234);
    put_u32(&mut out, 0xdeadbeef);
    assert_eq!(out, vec![0x12, 0x34, 0xde, 0xad, 0xbe, 0xef]);
    assert_eq!(get_u16(&out, 0), 0x1234);
    assert_eq!(get_u32(&out, 2), 0xdeadbeef);
    assert_eq!(sub_vec(&out, 1, 3), vec![0x34, 0xde]);
}
