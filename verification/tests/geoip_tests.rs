use cjk_proxy::geoip::country_code::CountryCodeError;
use cjk_proxy::geoip::{be_u128, find_geoip, find_in_records, load_ip_dat, CountryCode, GeoRecord};
use cjk_proxy::ip::{parse_ipv4, IpAddr};

#[test]
fn country_codes() {
    let us = CountryCode::from_str("US").unwrap();
    assert_eq!(us.as_slice(), b"US");
    assert_eq!(us.as_str(), "US");
    assert_eq!(us.to_text(), "US");
    assert!(us == CountryCode::from_str("us").unwrap());
    assert!(us.eq_str("uS"));
    assert!(us != CountryCode::from_str("CN").unwrap());
    assert_eq!(CountryCode::from_str("USA").unwrap_err(), CountryCodeError::WrongLength);
    assert_eq!(CountryCode::from_str("\0A").unwrap_err(), CountryCodeError::ZeroByte);
    assert_eq!(CountryCode::from_str("é").unwrap().as_str(), "é");
}

#[test]
fn records_lookup() {
    let a = CountryCode::from_str("AA").unwrap();
    let b = CountryCode::from_str("BB").unwrap();
    let rs = vec![GeoRecord { start: 10, end: 20, c: a }, GeoRecord { start: 30, end: 40, c: b }];
    assert!(find_in_records(&rs, 5).is_none());
    assert!(find_in_records(&rs, 10) == Some(a));
    assert!(find_in_records(&rs, 20) == Some(a));
    assert!(find_in_records(&rs, 25).is_none());
    assert!(find_in_records(&rs, 30) == Some(b));
    assert!(find_in_records(&rs, 41).is_none());
    assert!(find_in_records(&[], 1).is_none());
}

#[test]
fn tables_load_and_find() {
    let mut raw = Vec::new();
    raw.extend_from_slice(&[1, 0, 0, 0, 1, 255, 255, 255, b'A', b'U']);
    raw.extend_from_slice(&[8, 0, 0, 0, 8, 255, 255, 255, b'U', b'S']);
    raw.push(7);
    let v4 = load_ip_dat(&raw, 4).unwrap();
    assert_eq!(v4.len(), 2);
    assert_eq!(v4[0].start, 0x0100_0000);
    assert_eq!(v4[1].end, 0x08ff_ffff);
    let found = find_geoip(&IpAddr::V4([8, 8, 8, 8]), &v4, &[]).unwrap();
    assert_eq!(found.to_text(), "US");
    assert!(find_geoip(&IpAddr::V4([9, 0, 0, 1]), &v4, &[]).is_none());
    assert!(find_geoip(&IpAddr::V6([0; 16]), &v4, &[]).is_none());
    raw[8] = 0;
    assert!(load_ip_dat(&raw, 4).is_none());
    assert_eq!(be_u128(&[1, 2]), 258);
}

fn v4(s: &str) -> IpAddr {
    let chars: Vec<char> = s.chars().collect();
    IpAddr::V4(parse_ipv4(&chars).unwrap())
}

fn v4_range(a: [u8; 4], b: [u8; 4], c: &str) -> GeoRecord {
    GeoRecord { start: be_u128(&a), end: be_u128(&b), c: CountryCode::from_str(c).unwrap() }
}

// The address tables the proxy ships are not available here; these hold
// ranges around the addresses that the lookup is checked on.
#[test]
fn test_find_ip() {
    let us = CountryCode::from_str("US").unwrap();
    let table_v4 = vec![
        v4_range([122, 56, 0, 0], [122, 63, 255, 255], "NZ"),
        v4_range([142, 250, 0, 0], [142, 251, 255, 255], "US"),
        v4_range([219, 159, 0, 0], [219, 159, 127, 255], "CN"),
    ];
    let mut v6_start = [0u8; 16];
    v6_start[..4].copy_from_slice(&[0x20, 0x01, 0x48, 0x60]);
    let mut v6_end = v6_start;
    for b in v6_end[4..].iter_mut() {
        *b = 0xff;
    }
    let table_v6 = vec![GeoRecord { start: be_u128(&v6_start), end: be_u128(&v6_end), c: us }];
    let mut google_dns = [0u8; 16];
    google_dns[..6].copy_from_slice(&[0x20, 0x01, 0x48, 0x60, 0x48, 0x60]);
    google_dns[14] = 0x88;
    google_dns[15] = 0x88;

    assert!(find_geoip(&v4("142.250.67.4"), &table_v4, &table_v6) == Some(us));
    assert!(find_geoip(&v4("219.159.81.138"), &table_v4, &table_v6) == Some(CountryCode::from_str("cn").unwrap()));
    assert!(find_geoip(&v4("122.61.248.102"), &table_v4, &table_v6) == Some(CountryCode::from_str("NZ").unwrap()));
    assert!(find_geoip(&IpAddr::V6(google_dns), &table_v4, &table_v6) == Some(us));
}
