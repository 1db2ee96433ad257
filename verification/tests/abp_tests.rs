use cjk_proxy::abp::{
    adblock_rule_list, build_engine, build_filter_set, check_url, create_engine, decode_rule_list, gfw_rule_list,
    if_modified_since, list_fetch_outcome, matches_abp, rule_lines, AbpError, ListFetch,
};
use cjk_proxy::ip::{IpAddr, SocketAddr};
use cjk_proxy::socks5::Address;

fn name(host: &str, port: u16) -> Address {
    Address::Name { host: host.to_string(), port }
}

#[test]
fn list_lines_become_rules() {
    let body = b"! comment\n# another\n\n  ||example.com^  \r\n@@||good.example.com^\n\xffbad\n".to_vec();
    let rules = rule_lines(&body);
    assert_eq!(
        rules,
        vec!["||example.com^".to_string(), "@@||good.example.com^".to_string(), "\u{fffd}bad".to_string()]
    );
}

#[test]
fn base64_lists_are_decoded() {
    // "||a.com^\n" in base64, broken over two lines.
    let encoded = b"fHxhLmNv\r\nbV4K".to_vec();
    assert_eq!(decode_rule_list(encoded, true).unwrap(), b"||a.com^\n".to_vec());
    assert_eq!(decode_rule_list(b"plain".to_vec(), false).unwrap(), b"plain".to_vec());
    assert_eq!(decode_rule_list(b"not base64!".to_vec(), true).unwrap_err(), AbpError::InvalidBase64);
}

#[test]
fn engine_blocks_listed_targets() {
    let (engine, count) = build_engine(b"||blocked.example^\n! comment\n".to_vec(), false).unwrap();
    assert_eq!(count, 1);
    assert!(matches_abp(Some(&engine), &name("blocked.example", 443)));
    assert!(matches_abp(Some(&engine), &name("www.blocked.example", 80)));
    assert!(!matches_abp(Some(&engine), &name("fine.example", 443)));
    assert!(!matches_abp(None, &name("blocked.example", 443)));
    let data = engine.engine().serialize_raw().unwrap();
    let again = create_engine(&data).unwrap();
    assert!(matches_abp(Some(&again), &name("blocked.example", 443)));
    assert!(matches!(create_engine(b"junk"), Err(AbpError::InvalidEngineData)));
}

#[test]
fn filter_set_counts_rules_read() {
    let (_, n) = build_filter_set(&vec!["||a.com^".to_string(), "##.ad".to_string()]);
    assert_eq!(n, 2);
}

#[test]
fn targets_are_checked_as_urls() {
    assert_eq!(check_url(&name("www.google.com", 443)), "https://www.google.com");
    assert_eq!(check_url(&name("twitter.com", 22)), "http://twitter.com");
    let ip = Address::IP(SocketAddr { ip: IpAddr::V4([1, 2, 3, 4]), port: 80 });
    assert_eq!(check_url(&ip), "http://1.2.3.4");
}

#[test]
fn fetch_outcomes_and_headers() {
    assert_eq!(list_fetch_outcome(200), ListFetch::Fetched);
    assert_eq!(list_fetch_outcome(304), ListFetch::NotModified);
    assert_eq!(list_fetch_outcome(404), ListFetch::Failed(404));
    assert!(if_modified_since(None).is_none());
    let (n, v) = if_modified_since(Some(0)).unwrap();
    assert_eq!(n, "If-Modified-Since");
    assert_eq!(v, "Thu, 01 Jan 1970 00:00:00 GMT");
    assert!(gfw_rule_list().is_base64);
    assert!(!adblock_rule_list().is_base64);
}
