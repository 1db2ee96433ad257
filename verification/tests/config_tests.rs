use cjk_proxy::client::ClientStatistics;
use cjk_proxy::config::{
    ClientConfig, GeoTables, ListMatches, Network, RuleError, UpstreamConfig, UpstreamRule,
};
use cjk_proxy::geoip::{CountryCode, GeoRecord};
use cjk_proxy::ip::{IpAddr, SocketAddr};
use cjk_proxy::socks5::Address;

fn no_lists() -> ListMatches {
    ListMatches { gfw: false, adblock: false }
}

fn upstream(accept: Vec<UpstreamRule>, reject: Vec<UpstreamRule>, priority: u16) -> UpstreamConfig {
    UpstreamConfig {
        address: Address::parse_text("127.0.0.1:1").unwrap(),
        accept,
        reject,
        priority,
        enabled: true,
    }
}

#[test]
fn rules_parse_and_print() {
    let r = UpstreamRule::from_str("GeoIP:cn").unwrap();
    assert_eq!(r.to_text(), "geoip:cn");
    assert!(matches!(UpstreamRule::from_str("gfwlist").unwrap(), UpstreamRule::GfwList));
    assert!(matches!(UpstreamRule::from_str("AdBlock").unwrap(), UpstreamRule::AdBlockList));
    // What an ad-block rule prints is not read back.
    assert_eq!(UpstreamRule::AdBlockList.to_text(), "adblocklist");
    assert_eq!(UpstreamRule::from_str("adblocklist").unwrap_err(), RuleError::InvalidRule);
    assert_eq!(UpstreamRule::from_str("geoip").unwrap_err(), RuleError::InvalidGeoip);
    assert_eq!(UpstreamRule::from_str("geoip:usa").unwrap_err(), RuleError::InvalidGeoip);
    assert_eq!(UpstreamRule::from_str("network:nonsense").unwrap_err(), RuleError::InvalidNetwork);
    let n = UpstreamRule::from_str("network:10.0.0.0/8").unwrap();
    assert_eq!(n.to_text(), "network:10.0.0.0/8");
}

#[test]
fn networks_hold_addresses() {
    let n = Network { addr: IpAddr::V4([10, 1, 0, 0]), prefix: 12 };
    assert!(n.contains(&IpAddr::V4([10, 15, 255, 1])));
    assert!(!n.contains(&IpAddr::V4([10, 16, 0, 0])));
    assert!(!n.contains(&IpAddr::V6([0; 16])));
    let all = Network { addr: IpAddr::V4([1, 2, 3, 4]), prefix: 0 };
    assert!(all.contains(&IpAddr::V4([200, 0, 0, 1])));
}

#[test]
fn rules_match_targets() {
    let us = CountryCode::from_str("US").unwrap();
    let target = Address::parse_text("example.com:443").unwrap();
    assert!(UpstreamRule::GeoIP(CountryCode::from_str("us").unwrap()).matches(Some(us), None, &target, &no_lists()));
    assert!(!UpstreamRule::GeoIP(us).matches(None, None, &target, &no_lists()));
    let gfw = ListMatches { gfw: true, adblock: false };
    assert!(UpstreamRule::GfwList.matches(None, None, &target, &gfw));
    let ip_target = Address::parse_text("1.2.3.4:80").unwrap();
    assert!(!UpstreamRule::GfwList.matches(None, None, &ip_target, &gfw));
}

#[test]
fn scores_and_ranking() {
    let target = Address::parse_text("10.0.0.1:80").unwrap();
    let net = UpstreamRule::Network(Network { addr: IpAddr::V4([10, 0, 0, 0]), prefix: 8 });
    let a = upstream(vec![], vec![], 0);
    let b = upstream(vec![net], vec![], 0);
    let c = upstream(vec![], vec![net], 0);
    let mut d = upstream(vec![], vec![], 10);
    assert_eq!(a.calc_score(&target, None, &no_lists()), 5 + 65535);
    assert_eq!(b.calc_score(&target, None, &no_lists()), 10 + 65535);
    assert_eq!(c.calc_score(&target, None, &no_lists()), 0);
    assert_eq!(d.calc_score(&target, None, &no_lists()), 5 + 65525);
    d.enabled = false;
    assert_eq!(d.calc_score(&target, None, &no_lists()), 0);

    let config = ClientConfig {
        upstreams: vec![
            ("a".to_string(), a),
            ("b".to_string(), b),
            ("c".to_string(), c),
            ("e".to_string(), upstream(vec![], vec![], 0)),
        ],
        ..ClientConfig::default()
    };
    let mut stats = ClientStatistics::new(&config);
    stats.update_upstream("a", 1000, 5);
    assert_eq!(stats.upstreams[0].1.last_activity.get(), 1000);
    assert_eq!(stats.upstreams[0].1.last_latency.get(), 5);
    let geo = GeoTables { v4: vec![], v6: vec![] };
    let best = config.find_best_upstream(&stats, &target, &geo, &no_lists(), 1010);
    let names: Vec<&str> = best.iter().map(|(n, _)| *n).collect();
    // "a" was used ten seconds ago; "b" and "e" never; "c" rejects the target.
    assert_eq!(names, vec!["a", "e", "b"]);
}

#[test]
fn default_client_config() {
    let c = ClientConfig::default();
    assert!(c.upstreams.is_empty());
    assert_eq!(c.socks5_address.to_text(), "127.0.0.1:5000");
    assert_eq!(c.socks5_udp_host, "0.0.0.0");
}

#[test]
fn geoip_lookup_by_ranges() {
    let cn = CountryCode::from_str("CN").unwrap();
    let us = CountryCode::from_str("US").unwrap();
    let rs = vec![GeoRecord { start: 10, end: 20, c: cn }, GeoRecord { start: 30, end: 40, c: us }];
    let geo = GeoTables { v4: rs, v6: vec![] };
    let target = Address::IP(SocketAddr { ip: IpAddr::V4([0, 0, 0, 35]), port: 1 });
    let rule = UpstreamRule::GeoIP(us);
    let config = ClientConfig {
        upstreams: vec![("x".to_string(), upstream(vec![rule], vec![], 0))],
        ..ClientConfig::default()
    };
    let stats = ClientStatistics::new(&config);
    assert_eq!(config.find_best_upstream(&stats, &target, &geo, &no_lists(), 0).len(), 1);
    let elsewhere = Address::IP(SocketAddr { ip: IpAddr::V4([0, 0, 0, 25]), port: 1 });
    assert!(config.find_best_upstream(&stats, &elsewhere, &geo, &no_lists(), 0).is_empty());
}

#[test]
fn network_rules_read_back() {
    let n = Network { addr: IpAddr::V4([192, 168, 7, 9]), prefix: 20 };
    let text = UpstreamRule::Network(n).to_text();
    assert_eq!(text, "network:192.168.7.9/20");
    match UpstreamRule::from_str(&text).unwrap() {
        UpstreamRule::Network(m) => {
            assert!(matches!(m.addr, IpAddr::V4([192, 168, 7, 9])));
            assert_eq!(m.prefix, 20);
        }
        other => panic!("unexpected {other:?}"),
    }
    // An IPv6 network is written with colons, at which the rule is cut when
    // read: it does not read back.
    let mut o = [0u8; 16];
    o[0] = 0xfe;
    o[1] = 0x80;
    let v6 = UpstreamRule::Network(Network { addr: IpAddr::V6(o), prefix: 10 });
    assert_eq!(v6.to_text(), "network:fe80::/10");
    assert_eq!(UpstreamRule::from_str(&v6.to_text()).unwrap_err(), RuleError::InvalidNetwork);
}
