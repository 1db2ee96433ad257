use cjk_proxy::client::{
    direct_bound_address, first_upstream_step, next_upstream_step, route_client, udp_route, ClientRoute, UdpRoute,
    UpstreamOutcome, UpstreamStep,
};
use cjk_proxy::ip::{IpAddr, SocketAddr};
use cjk_proxy::proxy::{ProxyRequest, ProxyResult};
use cjk_proxy::socks5::Address;
use cjk_proxy::proxy::{connect_result, resolved_result, unique_domains, ConnectOutcome};

fn tcp() -> ProxyRequest {
    ProxyRequest::TCP { dst: Address::default() }
}

#[test]
fn requests_are_routed() {
    assert_eq!(route_client(&tcp(), 2, false), ClientRoute::Upstreams);
    assert_eq!(route_client(&tcp(), 0, true), ClientRoute::Direct);
    assert_eq!(route_client(&tcp(), 0, false), ClientRoute::Blocked);
    let udp = ProxyRequest::UDP { initial_dst: Address::default(), initial_data: vec![1] };
    assert_eq!(route_client(&udp, 3, true), ClientRoute::UdpRelay);
    let dns = ProxyRequest::DNS { domains: vec!["example.com".to_string()] };
    assert_eq!(route_client(&dns, 3, true), ClientRoute::Unsupported);
}

#[test]
fn upstreams_are_tried_from_the_best() {
    let bound = SocketAddr { ip: IpAddr::V4([1, 2, 3, 4]), port: 8080 };
    assert!(matches!(first_upstream_step(3), UpstreamStep::Try(2)));
    assert!(matches!(next_upstream_step(2, &UpstreamOutcome::Unreachable), UpstreamStep::Try(1)));
    assert!(matches!(next_upstream_step(0, &UpstreamOutcome::Unreachable), UpstreamStep::Exhausted));
    let granted = UpstreamOutcome::Answered(ProxyResult::Granted { bound_address: Some(bound), solved_addresses: None });
    match next_upstream_step(1, &granted) {
        UpstreamStep::Relay { index, bound: Some(b) } => {
            assert_eq!(index, 1);
            assert_eq!(b.port, 8080);
        }
        _ => panic!("a grant is relayed"),
    }
    let refused = UpstreamOutcome::Answered(ProxyResult::ErrHostNotFound);
    assert!(matches!(next_upstream_step(1, &refused), UpstreamStep::Refused));
}

#[test]
fn direct_connections_report_local_end() {
    let local = SocketAddr { ip: IpAddr::V4([10, 0, 0, 2]), port: 5000 };
    assert_eq!(direct_bound_address(&tcp(), Some(local)).map(|a| a.port), Some(5000));
    let http = cjk_proxy::http::head::HttpRequest::parse(b"GET http://a/ HTTP/1.1\r\n\r\n");
    if let Ok(Some((_, req))) = http {
        let r = ProxyRequest::HTTP { dst: Address::default(), https: false, req };
        assert!(direct_bound_address(&r, Some(local)).is_none());
    } else {
        panic!("a request");
    }
}

#[test]
fn connection_outcomes_become_answers() {
    let local = SocketAddr { ip: IpAddr::V4([10, 0, 0, 2]), port: 5000 };
    match connect_result(ConnectOutcome::Connected(Some(local))) {
        ProxyResult::Granted { bound_address: Some(b), solved_addresses: None } => assert_eq!(b.port, 5000),
        other => panic!("unexpected {other:?}"),
    }
    assert!(matches!(connect_result(ConnectOutcome::TimedOut), ProxyResult::ErrTimeout));
    match connect_result(ConnectOutcome::Failed("refused".to_string())) {
        ProxyResult::ErrGeneric { msg } => assert_eq!(msg, "refused"),
        other => panic!("unexpected {other:?}"),
    }
}

#[test]
fn names_are_resolved_once() {
    let names: Vec<String> =
        ["www.google.com", "www.facebook.com", "www.google.com"].iter().map(|s| s.to_string()).collect();
    let unique = unique_domains(&names);
    assert_eq!(unique, vec!["www.google.com".to_string(), "www.facebook.com".to_string()]);
    assert!(unique_domains(&Vec::new()).is_empty());
    let answer = resolved_result(vec![("a".to_string(), vec![IpAddr::V4([1, 2, 3, 4])])]);
    match answer {
        ProxyResult::Granted { bound_address: None, solved_addresses: Some(list) } => {
            assert_eq!(list.len(), 1);
            assert_eq!(list[0].0, "a");
        }
        other => panic!("unexpected {other:?}"),
    }
}

#[test]
fn udp_association_routes() {
    assert_eq!(udp_route(true, false), UdpRoute::Upstream);
    assert_eq!(udp_route(true, true), UdpRoute::Upstream);
    assert_eq!(udp_route(false, true), UdpRoute::Direct);
    assert_eq!(udp_route(false, false), UdpRoute::Nowhere);
}
