use cjk_proxy::client::ClientStatistics;
use cjk_proxy::config::{ClientConfig, UpstreamConfig};
use cjk_proxy::controller::{
    body_to_read, delete_upstreams, not_found_message, reply_for, request_info, route, update_upstreams, BodyError,
    ControllerError, Outcome, Route, UpstreamUpdate,
};
use cjk_proxy::http::head::{HeadFields, ParsedHead};
use cjk_proxy::http::HttpError;
use cjk_proxy::socks5::Address;

fn upstream(addr: &str) -> UpstreamConfig {
    UpstreamConfig {
        address: Address::parse_text(addr).unwrap(),
        accept: vec![],
        reject: vec![],
        priority: 1,
        enabled: true,
    }
}

#[test]
fn control_requests_are_routed() {
    assert!(matches!(route("options", "/anything", false), Route::Options));
    assert!(matches!(route("get", "/api/config", false), Route::GetConfig));
    assert!(matches!(route("get", "/api/stats/x", false), Route::GetStats));
    match route("get", "/", false) {
        Route::Asset { path, original } => {
            assert_eq!(path, "index.html");
            assert_eq!(original, "/");
        }
        other => panic!("unexpected {other:?}"),
    }
    assert!(matches!(route("get", "/app.js", false), Route::Asset { path, .. } if path == "app.js"));
    assert!(matches!(route("post", "/api/upstream", true), Route::UpdateUpstreams));
    assert!(matches!(route("post", "/api/upstream", false), Route::NotFound { .. }));
    assert!(matches!(route("delete", "/api/upstream", true), Route::DeleteUpstreams));
    assert!(matches!(route("put", "/x", true), Route::NotFound { path } if path == "/x"));
    assert_eq!(not_found_message("/x"), "Resource /x not found");
}

#[test]
fn request_heads_are_read() {
    let head = ParsedHead::Complete(HeadFields {
        len: 42,
        method: Some("POST".to_string()),
        path: Some("/API/Upstream".to_string()),
        code: None,
        headers: vec![
            ("Content-Length".to_string(), b"12".to_vec()),
            ("content-type".to_string(), b"Application/JSON; charset=utf-8".to_vec()),
        ],
    });
    let info = request_info(head).unwrap().unwrap();
    assert_eq!(info.head_len, 42);
    assert_eq!(info.method, "post");
    assert_eq!(info.path, "/api/upstream");
    assert_eq!(info.content_length, 12);
    assert!(info.is_json);
    assert!(matches!(request_info(ParsedHead::Partial), Ok(None)));
    assert!(matches!(request_info(ParsedHead::Invalid), Err(HttpError::Malformed)));
    assert_eq!(body_to_read(100, 4, 12), Ok(8));
    assert_eq!(body_to_read(100, 20, 12), Ok(0));
    assert_eq!(body_to_read(10, 0, 12), Err(BodyError::PayloadTooBig));
}

#[test]
fn upstreams_are_updated_and_deleted() {
    let mut config = ClientConfig::default();
    let mut stats = ClientStatistics::new(&config);
    update_upstreams(
        &mut config,
        &mut stats,
        vec![UpstreamUpdate { old_name: None, name: "a".to_string(), config: upstream("1.1.1.1:80") }],
    );
    stats.update_upstream("a", 100, 7);
    // Renamed at the same address: the statistics go along.
    update_upstreams(
        &mut config,
        &mut stats,
        vec![UpstreamUpdate { old_name: Some("a".to_string()), name: "b".to_string(), config: upstream("1.1.1.1:80") }],
    );
    assert_eq!(config.upstreams.len(), 1);
    assert_eq!(config.upstreams[0].0, "b");
    assert_eq!(stats.upstreams.len(), 1);
    assert_eq!(stats.upstreams[0].1.last_latency.get(), 7);
    // Moved to another address: the statistics start again.
    update_upstreams(
        &mut config,
        &mut stats,
        vec![UpstreamUpdate { old_name: Some("b".to_string()), name: "b".to_string(), config: upstream("2.2.2.2:80") }],
    );
    assert_eq!(stats.upstreams[0].1.last_latency.get(), 0);
    delete_upstreams(&mut config, &mut stats, vec!["b".to_string(), "missing".to_string()]);
    assert!(config.upstreams.is_empty());
    assert!(stats.upstreams.is_empty());
}

#[test]
fn outcomes_become_replies() {
    let r = reply_for(Outcome::Empty);
    assert_eq!((r.code, r.status_msg.as_deref(), r.content_type.as_deref()), (201, Some("OK"), None));
    let r = reply_for(Outcome::Json(b"{}".to_vec()));
    assert_eq!((r.code, r.content_type.as_deref(), r.body.as_slice()), (200, Some("application/json"), &b"{}"[..]));
    let r = reply_for(Outcome::Failed(ControllerError::NotFound("/x".to_string())));
    assert_eq!((r.code, r.status_msg, r.body), (404, None, b"Resource /x not found".to_vec()));
    assert_eq!(reply_for(Outcome::Failed(ControllerError::InvalidRequest("bad".to_string()))).code, 400);
    assert_eq!(reply_for(Outcome::Failed(ControllerError::Generic("oops".to_string()))).code, 500);
}
