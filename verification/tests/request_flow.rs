use cache_proxy_api::config::{Backends, ProxyConfig, RouteRule};
use cache_proxy_api::flow::{IncomingRequest, ProxyAction, ProxyEvent, ProxyFlow, ProxyStage};
use cache_proxy_api::proxy::ProxyErrorKind;
use cache_proxy_api::response::{CachedResponse, HttpResponse};

fn config(upstream: &str) -> ProxyConfig {
    let mut backends = Backends::new();
    backends.insert("coingecko-api".to_string(), upstream.to_string());
    ProxyConfig {
        backends,
        routes: vec![RouteRule {
            prefix: "/providers/coingecko".to_string(),
            backend: "coingecko-api".to_string(),
            cache_ttl_seconds: Some(60),
        }],
    }
}

fn request(method: &str, headers: Vec<(String, Vec<u8>)>) -> IncomingRequest {
    IncomingRequest {
        method: method.to_string(),
        path: "/providers/coingecko/coin/bitcoin".to_string(),
        query: None,
        headers,
        body: Vec::new(),
    }
}

fn upstream_answer(status: u16) -> HttpResponse {
    HttpResponse {
        status,
        headers: vec![
            ("content-type".to_string(), b"application/json".to_vec()),
            ("transfer-encoding".to_string(), b"chunked".to_vec()),
        ],
        body: br#"{"source":"upstream","ok":true}"#.to_vec(),
    }
}

fn cache_status(response: &HttpResponse) -> &[u8] {
    response.headers.iter().find(|(n, _)| n == "x-cache").map(|(_, v)| v.as_slice()).unwrap()
}

#[test]
fn bypassed_request_goes_straight_to_the_backend() {
    let config = config("http://127.0.0.1:9");
    let (flow, action) = ProxyFlow::start(
        &config,
        request("GET", vec![("x-cache-bypass".to_string(), b"true".to_vec())]),
    );
    let upstream = match action {
        ProxyAction::SendUpstream(u) => u,
        other => panic!("unexpected action {:?}", other),
    };
    assert_eq!(upstream.method, "GET");
    assert_eq!(upstream.url, "http://127.0.0.1:9/coin/bitcoin");
    assert_eq!(upstream.headers, vec![("x-cache-bypass".to_string(), b"true".to_vec())]);
    assert!(upstream.body.is_none());

    let event = ProxyEvent::UpstreamResponded(upstream_answer(200));
    assert!(flow.expects(&event));
    let (flow, action) = flow.step(event);
    assert_eq!(flow.stage(), ProxyStage::Finished);
    match action {
        ProxyAction::Respond(r) => {
            assert_eq!(r.status, 200);
            assert_eq!(cache_status(&r), b"BYPASS");
            assert_eq!(r.body, br#"{"source":"upstream","ok":true}"#.to_vec());
            assert!(r.headers.iter().all(|(n, _)| n != "transfer-encoding"));
        }
        other => panic!("unexpected action {:?}", other),
    }
}

#[test]
fn cache_miss_fetches_stores_and_answers() {
    let config = config("https://api.coingecko.com/api/v3");
    let (flow, action) = ProxyFlow::start(&config, request("GET", Vec::new()));
    match action {
        ProxyAction::ReadCache { key } => assert_eq!(
            key,
            "cache-proxy:GET:https://api.coingecko.com/api/v3/coin/bitcoin"
        ),
        other => panic!("unexpected action {:?}", other),
    }
    let (flow, action) = flow.step(ProxyEvent::CacheMiss);
    assert_eq!(flow.stage(), ProxyStage::AwaitingUpstream);
    assert!(matches!(action, ProxyAction::SendUpstream(_)));
    let (flow, action) = flow.step(ProxyEvent::UpstreamResponded(upstream_answer(200)));
    assert_eq!(flow.stage(), ProxyStage::AwaitingStore);
    match action {
        ProxyAction::StoreInCache { key, entry, ttl_seconds } => {
            assert_eq!(key, "cache-proxy:GET:https://api.coingecko.com/api/v3/coin/bitcoin");
            assert_eq!(ttl_seconds, 60);
            assert_eq!(entry.status, 200);
            assert_eq!(
                entry.headers,
                vec![("content-type".to_string(), "application/json".to_string())]
            );
        }
        other => panic!("unexpected action {:?}", other),
    }
    let (flow, action) = flow.step(ProxyEvent::CacheWritten);
    assert_eq!(flow.stage(), ProxyStage::Finished);
    match action {
        ProxyAction::Respond(r) => assert_eq!(cache_status(&r), b"MISS"),
        other => panic!("unexpected action {:?}", other),
    }
}

#[test]
fn cache_hit_replays_the_stored_response() {
    let config = config("https://api.coingecko.com/api/v3");
    let (flow, _) = ProxyFlow::start(&config, request("GET", Vec::new()));
    let stored = CachedResponse::from_parts(
        200,
        &vec![("content-type".to_string(), b"application/json".to_vec())],
        b"{}",
    );
    let (flow, action) = flow.step(ProxyEvent::CacheHit(stored));
    assert_eq!(flow.stage(), ProxyStage::Finished);
    match action {
        ProxyAction::Respond(r) => {
            assert_eq!(r.status, 200);
            assert_eq!(r.body, b"{}".to_vec());
            assert_eq!(cache_status(&r), b"HIT");
        }
        other => panic!("unexpected action {:?}", other),
    }
}

#[test]
fn failed_answers_are_not_stored() {
    let config = config("https://api.coingecko.com/api/v3");
    let (flow, _) = ProxyFlow::start(&config, request("GET", Vec::new()));
    let (flow, _) = flow.step(ProxyEvent::CacheMiss);
    let (flow, action) = flow.step(ProxyEvent::UpstreamResponded(upstream_answer(503)));
    assert_eq!(flow.stage(), ProxyStage::Finished);
    match action {
        ProxyAction::Respond(r) => {
            assert_eq!(r.status, 503);
            assert_eq!(cache_status(&r), b"SKIP");
        }
        other => panic!("unexpected action {:?}", other),
    }
}

#[test]
fn non_get_requests_are_not_cached() {
    let config = config("https://api.coingecko.com/api/v3");
    let mut req = request("POST", Vec::new());
    req.body = b"payload".to_vec();
    let (flow, action) = ProxyFlow::start(&config, req);
    match action {
        ProxyAction::SendUpstream(u) => {
            assert_eq!(u.method, "POST");
            assert_eq!(u.body, Some(b"payload".to_vec()));
        }
        other => panic!("unexpected action {:?}", other),
    }
    let (_, action) = flow.step(ProxyEvent::UpstreamResponded(upstream_answer(200)));
    match action {
        ProxyAction::Respond(r) => assert_eq!(cache_status(&r), b"DISABLED"),
        other => panic!("unexpected action {:?}", other),
    }
}

#[test]
fn outside_failures_become_gateway_errors() {
    let config = config("https://api.coingecko.com/api/v3");
    let (flow, _) = ProxyFlow::start(&config, request("GET", Vec::new()));
    assert!(!flow.expects(&ProxyEvent::CacheWritten));
    let (flow, action) = flow.step(ProxyEvent::CacheUnavailable("refused".to_string()));
    assert_eq!(flow.stage(), ProxyStage::Finished);
    match action {
        ProxyAction::Fail(e) => {
            assert_eq!(e.kind(), ProxyErrorKind::BadGateway);
            assert_eq!(e.message(), "Failed to connect to Redis: refused");
        }
        other => panic!("unexpected action {:?}", other),
    }

    let (flow, _) = ProxyFlow::start(&config, request("GET", Vec::new()));
    let (flow, _) = flow.step(ProxyEvent::CacheMiss);
    let (_, action) = flow.step(ProxyEvent::UpstreamFailed("timeout".to_string()));
    match action {
        ProxyAction::Fail(e) => assert_eq!(e.message(), "Upstream request failed: timeout"),
        other => panic!("unexpected action {:?}", other),
    }
}

#[test]
fn unknown_paths_fail_at_once() {
    let config = config("https://api.coingecko.com/api/v3");
    let mut req = request("GET", Vec::new());
    req.path = "/nowhere".to_string();
    let (flow, action) = ProxyFlow::start(&config, req);
    assert_eq!(flow.stage(), ProxyStage::Finished);
    match action {
        ProxyAction::Fail(e) => assert_eq!(e.status(), 404),
        other => panic!("unexpected action {:?}", other),
    }
}

#[test]
fn finished_handling_expects_nothing() {
    let config = config("https://api.coingecko.com/api/v3");
    let (flow, _) = ProxyFlow::start(&config, request("GET", Vec::new()));
    let (flow, _) = flow.step(ProxyEvent::CacheReadFailed("gone".to_string()));
    assert_eq!(flow.stage(), ProxyStage::Finished);
    assert!(!flow.expects(&ProxyEvent::CacheMiss));
    assert!(!flow.expects(&ProxyEvent::CacheWritten));
    assert!(!flow.expects(&ProxyEvent::UpstreamResponded(upstream_answer(200))));
}
