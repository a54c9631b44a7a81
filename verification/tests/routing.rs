use cache_proxy_api::config::{validate_proxy_config, Backends, ProxyConfig, RouteRule};
use cache_proxy_api::proxy::{
    build_cache_key, build_upstream_url, resolve_route, route_matches_path, should_bypass_cache,
    should_cache_request, should_forward_header, ProxyError, ProxyErrorKind,
};

fn sample_proxy_config() -> ProxyConfig {
    let mut backends = Backends::new();
    backends.insert(
        "coingecko-api".to_string(),
        "https://api.coingecko.com/api/v3".to_string(),
    );
    backends.insert(
        "favorites-api".to_string(),
        "http://favorites-api:8090".to_string(),
    );

    ProxyConfig {
        backends,
        routes: vec![
            RouteRule {
                prefix: "/providers".to_string(),
                backend: "favorites-api".to_string(),
                cache_ttl_seconds: None,
            },
            RouteRule {
                prefix: "/providers/coingecko".to_string(),
                backend: "coingecko-api".to_string(),
                cache_ttl_seconds: Some(60),
            },
        ],
    }
}

#[test]
fn resolves_longest_matching_route_and_preserves_query_string() {
    let config = sample_proxy_config();
    let resolved = resolve_route(
        &config,
        "/providers/coingecko/coin/bitcoin",
        Some("vs_currency=usd&days=7"),
    )
    .unwrap();

    assert_eq!(resolved.backend, "coingecko-api");
    assert_eq!(
        resolved.upstream_url,
        "https://api.coingecko.com/api/v3/coin/bitcoin?vs_currency=usd&days=7"
    );
    assert_eq!(resolved.cache_ttl_seconds, Some(60));
}

#[test]
fn builds_stable_cache_keys() {
    assert_eq!(
        build_cache_key(
            "GET",
            "https://api.coingecko.com/api/v3/markets?vs_currency=usd"
        ),
        "cache-proxy:GET:https://api.coingecko.com/api/v3/markets?vs_currency=usd"
    );
}

#[test]
fn detects_cache_bypass_controls() {
    let headers = vec![("x-cache-bypass".to_string(), b"true".to_vec())];

    assert!(should_bypass_cache(&headers, None));
    assert!(should_bypass_cache(&Vec::new(), Some("cache_bypass=1")));
    assert!(!should_bypass_cache(&Vec::new(), Some("vs_currency=usd")));
}

#[test]
fn bypass_header_reads_only_its_first_value() {
    let upper = vec![("x-cache-bypass".to_string(), b"TRUE".to_vec())];
    assert!(should_bypass_cache(&upper, None));
    let one = vec![("x-cache-bypass".to_string(), b"1".to_vec())];
    assert!(should_bypass_cache(&one, None));
    let first_wins = vec![
        ("x-cache-bypass".to_string(), b"no".to_vec()),
        ("x-cache-bypass".to_string(), b"true".to_vec()),
    ];
    assert!(!should_bypass_cache(&first_wins, None));
    let other = vec![("x-other".to_string(), b"true".to_vec())];
    assert!(!should_bypass_cache(&other, None));
    assert!(should_bypass_cache(&Vec::new(), Some("a=b&cache_bypass=True")));
    assert!(should_bypass_cache(&Vec::new(), Some("cache_bypass=true")));
    assert!(!should_bypass_cache(&Vec::new(), Some("cache_bypass=TRUE")));
    assert!(!should_bypass_cache(&Vec::new(), None));
}

#[test]
fn prefixes_cover_whole_segments_only() {
    assert!(route_matches_path("/providers", "/providers"));
    assert!(route_matches_path("/providers", "/providers/coingecko"));
    assert!(!route_matches_path("/providers", "/providersx"));
    assert!(!route_matches_path("/providers/coingecko", "/providers"));
    assert!(route_matches_path("", "/anything"));
    assert!(!route_matches_path("", "anything"));
}

#[test]
fn upstream_urls_join_cleanly() {
    assert_eq!(build_upstream_url("http://b:1/", "a/b", None), "http://b:1/a/b");
    assert_eq!(build_upstream_url("http://b:1///", "", None), "http://b:1");
    assert_eq!(build_upstream_url("http://b:1", "", Some("x=1")), "http://b:1?x=1");
    assert_eq!(build_upstream_url("http://b:1", "c", Some("")), "http://b:1/c?");
}

#[test]
fn shorter_rule_serves_paths_outside_the_longer_one() {
    let config = sample_proxy_config();
    let resolved = resolve_route(&config, "/providers//other", None).unwrap();
    assert_eq!(resolved.backend, "favorites-api");
    assert_eq!(resolved.route_prefix, "/providers");
    assert_eq!(resolved.upstream_url, "http://favorites-api:8090/other");
    assert_eq!(resolved.cache_ttl_seconds, None);

    let exact = resolve_route(&config, "/providers/coingecko", None).unwrap();
    assert_eq!(exact.upstream_url, "https://api.coingecko.com/api/v3");
}

#[test]
fn last_of_equal_prefixes_wins() {
    let mut config = sample_proxy_config();
    config.routes.push(RouteRule {
        prefix: "/providers".to_string(),
        backend: "coingecko-api".to_string(),
        cache_ttl_seconds: Some(5),
    });
    let resolved = resolve_route(&config, "/providers/x", None).unwrap();
    assert_eq!(resolved.backend, "coingecko-api");
    assert_eq!(resolved.cache_ttl_seconds, Some(5));
}

#[test]
fn unmatched_paths_are_not_found() {
    let config = sample_proxy_config();
    let err = resolve_route(&config, "/other", None).unwrap_err();
    assert_eq!(err.kind(), ProxyErrorKind::RouteNotFound);
    assert_eq!(err.status(), 404);
    assert_eq!(err.error_code(), "route_not_found");
    assert_eq!(err.message(), "No route matches path '/other'");
    assert_eq!(err.to_display_string(), "route_not_found: No route matches path '/other'");
}

#[test]
fn missing_backend_is_an_internal_error() {
    let mut config = sample_proxy_config();
    config.routes[0].backend = "gone".to_string();
    let err = resolve_route(&config, "/providers/a", None).unwrap_err();
    assert_eq!(err.kind(), ProxyErrorKind::Internal);
    assert_eq!(err.status(), 500);
    assert_eq!(err.message(), "Route '/providers' references missing backend 'gone'");
}

#[test]
fn error_constructors_set_status_and_code() {
    let e = ProxyError::bad_gateway("down".to_string());
    assert_eq!((e.status(), e.error_code()), (502, "bad_gateway"));
    let e = ProxyError::internal("oops".to_string());
    assert_eq!((e.status(), e.error_code()), (500, "internal_error"));
    let e = ProxyError::not_found("none".to_string());
    assert_eq!((e.status(), e.error_code()), (404, "route_not_found"));
}

#[test]
fn caching_applies_to_get_without_bypass() {
    assert_eq!(should_cache_request("GET", Some(60), false), Some(60));
    assert_eq!(should_cache_request("GET", None, false), None);
    assert_eq!(should_cache_request("GET", Some(60), true), None);
    assert_eq!(should_cache_request("POST", Some(60), false), None);
    assert_eq!(should_cache_request("get", Some(60), false), None);
}

#[test]
fn hop_by_hop_headers_are_withheld() {
    for name in [
        "host",
        "connection",
        "keep-alive",
        "proxy-authenticate",
        "proxy-authorization",
        "te",
        "trailers",
        "transfer-encoding",
        "upgrade",
        "content-length",
        "x-cache",
        "Content-Length",
    ] {
        assert!(!should_forward_header(name), "{}", name);
    }
    assert!(should_forward_header("content-type"));
    assert!(should_forward_header("x-cache-bypass"));
}

#[test]
fn validated_config_never_reports_a_missing_backend() {
    let config = sample_proxy_config();
    assert!(validate_proxy_config(&config).is_ok());
    for path in ["/", "/providers", "/providers/coingecko/x", "/elsewhere", ""] {
        match resolve_route(&config, path, None) {
            Ok(_) => {}
            Err(e) => assert_eq!(e.kind(), ProxyErrorKind::RouteNotFound),
        }
    }
}

#[test]
fn cache_keys_tell_requests_apart() {
    let a = build_cache_key("GET", "http://b/x");
    let b = build_cache_key("HEAD", "http://b/x");
    let c = build_cache_key("GET", "http://b/y");
    assert_ne!(a, b);
    assert_ne!(a, c);
    assert_eq!(a, build_cache_key("GET", "http://b/x"));
}
