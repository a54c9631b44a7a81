use cache_proxy_api::config::{
    app_config_from_values, parse_port, validate_proxy_config, validate_with_url_checks,
    AppConfigError, Backends, ConfigError, ProxyConfig, RouteRule,
};

fn valid_proxy_config() -> ProxyConfig {
    let mut backends = Backends::new();
    backends.insert(
        "coingecko-api".to_string(),
        "https://api.coingecko.com/api/v3".to_string(),
    );

    ProxyConfig {
        backends,
        routes: vec![RouteRule {
            prefix: "/providers/coingecko".to_string(),
            backend: "coingecko-api".to_string(),
            cache_ttl_seconds: Some(60),
        }],
    }
}

#[test]
fn rejects_route_with_unknown_backend() {
    let mut config = valid_proxy_config();
    config.routes[0].backend = "missing-backend".to_string();

    assert!(validate_proxy_config(&config).is_err());
}

#[test]
fn rejects_invalid_backend_url() {
    let mut config = valid_proxy_config();
    config
        .backends
        .insert("coingecko-api".to_string(), "not a url".to_string());

    assert!(validate_proxy_config(&config).is_err());
}

#[test]
fn rejects_empty_backends() {
    let config = ProxyConfig {
        backends: Backends::new(),
        routes: vec![RouteRule {
            prefix: "/providers/coingecko".to_string(),
            backend: "coingecko-api".to_string(),
            cache_ttl_seconds: Some(60),
        }],
    };

    assert!(validate_proxy_config(&config).is_err());
}

#[test]
fn rejects_empty_routes() {
    let mut backends = Backends::new();
    backends.insert(
        "coingecko-api".to_string(),
        "https://api.coingecko.com/api/v3".to_string(),
    );

    let config = ProxyConfig {
        backends,
        routes: Vec::new(),
    };

    assert!(validate_proxy_config(&config).is_err());
}

#[test]
fn rejects_route_prefix_without_leading_slash() {
    let mut config = valid_proxy_config();
    config.routes[0].prefix = "providers/coingecko".to_string();

    assert!(validate_proxy_config(&config).is_err());
}

#[test]
fn rejects_zero_cache_ttl() {
    let mut config = valid_proxy_config();
    config.routes[0].cache_ttl_seconds = Some(0);

    assert!(validate_proxy_config(&config).is_err());
}

#[test]
fn accepts_valid_proxy_config() {
    let config = valid_proxy_config();
    assert!(validate_proxy_config(&config).is_ok());
}

#[test]
fn reports_each_refusal_with_its_reason() {
    let empty = ProxyConfig { backends: Backends::new(), routes: Vec::new() };
    let err = validate_proxy_config(&empty).unwrap_err();
    assert!(matches!(err, ConfigError::NoBackends));
    assert_eq!(err.message(), "proxy config must define at least one backend");

    let mut no_routes = valid_proxy_config();
    no_routes.routes.clear();
    let err = validate_proxy_config(&no_routes).unwrap_err();
    assert!(matches!(err, ConfigError::NoRoutes));
    assert_eq!(err.message(), "proxy config must define at least one route");

    let mut bad_prefix = valid_proxy_config();
    bad_prefix.routes[0].prefix = "providers".to_string();
    let err = validate_proxy_config(&bad_prefix).unwrap_err();
    assert_eq!(err.message(), "route prefix 'providers' must start with '/'");

    let mut unknown = valid_proxy_config();
    unknown.routes[0].backend = "missing-backend".to_string();
    let err = validate_proxy_config(&unknown).unwrap_err();
    assert_eq!(
        err.message(),
        "route prefix '/providers/coingecko' references unknown backend 'missing-backend'"
    );

    let mut zero = valid_proxy_config();
    zero.routes[0].cache_ttl_seconds = Some(0);
    let err = validate_proxy_config(&zero).unwrap_err();
    assert_eq!(
        err.message(),
        "route prefix '/providers/coingecko' must use a cache TTL greater than 0 seconds"
    );

    let mut bad_url = valid_proxy_config();
    bad_url.backends.insert("coingecko-api".to_string(), "not a url".to_string());
    match validate_proxy_config(&bad_url).unwrap_err() {
        ConfigError::InvalidBackendUrl { backend, url, reason } => {
            assert_eq!(backend, "coingecko-api");
            assert_eq!(url, "not a url");
            assert_eq!(reason, "relative URL without a base");
        }
        other => panic!("unexpected refusal {:?}", other),
    }
}

#[test]
fn url_problems_come_before_route_problems() {
    let mut config = valid_proxy_config();
    config.backends.insert("other".to_string(), "::".to_string());
    config.routes[0].prefix = "no-slash".to_string();
    assert!(matches!(
        validate_proxy_config(&config).unwrap_err(),
        ConfigError::InvalidBackendUrl { .. }
    ));
}

#[test]
fn missing_ttl_is_accepted() {
    let mut config = valid_proxy_config();
    config.routes[0].cache_ttl_seconds = None;
    assert!(validate_proxy_config(&config).is_ok());
}

#[test]
fn backends_insert_replaces_and_keeps_order() {
    let mut backends = Backends::new();
    assert!(backends.is_empty());
    backends.insert("a".to_string(), "http://a".to_string());
    backends.insert("b".to_string(), "http://b".to_string());
    backends.insert("a".to_string(), "http://a2".to_string());
    assert_eq!(backends.len(), 2);
    assert_eq!(backends.get("a").map(|s| s.as_str()), Some("http://a2"));
    assert_eq!(backends.get("b").map(|s| s.as_str()), Some("http://b"));
    assert!(backends.get("c").is_none());
    assert!(backends.contains_key("b"));
    let (name, url) = backends.entry(0);
    assert_eq!((name.as_str(), url.as_str()), ("a", "http://a2"));
}

#[test]
fn parses_ports_like_u16_from_str() {
    assert_eq!(parse_port("4555"), Some(4555));
    assert_eq!(parse_port("+80"), Some(80));
    assert_eq!(parse_port("0065535"), Some(65535));
    assert_eq!(parse_port("65536"), None);
    assert_eq!(parse_port(""), None);
    assert_eq!(parse_port("+"), None);
    assert_eq!(parse_port("-1"), None);
    assert_eq!(parse_port("80a"), None);
    assert_eq!(parse_port(" 80"), None);
    for text in ["0", "1", "8070", "65535", "+65535", "99999", "12x"] {
        assert_eq!(parse_port(text), text.parse::<u16>().ok());
    }
}

#[test]
fn app_config_reads_the_three_values_in_order() {
    let config = app_config_from_values(
        Some("4555".to_string()),
        Some("redis://127.0.0.1:6379".to_string()),
        Some("/tmp/proxy-config.json".to_string()),
    )
    .unwrap();
    assert_eq!(config.port, 4555);
    assert_eq!(config.redis_url, "redis://127.0.0.1:6379");
    assert_eq!(config.proxy_config_path, "/tmp/proxy-config.json");

    assert_eq!(
        app_config_from_values(None, None, None).unwrap_err(),
        AppConfigError::MissingPort
    );
    assert_eq!(
        app_config_from_values(Some("port".to_string()), None, None).unwrap_err(),
        AppConfigError::InvalidPort
    );
    assert_eq!(
        app_config_from_values(Some("1".to_string()), None, Some("p".to_string())).unwrap_err(),
        AppConfigError::MissingRedisUrl
    );
    assert_eq!(
        app_config_from_values(Some("1".to_string()), Some("r".to_string()), None).unwrap_err(),
        AppConfigError::MissingProxyConfigPath
    );
}

#[test]
fn validation_uses_the_given_url_checks() {
    let config = valid_proxy_config();
    assert!(validate_with_url_checks(&config, &vec![Ok(())]).is_ok());
    match validate_with_url_checks(&config, &vec![Err("bad".to_string())]).unwrap_err() {
        ConfigError::InvalidBackendUrl { backend, url, reason } => {
            assert_eq!(backend, "coingecko-api");
            assert_eq!(url, "https://api.coingecko.com/api/v3");
            assert_eq!(reason, "bad");
        }
        other => panic!("unexpected refusal {:?}", other),
    }
    let empty = ProxyConfig { backends: Backends::new(), routes: Vec::new() };
    assert!(matches!(
        validate_with_url_checks(&empty, &Vec::new()).unwrap_err(),
        ConfigError::NoBackends
    ));
}
