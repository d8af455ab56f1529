use zaphyl::access::IpAddress;
use zaphyl::config::{
    default_acme_cache_dir, default_acme_directory, AccessConfig, AcmeConfig, CacheConfig,
    CompressionConfig, Config, ConfigError, HealthCheckConfig, Http3Config, HttpRedirectConfig,
    LimitsConfig, MetricsConfig, PluginsConfig, RateLimitConfig, RouteConfig, SocketAddress,
    TlsConfig, DEFAULT_ACME_CHECK_INTERVAL, DEFAULT_CACHE_MAX_BODY_BYTES,
    DEFAULT_CACHE_MAX_ENTRIES, DEFAULT_PLUGIN_MAX_BODY_BYTES, DEFAULT_RENEW_BEFORE_DAYS,
};

fn address(text: &str) -> SocketAddress {
    let (ip, port) = text.rsplit_once(':').unwrap();
    let mut value: u32 = 0;
    for part in ip.split('.') {
        value = value * 256 + part.parse::<u32>().unwrap();
    }
    SocketAddress { ip: IpAddress::V4(value), port: port.parse().unwrap() }
}

fn text(table: &toml::Table, name: &str) -> Option<String> {
    table.get(name).map(|v| v.as_str().unwrap().to_owned())
}

fn number(table: &toml::Table, name: &str) -> Option<u64> {
    table.get(name).map(|v| v.as_integer().unwrap() as u64)
}

fn flag(table: &toml::Table, name: &str) -> bool {
    table.get(name).is_some_and(|v| v.as_bool().unwrap())
}

fn list(table: &toml::Table, name: &str) -> Vec<String> {
    match table.get(name) {
        Some(toml::Value::String(one)) => vec![one.clone()],
        Some(value) => value
            .as_array()
            .unwrap()
            .iter()
            .map(|v| v.as_str().unwrap().to_owned())
            .collect(),
        None => Vec::new(),
    }
}

fn headers(table: &toml::Table, name: &str) -> Vec<(String, String)> {
    section(table, name).map_or(Vec::new(), |t| {
        t.iter().map(|(n, v)| (n.clone(), v.as_str().unwrap().to_owned())).collect()
    })
}

fn section<'a>(table: &'a toml::Table, name: &str) -> Option<&'a toml::Table> {
    table.get(name).map(|v| v.as_table().unwrap())
}

fn route(table: &toml::Table) -> RouteConfig {
    RouteConfig {
        host: text(table, "host"),
        path: text(table, "path"),
        upstream: list(table, "upstream"),
        root: text(table, "root"),
        tls: flag(table, "tls"),
        strip_prefix: flag(table, "strip_prefix"),
        request_headers: headers(table, "request_headers"),
        response_headers: headers(table, "response_headers"),
        grpc: flag(table, "grpc"),
        plugins: list(table, "plugins"),
    }
}

/// Reads a configuration from TOML and validates it.
fn from_toml(input: &str) -> Result<Config, ConfigError> {
    let t: toml::Table =
        toml::from_str(input).map_err(|e: toml::de::Error| ConfigError::Toml(e.to_string()))?;
    let config = Config {
        listen: address(&text(&t, "listen").unwrap()),
        worker_threads: number(&t, "worker_threads").map(|n| n as usize),
        shutdown_grace_seconds: number(&t, "shutdown_grace_seconds"),
        tls: section(&t, "tls").map(|s| TlsConfig {
            cert: text(s, "cert").unwrap(),
            key: text(s, "key").unwrap(),
        }),
        acme: section(&t, "acme").map(|s| AcmeConfig {
            domains: list(s, "domains"),
            email: text(s, "email").unwrap(),
            directory: text(s, "directory").unwrap_or_else(default_acme_directory),
            cache_dir: text(s, "cache_dir").unwrap_or_else(default_acme_cache_dir),
            renew_before_days: number(s, "renew_before_days").unwrap_or(DEFAULT_RENEW_BEFORE_DAYS),
            check_interval_seconds: number(s, "check_interval_seconds")
                .unwrap_or(DEFAULT_ACME_CHECK_INTERVAL),
        }),
        metrics: section(&t, "metrics")
            .map(|s| MetricsConfig { listen: address(&text(s, "listen").unwrap()) }),
        rate_limit: section(&t, "rate_limit").map(|s| RateLimitConfig {
            requests_per_second: number(s, "requests_per_second").unwrap() as u32,
        }),
        health_check: section(&t, "health_check").map(|s| HealthCheckConfig {
            interval_seconds: number(s, "interval_seconds").unwrap(),
        }),
        limits: section(&t, "limits").map(|s| LimitsConfig {
            max_request_body_bytes: number(s, "max_request_body_bytes"),
            max_request_header_bytes: number(s, "max_request_header_bytes"),
            upstream_connect_timeout_seconds: number(s, "upstream_connect_timeout_seconds"),
            upstream_read_timeout_seconds: number(s, "upstream_read_timeout_seconds"),
        }),
        access: section(&t, "access")
            .map(|s| AccessConfig { allow: list(s, "allow"), deny: list(s, "deny") }),
        compression: section(&t, "compression")
            .map(|s| CompressionConfig { level: number(s, "level").unwrap() as u32 }),
        cache: section(&t, "cache").map(|s| CacheConfig {
            max_entries: number(s, "max_entries")
                .map_or(DEFAULT_CACHE_MAX_ENTRIES, |n| n as usize),
            max_body_bytes: number(s, "max_body_bytes").unwrap_or(DEFAULT_CACHE_MAX_BODY_BYTES),
            disk_path: text(s, "disk_path"),
        }),
        plugins: section(&t, "plugins").map(|s| PluginsConfig {
            global: list(s, "global"),
            max_body_bytes: number(s, "max_body_bytes").unwrap_or(DEFAULT_PLUGIN_MAX_BODY_BYTES),
        }),
        http3: section(&t, "http3")
            .map(|s| Http3Config { listen: address(&text(s, "listen").unwrap()) }),
        http: section(&t, "http")
            .map(|s| HttpRedirectConfig { listen: address(&text(s, "listen").unwrap()) }),
        response_headers: headers(&t, "response_headers"),
        routes: t.get("route").map_or(Vec::new(), |v| {
            v.as_array().unwrap().iter().map(|r| route(r.as_table().unwrap())).collect()
        }),
    };
    config.validate()?;
    Ok(config)
}

fn complaint(input: &str) -> String {
    match from_toml(input) {
        Err(ConfigError::Invalid(text)) => text,
        other => panic!("expected an invalid configuration, got {other:?}"),
    }
}

fn value(list: &[(String, String)], name: &str) -> Option<String> {
    list.iter().find(|(n, _)| n == name).map(|(_, v)| v.clone())
}

#[test]
fn parses_multiple_routes() {
    let toml = r#"
            listen = "0.0.0.0:8080"
            [[route]]
            host = "api.example.com"
            path = "/v1"
            upstream = "127.0.0.1:3000"
            [[route]]
            upstream = "127.0.0.1:4000"
            tls = true
        "#;
    let cfg = from_toml(toml).expect("should parse");
    assert_eq!(cfg.listen, address("0.0.0.0:8080"));
    assert_eq!(cfg.routes.len(), 2);
    assert_eq!(cfg.routes[0].host.as_deref(), Some("api.example.com"));
    assert_eq!(cfg.routes[0].path.as_deref(), Some("/v1"));
    assert_eq!(cfg.routes[0].upstream, ["127.0.0.1:3000"]);
    assert!(!cfg.routes[0].tls);
    assert_eq!(cfg.routes[1].host, None);
    assert!(cfg.routes[1].tls);
    assert!(cfg.tls.is_none());
}

#[test]
fn parses_tls_section() {
    let toml = r#"
            listen = "0.0.0.0:8443"
            [tls]
            cert = "/etc/zaphyl/cert.pem"
            key = "/etc/zaphyl/key.pem"
            [[route]]
            upstream = "127.0.0.1:3000"
        "#;
    let cfg = from_toml(toml).expect("should parse");
    let tls = cfg.tls.expect("tls present");
    assert_eq!(tls.cert, "/etc/zaphyl/cert.pem");
    assert_eq!(tls.key, "/etc/zaphyl/key.pem");
}

#[test]
fn rejects_empty_tls_cert() {
    let toml = r#"
            listen = "0.0.0.0:8443"
            [tls]
            cert = ""
            key = "/etc/zaphyl/key.pem"
            [[route]]
            upstream = "127.0.0.1:3000"
        "#;
    assert!(matches!(from_toml(toml), Err(ConfigError::Invalid(_))));
    assert_eq!(complaint(toml), "tls.cert and tls.key must not be empty");
}

#[test]
fn parses_rate_limit() {
    let toml = r#"
            listen = "0.0.0.0:8080"
            [rate_limit]
            requests_per_second = 10
            [[route]]
            upstream = "127.0.0.1:3000"
        "#;
    let cfg = from_toml(toml).expect("should parse");
    assert_eq!(cfg.rate_limit.expect("present").requests_per_second, 10);
}

#[test]
fn rejects_zero_rate_limit() {
    let toml = r#"
            listen = "0.0.0.0:8080"
            [rate_limit]
            requests_per_second = 0
            [[route]]
            upstream = "127.0.0.1:3000"
        "#;
    assert!(matches!(from_toml(toml), Err(ConfigError::Invalid(_))));
    assert_eq!(complaint(toml), "rate_limit.requests_per_second must be at least 1");
}

#[test]
fn parses_metrics_section() {
    let toml = r#"
            listen = "0.0.0.0:8080"
            [metrics]
            listen = "127.0.0.1:9090"
            [[route]]
            upstream = "127.0.0.1:3000"
        "#;
    let cfg = from_toml(toml).expect("should parse");
    assert_eq!(
        cfg.metrics.expect("metrics present").listen,
        address("127.0.0.1:9090")
    );
}

#[test]
fn parses_acme_with_defaults() {
    let toml = r#"
            listen = "0.0.0.0:443"
            [acme]
            domains = ["example.com", "www.example.com"]
            email = "admin@example.com"
            [[route]]
            upstream = "127.0.0.1:3000"
        "#;
    let cfg = from_toml(toml).expect("should parse");
    let acme = cfg.acme.expect("acme present");
    assert_eq!(acme.domains, ["example.com", "www.example.com"]);
    assert_eq!(acme.email, "admin@example.com");
    assert_eq!(
        acme.directory,
        "https://acme-v02.api.letsencrypt.org/directory"
    );
    assert_eq!(acme.cache_dir, "./acme");
    assert_eq!(acme.renew_before_days, 30);
    assert_eq!(acme.check_interval_seconds, 12 * 60 * 60);
}

#[test]
fn rejects_zero_renew_window() {
    let toml = r#"
            listen = "0.0.0.0:443"
            [acme]
            domains = ["example.com"]
            email = "admin@example.com"
            renew_before_days = 0
            [[route]]
            upstream = "127.0.0.1:3000"
        "#;
    assert!(matches!(from_toml(toml), Err(ConfigError::Invalid(_))));
    assert_eq!(complaint(toml), "acme.renew_before_days must be at least 1");
}

#[test]
fn rejects_acme_without_domains() {
    let toml = r#"
            listen = "0.0.0.0:443"
            [acme]
            domains = []
            email = "admin@example.com"
            [[route]]
            upstream = "127.0.0.1:3000"
        "#;
    assert!(matches!(from_toml(toml), Err(ConfigError::Invalid(_))));
    assert_eq!(complaint(toml), "acme.domains must list at least one non-empty domain");
}

#[test]
fn rejects_tls_and_acme_together() {
    let toml = r#"
            listen = "0.0.0.0:443"
            [tls]
            cert = "/c.pem"
            key = "/k.pem"
            [acme]
            domains = ["example.com"]
            email = "admin@example.com"
            [[route]]
            upstream = "127.0.0.1:3000"
        "#;
    assert!(matches!(from_toml(toml), Err(ConfigError::Invalid(_))));
    assert_eq!(complaint(toml), "[tls] and [acme] are mutually exclusive");
}

#[test]
fn parses_list_of_upstreams() {
    let toml = r#"
            listen = "0.0.0.0:8080"
            [[route]]
            upstream = ["127.0.0.1:3000", "127.0.0.1:3001"]
        "#;
    let cfg = from_toml(toml).expect("should parse");
    assert_eq!(cfg.routes[0].upstream, ["127.0.0.1:3000", "127.0.0.1:3001"]);
}

#[test]
fn parses_http3() {
    let toml = r#"
            listen = "0.0.0.0:443"
            [tls]
            cert = "/c.pem"
            key = "/k.pem"
            [http3]
            listen = "0.0.0.0:443"
            [[route]]
            upstream = "127.0.0.1:3000"
        "#;
    let cfg = from_toml(toml).expect("should parse");
    assert!(cfg.http3.is_some());
}

#[test]
fn parses_http_redirect() {
    let toml = r#"
            listen = "0.0.0.0:443"
            [tls]
            cert = "/c.pem"
            key = "/k.pem"
            [http]
            listen = "0.0.0.0:80"
            [[route]]
            upstream = "127.0.0.1:3000"
        "#;
    let cfg = from_toml(toml).expect("should parse");
    assert_eq!(cfg.http.expect("http present").listen, address("0.0.0.0:80"));
}

#[test]
fn rejects_http_redirect_without_tls() {
    let toml = r#"
            listen = "0.0.0.0:80"
            [http]
            listen = "0.0.0.0:8080"
            [[route]]
            upstream = "127.0.0.1:3000"
        "#;
    assert!(matches!(from_toml(toml), Err(ConfigError::Invalid(_))));
    assert_eq!(
        complaint(toml),
        "[http] redirect requires a TLS certificate ([tls] or [acme])"
    );
}

#[test]
fn rejects_http3_without_tls() {
    let toml = r#"
            listen = "0.0.0.0:443"
            [http3]
            listen = "0.0.0.0:443"
            [[route]]
            upstream = "127.0.0.1:3000"
        "#;
    assert!(matches!(from_toml(toml), Err(ConfigError::Invalid(_))));
    assert_eq!(complaint(toml), "[http3] requires a TLS certificate ([tls] or [acme])");
}

#[test]
fn parses_limits() {
    let toml = r#"
            listen = "0.0.0.0:8080"
            [limits]
            max_request_body_bytes = 1048576
            upstream_connect_timeout_seconds = 5
            upstream_read_timeout_seconds = 30
            [[route]]
            upstream = "127.0.0.1:3000"
        "#;
    let cfg = from_toml(toml).expect("should parse");
    let limits = cfg.limits.expect("limits present");
    assert_eq!(limits.max_request_body_bytes, Some(1_048_576));
    assert_eq!(limits.upstream_connect_timeout_seconds, Some(5));
    assert_eq!(limits.upstream_read_timeout_seconds, Some(30));
}

#[test]
fn rejects_zero_timeout() {
    let toml = r#"
            listen = "0.0.0.0:8080"
            [limits]
            upstream_read_timeout_seconds = 0
            [[route]]
            upstream = "127.0.0.1:3000"
        "#;
    assert!(matches!(from_toml(toml), Err(ConfigError::Invalid(_))));
    assert_eq!(complaint(toml), "limits upstream timeouts must be at least 1 second");
}

#[test]
fn parses_cache_with_defaults() {
    let toml = r#"
            listen = "0.0.0.0:8080"
            [cache]
            [[route]]
            upstream = "127.0.0.1:3000"
        "#;
    let cfg = from_toml(toml).expect("should parse");
    let cache = cfg.cache.expect("cache present");
    assert_eq!(cache.max_entries, 1024);
    assert_eq!(cache.max_body_bytes, 1024 * 1024);
}

#[test]
fn parses_compression() {
    let toml = r#"
            listen = "0.0.0.0:8080"
            [compression]
            level = 6
            [[route]]
            upstream = "127.0.0.1:3000"
        "#;
    let cfg = from_toml(toml).expect("should parse");
    assert_eq!(cfg.compression.expect("present").level, 6);
}

#[test]
fn rejects_zero_compression_level() {
    let toml = r#"
            listen = "0.0.0.0:8080"
            [compression]
            level = 0
            [[route]]
            upstream = "127.0.0.1:3000"
        "#;
    assert!(matches!(from_toml(toml), Err(ConfigError::Invalid(_))));
    assert_eq!(complaint(toml), "compression.level must be at least 1");
}

#[test]
fn parses_access() {
    let toml = r#"
            listen = "0.0.0.0:8080"
            [access]
            allow = ["10.0.0.0/8"]
            deny = ["10.0.0.5"]
            [[route]]
            upstream = "127.0.0.1:3000"
        "#;
    let cfg = from_toml(toml).expect("should parse");
    let access = cfg.access.expect("access present");
    assert_eq!(access.allow, ["10.0.0.0/8"]);
    assert_eq!(access.deny, ["10.0.0.5"]);
}

#[test]
fn parses_health_check() {
    let toml = r#"
            listen = "0.0.0.0:8080"
            [health_check]
            interval_seconds = 5
            [[route]]
            upstream = "127.0.0.1:3000"
        "#;
    let cfg = from_toml(toml).expect("should parse");
    assert_eq!(cfg.health_check.expect("present").interval_seconds, 5);
}

#[test]
fn parses_response_headers() {
    let toml = r#"
            listen = "0.0.0.0:8080"
            [response_headers]
            "X-Zaphyl" = "yes"
            [[route]]
            upstream = "127.0.0.1:3000"
        "#;
    let cfg = from_toml(toml).expect("should parse");
    assert_eq!(
        value(&cfg.response_headers, "X-Zaphyl").as_deref(),
        Some("yes")
    );
}

#[test]
fn rejects_no_routes() {
    let toml = r#"listen = "0.0.0.0:8080""#;
    assert!(matches!(from_toml(toml), Err(ConfigError::Invalid(_))));
    assert_eq!(complaint(toml), "at least one [[route]] is required");
}

#[test]
fn rejects_upstream_without_port() {
    let toml = r#"
            listen = "0.0.0.0:8080"
            [[route]]
            upstream = "127.0.0.1"
        "#;
    assert!(matches!(from_toml(toml), Err(ConfigError::Invalid(_))));
    assert_eq!(
        complaint(toml),
        "route 0: upstream must be `host:port`, got `127.0.0.1`"
    );
}

#[test]
fn parses_per_route_headers() {
    let toml = r#"
            listen = "0.0.0.0:8080"
            [[route]]
            upstream = "127.0.0.1:3000"
            [route.request_headers]
            "X-Api-Key" = "secret"
            [route.response_headers]
            "X-Served-By" = "zaphyl"
        "#;
    let cfg = from_toml(toml).expect("should parse");
    assert_eq!(
        value(&cfg.routes[0].request_headers, "X-Api-Key").as_deref(),
        Some("secret")
    );
    assert_eq!(
        value(&cfg.routes[0].response_headers, "X-Served-By").as_deref(),
        Some("zaphyl")
    );
}

#[test]
fn parses_static_route() {
    let toml = r#"
            listen = "0.0.0.0:8080"
            [[route]]
            path = "/"
            root = "/var/www"
        "#;
    let cfg = from_toml(toml).expect("should parse");
    assert_eq!(cfg.routes[0].root.as_deref(), Some("/var/www"));
    assert!(cfg.routes[0].upstream.is_empty());
}

#[test]
fn rejects_route_with_upstream_and_root() {
    let toml = r#"
            listen = "0.0.0.0:8080"
            [[route]]
            upstream = "127.0.0.1:3000"
            root = "/var/www"
        "#;
    assert!(matches!(from_toml(toml), Err(ConfigError::Invalid(_))));
    assert_eq!(complaint(toml), "route 0: cannot set both upstream and root");
}

#[test]
fn parses_plugins() {
    let toml = r#"
            listen = "0.0.0.0:8080"
            [plugins]
            global = ["/etc/zaphyl/auth.wasm"]
            [[route]]
            upstream = "127.0.0.1:3000"
            plugins = ["/etc/zaphyl/headers.wasm"]
        "#;
    let cfg = from_toml(toml).expect("should parse");
    let plugins = cfg.plugins.expect("plugins present");
    assert_eq!(plugins.global, ["/etc/zaphyl/auth.wasm"]);
    assert_eq!(plugins.max_body_bytes, 1024 * 1024);
    assert_eq!(cfg.routes[0].plugins, ["/etc/zaphyl/headers.wasm"]);
}

#[test]
fn parses_grpc_route() {
    let toml = r#"
            listen = "0.0.0.0:8080"
            [[route]]
            upstream = "127.0.0.1:50051"
            grpc = true
        "#;
    let cfg = from_toml(toml).expect("should parse");
    assert!(cfg.routes[0].grpc);
}

#[test]
fn parses_strip_prefix() {
    let toml = r#"
            listen = "0.0.0.0:8080"
            [[route]]
            path = "/api"
            upstream = "127.0.0.1:3000"
            strip_prefix = true
        "#;
    let cfg = from_toml(toml).expect("should parse");
    assert!(cfg.routes[0].strip_prefix);
}

#[test]
fn rejects_strip_prefix_without_path() {
    let toml = r#"
            listen = "0.0.0.0:8080"
            [[route]]
            upstream = "127.0.0.1:3000"
            strip_prefix = true
        "#;
    assert!(matches!(from_toml(toml), Err(ConfigError::Invalid(_))));
    assert_eq!(complaint(toml), "route 0: strip_prefix requires a path");
}

#[test]
fn rejects_path_without_leading_slash() {
    let toml = r#"
            listen = "0.0.0.0:8080"
            [[route]]
            path = "v1"
            upstream = "127.0.0.1:3000"
        "#;
    assert!(matches!(from_toml(toml), Err(ConfigError::Invalid(_))));
    assert_eq!(complaint(toml), "route 0: path must start with `/`, got `v1`");
}

#[test]
fn every_other_rule_has_its_message() {
    let routed = |extra: &str| {
        format!("listen = \"0.0.0.0:80\"\n{extra}\n[[route]]\nupstream = \"a:1\"\n")
    };
    let acme = |extra: &str| {
        routed(&format!("[acme]\ndomains = [\"a\"]\nemail = \"e\"\n{extra}"))
    };
    assert_eq!(
        complaint(&routed("[acme]\ndomains = [\"a\", \" \"]\nemail = \"e\"")),
        "acme.domains must list at least one non-empty domain"
    );
    assert_eq!(
        complaint(&routed("[acme]\ndomains = [\"a\"]\nemail = \"\\t\"")),
        "acme.email must not be empty"
    );
    assert_eq!(
        complaint(&acme("check_interval_seconds = 0")),
        "acme.check_interval_seconds must be at least 1"
    );
    assert_eq!(
        complaint(&routed("[health_check]\ninterval_seconds = 0")),
        "health_check.interval_seconds must be at least 1"
    );
    assert_eq!(
        complaint(&routed("[limits]\nmax_request_body_bytes = 0")),
        "limits.max_request_body_bytes must be at least 1"
    );
    assert_eq!(
        complaint(&routed("[limits]\nupstream_connect_timeout_seconds = 0")),
        "limits upstream timeouts must be at least 1 second"
    );
    assert_eq!(
        complaint(&routed("[cache]\nmax_entries = 0")),
        "cache.max_entries and cache.max_body_bytes must be at least 1"
    );
    assert_eq!(
        complaint("listen = \"0.0.0.0:80\"\n[[route]]\nupstream = \"a:1\"\n[[route]]\nhost = \"h\"\n"),
        "route 1: requires an upstream or a root"
    );
    // The first rule that is broken is the one that is named.
    assert_eq!(
        complaint(&routed("[rate_limit]\nrequests_per_second = 0\n[compression]\nlevel = 0")),
        "rate_limit.requests_per_second must be at least 1"
    );
}

#[test]
fn upstreams_are_judged_by_their_last_colon() {
    let upstream = |text: &str| {
        from_toml(&format!("listen = \"0.0.0.0:80\"\n[[route]]\nupstream = \"{text}\"\n")).is_ok()
    };
    assert!(upstream("host:80"));
    assert!(upstream(" [::1]:65535 "));
    assert!(upstream("host:+80"));
    assert!(!upstream("host:65536"));
    assert!(!upstream(":80"));
    assert!(!upstream("host:"));
    assert!(!upstream("host:-1"));
}

#[test]
fn errors_are_put_into_words() {
    assert_eq!(
        ConfigError::Invalid("x".to_owned()).message(),
        "invalid configuration: x"
    );
    assert_eq!(ConfigError::Toml("y".to_owned()).message(), "invalid TOML: y");
}
