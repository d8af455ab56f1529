use zaphyl::access::{AccessControl, IpAddress};
use zaphyl::clock::Timestamp;
use zaphyl::config::{
    AccessConfig, CacheConfig, CompressionConfig, Config, Http3Config, LimitsConfig,
    PluginsConfig, RateLimitConfig, RouteConfig, SocketAddress,
};
use zaphyl::consult::{capture, complete};
use zaphyl::filter::{Advance, Event, Filter, FilterLimits, Stage, Step};
use zaphyl::message::{HeaderField, Inbound};
use zaphyl::plugin::{
    plan_chains, run_step, Action, ChainOutcome, PluginChain, Plugins, Request, Response, RunEvent,
    RunStep,
};
use zaphyl::proxy::{
    body_chunk, edit_request, edit_response, fail_to_proxy, log_line, request_host, upstream_peer,
    Client, FailKind, FailSource,
};
use zaphyl::ratelimit::RateLimiter;
use zaphyl::relay::Reply;
use zaphyl::router::Router;
use zaphyl::sample_filter;
use zaphyl::setup::{
    build_access, build_cache, build_router, config_path_from_args, grace_seconds, h3_limits,
    ProxySettings,
};
use zaphyl::static_files::StaticDir;
use zaphyl::store::ResponseCache;
use zaphyl::upstream::{
    fetch_request, fetched, revalidate, Revalidated, RevalidationEvent, RevalidationStep,
};

fn field(name: &str, value: &str) -> HeaderField {
    HeaderField { name: name.to_owned(), value: Some(value.to_owned()) }
}

fn pair(name: &str, value: &str) -> (String, String) {
    (name.to_owned(), value.to_owned())
}

fn route(upstream: &str) -> RouteConfig {
    RouteConfig {
        host: None,
        path: None,
        upstream: vec![upstream.to_owned()],
        root: None,
        tls: false,
        strip_prefix: false,
        request_headers: vec![],
        response_headers: vec![],
        grpc: false,
        plugins: vec![],
    }
}

fn config(routes: Vec<RouteConfig>) -> Config {
    Config {
        listen: SocketAddress { ip: IpAddress::V4(0), port: 80 },
        worker_threads: None,
        shutdown_grace_seconds: None,
        tls: None,
        acme: None,
        metrics: None,
        rate_limit: None,
        health_check: None,
        limits: None,
        access: None,
        compression: None,
        cache: None,
        plugins: None,
        http3: None,
        http: None,
        response_headers: vec![],
        routes,
    }
}

fn client() -> Option<Client> {
    Some(Client { ip: IpAddress::V4(0x7f00_0001), text: "127.0.0.1".to_owned() })
}

fn inbound(method: &str, target: &str, headers: Vec<HeaderField>) -> Inbound {
    let (path, query) = match target.split_once('?') {
        Some((p, q)) => (p, Some(q.to_owned())),
        None => (target, None),
    };
    let mut all = vec![field("host", "localhost:8080")];
    all.extend(headers);
    Inbound {
        method: method.to_owned(),
        path: path.to_owned(),
        query,
        target: Some(target.to_owned()),
        headers: all,
    }
}

fn get(target: &str, headers: Vec<HeaderField>) -> Filter {
    Filter { request: inbound("GET", target, headers), client: client() }
}

struct Proxy {
    access: AccessControl,
    limiter: Option<RateLimiter>,
    router: Router,
    cache: Option<ResponseCache>,
    plugins: Option<Plugins<&'static str>>,
    limits: FilterLimits,
    /// Milliseconds since the epoch.
    now: u64,
}

impl Proxy {
    fn with(config: &Config) -> Proxy {
        let settings = ProxySettings::new(config, false);
        Proxy {
            access: build_access(config).unwrap(),
            limiter: settings.rate_limiter,
            router: build_router(config),
            cache: build_cache(config),
            plugins: None,
            limits: FilterLimits { max_body_bytes: settings.max_body_bytes },
            now: 1_000_000,
        }
    }

    fn time(&self) -> Timestamp {
        Timestamp { nanos: self.now as i128 * 1_000_000 }
    }

    fn step(&mut self, filter: &Filter, stage: Stage, event: Event) -> Advance {
        filter.step(
            stage,
            event,
            &self.access,
            &mut self.limiter,
            &mut self.router,
            &mut self.cache,
            self.plugins.as_ref(),
            &self.limits,
            Timestamp { nanos: self.now as i128 * 1_000_000 },
            self.now,
        )
    }

    fn arrive(&mut self, filter: &Filter) -> Step {
        self.step(filter, Stage::Arrived, Event::Arrival).step
    }

    fn refused(&mut self, filter: &Filter) -> u16 {
        match self.arrive(filter) {
            Step::Refuse(status) => status,
            other => panic!("expected a refusal, got {other:?}"),
        }
    }

    fn answered(&mut self, filter: &Filter) -> Reply {
        match self.arrive(filter) {
            Step::Answer(Some(reply)) => reply,
            other => panic!("expected an answer, got {other:?}"),
        }
    }

    /// The key under which the response may be stored.
    fn goes_on(&mut self, filter: &Filter) -> Option<String> {
        match self.arrive(filter) {
            Step::GoOn { key, ahead } => {
                assert!(ahead.is_empty());
                key
            }
            other => panic!("expected the request to go on, got {other:?}"),
        }
    }

    /// Sends a request upstream and stores what comes back, if it may.
    fn proxied(&mut self, filter: &Filter, headers: Vec<HeaderField>, body: &str) {
        let key = self.goes_on(filter);
        let pending = capture(key, 200, &headers);
        let now = self.time();
        complete(&mut self.cache, pending, body.as_bytes().to_vec(), false, now);
    }
}

fn header(reply: &Reply, name: &str) -> Option<String> {
    reply
        .head
        .headers
        .iter()
        .find(|(n, _)| n.eq_ignore_ascii_case(name))
        .map(|(_, v)| v.clone())
}

fn cached() -> Config {
    let mut config = config(vec![route("127.0.0.1:3000")]);
    config.cache =
        Some(CacheConfig { max_entries: 1024, max_body_bytes: 1024 * 1024, disk_path: None });
    config
}

#[test]
fn forwards_request_to_upstream() {
    let mut proxy = Proxy::with(&config(vec![route("127.0.0.1:3000")]));
    assert_eq!(proxy.goes_on(&get("/", vec![])), None);
    let peer = upstream_peer(&inbound("GET", "/", vec![]), &mut proxy.router).unwrap();
    assert_eq!(peer.target.address, "127.0.0.1:3000");
    assert_eq!(peer.target.sni, "127.0.0.1");
    assert_eq!(peer.rewrite_path, None);
}

#[test]
fn strips_path_prefix_before_forwarding() {
    let mut api = route("127.0.0.1:3000");
    api.path = Some("/api".to_owned());
    api.strip_prefix = true;
    let mut proxy = Proxy::with(&config(vec![api]));
    let request = inbound("GET", "/api/users?x=1", vec![]);
    let peer = upstream_peer(&request, &mut proxy.router).unwrap();
    assert_eq!(peer.rewrite_path.as_deref(), Some("/users"));
    let edits = edit_request(
        peer.rewrite_path.as_deref(),
        request.query.as_deref(),
        &peer.request_headers,
        &client(),
        true,
    );
    assert_eq!(edits.target.as_deref(), Some("/users?x=1"));
}

#[test]
fn caches_cacheable_responses() {
    let mut proxy = Proxy::with(&cached());
    let request = get("/thing", vec![]);
    proxy.proxied(&request, vec![field("cache-control", "max-age=60")], "response 1");
    // The second request is served from cache: same body, X-Cache: HIT.
    let reply = proxy.answered(&request);
    assert_eq!(reply.body.as_deref(), Some(&b"response 1"[..]));
    assert_eq!(header(&reply, "x-cache").as_deref(), Some("HIT"));
}

#[test]
fn does_not_cache_no_store_responses() {
    let mut proxy = Proxy::with(&cached());
    let request = get("/x", vec![]);
    proxy.proxied(&request, vec![field("cache-control", "no-store")], "response 1");
    // Not cacheable: the second request reaches the upstream again.
    proxy.proxied(&request, vec![field("cache-control", "no-store")], "response 2");
}

#[test]
fn returns_304_for_matching_if_none_match() {
    let mut proxy = Proxy::with(&cached());
    let upstream = vec![field("cache-control", "max-age=60"), field("etag", "\"v1\"")];
    // Populate the cache.
    proxy.proxied(&get("/r", vec![]), upstream, "the body");
    // A matching If-None-Match gets a bodyless 304.
    let reply = proxy.answered(&get("/r", vec![field("if-none-match", "\"v1\"")]));
    assert_eq!(reply.head.status, 304);
    assert_eq!(reply.body, None);
    let reply = proxy.answered(&get("/r", vec![field("if-none-match", "\"v2\"")]));
    assert_eq!(reply.head.status, 200);
    assert_eq!(reply.body.as_deref(), Some(&b"the body"[..]));
}

#[test]
fn revalidates_stale_entry_with_origin() {
    let mut proxy = Proxy::with(&cached());
    let request = get("/r", vec![]);
    let upstream = vec![field("cache-control", "max-age=1"), field("etag", "\"v1\"")];
    // Populate the cache (fresh for 1 second).
    proxy.proxied(&request, upstream, "response 1");
    // Let it go stale, then request again: the origin confirms the entry, so
    // the cached body is served.
    proxy.now += 1500;
    let advance = proxy.step(&request, Stage::Arrived, Event::Arrival);
    match advance.step {
        Step::AskOrigin(outbound) => {
            assert_eq!(outbound.uri, "http://127.0.0.1:3000/r");
            assert!(outbound.headers.contains(&pair("if-none-match", "\"v1\"")));
        }
        other => panic!("expected the origin to be asked, got {other:?}"),
    }
    let event = Event::OriginAsked(Revalidated::NotModified);
    match proxy.step(&request, advance.stage, event).step {
        Step::Answer(Some(reply)) => {
            assert_eq!(reply.body.as_deref(), Some(&b"response 1"[..]));
        }
        other => panic!("expected an answer, got {other:?}"),
    }
    assert_eq!(proxy.answered(&request).body.as_deref(), Some(&b"response 1"[..]));
}

#[test]
fn does_not_cache_unsupported_vary() {
    let mut proxy = Proxy::with(&cached());
    let request = get("/v", vec![]);
    let upstream =
        || vec![field("cache-control", "max-age=60"), field("vary", "Accept-Language")];
    proxy.proxied(&request, upstream(), "response 1");
    proxy.proxied(&request, upstream(), "response 2");
}

#[test]
fn cache_persists_to_disk_across_restart() {
    let mut config = cached();
    config.cache.as_mut().unwrap().disk_path = Some("/cache".to_owned());
    let mut proxy = Proxy::with(&config);
    let request = get("/d", vec![]);
    let advance = proxy.step(&request, Stage::Arrived, Event::Arrival);
    assert!(matches!(advance.step, Step::ReadCacheFile(_)));
    let key = match proxy.step(&request, advance.stage, Event::CacheFileRead(None)).step {
        Step::GoOn { key, .. } => key,
        other => panic!("expected the request to go on, got {other:?}"),
    };
    let pending = capture(key, 200, &vec![field("cache-control", "max-age=60")]);
    let now = proxy.time();
    let write = complete(&mut proxy.cache, pending, b"response 1".to_vec(), false, now).unwrap();
    // Another process starts with an empty memory and finds the file.
    let mut proxy = Proxy::with(&config);
    let advance = proxy.step(&request, Stage::Arrived, Event::Arrival);
    match &advance.step {
        Step::ReadCacheFile(path) => assert_eq!(*path, write.path),
        other => panic!("expected the cache file to be read, got {other:?}"),
    }
    let event = Event::CacheFileRead(Some(write.bytes));
    match proxy.step(&request, advance.stage, event).step {
        Step::Answer(Some(reply)) => assert_eq!(reply.body.as_deref(), Some(&b"response 1"[..])),
        other => panic!("expected an answer, got {other:?}"),
    }
}

/// The files below a document root.
const WWW: [(&str, &str); 2] =
    [("/srv/www/index.html", "<h1>home</h1>"), ("/srv/www/app.css", "body{color:red}")];

/// Reads a file below the document root as the file system would.
fn read_www(dir: &StaticDir, relative: &str) -> Option<(String, Vec<u8>)> {
    let candidate = dir.candidate(relative)?;
    let served = StaticDir::served_path(&candidate, candidate == "/srv/www");
    let found = WWW.iter().find(|(path, _)| *path == served);
    let actual = found.map(|(path, _)| path.to_string());
    let root = Some(dir.root().to_owned());
    let path = dir.resolve(relative, actual, root, found.is_some())?;
    found.map(|(_, body)| (path, body.as_bytes().to_vec()))
}

#[test]
fn serves_static_files() {
    let mut site = route("");
    site.upstream = vec![];
    site.path = Some("/".to_owned());
    site.root = Some("/srv/www".to_owned());
    let mut proxy = Proxy::with(&config(vec![site]));
    let mut ask = |path: &str| {
        let request = get(path, vec![]);
        let advance = proxy.step(&request, Stage::Arrived, Event::Arrival);
        let file = match &advance.step {
            Step::ReadFile { dir, relative } => read_www(dir, relative),
            other => panic!("expected a file to be read, got {other:?}"),
        };
        proxy.step(&request, advance.stage, Event::FileRead(file)).step
    };

    // `/` serves index.html.
    match ask("/") {
        Step::Answer(Some(reply)) => {
            assert_eq!(reply.head.status, 200);
            assert_eq!(reply.body.as_deref(), Some(&b"<h1>home</h1>"[..]));
        }
        other => panic!("expected an answer, got {other:?}"),
    }

    // A CSS file is served with the right Content-Type.
    match ask("/app.css") {
        Step::Answer(Some(reply)) => {
            assert_eq!(header(&reply, "content-type").as_deref(), Some("text/css"));
            assert_eq!(reply.body.as_deref(), Some(&b"body{color:red}"[..]));
        }
        other => panic!("expected an answer, got {other:?}"),
    }

    // Missing file and path traversal both 404.
    assert!(matches!(ask("/nope.txt"), Step::Refuse(404)));
    assert!(matches!(ask("/../proxy.rs"), Step::Refuse(404)));
}

#[test]
fn routes_by_host() {
    let mut api = route("127.0.0.1:3001");
    api.host = Some("api.local".to_owned());
    let mut web = route("127.0.0.1:3002");
    web.host = Some("web.local".to_owned());
    let mut router = build_router(&config(vec![api, web]));
    let mut at = |host: &str| {
        let mut request = inbound("GET", "/", vec![]);
        request.headers = vec![field("host", host)];
        upstream_peer(&request, &mut router).map(|peer| peer.target.address)
    };
    assert_eq!(at("api.local").as_deref(), Some("127.0.0.1:3001"));
    assert_eq!(at("web.local").as_deref(), Some("127.0.0.1:3002"));
    assert_eq!(at("web.local:8080").as_deref(), Some("127.0.0.1:3002"));
    assert_eq!(at("other.local"), None);
}

#[test]
fn logs_requests_to_stdout() {
    let line = log_line(&inbound("GET", "/hello", vec![]), 200, 12);
    assert!(line.contains("status=200"));
    assert!(line.contains("path=/hello"));
    assert_eq!(line, "method=GET host=localhost:8080 path=/hello status=200 dur_ms=12");
    let mut bare = inbound("GET", "/", vec![]);
    bare.headers = vec![];
    assert_eq!(log_line(&bare, 0, 0), "method=GET host=- path=/ status=0 dur_ms=0");
}

#[test]
fn rate_limits_bursts_with_429() {
    let mut config = config(vec![route("127.0.0.1:3000")]);
    config.rate_limit = Some(RateLimitConfig { requests_per_second: 3 });
    let mut proxy = Proxy::with(&config);
    let request = get("/", vec![]);
    // Eight quick requests from the same client; with a limit of 3/s, the rest
    // are rejected with 429.
    let limited =
        (0..8).filter(|_| matches!(proxy.arrive(&request), Step::Refuse(429))).count();
    assert_eq!(limited, 5);
    proxy.now += 1000;
    proxy.goes_on(&request);
}

#[test]
fn denies_blocked_ip_with_403() {
    let mut config = config(vec![route("127.0.0.1:3000")]);
    config.access = Some(AccessConfig { allow: vec![], deny: vec!["127.0.0.1".to_owned()] });
    let mut proxy = Proxy::with(&config);
    assert_eq!(proxy.refused(&get("/", vec![])), 403);
}

#[test]
fn allow_list_blocks_unlisted_ip() {
    let mut config = config(vec![route("127.0.0.1:3000")]);
    // 127.0.0.1 is on the allow list -> served.
    config.access = Some(AccessConfig { allow: vec!["127.0.0.1".to_owned()], deny: vec![] });
    Proxy::with(&config).goes_on(&get("/", vec![]));
    // A different allow list excludes 127.0.0.1 -> 403.
    config.access = Some(AccessConfig { allow: vec!["10.0.0.0/8".to_owned()], deny: vec![] });
    assert_eq!(Proxy::with(&config).refused(&get("/", vec![])), 403);
    config.access = Some(AccessConfig { allow: vec!["junk".to_owned()], deny: vec![] });
    assert!(matches!(build_access(&config), Err(bad) if bad == "junk"));
}

#[test]
fn rejects_oversized_body_with_413() {
    let mut config = config(vec![route("127.0.0.1:3000")]);
    config.limits = Some(LimitsConfig {
        max_request_body_bytes: Some(10),
        max_request_header_bytes: None,
        upstream_connect_timeout_seconds: None,
        upstream_read_timeout_seconds: None,
    });
    let mut proxy = Proxy::with(&config);
    let post = |body: &str| Filter {
        request: inbound("POST", "/", vec![field("content-length", &body.len().to_string())]),
        client: client(),
    };
    // A 100-byte body exceeds the 10-byte limit.
    assert_eq!(proxy.refused(&post(&"x".repeat(100))), 413);
    // A small body is forwarded normally.
    proxy.goes_on(&post("tiny"));
    assert_eq!(proxy.refused(&post(&"x".repeat(11))), 413);
    proxy.goes_on(&post(&"x".repeat(10)));
}

#[test]
fn upstream_read_timeout_returns_504() {
    assert_eq!(fail_to_proxy(FailKind::TimedOut, FailSource::Upstream), 504);
    assert_eq!(fail_to_proxy(FailKind::Status(418), FailSource::Internal), 418);
    assert_eq!(fail_to_proxy(FailKind::Disconnected, FailSource::Upstream), 502);
    assert_eq!(fail_to_proxy(FailKind::Other, FailSource::Upstream), 502);
    assert_eq!(fail_to_proxy(FailKind::Disconnected, FailSource::Downstream), 0);
    assert_eq!(fail_to_proxy(FailKind::Other, FailSource::Downstream), 400);
    assert_eq!(fail_to_proxy(FailKind::Other, FailSource::Internal), 500);
}

#[test]
fn load_balances_round_robin() {
    let mut both = route("127.0.0.1:3001");
    both.upstream.push("127.0.0.1:3002".to_owned());
    let mut router = build_router(&config(vec![both]));
    let seen: Vec<String> = (0..6)
        .map(|_| upstream_peer(&inbound("GET", "/", vec![]), &mut router).unwrap().target.address)
        .collect();
    let (a, b) = ("127.0.0.1:3001", "127.0.0.1:3002");
    assert_eq!(seen, [a, b, a, b, a, b]);
}

#[test]
fn health_check_skips_dead_upstream() {
    let mut both = route("127.0.0.1:3001");
    both.upstream.push("127.0.0.1:3002".to_owned());
    let mut router = build_router(&config(vec![both]));
    for (address, handle) in router.health_probes() {
        router.set_health(&handle, address == "127.0.0.1:3002");
    }
    for _ in 0..4 {
        let peer = upstream_peer(&inbound("GET", "/", vec![]), &mut router).unwrap();
        assert_eq!(peer.target.address, "127.0.0.1:3002");
    }
}

#[test]
fn adds_configured_response_headers() {
    let set = edit_response(&vec![pair("X-Zaphyl", "yes")], &vec![], &None);
    assert_eq!(set, [pair("X-Zaphyl", "yes")]);
}

#[test]
fn injects_per_route_headers() {
    let mut injected = route("127.0.0.1:3000");
    injected.request_headers = vec![pair("X-Api-Key", "secret")];
    injected.response_headers = vec![pair("X-Served-By", "zaphyl")];
    let mut router = build_router(&config(vec![injected]));
    let peer = upstream_peer(&inbound("GET", "/", vec![]), &mut router).unwrap();
    let edits = edit_request(None, None, &peer.request_headers, &None, false);
    assert_eq!(edits.set, [pair("X-Api-Key", "secret")]);
    assert_eq!(edits.target, None);
    // What is set last stays, so a route overrides what holds for all.
    let set = edit_response(&vec![pair("X-Served-By", "all")], &peer.response_headers, &None);
    assert_eq!(set, [pair("X-Served-By", "all"), pair("X-Served-By", "zaphyl")]);
}

#[test]
fn forwards_client_info_to_upstream() {
    let edits = edit_request(None, None, &vec![], &client(), false);
    assert_eq!(edits.forwarded_for.as_deref(), Some("127.0.0.1"));
    assert_eq!(edits.forwarded_proto, "http");
    let edits = edit_request(None, None, &vec![], &None, true);
    assert_eq!(edits.forwarded_for, None);
    assert_eq!(edits.forwarded_proto, "https");
}

#[test]
fn advertises_alt_svc_when_http3_enabled() {
    let mut config = config(vec![route("127.0.0.1:3000")]);
    assert_eq!(ProxySettings::new(&config, true).alt_svc, None);
    config.http3 =
        Some(Http3Config { listen: SocketAddress { ip: IpAddress::V4(0), port: 443 } });
    let settings = ProxySettings::new(&config, true);
    assert_eq!(settings.alt_svc.as_deref(), Some("h3=\":443\"; ma=86400"));
    let set = edit_response(&vec![], &vec![], &settings.alt_svc);
    assert_eq!(set, [pair("alt-svc", "h3=\":443\"; ma=86400")]);
}

#[test]
fn settings_come_from_their_sections() {
    let mut config = cached();
    config.limits = Some(LimitsConfig {
        max_request_body_bytes: Some(1),
        max_request_header_bytes: Some(2),
        upstream_connect_timeout_seconds: Some(3),
        upstream_read_timeout_seconds: Some(4),
    });
    config.compression = Some(CompressionConfig { level: 5 });
    let settings = ProxySettings::new(&config, true);
    assert!(settings.tls_enabled);
    assert_eq!(settings.max_body_bytes, Some(1));
    assert_eq!(settings.connect_timeout, Some(3));
    assert_eq!(settings.read_timeout, Some(4));
    assert_eq!(settings.compression_level, Some(5));
    assert_eq!(settings.cache_max_body, 1024 * 1024);
    let limits = h3_limits(&config);
    assert_eq!(limits.max_body_bytes, Some(1));
    assert_eq!(limits.header_limit(), 2);
    assert_eq!(limits.compression_level, Some(5));
    assert_eq!(zaphyl::http3::Limits::default().header_limit(), 65_536);
    assert_eq!(grace_seconds(&config), 5);
    config.shutdown_grace_seconds = Some(9);
    assert_eq!(grace_seconds(&config), 9);
}

#[test]
fn the_configuration_path_follows_its_flag() {
    let args = |list: &[&str]| list.iter().map(|a| a.to_string()).collect::<Vec<String>>();
    let found = |list: &[&str]| config_path_from_args(&args(list));
    assert_eq!(found(&["--config", "a.toml"]).as_deref(), Some("a.toml"));
    assert_eq!(found(&["run", "-c", "b.toml", "-c", "c"]).as_deref(), Some("b.toml"));
    assert_eq!(found(&["run", "--config"]), None);
    assert_eq!(found(&["run", "a.toml"]), None);
    assert_eq!(found(&[]), None);
}

#[test]
fn plugin_chain_blocks_and_stamps() {
    let mut plugged = route("127.0.0.1:3000");
    plugged.path = Some("/".to_owned());
    plugged.plugins = vec!["filter.wasm".to_owned()];
    let config = config(vec![plugged]);
    let mut proxy = Proxy::with(&config);
    proxy.plugins = Some(Plugins::build(&config, vec![PluginChain::new(vec!["filter"])]));
    // Runs the chain on a request, with an upstream that answers the rest.
    let mut ask = |path: &str| {
        let request = get(path, vec![]);
        let advance = proxy.step(&request, Stage::Arrived, Event::Arrival);
        assert!(matches!(advance.step, Step::ReadBody));
        let advance = proxy.step(&request, advance.stage, Event::BodyEnded);
        let (route_id, plugin, host) = match advance.step {
            Step::RunPlugins { route_id, request, host, .. } => (route_id, request, host),
            other => panic!("expected the plugins to run, got {other:?}"),
        };
        assert_eq!(plugin.path, path);
        assert_eq!(plugin.client_ip, "127.0.0.1");
        assert_eq!(host, "localhost:8080");
        let chain = proxy.plugins.as_ref().unwrap().chain(route_id).unwrap();
        let outcome = chain.handle_request(plugin, on_request).unwrap();
        let mut event = RunEvent::RequestRan(Some(outcome));
        let response = loop {
            event = match run_step(event) {
                RunStep::Fetch(_) => {
                    let body = b"hello from upstream".to_vec();
                    let fetched = Response { status: 200, headers: vec![], body };
                    RunEvent::Fetched(Some(fetched))
                }
                RunStep::RunResponse(response) => RunEvent::ResponseRan(Some(
                    chain.handle_response(response, on_response).unwrap(),
                )),
                RunStep::Done(response) => break response,
            };
        };
        match proxy.step(&request, advance.stage, Event::PluginsRan(response)).step {
            Step::Answer(Some(reply)) => reply,
            other => panic!("expected an answer, got {other:?}"),
        }
    };

    // The plugin short-circuits `/blocked` with a 403 (no upstream hit).
    let blocked = ask("/blocked");
    assert_eq!(blocked.head.status, 403);
    assert_eq!(blocked.body.as_deref(), Some(&b"blocked by plugin"[..]));

    // Other paths reach the upstream and come back stamped by the plugin.
    let allowed = ask("/allowed");
    assert_eq!(allowed.head.status, 200);
    assert_eq!(header(&allowed, "x-plugin").as_deref(), Some("ran"));
    assert_eq!(allowed.body.as_deref(), Some(&b"hello from upstream"[..]));
    assert_eq!(header(&allowed, "content-length").as_deref(), Some("19"));
}

#[test]
fn plugin_routes_refuse_what_goes_wrong() {
    let mut config = config(vec![route("127.0.0.1:3000")]);
    config.plugins = Some(PluginsConfig { global: vec![], max_body_bytes: 4 });
    let mut proxy = Proxy::with(&config);
    proxy.plugins = Some(Plugins::build(&config, vec![PluginChain::new(vec!["filter"])]));
    let request = get("/blocked", vec![]);
    let advance = proxy.step(&request, Stage::Arrived, Event::Arrival);
    let large = proxy.step(&request, advance.stage, Event::BodyChunk(vec![7; 5]));
    match large.step {
        Step::GoOn { key, ahead } => {
            assert_eq!(key, None);
            assert_eq!(ahead, [7; 5]);
        }
        other => panic!("expected the request to skip the plugins, got {other:?}"),
    }
    proxy.limits.max_body_bytes = Some(4);
    let advance = proxy.step(&request, Stage::Arrived, Event::Arrival);
    let larger = proxy.step(&request, advance.stage, Event::BodyChunk(vec![7; 5]));
    assert!(matches!(larger.step, Step::Refuse(413)));
    proxy.limits.max_body_bytes = None;
    let advance = proxy.step(&request, Stage::Arrived, Event::Arrival);
    let advance = proxy.step(&request, advance.stage, Event::BodyEnded);
    let failed = proxy.step(&request, advance.stage, Event::PluginsRan(None));
    assert!(matches!(failed.step, Step::Refuse(502)));
    // A status that cannot be sent has no reply.
    let advance = proxy.step(&request, Stage::Arrived, Event::Arrival);
    let advance = proxy.step(&request, advance.stage, Event::BodyEnded);
    let odd = Response { status: 1000, headers: vec![], body: vec![] };
    let odd = proxy.step(&request, advance.stage, Event::PluginsRan(Some(odd)));
    assert!(matches!(odd.step, Step::Answer(None)));
}

fn request(path: &str) -> Request {
    Request {
        method: "GET".to_owned(),
        path: path.to_owned(),
        headers: vec![],
        body: vec![],
        client_ip: "127.0.0.1".to_owned(),
    }
}

/// The sample plugin; a request that would never end is interrupted.
fn on_request(_plugin: &&str, request: Request) -> Result<Action, String> {
    if request.path == "/loop" {
        Err("interrupted".to_owned())
    } else {
        Ok(sample_filter::handle_request(request))
    }
}

fn on_response(_plugin: &&str, response: Response) -> Result<Response, String> {
    Ok(sample_filter::handle_response(response))
}

#[test]
fn plugin_short_circuits_blocked_path() {
    match on_request(&"filter", request("/blocked")).unwrap() {
        Action::Respond(response) => {
            assert_eq!(response.status, 403);
            assert_eq!(response.headers, [pair("content-type", "text/plain")]);
            assert_eq!(response.body, b"blocked by plugin");
        }
        other => panic!("expected a respond action, got {other:?}"),
    }
}

#[test]
fn plugin_continues_other_paths() {
    match on_request(&"filter", request("/ok")).unwrap() {
        Action::Continue(request) => assert_eq!(request.path, "/ok"),
        other => panic!("expected a continue action, got {other:?}"),
    }
}

#[test]
fn plugin_tags_the_response() {
    let response = on_response(
        &"filter",
        Response { status: 200, headers: vec![], body: vec![] },
    )
    .unwrap();
    assert!(response
        .headers
        .iter()
        .any(|(name, value)| name == "x-plugin" && value == "ran"));
}

#[test]
fn chain_short_circuits_and_runs_response_in_reverse() {
    // Two copies of the same plugin.
    let chain = PluginChain::new(vec!["a", "b"]);
    assert!(!chain.is_empty());

    // A blocked path short-circuits at the first plugin.
    assert!(matches!(
        chain.handle_request(request("/blocked"), on_request).unwrap(),
        ChainOutcome::Respond(_)
    ));
    // An allowed path passes through both.
    assert!(matches!(
        chain.handle_request(request("/ok"), on_request).unwrap(),
        ChainOutcome::Continue(_)
    ));
    // Both response hooks run, so the tag is added twice.
    let response = Response { status: 200, headers: vec![], body: vec![] };
    let response = chain.handle_response(response, on_response).unwrap();
    let tags = response
        .headers
        .iter()
        .filter(|(name, value)| name == "x-plugin" && value == "ran")
        .count();
    assert_eq!(tags, 2);
    // An error ends the chain.
    assert!(matches!(
        chain.handle_request(request("/loop"), on_request),
        Err(e) if e == "interrupted"
    ));
}

#[test]
fn requests_pass_the_plugins_in_order_and_responses_in_reverse() {
    let chain = PluginChain::new(vec!["a", "b"]);
    let named_request = |name: &&str, mut request: Request| {
        request.headers.push(pair("x-by", name));
        Ok::<Action, String>(Action::Continue(request))
    };
    match chain.handle_request(request("/"), named_request).unwrap() {
        ChainOutcome::Continue(request) => {
            assert_eq!(request.headers, [pair("x-by", "a"), pair("x-by", "b")]);
        }
        other => panic!("expected the request to continue, got {other:?}"),
    }
    let named_response = |name: &&str, mut response: Response| {
        response.headers.push(pair("x-by", name));
        Ok::<Response, String>(response)
    };
    let response = Response { status: 200, headers: vec![], body: vec![] };
    let response = chain.handle_response(response, named_response).unwrap();
    assert_eq!(response.headers, [pair("x-by", "b"), pair("x-by", "a")]);
}

#[test]
fn a_plugins_own_answer_is_final() {
    let response = || Response { status: 403, headers: vec![], body: vec![] };
    let answered = run_step(RunEvent::RequestRan(Some(ChainOutcome::Respond(response()))));
    assert!(matches!(answered, RunStep::Done(Some(r)) if r.status == 403));
    let passed = run_step(RunEvent::RequestRan(Some(ChainOutcome::Continue(request("/p")))));
    assert!(matches!(passed, RunStep::Fetch(r) if r.path == "/p"));
    let fetched = run_step(RunEvent::Fetched(Some(response())));
    assert!(matches!(fetched, RunStep::RunResponse(r) if r.status == 403));
    let done = run_step(RunEvent::ResponseRan(Some(response())));
    assert!(matches!(done, RunStep::Done(Some(r)) if r.status == 403));
    assert!(matches!(run_step(RunEvent::RequestRan(None)), RunStep::Done(None)));
    assert!(matches!(run_step(RunEvent::Fetched(None)), RunStep::Done(None)));
    assert!(matches!(run_step(RunEvent::ResponseRan(None)), RunStep::Done(None)));
}

#[test]
fn global_plugins_come_before_those_of_a_route() {
    let mut own = route("127.0.0.1:3000");
    own.plugins = vec!["own.wasm".to_owned()];
    let mut config = config(vec![own, route("127.0.0.1:3001")]);
    assert_eq!(
        plan_chains(&config),
        Some(vec![vec!["own.wasm".to_owned()], vec![]])
    );
    config.plugins =
        Some(PluginsConfig { global: vec!["all.wasm".to_owned()], max_body_bytes: 7 });
    assert_eq!(
        plan_chains(&config),
        Some(vec![
            vec!["all.wasm".to_owned(), "own.wasm".to_owned()],
            vec!["all.wasm".to_owned()],
        ])
    );
    let chains: Vec<PluginChain<&str>> = vec![PluginChain::new(vec!["x"]), PluginChain::new(vec![])];
    let plugins = Plugins::build(&config, chains);
    assert_eq!(plugins.max_body(), 7);
    assert!(plugins.chain(0).is_some());
    assert!(plugins.chain(1).is_none());
    assert!(plugins.chain(2).is_none());
    config.plugins = None;
    config.routes[0].plugins.clear();
    assert_eq!(plan_chains(&config), None);
}

#[test]
fn revalidation_follows_the_origins_answer() {
    let settled = |event: RevalidationEvent| match revalidate(event, 4) {
        RevalidationStep::Settled(outcome) => outcome,
        RevalidationStep::ReadBody => panic!("expected an outcome"),
    };
    assert!(matches!(settled(RevalidationEvent::NoAnswer), Revalidated::Failed));
    assert!(matches!(settled(RevalidationEvent::Answered(304)), Revalidated::NotModified));
    assert!(matches!(settled(RevalidationEvent::Answered(500)), Revalidated::Failed));
    assert!(matches!(
        revalidate(RevalidationEvent::Answered(200), 4),
        RevalidationStep::ReadBody
    ));
    let headers = || {
        vec![
            field("connection", "close"),
            field("etag", "\"v2\""),
            HeaderField { name: "x-binary".to_owned(), value: None },
        ]
    };
    match settled(RevalidationEvent::BodyRead(headers(), Some(b"1234".to_vec()))) {
        Revalidated::Modified { status, headers, body } => {
            assert_eq!(status, 200);
            assert!(headers.contains(&pair("etag", "\"v2\"")));
            assert_eq!(body, b"1234");
        }
        other => panic!("expected a modified entry, got {other:?}"),
    }
    let large = RevalidationEvent::BodyRead(headers(), Some(b"12345".to_vec()));
    assert!(matches!(settled(large), Revalidated::Failed));
    assert!(matches!(
        settled(RevalidationEvent::BodyRead(headers(), None)),
        Revalidated::Failed
    ));
}

#[test]
fn plugin_requests_are_fetched_from_the_target() {
    let mut router = build_router(&config(vec![route("127.0.0.1:3000")]));
    let target = router.pick(0).unwrap();
    let sent = fetch_request(
        &target,
        "POST",
        "/p?q",
        "example.com",
        &vec![pair("Host", "spoofed"), pair("x-a", "1")],
    );
    assert_eq!(sent.method, "POST");
    assert_eq!(sent.uri, "http://127.0.0.1:3000/p?q");
    assert_eq!(sent.headers, [pair("host", "example.com"), pair("x-a", "1")]);
    let got = fetched(200, &vec![field("x-b", "2")], b"1234".to_vec(), 4).unwrap();
    assert_eq!(got.status, 200);
    assert_eq!(got.headers, [pair("x-b", "2")]);
    assert_eq!(got.body, b"1234");
    assert!(fetched(200, &vec![], b"12345".to_vec(), 4).is_err());
}

#[test]
fn an_undeclared_body_over_the_limit_fails_with_413() {
    let mut seen = 0;
    assert_eq!(body_chunk(&mut seen, 10, Some(10)), None);
    assert_eq!(body_chunk(&mut seen, 1, Some(10)), Some(FailKind::Status(413)));
    assert_eq!(fail_to_proxy(FailKind::Status(413), FailSource::Internal), 413);
    assert_eq!(body_chunk(&mut seen, usize::MAX, None), None);
}

#[test]
fn the_host_of_a_request_comes_without_its_port() {
    let host = |text: &str| request_host(&vec![field("host", text)]);
    assert_eq!(host("example.com:8080").as_deref(), Some("example.com"));
    assert_eq!(host("[::1]:8080").as_deref(), Some("[::1]"));
    assert_eq!(host("[::1]").as_deref(), Some("[::1]"));
    assert_eq!(request_host(&vec![]), None);
}
