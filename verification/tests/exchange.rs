use std::io::Read;
use zaphyl::access::{AccessControl, IpAddress};
use zaphyl::clock::Timestamp;
use zaphyl::encoding::{BodyEncoder, Encoding};
use zaphyl::exchange::{Advance, Caching, Event, Exchange, Stage, Step};
use zaphyl::http3::{Forward, Limits, RelayField};
use zaphyl::message::{HeaderField, Inbound};
use zaphyl::plugin::{PluginChain, Plugins, Response};
use zaphyl::relay::Reply;
use zaphyl::router::{Route, Router, Target};
use zaphyl::static_files::StaticDir;
use zaphyl::store::{DiskWrite, ResponseCache};
use zaphyl::upstream::Revalidated;

const CLIENT: IpAddress = IpAddress::V4(0x7f00_0001);

fn zero(text: &str) -> bool {
    text.parse::<f32>().is_ok_and(|q| q == 0.0)
}

fn field(name: &str, value: &str) -> HeaderField {
    HeaderField { name: name.to_owned(), value: Some(value.to_owned()) }
}

fn pair(name: &str, value: &str) -> (String, String) {
    (name.to_owned(), value.to_owned())
}

/// A request for `target`, a path with an optional query.
fn asking(method: &str, target: &str, headers: Vec<HeaderField>) -> Exchange {
    let (path, query) = match target.split_once('?') {
        Some((p, q)) => (p, Some(q.to_owned())),
        None => (target, None),
    };
    Exchange {
        request: Inbound {
            method: method.to_owned(),
            path: path.to_owned(),
            query,
            target: Some(target.to_owned()),
            headers,
        },
        host: Some("localhost".to_owned()),
        client_ip: CLIENT,
        client_text: "127.0.0.1".to_owned(),
        is_early: false,
    }
}

/// A server that takes an exchange one event at a time.
struct Server {
    access: AccessControl,
    router: Router,
    cache: Option<ResponseCache>,
    plugins: Option<Plugins<&'static str>>,
    caching: Caching,
    limits: Limits,
    /// Milliseconds since the epoch.
    now: u64,
}

impl Server {
    fn with_route(route: Route) -> Server {
        Server {
            access: AccessControl::default(),
            router: Router::new(vec![route]),
            cache: None,
            plugins: None,
            caching: Caching { max_body: 1 << 20, can_revalidate: true },
            limits: Limits::default(),
            now: 1_000_000,
        }
    }

    fn step(&mut self, exchange: &Exchange, stage: Stage, event: Event) -> Advance {
        exchange.step(
            stage,
            event,
            &self.access,
            &mut self.router,
            &mut self.cache,
            self.plugins.as_ref(),
            &self.caching,
            &self.limits,
            Timestamp { nanos: self.now as i128 * 1_000_000 },
            &zero,
        )
    }

    fn arrive(&mut self, exchange: &Exchange) -> Advance {
        self.step(exchange, Stage::Arrived, Event::Arrival)
    }

    /// The reply to a request that is answered on arrival.
    fn answered(&mut self, exchange: &Exchange) -> Reply {
        match self.arrive(exchange).step {
            Step::Answer(reply) => reply,
            other => panic!("expected an answer, got {other:?}"),
        }
    }

    /// The request that is sent upstream on arrival, and the stage it leads to.
    fn forwarded(&mut self, exchange: &Exchange) -> (Stage, Forward) {
        let advance = self.arrive(exchange);
        match advance.step {
            Step::Send { forward, ahead } => {
                assert!(ahead.is_empty());
                (advance.stage, forward)
            }
            other => panic!("expected a forwarded request, got {other:?}"),
        }
    }

    /// Carries a request through an upstream that answers with `body`.
    fn relayed(
        &mut self,
        exchange: &Exchange,
        headers: Vec<HeaderField>,
        body: &str,
    ) -> (Vec<RelayField>, Option<Encoding>, Option<DiskWrite>) {
        let (stage, _) = self.forwarded(exchange);
        let advance = self.step(exchange, stage, Event::UpstreamAnswered(200, headers));
        let (fields, encoding) = match advance.step {
            Step::Relay { status, fields, encoding } => {
                assert_eq!(status, 200);
                (fields, encoding)
            }
            other => panic!("expected a relayed response, got {other:?}"),
        };
        let advance =
            self.step(exchange, advance.stage, Event::ResponseChunk(body.as_bytes().to_vec()));
        match advance.step {
            Step::PassOn(data) => assert_eq!(data, body.as_bytes()),
            other => panic!("expected the chunk to pass on, got {other:?}"),
        }
        let advance = self.step(exchange, advance.stage, Event::ResponseEnded);
        assert!(matches!(advance.step, Step::Finish));
        assert!(matches!(advance.stage, Stage::Done));
        (fields, encoding, advance.write)
    }
}

fn upstream_route() -> Route {
    let target = Target::new("127.0.0.1:3000".to_owned(), false, "127.0.0.1".to_owned());
    Route::new(None, None, vec![target])
}

fn server() -> Server {
    Server::with_route(upstream_route())
}

fn text(fields: &[RelayField], name: &str) -> Option<String> {
    fields.iter().find(|f| f.name == name).and_then(|f| f.text.clone())
}

fn header(reply: &Reply, name: &str) -> Option<String> {
    reply.head.headers.iter().find(|(n, _)| n == name).map(|(_, v)| v.clone())
}

#[test]
fn proxies_over_http3() {
    let (_, forward) = server().forwarded(&asking("GET", "/", vec![]));
    assert_eq!(forward.uri, "http://127.0.0.1:3000/");
    let (stage, forward) =
        server().forwarded(&asking("GET", "/a?b=c", vec![field("host", "x"), field("accept", "*/*")]));
    assert!(matches!(stage, Stage::Sending { .. }));
    assert_eq!(forward.method, "GET");
    assert_eq!(forward.uri, "http://127.0.0.1:3000/a?b=c");
    // Every header but the host goes along.
    assert_eq!(forward.copied, [1]);
    assert!(forward.added.is_empty());
}

#[test]
fn proxies_to_tls_upstream_over_http3() {
    let target = Target::new("localhost:8443".to_owned(), true, "localhost".to_owned());
    let mut server = Server::with_route(Route::new(None, None, vec![target]));
    let (_, forward) = server.forwarded(&asking("GET", "/", vec![]));
    assert_eq!(forward.uri, "https://localhost:8443/");
}

#[test]
fn injects_request_headers_over_http3() {
    let route = upstream_route().with_headers(vec![pair("x-api-key", "secret")], vec![]);
    let (_, forward) = Server::with_route(route).forwarded(&asking("GET", "/", vec![]));
    assert_eq!(forward.added, [pair("x-api-key", "secret")]);
}

#[test]
fn denies_blocked_ip_over_http3() {
    let mut server = server();
    server.access = AccessControl::parse(&[], &["127.0.0.1".to_owned()]).unwrap();
    let reply = server.answered(&asking("GET", "/", vec![]));
    assert_eq!(reply.head.status, 403);
    assert_eq!(reply.body, None);
}

#[test]
fn early_data_is_refused_unless_it_is_safe() {
    let mut early = asking("POST", "/", vec![]);
    early.is_early = true;
    assert_eq!(server().answered(&early).head.status, 425);
    let mut safe = asking("GET", "/", vec![]);
    safe.is_early = true;
    let (_, forward) = server().forwarded(&safe);
    assert_eq!(forward.added, [pair("early-data", "1")]);
}

#[test]
fn rejects_oversized_body_over_http3() {
    let mut server = server();
    server.limits.max_body_bytes = Some(10);
    let big = asking("POST", "/", vec![field("content-length", "100")]);
    assert_eq!(server.answered(&big).head.status, 413);
    let big = asking("POST", "/", vec![field("content-length", "11")]);
    assert_eq!(server.answered(&big).head.status, 413);
    server.forwarded(&asking("POST", "/", vec![field("content-length", "10")]));
}

#[test]
fn an_undeclared_body_over_the_limit_is_refused() {
    let mut server = server();
    server.limits.max_body_bytes = Some(10);
    let request = asking("POST", "/", vec![]);
    let (stage, _) = server.forwarded(&request);
    let advance = server.step(&request, stage, Event::BodyReached(10));
    assert!(matches!(advance.step, Step::Wait));
    assert!(matches!(advance.stage, Stage::Sending { .. }));
    match server.step(&request, advance.stage, Event::BodyReached(11)).step {
        Step::Abort(reply) => assert_eq!(reply.head.status, 413),
        other => panic!("expected the request to be aborted, got {other:?}"),
    }
    // Once the response is under way it can only be broken off.
    let (stage, _) = server.forwarded(&request);
    let advance = server.step(&request, stage, Event::UpstreamAnswered(200, vec![]));
    let advance = server.step(&request, advance.stage, Event::BodyReached(10));
    assert!(matches!(advance.step, Step::Wait));
    let advance = server.step(&request, advance.stage, Event::BodyReached(100));
    assert!(matches!(advance.step, Step::BreakOff));
    assert!(matches!(advance.stage, Stage::Done));
    server.limits.max_body_bytes = None;
    let (stage, _) = server.forwarded(&request);
    let advance = server.step(&request, stage, Event::BodyReached(u64::MAX));
    assert!(matches!(advance.step, Step::Wait));
}

#[test]
fn upstream_read_timeout_over_http3() {
    let mut server = server();
    server.limits.read_timeout = Some(1);
    let request = asking("GET", "/", vec![]);
    let (stage, _) = server.forwarded(&request);
    let advance = server.step(&request, stage, Event::UpstreamTimedOut);
    match advance.step {
        Step::Answer(reply) => assert_eq!(reply.head.status, 504),
        other => panic!("expected an answer, got {other:?}"),
    }
}

#[test]
fn serves_static_files_over_http3() {
    let route = Route::new(None, Some("/".to_owned()), vec![])
        .with_static(StaticDir::new("/srv/www".to_owned()));
    let mut server = Server::with_route(route);
    let request = asking("GET", "/", vec![]);
    let advance = server.arrive(&request);
    let path = match advance.step {
        Step::ReadFile { dir, relative } => {
            let candidate = dir.candidate(&relative).unwrap();
            assert_eq!(candidate, "/srv/www");
            let served = Some(StaticDir::served_path(&candidate, true));
            dir.resolve(&relative, served, Some("/srv/www".to_owned()), true).unwrap()
        }
        other => panic!("expected a file to be read, got {other:?}"),
    };
    assert_eq!(path, "/srv/www/index.html");
    let file = Some((path, b"<h1>h3 home</h1>".to_vec()));
    match server.step(&request, advance.stage, Event::FileRead(file)).step {
        Step::Answer(reply) => {
            assert_eq!(reply.head.status, 200);
            assert_eq!(header(&reply, "content-type").as_deref(), Some("text/html"));
            assert_eq!(reply.body.as_deref(), Some(&b"<h1>h3 home</h1>"[..]));
        }
        other => panic!("expected an answer, got {other:?}"),
    }
    let advance = server.arrive(&request);
    match server.step(&request, advance.stage, Event::FileRead(None)).step {
        Step::Answer(reply) => assert_eq!(reply.head.status, 404),
        other => panic!("expected an answer, got {other:?}"),
    }
}

#[test]
fn static_routes_strip_their_prefix() {
    let route = Route::new(None, Some("/assets".to_owned()), vec![])
        .with_strip_prefix(true)
        .with_static(StaticDir::new("/srv".to_owned()));
    match Server::with_route(route).arrive(&asking("GET", "/assets/a.html", vec![])).step {
        Step::ReadFile { dir, relative } => {
            assert_eq!(dir.root(), "/srv");
            assert_eq!(relative, "/a.html");
        }
        other => panic!("expected a file to be read, got {other:?}"),
    }
}

#[test]
fn unmatched_requests_are_not_found() {
    let mut server = Server::with_route(Route::new(Some("other".to_owned()), None, vec![]));
    assert_eq!(server.answered(&asking("GET", "/", vec![])).head.status, 404);
}

/// Compresses a relayed body as the exchange says.
fn encoded(encoding: Option<Encoding>, level: u32, body: &str) -> Vec<u8> {
    let mut encoder = BodyEncoder::new(encoding.unwrap(), level).unwrap();
    let mut out = encoder.push(body.as_bytes()).unwrap();
    out.extend(encoder.finish().unwrap());
    out
}

#[test]
fn compresses_response_over_http3() {
    let original = "zaphyl ".repeat(500);
    let mut server = server();
    server.limits.compression_level = Some(6);
    let request = asking("GET", "/", vec![field("accept-encoding", "gzip")]);
    let (fields, encoding, _) =
        server.relayed(&request, vec![field("content-length", "3500")], &original);
    assert_eq!(text(&fields, "content-encoding").as_deref(), Some("gzip"));
    assert_eq!(text(&fields, "content-length"), None);
    let body = encoded(encoding, 6, &original);
    assert!(body.len() < original.len(), "compressed body should be smaller");

    let mut decoded = String::new();
    flate2::read::GzDecoder::new(&body[..]).read_to_string(&mut decoded).unwrap();
    assert_eq!(decoded, original);
}

#[test]
fn brotli_compresses_response_over_http3() {
    let original = "zaphyl ".repeat(500);
    let mut server = server();
    server.limits.compression_level = Some(6);
    // The client prefers br; the server should pick it over gzip.
    let request = asking("GET", "/", vec![field("accept-encoding", "gzip, br")]);
    let (fields, encoding, _) = server.relayed(&request, vec![], &original);
    assert_eq!(text(&fields, "content-encoding").as_deref(), Some("br"));
    let body = encoded(encoding, 6, &original);
    assert!(body.len() < original.len(), "brotli body should be smaller");

    let mut decoded = String::new();
    brotli::Decompressor::new(&body[..], 4096).read_to_string(&mut decoded).unwrap();
    assert_eq!(decoded, original);
    // A response that is encoded already is left as it is.
    let upstream = vec![field("content-encoding", "gzip")];
    let (fields, encoding, _) = server.relayed(&request, upstream, "hello");
    assert_eq!(encoding, None);
    assert_eq!(text(&fields, "content-encoding").as_deref(), Some("gzip"));
}

#[test]
fn relays_without_hop_by_hop_headers() {
    let route = upstream_route().with_headers(vec![], vec![pair("X-Served-By", "zaphyl")]);
    let upstream = vec![
        field("connection", "close"),
        field("transfer-encoding", "chunked"),
        field("upgrade", "h2c"),
        field("x-kept", "1"),
        field("x-served-by", "origin"),
    ];
    let (fields, encoding, _) =
        Server::with_route(route).relayed(&asking("GET", "/", vec![]), upstream, "x");
    assert_eq!(encoding, None);
    let names: Vec<&str> = fields.iter().map(|f| f.name.as_str()).collect();
    assert_eq!(names, ["x-kept", "x-served-by"]);
    assert_eq!(text(&fields, "x-served-by").as_deref(), Some("zaphyl"));
}

fn cacheable() -> Vec<HeaderField> {
    vec![field("cache-control", "max-age=60"), field("etag", "\"v1\"")]
}

#[test]
fn caches_responses_over_http3() {
    let mut server = server();
    server.cache = Some(ResponseCache::new(16));
    server.caching.can_revalidate = false;
    let request = asking("GET", "/", vec![]);
    let upstream = vec![field("cache-control", "max-age=60")];
    let (_, _, write) = server.relayed(&request, upstream, "response 1");
    assert!(write.is_none());
    // The second request is served from cache, not the upstream.
    let reply = server.answered(&request);
    assert_eq!(reply.head.status, 200);
    assert_eq!(reply.body.as_deref(), Some(&b"response 1"[..]));
    assert_eq!(header(&reply, "x-cache").as_deref(), Some("HIT"));
    assert_eq!(header(&reply, "content-length").as_deref(), Some("10"));
}

#[test]
fn a_client_that_has_the_entry_gets_a_bare_304() {
    let mut server = server();
    server.cache = Some(ResponseCache::new(16));
    server.relayed(&asking("GET", "/", vec![]), cacheable(), "response 1");
    let reply = server.answered(&asking("GET", "/", vec![field("if-none-match", "\"v1\"")]));
    assert_eq!(reply.head.status, 304);
    assert_eq!(reply.body, None);
    assert_eq!(header(&reply, "etag").as_deref(), Some("\"v1\""));
    // A request that carries credentials goes upstream.
    server.forwarded(&asking("GET", "/", vec![field("authorization", "x")]));
}

#[test]
fn bodies_over_the_cap_are_not_cached() {
    let mut server = server();
    server.cache = Some(ResponseCache::new(16));
    server.caching.max_body = 4;
    let request = asking("GET", "/", vec![]);
    server.relayed(&request, cacheable(), "12345");
    server.forwarded(&request);
    server.relayed(&request, cacheable(), "1234");
    assert_eq!(server.answered(&request).body.as_deref(), Some(&b"1234"[..]));
}

#[test]
fn a_disk_cache_is_read_before_the_upstream_is_asked() {
    let mut server = server();
    server.cache = Some(ResponseCache::with_disk(10, "/cache".to_owned()));
    let request = asking("GET", "/", vec![]);
    let advance = server.arrive(&request);
    let path = match advance.step {
        Step::ReadCacheFile(path) => path,
        other => panic!("expected the cache file to be read, got {other:?}"),
    };
    let advance = server.step(&request, advance.stage, Event::CacheFileRead(None));
    assert!(matches!(advance.step, Step::Send { .. }));
    let advance = server.step(&request, advance.stage, Event::UpstreamAnswered(200, cacheable()));
    let advance = server.step(&request, advance.stage, Event::ResponseChunk(b"disk".to_vec()));
    let advance = server.step(&request, advance.stage, Event::ResponseEnded);
    let write = advance.write.expect("the entry goes to disk");
    assert_eq!(write.path, path);
    // After a restart the file alone serves the request.
    server.cache = Some(ResponseCache::with_disk(10, "/cache".to_owned()));
    let advance = server.arrive(&request);
    let event = Event::CacheFileRead(Some(write.bytes));
    match server.step(&request, advance.stage, event).step {
        Step::Answer(reply) => assert_eq!(reply.body.as_deref(), Some(&b"disk"[..])),
        other => panic!("expected an answer, got {other:?}"),
    }
}

#[test]
fn revalidates_stale_entry_over_http3() {
    let mut server = server();
    server.cache = Some(ResponseCache::new(16));
    let request = asking("GET", "/", vec![]);
    let upstream = vec![field("cache-control", "max-age=1"), field("etag", "\"v1\"")];
    server.relayed(&request, upstream, "response 1");
    // Let it go stale, then revalidate: the origin 304s, so the cached body is
    // served rather than a fresh "response 2".
    server.now += 1500;
    let advance = server.arrive(&request);
    match &advance.step {
        Step::AskOrigin(outbound) => {
            assert!(outbound.headers.contains(&pair("if-none-match", "\"v1\"")));
        }
        other => panic!("expected the origin to be asked, got {other:?}"),
    }
    let event = Event::OriginAsked(Revalidated::NotModified);
    match server.step(&request, advance.stage, event).step {
        Step::Answer(reply) => assert_eq!(reply.body.as_deref(), Some(&b"response 1"[..])),
        other => panic!("expected an answer, got {other:?}"),
    }
}

#[test]
fn the_origin_decides_on_a_stale_entry() {
    let mut server = server();
    server.cache = Some(ResponseCache::new(16));
    let request = asking("GET", "/p?q=1", vec![]);
    server.relayed(&request, cacheable(), "response 1");
    server.now += 61_000;
    let stale = |server: &mut Server| {
        let advance = server.arrive(&request);
        match advance.step {
            Step::AskOrigin(outbound) => (advance.stage, outbound),
            other => panic!("expected the origin to be asked, got {other:?}"),
        }
    };
    let (stage, outbound) = stale(&mut server);
    assert_eq!(outbound.method, "GET");
    assert_eq!(outbound.uri, "http://127.0.0.1:3000/p?q=1");
    assert!(outbound.headers.contains(&pair("if-none-match", "\"v1\"")));
    assert!(outbound.headers.contains(&pair("host", "localhost")));
    let advance = server.step(&request, stage, Event::OriginAsked(Revalidated::Failed));
    assert!(matches!(advance.step, Step::Send { .. }));
    let (stage, _) = stale(&mut server);
    match server.step(&request, stage, Event::OriginAsked(Revalidated::NotModified)).step {
        Step::Answer(reply) => assert_eq!(reply.body.as_deref(), Some(&b"response 1"[..])),
        other => panic!("expected an answer, got {other:?}"),
    }
    // The entry is fresh again.
    assert_eq!(server.answered(&request).body.as_deref(), Some(&b"response 1"[..]));
    server.now += 61_000;
    let (stage, _) = stale(&mut server);
    let modified = Revalidated::Modified {
        status: 200,
        headers: vec![pair("cache-control", "max-age=60")],
        body: b"response 2".to_vec(),
    };
    match server.step(&request, stage, Event::OriginAsked(modified)).step {
        Step::Answer(reply) => assert_eq!(reply.body.as_deref(), Some(&b"response 2"[..])),
        other => panic!("expected an answer, got {other:?}"),
    }
    assert_eq!(server.answered(&request).body.as_deref(), Some(&b"response 2"[..]));
}

fn plugged() -> Server {
    let config = settings(4);
    let chain = PluginChain::new(vec!["filter"]);
    let mut server = Server::with_route(
        upstream_route().with_headers(vec![pair("x-in", "1")], vec![pair("x-out", "2")]),
    );
    server.plugins = Some(Plugins::build(&config, vec![chain]));
    server
}

fn settings(max_body_bytes: u64) -> zaphyl::config::Config {
    zaphyl::config::Config {
        listen: zaphyl::config::SocketAddress { ip: CLIENT, port: 80 },
        worker_threads: None,
        shutdown_grace_seconds: None,
        tls: None,
        acme: None,
        metrics: None,
        rate_limit: None,
        health_check: None,
        limits: None,
        access: None,
        compression: None,
        cache: None,
        plugins: Some(zaphyl::config::PluginsConfig { global: vec![], max_body_bytes }),
        http3: None,
        http: None,
        response_headers: vec![],
        routes: vec![],
    }
}

#[test]
fn plugin_routes_buffer_the_body_and_run_the_chain() {
    let mut server = plugged();
    let request = asking("POST", "/x?y", vec![field("a", "b")]);
    let advance = server.arrive(&request);
    assert!(matches!(advance.step, Step::ReadBody));
    let advance = server.step(&request, advance.stage, Event::BodyChunk(b"ab".to_vec()));
    assert!(matches!(advance.step, Step::ReadBody));
    let advance = server.step(&request, advance.stage, Event::BodyChunk(b"cd".to_vec()));
    let advance = server.step(&request, advance.stage, Event::BodyEnded);
    match advance.step {
        Step::RunPlugins { route_id, request, host, target } => {
            assert_eq!(route_id, 0);
            assert_eq!(request.method, "POST");
            assert_eq!(request.path, "/x?y");
            assert_eq!(request.headers, [pair("a", "b"), pair("x-in", "1")]);
            assert_eq!(request.body, b"abcd");
            assert_eq!(request.client_ip, "127.0.0.1");
            assert_eq!(host, "localhost");
            assert_eq!(target.address, "127.0.0.1:3000");
        }
        other => panic!("expected the plugins to run, got {other:?}"),
    }
    let response =
        Response { status: 201, headers: vec![pair("x-p", "3")], body: b"done".to_vec() };
    match server.step(&request, advance.stage, Event::PluginsRan(Some(response))).step {
        Step::Answer(reply) => {
            assert_eq!(reply.head.status, 201);
            assert_eq!(
                reply.head.headers,
                [pair("x-p", "3"), pair("x-out", "2"), pair("content-length", "4")]
            );
            assert_eq!(reply.body.as_deref(), Some(&b"done"[..]));
        }
        other => panic!("expected an answer, got {other:?}"),
    }
}

#[test]
fn plugin_routes_answer_what_goes_wrong() {
    let mut server = plugged();
    let request = asking("POST", "/", vec![]);
    let advance = server.arrive(&request);
    let advance = server.step(&request, advance.stage, Event::BodyEnded);
    match server.step(&request, advance.stage, Event::PluginsRan(None)).step {
        Step::Answer(reply) => assert_eq!(reply.head.status, 502),
        other => panic!("expected an answer, got {other:?}"),
    }
    // A declared length over the cap is streamed past the plugins.
    server.forwarded(&asking("POST", "/", vec![field("content-length", "5")]));
}

#[test]
fn bodies_over_the_cap_skip_the_plugins() {
    let mut server = plugged();
    let request = asking("POST", "/x", vec![]);
    let advance = server.arrive(&request);
    let advance = server.step(&request, advance.stage, Event::BodyChunk(b"abc".to_vec()));
    assert!(matches!(advance.step, Step::ReadBody));
    let advance = server.step(&request, advance.stage, Event::BodyChunk(b"de".to_vec()));
    match advance.step {
        Step::Send { forward, ahead } => {
            assert_eq!(forward.uri, "http://127.0.0.1:3000/x");
            assert_eq!(forward.added, [pair("x-in", "1")]);
            assert_eq!(ahead, b"abcde");
        }
        other => panic!("expected a forwarded request, got {other:?}"),
    }
    assert!(matches!(advance.stage, Stage::Sending { .. }));
    // A body that no request may have is refused on the way.
    server.limits.max_body_bytes = Some(2);
    let advance = server.arrive(&request);
    match server.step(&request, advance.stage, Event::BodyChunk(b"abc".to_vec())).step {
        Step::Answer(reply) => assert_eq!(reply.head.status, 413),
        other => panic!("expected an answer, got {other:?}"),
    }
}

#[test]
fn a_body_that_skips_the_plugins_survives_the_cache() {
    let mut server = plugged();
    server.cache = Some(ResponseCache::with_disk(10, "/cache".to_owned()));
    let request = asking("GET", "/x", vec![]);
    let advance = server.arrive(&request);
    let advance = server.step(&request, advance.stage, Event::BodyChunk(b"abcde".to_vec()));
    assert!(matches!(advance.step, Step::ReadCacheFile(_)));
    match server.step(&request, advance.stage, Event::CacheFileRead(None)).step {
        Step::Send { ahead, .. } => assert_eq!(ahead, b"abcde"),
        other => panic!("expected a forwarded request, got {other:?}"),
    }
}

#[test]
fn a_revalidation_that_sets_a_cookie_is_not_stored() {
    let mut server = server();
    server.cache = Some(ResponseCache::new(16));
    let request = asking("GET", "/", vec![]);
    server.relayed(&request, cacheable(), "response 1");
    server.now += 61_000;
    let advance = server.arrive(&request);
    assert!(matches!(advance.step, Step::AskOrigin(_)));
    let modified = Revalidated::Modified {
        status: 200,
        headers: vec![pair("cache-control", "max-age=60"), pair("Set-Cookie", "id=1")],
        body: b"response 2".to_vec(),
    };
    match server.step(&request, advance.stage, Event::OriginAsked(modified)).step {
        Step::Answer(reply) => {
            assert_eq!(reply.body.as_deref(), Some(&b"response 2"[..]));
            assert_eq!(header(&reply, "set-cookie").as_deref(), Some("id=1"));
        }
        other => panic!("expected an answer, got {other:?}"),
    }
    assert!(matches!(server.arrive(&request).step, Step::AskOrigin(_)));
}

#[test]
fn a_finished_exchange_stays_finished() {
    let mut server = server();
    let request = asking("GET", "/", vec![]);
    let advance = server.step(&request, Stage::Done, Event::Arrival);
    assert!(matches!(advance.step, Step::Stop));
    assert!(matches!(advance.stage, Stage::Done));
}
