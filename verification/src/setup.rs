//! What a configuration comes to: the router, the settings of the listeners,
//! the cache and the access rules.
use crate::access::{both_lists, AccessControl, Cidr};
use crate::config::{rules, Config, RouteConfig, RouteRule};
use crate::headers::{copy_pairs, pairs};
use crate::http3::Limits;
use crate::numeral::{decimal, decimal_text};
use crate::ratelimit::RateLimiter;
use crate::router::{
    accepts, endpoint_of, law_first_match_wins, law_round_robin, pick_target, route_for,
    route_texts, target_texts, Route, RouteText, Router, Target, TargetText,
};
use crate::sites::{extends, site_rule, site_rules, SiteConfig};
use crate::static_files::StaticDir;
use crate::store::{Contents, ResponseCache};
use crate::text::{
    chars_of, copy_maybe, maybe_string, rsplit_once, same, split_last, string_of, texts,
};
use vstd::prelude::*;
use vstd::string::StringExecFns;

verus! {

/// The host of an address: what stands before its last colon.
pub open spec fn host_part(address: Seq<char>) -> Seq<char> {
    match split_last(address, ':') {
        Some((host, _)) => host,
        None => Seq::empty(),
    }
}

/// The target of an upstream address.
pub open spec fn target_of(address: Seq<char>, rule: RouteRule) -> TargetText {
    TargetText {
        address,
        tls: rule.tls,
        sni: host_part(address),
        h2: rule.grpc,
        healthy: true,
    }
}

/// The route that a rule stands for, with its index.
pub open spec fn route_of(rule: RouteRule, index: usize) -> RouteText {
    RouteText {
        host: rule.host,
        path_prefix: rule.path,
        targets: rule.upstream.map_values(|a: Seq<char>| target_of(a, rule)),
        strip_prefix: rule.strip_prefix,
        request_headers: rule.request_headers,
        response_headers: rule.response_headers,
        static_root: rule.root,
        id: index,
        next: 0,
    }
}

/// The routes that rules stand for, in order.
pub open spec fn routes_of(rules: Seq<RouteRule>) -> Seq<RouteText> {
    Seq::new(rules.len(), |i: int| route_of(rules[i], i as usize))
}

/// The targets of a rule.
fn build_targets(rule: &RouteConfig) -> (r: Vec<Target>)
    ensures
        target_texts(r@) == rule@.upstream.map_values(|a: Seq<char>| target_of(a, rule@)),
{
    let ghost all = rule@.upstream.map_values(|a: Seq<char>| target_of(a, rule@));
    let mut out: Vec<Target> = Vec::new();
    let mut i: usize = 0;
    while i < rule.upstream.len()
        invariant
            i <= rule.upstream.len(),
            all == rule@.upstream.map_values(|a: Seq<char>| target_of(a, rule@)),
            target_texts(out@) == all.take(i as int),
        decreases rule.upstream.len() - i,
    {
        let ghost o = out@;
        let address = &rule.upstream[i];
        let chars = chars_of(address.as_str());
        let sni = match rsplit_once(chars.as_slice(), ':') {
            Some((host, _)) => string_of(host),
            None => String::new(),
        };
        let target = Target::new(address.clone(), rule.tls, sni).with_h2(rule.grpc);
        assert(target@ =~= all[i as int]);
        out.push(target);
        assert(target_texts(out@) =~= target_texts(o).push(target@));
        assert(all.take(i + 1) =~= all.take(i as int).push(all[i as int]));
        i = i + 1;
    }
    assert(all.take(i as int) =~= all);
    out
}

/// The route that a rule stands for.
fn build_route(rule: &RouteConfig, index: usize) -> (r: Route)
    ensures
        r@ == route_of(rule@, index),
{
    let targets = build_targets(rule);
    let route = Route::new(copy_maybe(&rule.host), copy_maybe(&rule.path), targets).with_id(
        index,
    ).with_strip_prefix(rule.strip_prefix).with_headers(
        copy_pairs(&rule.request_headers),
        copy_pairs(&rule.response_headers),
    );
    match &rule.root {
        Some(root) => route.with_static(StaticDir::new(root.clone())),
        None => route,
    }
}

/// The router of the configured routes.
pub fn build_router(config: &Config) -> (r: Router)
    ensures
        r@ == routes_of(rules(config.routes@)),
{
    let ghost all = routes_of(rules(config.routes@));
    let mut routes: Vec<Route> = Vec::new();
    let mut i: usize = 0;
    while i < config.routes.len()
        invariant
            i <= config.routes.len(),
            all == routes_of(rules(config.routes@)),
            route_texts(routes@) == all.take(i as int),
        decreases config.routes.len() - i,
    {
        let ghost o = routes@;
        let route = build_route(&config.routes[i], i);
        assert(rules(config.routes@)[i as int] == config.routes@[i as int]@);
        assert(route@ == all[i as int]);
        routes.push(route);
        assert(route_texts(routes@) =~= route_texts(o).push(route@));
        assert(all.take(i + 1) =~= all.take(i as int).push(all[i as int]));
        i = i + 1;
    }
    assert(all.take(i as int) =~= all);
    Router::new(routes)
}

/// Each configured route is routed by as it is configured, under its own
/// index; its targets are healthy at first, and its first one takes the first
/// turn.
pub proof fn law_routes_keep_their_rules(rules: Seq<RouteRule>, i: int)
    requires
        0 <= i < rules.len(),
        rules.len() <= usize::MAX,
    ensures
        routes_of(rules).len() == rules.len(),
        routes_of(rules)[i].id == i,
        routes_of(rules)[i].host == rules[i].host,
        routes_of(rules)[i].path_prefix == rules[i].path,
        routes_of(rules)[i].targets.len() == rules[i].upstream.len(),
        forall|j: int|
            0 <= j < rules[i].upstream.len() ==> (#[trigger] routes_of(rules)[i].targets[j]).healthy,
        rules[i].upstream.len() > 0 ==> pick_target(routes_of(rules), Some(i)) == Some(
            endpoint_of(target_of(rules[i].upstream[0], rules[i])),
        ),
{
    let targets = routes_of(rules)[i].targets;
    if targets.len() > 0 {
        law_round_robin(targets, 0);
    }
}

/// The routes of managed sites win over those of the main file: a request for
/// the host of a site that contributes a route goes to a site's route.
pub proof fn law_site_routes_win(
    before: Config,
    after: Config,
    sites: Seq<SiteConfig>,
    k: int,
    path: Seq<char>,
)
    requires
        extends(before, after, sites),
        0 <= k < sites.len(),
        site_rule(sites[k]) is Some,
    ensures
        route_for(routes_of(rules(after.routes@)), Some(sites[k].domain@), path) matches Some(i)
            && 0 <= i < site_rules(sites).len(),
{
    let all = rules(after.routes@);
    let routes = routes_of(all);
    let host = Some(sites[k].domain@);
    lemma_site_rule_listed(sites, k);
    let j = choose|j: int|
        0 <= j < site_rules(sites).len() && (#[trigger] site_rules(sites)[j]).host == host
            && site_rules(sites)[j].path is None;
    assert(all[j] == site_rules(sites)[j]);
    assert(routes[j] == route_of(all[j], j as usize));
    assert(accepts(routes[j], host, path));
    law_first_match_wins(routes, host, path);
}

proof fn lemma_site_rule_listed(sites: Seq<SiteConfig>, k: int)
    requires
        0 <= k < sites.len(),
        site_rule(sites[k]) is Some,
    ensures
        exists|j: int|
            0 <= j < site_rules(sites).len() && (#[trigger] site_rules(sites)[j]).host == Some(
                sites[k].domain@,
            ) && site_rules(sites)[j].path is None,
    decreases sites.len(),
{
    let front = sites.drop_last();
    let list = site_rules(front);
    if k == sites.len() - 1 {
        assert(site_rules(sites)[list.len() as int].host == Some(sites[k].domain@));
    } else {
        lemma_site_rule_listed(front, k);
        let j = choose|j: int|
            0 <= j < list.len() && (#[trigger] list[j]).host == Some(front[k].domain@)
                && list[j].path is None;
        assert(site_rules(sites)[j] == list[j]);
    }
}

/// The settings of the HTTP/1 and HTTP/2 listener. Timeouts are in seconds.
pub struct ProxySettings {
    pub rate_limiter: Option<RateLimiter>,
    pub response_headers: Vec<(String, String)>,
    pub tls_enabled: bool,
    pub alt_svc: Option<String>,
    pub max_body_bytes: Option<u64>,
    pub connect_timeout: Option<u64>,
    pub read_timeout: Option<u64>,
    pub compression_level: Option<u32>,
    pub cache_max_body: u64,
}

/// The announcement of HTTP/3 on a port, for a day.
pub open spec fn alt_svc_text(port: u16) -> Seq<char> {
    "h3=\":"@ + decimal_text(port as nat) + "\"; ma=86400"@
}

/// What HTTP/3 is announced with, where it is configured.
pub open spec fn alt_svc_of(config: Config) -> Option<Seq<char>> {
    match config.http3 {
        Some(h) => Some(alt_svc_text(h.listen.port)),
        None => None,
    }
}

/// The window, in milliseconds, and the limit that requests are held to, where
/// one is configured.
pub open spec fn rate_of(config: Config) -> Option<(u64, u32)> {
    match config.rate_limit {
        Some(limit) => Some((1000, limit.requests_per_second)),
        None => None,
    }
}

/// The largest body that is cached; nothing where there is no cache.
pub open spec fn cached_body_of(config: Config) -> u64 {
    match config.cache {
        Some(c) => c.max_body_bytes,
        None => 0,
    }
}

impl ProxySettings {
    /// The settings of a configuration.
    pub fn new(config: &Config, tls_enabled: bool) -> (r: ProxySettings)
        ensures
            match rate_of(*config) {
                Some((window_ms, max)) => r.rate_limiter matches Some(l) && l@ == Map::<
                    Seq<char>,
                    crate::ratelimit::Window,
                >::empty() && l.window() == window_ms && l.limit() == max,
                None => r.rate_limiter is None,
            },
            pairs(r.response_headers@) == pairs(config.response_headers@),
            r.tls_enabled == tls_enabled,
            maybe_string(r.alt_svc) == alt_svc_of(*config),
            r.max_body_bytes == limits_of(*config).max_body_bytes,
            r.connect_timeout == limits_of(*config).connect_timeout,
            r.read_timeout == limits_of(*config).read_timeout,
            r.compression_level == limits_of(*config).compression_level,
            r.cache_max_body == cached_body_of(*config),
    {
        let rate_limiter = match &config.rate_limit {
            Some(limit) => Some(RateLimiter::new(1000, limit.requests_per_second)),
            None => None,
        };
        let alt_svc = match &config.http3 {
            Some(h) => {
                let mut out = "h3=\":".to_owned();
                let port = decimal(h.listen.port as u64);
                out.append(port.as_str());
                out.append("\"; ma=86400");
                Some(out)
            },
            None => None,
        };
        let limits = h3_limits(config);
        let cache_max_body: u64 = match &config.cache {
            Some(c) => c.max_body_bytes,
            None => 0,
        };
        ProxySettings {
            rate_limiter,
            response_headers: copy_pairs(&config.response_headers),
            tls_enabled,
            alt_svc,
            max_body_bytes: limits.max_body_bytes,
            connect_timeout: limits.connect_timeout,
            read_timeout: limits.read_timeout,
            compression_level: limits.compression_level,
            cache_max_body,
        }
    }
}

/// The limits of the HTTP/3 listener.
pub open spec fn limits_of(config: Config) -> Limits {
    let level = match config.compression {
        Some(c) => Some(c.level),
        None => None,
    };
    match config.limits {
        Some(l) => Limits {
            max_body_bytes: l.max_request_body_bytes,
            max_header_bytes: l.max_request_header_bytes,
            connect_timeout: l.upstream_connect_timeout_seconds,
            read_timeout: l.upstream_read_timeout_seconds,
            compression_level: level,
        },
        None => Limits {
            max_body_bytes: None,
            max_header_bytes: None,
            connect_timeout: None,
            read_timeout: None,
            compression_level: level,
        },
    }
}

/// The limits of the HTTP/3 listener.
pub fn h3_limits(config: &Config) -> (r: Limits)
    ensures
        r == limits_of(*config),
{
    let level: Option<u32> = match &config.compression {
        Some(c) => Some(c.level),
        None => None,
    };
    match &config.limits {
        Some(l) => Limits {
            max_body_bytes: l.max_request_body_bytes,
            max_header_bytes: l.max_request_header_bytes,
            connect_timeout: l.upstream_connect_timeout_seconds,
            read_timeout: l.upstream_read_timeout_seconds,
            compression_level: level,
        },
        None => Limits {
            max_body_bytes: None,
            max_header_bytes: None,
            connect_timeout: None,
            read_timeout: None,
            compression_level: level,
        },
    }
}

/// How many entries a cache holds: at least one.
pub open spec fn entries_of(max_entries: usize) -> nat {
    if max_entries == 0 {
        1
    } else {
        max_entries as nat
    }
}

/// Whether a cache is the one of a configuration: empty, with room for the
/// configured entries, and with files below the configured directory; none where
/// none is configured.
pub open spec fn cache_built(config: Config, r: Option<ResponseCache>) -> bool {
    match config.cache {
        Some(c) => {
            &&& r matches Some(cache)
            &&& cache.wf()
            &&& cache@ == Contents::empty()
            &&& cache.limit() == entries_of(c.max_entries)
            &&& match maybe_string(c.disk_path) {
                Some(dir) => cache.disk_tier() matches Some(disk) && disk.directory() == dir
                    && disk.limit() == cache.limit(),
                None => cache.disk_tier() is None,
            }
        },
        None => r is None,
    }
}

/// The cache of a configuration, empty, if it has one.
pub fn build_cache(config: &Config) -> (r: Option<ResponseCache>)
    ensures
        cache_built(*config, r),
{
    match &config.cache {
        Some(c) => match &c.disk_path {
            Some(dir) => Some(ResponseCache::with_disk(c.max_entries, dir.clone())),
            None => Some(ResponseCache::new(c.max_entries)),
        },
        None => None,
    }
}

/// The blocks that a configuration allows and denies, or the entry that cannot
/// be read; none where it has no access rules.
pub open spec fn access_of(config: Config) -> Result<(Seq<Cidr>, Seq<Cidr>), Seq<char>> {
    match config.access {
        Some(a) => both_lists(texts(a.allow@), texts(a.deny@)),
        None => Ok((Seq::empty(), Seq::empty())),
    }
}

/// The access rules of a configuration; the error is the entry that cannot be
/// read. Without rules every client is allowed.
pub fn build_access(config: &Config) -> (r: Result<AccessControl, String>)
    ensures
        match access_of(*config) {
            Ok((allowed, denied)) => r matches Ok(rules) && rules.wf() && rules.allowed()
                == allowed && rules.denied() == denied,
            Err(entry) => r matches Err(text) && text@ == entry,
        },
{
    match &config.access {
        Some(a) => AccessControl::parse(a.allow.as_slice(), a.deny.as_slice()),
        None => {
            let rules = AccessControl::default();
            assert(rules.allowed() =~= Seq::<Cidr>::empty());
            assert(rules.denied() =~= Seq::<Cidr>::empty());
            Ok(rules)
        },
    }
}

/// The seconds that requests in flight may take at shutdown: five where
/// nothing is configured.
pub open spec fn grace_of(config: Config) -> u64 {
    match config.shutdown_grace_seconds {
        Some(n) => n,
        None => 5,
    }
}

/// The seconds that requests in flight may take at shutdown: five where
/// nothing is configured.
pub fn grace_seconds(config: &Config) -> (r: u64)
    ensures
        r == grace_of(*config),
{
    match config.shutdown_grace_seconds {
        Some(n) => n,
        None => 5,
    }
}

/// The argument that follows the first `--config` or `-c`.
pub open spec fn config_argument(args: Seq<Seq<char>>) -> Option<Seq<char>>
    decreases args.len(),
{
    if args.len() == 0 {
        None
    } else if args[0] == "--config"@ || args[0] == "-c"@ {
        if args.len() >= 2 {
            Some(args[1])
        } else {
            None
        }
    } else {
        config_argument(args.skip(1))
    }
}

/// The path that the arguments, without the program's name, give behind
/// `--config` or `-c`.
pub fn config_path_from_args(args: &Vec<String>) -> (r: Option<String>)
    ensures
        maybe_string(r) == config_argument(texts(args@)),
{
    let ghost all = texts(args@);
    let mut i: usize = 0;
    assert(all.skip(0) =~= all);
    while i < args.len()
        invariant
            i <= args.len(),
            all == texts(args@),
            config_argument(all) == config_argument(all.skip(i as int)),
        decreases args.len() - i,
    {
        assert(all.skip(i as int)[0] == args@[i as int]@);
        assert(all.skip(i as int).skip(1) =~= all.skip(i + 1));
        if same(args[i].as_str(), "--config") || same(args[i].as_str(), "-c") {
            if i + 1 < args.len() {
                assert(all.skip(i as int)[1] == args@[i + 1]@);
                return Some(args[i + 1].clone());
            }
            return None;
        }
        i = i + 1;
    }
    None
}

} // verus!
