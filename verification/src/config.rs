//! Configuration types and the rules that a configuration must keep.
use crate::access::IpAddress;
use crate::headers::{pairs, HeaderText};
use crate::numeral::{decimal, decimal_text, numeral, parse_u16};
use crate::text::{
    chars_of, is_blank, maybe_string, rsplit_once, split_last, texts, trim, trimmed,
};
use vstd::prelude::*;
use vstd::string::StringExecFns;

verus! {

/// A socket address: an IP address and a port.
#[derive(Clone, Copy, Debug, PartialEq, Eq, Structural)]
pub struct SocketAddress {
    pub ip: IpAddress,
    pub port: u16,
}

/// Top-level configuration.
#[derive(Debug)]
pub struct Config {
    /// Address the proxy listens on.
    pub listen: SocketAddress,
    /// Number of worker threads; the number of CPUs where unset.
    pub worker_threads: Option<usize>,
    /// How many seconds requests in flight may take to finish at shutdown.
    pub shutdown_grace_seconds: Option<u64>,
    /// If set, terminate TLS with this certificate and key.
    pub tls: Option<TlsConfig>,
    /// If set, obtain and renew the certificate through ACME. Excludes `tls`.
    pub acme: Option<AcmeConfig>,
    /// If set, expose Prometheus metrics on this address.
    pub metrics: Option<MetricsConfig>,
    /// If set, limit the rate of requests per client address.
    pub rate_limit: Option<RateLimitConfig>,
    /// If set, probe upstreams periodically and skip unhealthy ones.
    pub health_check: Option<HealthCheckConfig>,
    /// If set, limits of request bodies and upstream timeouts.
    pub limits: Option<LimitsConfig>,
    /// If set, allow or deny clients by address.
    pub access: Option<AccessConfig>,
    /// If set, compress responses.
    pub compression: Option<CompressionConfig>,
    /// If set, cache upstream responses that allow it.
    pub cache: Option<CacheConfig>,
    /// Plugins applied to every request, before those of the route.
    pub plugins: Option<PluginsConfig>,
    /// If set, also serve HTTP/3. Requires `tls` or `acme`.
    pub http3: Option<Http3Config>,
    /// If set, redirect plain HTTP to HTTPS. Requires `tls` or `acme`.
    pub http: Option<HttpRedirectConfig>,
    /// Headers added to every response.
    pub response_headers: Vec<(String, String)>,
    /// Routing rules, tried in order; the first match wins.
    pub routes: Vec<RouteConfig>,
}

/// TLS termination settings of the listener.
#[derive(Debug)]
pub struct TlsConfig {
    /// Path to the certificate chain.
    pub cert: String,
    /// Path to the private key.
    pub key: String,
}

/// Prometheus metrics endpoint settings.
#[derive(Debug)]
pub struct MetricsConfig {
    /// Address to serve metrics on.
    pub listen: SocketAddress,
}

/// Rate limiting per client address.
#[derive(Debug)]
pub struct RateLimitConfig {
    /// Most requests per second for one client (at least 1).
    pub requests_per_second: u32,
}

/// Background health checking of upstreams.
#[derive(Debug)]
pub struct HealthCheckConfig {
    /// How often to probe each upstream, in seconds (at least 1).
    pub interval_seconds: u64,
}

/// Response compression settings.
#[derive(Debug)]
pub struct CompressionConfig {
    /// Compression level (at least 1).
    pub level: u32,
}

/// Plugin settings.
#[derive(Debug)]
pub struct PluginsConfig {
    /// Paths of plugin files run on every request, in order.
    pub global: Vec<String>,
    /// Most body bytes that are buffered for a plugin.
    pub max_body_bytes: u64,
}

/// Response cache settings.
#[derive(Debug)]
pub struct CacheConfig {
    /// Most cached responses.
    pub max_entries: usize,
    /// Bodies larger than this are not cached.
    pub max_body_bytes: u64,
    /// If set, also keep entries in files below this directory.
    pub disk_path: Option<String>,
}

/// Access control; each entry is an address or a CIDR block.
#[derive(Debug)]
pub struct AccessConfig {
    /// If not empty, only clients on this list are allowed.
    pub allow: Vec<String>,
    /// Clients on this list are denied, whatever `allow` says.
    pub deny: Vec<String>,
}

/// Limits of request bodies, and upstream timeouts.
#[derive(Debug)]
pub struct LimitsConfig {
    /// Requests with a larger body are refused.
    pub max_request_body_bytes: Option<u64>,
    /// HTTP/3 requests with a larger header section are refused.
    pub max_request_header_bytes: Option<u64>,
    /// Timeout for connecting to the upstream, in seconds.
    pub upstream_connect_timeout_seconds: Option<u64>,
    /// Timeout for reading from the upstream, in seconds.
    pub upstream_read_timeout_seconds: Option<u64>,
}

/// HTTP/3 listener settings.
#[derive(Debug)]
pub struct Http3Config {
    /// UDP address to serve HTTP/3 on.
    pub listen: SocketAddress,
}

/// Plain-HTTP listener that redirects to HTTPS and answers ACME challenges.
#[derive(Debug)]
pub struct HttpRedirectConfig {
    /// Address to serve plain HTTP on.
    pub listen: SocketAddress,
}

/// Automatic HTTPS through ACME.
#[derive(Debug)]
pub struct AcmeConfig {
    /// Domains to obtain a certificate for (at least one, none empty).
    pub domains: Vec<String>,
    /// Contact address registered with the ACME account.
    pub email: String,
    /// ACME directory URL.
    pub directory: String,
    /// Directory of the account key and the issued certificates.
    pub cache_dir: String,
    /// Renew the certificate once it is this close to its expiry.
    pub renew_before_days: u64,
    /// How often to check whether renewal is due, in seconds.
    pub check_interval_seconds: u64,
}

/// A single routing rule.
#[derive(Debug)]
pub struct RouteConfig {
    /// If set, the request host must equal this, up to letter case.
    pub host: Option<String>,
    /// If set, the request path must lie under this prefix.
    pub path: Option<String>,
    /// Upstream addresses as `host:port`, used in turn.
    pub upstream: Vec<String>,
    /// Serve static files from this directory in place of an upstream.
    pub root: Option<String>,
    /// Connect to the upstream over TLS.
    pub tls: bool,
    /// Strip the matched prefix before forwarding. Requires `path`.
    pub strip_prefix: bool,
    /// Headers to set on the request forwarded upstream.
    pub request_headers: Vec<(String, String)>,
    /// Headers to set on the response to the client.
    pub response_headers: Vec<(String, String)>,
    /// Speak HTTP/2 to the upstream.
    pub grpc: bool,
    /// Paths of plugin files for this route, run after the global ones.
    pub plugins: Vec<String>,
}

/// An error of loading or validating a configuration.
#[derive(Debug)]
pub enum ConfigError {
    /// The text could not be parsed.
    Toml(String),
    /// The configuration breaks a rule.
    Invalid(String),
}

/// An error of a configuration in words.
pub open spec fn error_text(error: ConfigError) -> Seq<char> {
    match error {
        ConfigError::Toml(text) => "invalid TOML: "@ + text@,
        ConfigError::Invalid(text) => "invalid configuration: "@ + text@,
    }
}

impl ConfigError {
    /// The error in words.
    pub fn message(&self) -> (r: String)
        ensures
            r@ == error_text(*self),
    {
        match self {
            ConfigError::Toml(text) => {
                let mut out = "invalid TOML: ".to_owned();
                out.append(text.as_str());
                out
            },
            ConfigError::Invalid(text) => {
                let mut out = "invalid configuration: ".to_owned();
                out.append(text.as_str());
                out
            },
        }
    }
}

/// The ACME directory used where none is configured.
pub fn default_acme_directory() -> (r: String)
    ensures
        r@ == "https://acme-v02.api.letsencrypt.org/directory"@,
{
    "https://acme-v02.api.letsencrypt.org/directory".to_owned()
}

/// The directory of ACME files used where none is configured.
pub fn default_acme_cache_dir() -> (r: String)
    ensures
        r@ == "./acme"@,
{
    "./acme".to_owned()
}

/// The days before expiry at which a certificate is renewed by default.
pub const DEFAULT_RENEW_BEFORE_DAYS: u64 = 30;

/// The seconds between renewal checks by default: twelve hours.
pub const DEFAULT_ACME_CHECK_INTERVAL: u64 = 43_200;

/// The cached responses kept by default.
pub const DEFAULT_CACHE_MAX_ENTRIES: usize = 1024;

/// The largest body cached by default: one mebibyte.
pub const DEFAULT_CACHE_MAX_BODY_BYTES: u64 = 1_048_576;

/// The largest body buffered for plugins by default: one mebibyte.
pub const DEFAULT_PLUGIN_MAX_BODY_BYTES: u64 = 1_048_576;

/// Whether text is empty but for white space.
pub open spec fn blank(s: Seq<char>) -> bool {
    trimmed(s).len() == 0
}

/// Whether text reads as `host:port`, up to white space around it.
pub open spec fn is_host_port(s: Seq<char>) -> bool {
    match split_last(trimmed(s), ':') {
        Some((host, port)) => host.len() > 0 && numeral(port, u16::MAX as nat) is Some,
        None => false,
    }
}

/// What is wrong with the TLS and ACME settings, if anything.
pub open spec fn certificate_complaint(c: Config) -> Option<Seq<char>> {
    if c.tls matches Some(tls) && (blank(tls.cert@) || blank(tls.key@)) {
        Some("tls.cert and tls.key must not be empty"@)
    } else if c.tls is Some && c.acme is Some {
        Some("[tls] and [acme] are mutually exclusive"@)
    } else {
        match c.acme {
            Some(acme) => acme_complaint(acme),
            None => None,
        }
    }
}

/// Whether one of the texts is blank.
pub open spec fn some_blank(list: Seq<Seq<char>>) -> bool {
    exists|i: int| 0 <= i < list.len() && blank(#[trigger] list[i])
}

/// What is wrong with the ACME settings, if anything.
pub open spec fn acme_complaint(acme: AcmeConfig) -> Option<Seq<char>> {
    if acme.domains@.len() == 0 || some_blank(texts(acme.domains@)) {
        Some("acme.domains must list at least one non-empty domain"@)
    } else if blank(acme.email@) {
        Some("acme.email must not be empty"@)
    } else if acme.renew_before_days == 0 {
        Some("acme.renew_before_days must be at least 1"@)
    } else if acme.check_interval_seconds == 0 {
        Some("acme.check_interval_seconds must be at least 1"@)
    } else {
        None
    }
}

/// What is wrong with the numeric settings that stand before the listeners, if
/// anything.
pub open spec fn limits_complaint(c: Config) -> Option<Seq<char>> {
    if c.rate_limit matches Some(l) && l.requests_per_second == 0 {
        Some("rate_limit.requests_per_second must be at least 1"@)
    } else if c.health_check matches Some(h) && h.interval_seconds == 0 {
        Some("health_check.interval_seconds must be at least 1"@)
    } else if c.limits matches Some(l) && l.max_request_body_bytes == Some(0u64) {
        Some("limits.max_request_body_bytes must be at least 1"@)
    } else if c.limits matches Some(l) && (l.upstream_connect_timeout_seconds == Some(0u64)
        || l.upstream_read_timeout_seconds == Some(0u64)) {
        Some("limits upstream timeouts must be at least 1 second"@)
    } else {
        None
    }
}

/// What is wrong with the other listeners, compression and the cache, if
/// anything.
pub open spec fn feature_complaint(c: Config) -> Option<Seq<char>> {
    if c.http3 is Some && c.tls is None && c.acme is None {
        Some("[http3] requires a TLS certificate ([tls] or [acme])"@)
    } else if c.http is Some && c.tls is None && c.acme is None {
        Some("[http] redirect requires a TLS certificate ([tls] or [acme])"@)
    } else if c.compression matches Some(z) && z.level == 0 {
        Some("compression.level must be at least 1"@)
    } else if c.cache matches Some(k) && (k.max_entries == 0 || k.max_body_bytes == 0) {
        Some("cache.max_entries and cache.max_body_bytes must be at least 1"@)
    } else {
        None
    }
}

/// The first of the upstreams that is not `host:port`.
pub open spec fn bad_upstream(list: Seq<Seq<char>>) -> Option<Seq<char>>
    decreases list.len(),
{
    if list.len() == 0 {
        None
    } else if !is_host_port(list[0]) {
        Some(list[0])
    } else {
        bad_upstream(list.skip(1))
    }
}

/// What is wrong with the rule of a route, if anything.
pub open spec fn rule_complaint(rule: RouteRule) -> Option<Seq<char>> {
    let has_upstream = rule.upstream.len() > 0;
    if !has_upstream && rule.root is None {
        Some(": requires an upstream or a root"@)
    } else if has_upstream && rule.root is Some {
        Some(": cannot set both upstream and root"@)
    } else if bad_upstream(rule.upstream) is Some {
        Some(
            ": upstream must be `host:port`, got `"@ + bad_upstream(rule.upstream)->0 + seq!['`'],
        )
    } else if rule.path matches Some(path) && !(path.len() > 0 && path[0] == '/') {
        Some(": path must start with `/`, got `"@ + rule.path->0 + seq!['`'])
    } else if rule.strip_prefix && rule.path is None {
        Some(": strip_prefix requires a path"@)
    } else {
        None
    }
}

/// What is wrong with the first bad rule from the `i`-th on, if anything.
pub open spec fn rules_complaint(rules: Seq<RouteRule>, i: int) -> Option<Seq<char>>
    decreases rules.len() - i,
{
    if i < 0 || i >= rules.len() {
        None
    } else {
        match rule_complaint(rules[i]) {
            Some(text) => Some("route "@ + decimal_text(i as nat) + text),
            None => rules_complaint(rules, i + 1),
        }
    }
}

/// The first rule that a configuration breaks, in words; none where it is
/// valid.
pub open spec fn complaint(c: Config) -> Option<Seq<char>> {
    if c.routes@.len() == 0 {
        Some("at least one [[route]] is required"@)
    } else if certificate_complaint(c) is Some {
        certificate_complaint(c)
    } else if limits_complaint(c) is Some {
        limits_complaint(c)
    } else if feature_complaint(c) is Some {
        feature_complaint(c)
    } else {
        rules_complaint(rules(c.routes@), 0)
    }
}

/// A routing rule as text.
#[verifier::ext_equal]
pub struct RouteRule {
    pub host: Option<Seq<char>>,
    pub path: Option<Seq<char>>,
    pub upstream: Seq<Seq<char>>,
    pub root: Option<Seq<char>>,
    pub tls: bool,
    pub strip_prefix: bool,
    pub request_headers: Seq<HeaderText>,
    pub response_headers: Seq<HeaderText>,
    pub grpc: bool,
    pub plugins: Seq<Seq<char>>,
}

impl View for RouteConfig {
    type V = RouteRule;

    open spec fn view(&self) -> RouteRule {
        RouteRule {
            host: maybe_string(self.host),
            path: maybe_string(self.path),
            upstream: texts(self.upstream@),
            root: maybe_string(self.root),
            tls: self.tls,
            strip_prefix: self.strip_prefix,
            request_headers: pairs(self.request_headers@),
            response_headers: pairs(self.response_headers@),
            grpc: self.grpc,
            plugins: texts(self.plugins@),
        }
    }
}

/// The views of a list of routing rules.
pub open spec fn rules(routes: Seq<RouteConfig>) -> Seq<RouteRule> {
    routes.map_values(|r: RouteConfig| r@)
}

/// Whether text reads as `host:port`.
fn host_port(s: &str) -> (r: bool)
    ensures
        r == is_host_port(s@),
{
    let chars = chars_of(s);
    match rsplit_once(trim(chars.as_slice()), ':') {
        Some((host, port)) => host.len() > 0 && parse_u16(port).is_some(),
        None => false,
    }
}

/// An error about one route.
fn route_error(index: usize, text: String) -> (r: ConfigError)
    ensures
        r matches ConfigError::Invalid(t) && t@ == "route "@ + decimal_text(index as nat) + text@,
{
    let mut out = "route ".to_owned();
    let number = decimal(index as u64);
    out.append(number.as_str());
    out.append(text.as_str());
    ConfigError::Invalid(out)
}

/// An error in fixed words.
fn invalid(text: &str) -> (r: ConfigError)
    ensures
        r matches ConfigError::Invalid(t) && t@ == text@,
{
    ConfigError::Invalid(text.to_owned())
}

/// Whether one of the strings is blank.
fn any_blank(list: &Vec<String>) -> (r: bool)
    ensures
        r == some_blank(texts(list@)),
{
    let ghost all = texts(list@);
    let mut i: usize = 0;
    while i < list.len()
        invariant
            i <= list.len(),
            all == texts(list@),
            forall|j: int| 0 <= j < i ==> !blank(#[trigger] all[j]),
        decreases list.len() - i,
    {
        assert(all[i as int] == list@[i as int]@);
        if is_blank(list[i].as_str()) {
            return true;
        }
        i = i + 1;
    }
    false
}

/// The first upstream that is not `host:port`.
fn first_bad_upstream(list: &Vec<String>) -> (r: Option<&String>)
    ensures
        match r {
            Some(text) => bad_upstream(texts(list@)) == Some(text@),
            None => bad_upstream(texts(list@)) is None,
        },
{
    let ghost all = texts(list@);
    let mut i: usize = 0;
    assert(all.skip(0) =~= all);
    while i < list.len()
        invariant
            i <= list.len(),
            all == texts(list@),
            bad_upstream(all) == bad_upstream(all.skip(i as int)),
        decreases list.len() - i,
    {
        assert(all.skip(i as int)[0] == list@[i as int]@);
        assert(all.skip(i as int).skip(1) =~= all.skip(i + 1));
        if !host_port(list[i].as_str()) {
            return Some(&list[i]);
        }
        i = i + 1;
    }
    None
}

/// Words with a quoted text behind them.
fn quoting(words: &str, text: &str) -> (r: String)
    ensures
        r@ == words@ + text@ + seq!['`'],
{
    let mut out = words.to_owned();
    out.append(text);
    out.push('`');
    assert(out@ =~= words@ + text@ + seq!['`']);
    out
}

impl RouteConfig {
    /// What is wrong with the rule, if anything.
    fn problem(&self) -> (r: Option<String>)
        ensures
            maybe_string(r) == rule_complaint(self@),
    {
        let has_upstream = self.upstream.len() > 0;
        if !has_upstream && self.root.is_none() {
            return Some(": requires an upstream or a root".to_owned());
        }
        if has_upstream && self.root.is_some() {
            return Some(": cannot set both upstream and root".to_owned());
        }
        match first_bad_upstream(&self.upstream) {
            Some(text) => {
                return Some(quoting(": upstream must be `host:port`, got `", text.as_str()));
            },
            None => {},
        }
        match &self.path {
            Some(path) => {
                let chars = chars_of(path.as_str());
                if !(chars.len() > 0 && chars[0] == '/') {
                    return Some(quoting(": path must start with `/`, got `", path.as_str()));
                }
            },
            None => {},
        }
        if self.strip_prefix && self.path.is_none() {
            return Some(": strip_prefix requires a path".to_owned());
        }
        None
    }
}

impl AcmeConfig {
    /// Whether the settings keep the rules for ACME.
    fn check(&self) -> (r: Result<(), ConfigError>)
        ensures
            match acme_complaint(*self) {
                Some(text) => r matches Err(ConfigError::Invalid(t)) && t@ == text,
                None => r is Ok,
            },
    {
        if self.domains.len() == 0 || any_blank(&self.domains) {
            return Err(invalid("acme.domains must list at least one non-empty domain"));
        }
        if is_blank(self.email.as_str()) {
            return Err(invalid("acme.email must not be empty"));
        }
        if self.renew_before_days == 0 {
            return Err(invalid("acme.renew_before_days must be at least 1"));
        }
        if self.check_interval_seconds == 0 {
            return Err(invalid("acme.check_interval_seconds must be at least 1"));
        }
        Ok(())
    }
}

impl Config {
    /// Whether the configuration keeps every rule; the error names the first
    /// that it breaks.
    pub fn validate(&self) -> (r: Result<(), ConfigError>)
        ensures
            match complaint(*self) {
                Some(text) => r matches Err(ConfigError::Invalid(t)) && t@ == text,
                None => r is Ok,
            },
    {
        if self.routes.len() == 0 {
            return Err(invalid("at least one [[route]] is required"));
        }
        if let Some(tls) = &self.tls {
            if is_blank(tls.cert.as_str()) || is_blank(tls.key.as_str()) {
                return Err(invalid("tls.cert and tls.key must not be empty"));
            }
        }
        if self.tls.is_some() && self.acme.is_some() {
            return Err(invalid("[tls] and [acme] are mutually exclusive"));
        }
        if let Some(acme) = &self.acme {
            match acme.check() {
                Ok(_) => {},
                Err(e) => {
                    return Err(e);
                },
            }
        }
        assert(certificate_complaint(*self) is None);
        if let Some(rate_limit) = &self.rate_limit {
            if rate_limit.requests_per_second == 0 {
                return Err(invalid("rate_limit.requests_per_second must be at least 1"));
            }
        }
        if let Some(health_check) = &self.health_check {
            if health_check.interval_seconds == 0 {
                return Err(invalid("health_check.interval_seconds must be at least 1"));
            }
        }
        if let Some(limits) = &self.limits {
            if is_zero(limits.max_request_body_bytes) {
                return Err(invalid("limits.max_request_body_bytes must be at least 1"));
            }
            if is_zero(limits.upstream_connect_timeout_seconds) || is_zero(
                limits.upstream_read_timeout_seconds,
            ) {
                return Err(invalid("limits upstream timeouts must be at least 1 second"));
            }
        }
        assert(limits_complaint(*self) is None);
        if self.http3.is_some() && self.tls.is_none() && self.acme.is_none() {
            return Err(invalid("[http3] requires a TLS certificate ([tls] or [acme])"));
        }
        if self.http.is_some() && self.tls.is_none() && self.acme.is_none() {
            return Err(invalid("[http] redirect requires a TLS certificate ([tls] or [acme])"));
        }
        if let Some(compression) = &self.compression {
            if compression.level == 0 {
                return Err(invalid("compression.level must be at least 1"));
            }
        }
        if let Some(cache) = &self.cache {
            if cache.max_entries == 0 || cache.max_body_bytes == 0 {
                return Err(
                    invalid("cache.max_entries and cache.max_body_bytes must be at least 1"),
                );
            }
        }
        assert(feature_complaint(*self) is None);
        self.validate_routes()
    }

    /// Whether every route keeps the rules for routes.
    fn validate_routes(&self) -> (r: Result<(), ConfigError>)
        ensures
            match rules_complaint(rules(self.routes@), 0) {
                Some(text) => r matches Err(ConfigError::Invalid(t)) && t@ == text,
                None => r is Ok,
            },
    {
        let ghost all = rules(self.routes@);
        let mut i: usize = 0;
        while i < self.routes.len()
            invariant
                i <= self.routes.len(),
                all == rules(self.routes@),
                rules_complaint(all, 0) == rules_complaint(all, i as int),
            decreases self.routes.len() - i,
        {
            assert(all[i as int] == self.routes@[i as int]@);
            match self.routes[i].problem() {
                Some(text) => {
                    return Err(route_error(i, text));
                },
                None => {},
            }
            i = i + 1;
        }
        Ok(())
    }
}

/// Whether a number is given as 0.
fn is_zero(n: Option<u64>) -> (r: bool)
    ensures
        r == (n == Some(0u64)),
{
    match n {
        Some(v) => v == 0,
        None => false,
    }
}

/// What a valid configuration can be relied on for: it has routes, at most one
/// source of certificates, which is complete, a certificate for every listener
/// that needs one, and no zero where at least one is asked for.
pub proof fn law_valid_config(c: Config)
    requires
        complaint(c) is None,
    ensures
        c.routes@.len() > 0,
        !(c.tls is Some && c.acme is Some),
        c.http3 is Some || c.http is Some ==> c.tls is Some || c.acme is Some,
        c.tls matches Some(tls) ==> !blank(tls.cert@) && !blank(tls.key@),
        c.acme matches Some(acme) ==> {
            &&& acme.domains@.len() > 0
            &&& !some_blank(texts(acme.domains@))
            &&& !blank(acme.email@)
            &&& acme.renew_before_days >= 1
            &&& acme.check_interval_seconds >= 1
        },
        c.limits matches Some(l) ==> {
            &&& l.max_request_body_bytes != Some(0u64)
            &&& l.upstream_connect_timeout_seconds != Some(0u64)
            &&& l.upstream_read_timeout_seconds != Some(0u64)
        },
        c.rate_limit matches Some(l) ==> l.requests_per_second >= 1,
        c.health_check matches Some(h) ==> h.interval_seconds >= 1,
        c.compression matches Some(z) ==> z.level >= 1,
        c.cache matches Some(k) ==> k.max_entries >= 1 && k.max_body_bytes >= 1,
{
}

/// What every route of a valid configuration can be relied on for: it has an
/// upstream or a root but not both, its upstreams are addresses with a port,
/// its path is rooted, and a prefix is stripped only where there is one.
pub proof fn law_valid_routes(c: Config, i: int)
    requires
        complaint(c) is None,
        0 <= i < c.routes@.len(),
    ensures
        (c.routes@[i]@.upstream.len() > 0) != (c.routes@[i]@.root is Some),
        forall|j: int|
            0 <= j < c.routes@[i]@.upstream.len() ==> is_host_port(
                #[trigger] c.routes@[i]@.upstream[j],
            ),
        c.routes@[i]@.path matches Some(path) ==> path.len() > 0 && path[0] == '/',
        c.routes@[i]@.strip_prefix ==> c.routes@[i]@.path is Some,
{
    let all = rules(c.routes@);
    lemma_every_rule_is_valid(all, 0, i);
    assert(all[i] == c.routes@[i]@);
    lemma_no_bad_upstream(all[i].upstream);
}

proof fn lemma_every_rule_is_valid(all: Seq<RouteRule>, from: int, i: int)
    requires
        rules_complaint(all, from) is None,
        0 <= from <= i < all.len(),
    ensures
        rule_complaint(all[i]) is None,
    decreases i - from,
{
    if from < i {
        lemma_every_rule_is_valid(all, from + 1, i);
    }
}

proof fn lemma_no_bad_upstream(list: Seq<Seq<char>>)
    requires
        bad_upstream(list) is None,
    ensures
        forall|j: int| 0 <= j < list.len() ==> is_host_port(#[trigger] list[j]),
    decreases list.len(),
{
    if list.len() > 0 {
        let rest = list.skip(1);
        lemma_no_bad_upstream(rest);
        assert forall|j: int| 0 <= j < list.len() implies is_host_port(#[trigger] list[j]) by {
            if j > 0 {
                assert(list[j] == rest[j - 1]);
            }
        }
    }
}

} // verus!
