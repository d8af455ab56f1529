//! What a configuration becomes: routes, targets and settings.
use crate::config::{error_text, Config, ConfigError, RouteRule};
use crate::http3::{header_bytes_limit, Limits};
use crate::laws::texts::law_nothing_to_split_at;
use crate::numeral::decimal_text;
use crate::setup::{
    alt_svc_of, alt_svc_text, cache_built, cached_body_of, config_argument, entries_of, grace_of, limits_of,
    rate_of, routes_of,
};
use crate::store::ResponseCache;
use crate::text::lemma_split_last;
use vstd::prelude::*;

verus! {

/// Each configured route becomes one route, in order and under its index, that
/// matches, rewrites, serves and sets headers as it is configured to.
pub proof fn law_routes_are_as_configured(rules: Seq<RouteRule>, i: int)
    requires
        0 <= i < rules.len(),
        rules.len() <= usize::MAX,
    ensures
        routes_of(rules).len() == rules.len(),
        routes_of(rules)[i].id == i,
        routes_of(rules)[i].host == rules[i].host,
        routes_of(rules)[i].path_prefix == rules[i].path,
        routes_of(rules)[i].strip_prefix == rules[i].strip_prefix,
        routes_of(rules)[i].static_root == rules[i].root,
        routes_of(rules)[i].request_headers == rules[i].request_headers,
        routes_of(rules)[i].response_headers == rules[i].response_headers,
        routes_of(rules)[i].targets.len() == rules[i].upstream.len(),
        routes_of(rules)[i].next == 0,
{
}

/// Each upstream of a configured route becomes one target, in order: its address
/// is the upstream's, it is spoken to over TLS where the route says so, and over
/// HTTP/2 where the route is for gRPC; it starts out healthy.
pub proof fn law_targets_are_as_configured(rules: Seq<RouteRule>, i: int, j: int)
    requires
        0 <= i < rules.len(),
        0 <= j < rules[i].upstream.len(),
    ensures
        routes_of(rules)[i].targets[j].address == rules[i].upstream[j],
        routes_of(rules)[i].targets[j].tls == rules[i].tls,
        routes_of(rules)[i].targets[j].h2 == rules[i].grpc,
        routes_of(rules)[i].targets[j].healthy,
{
}

/// A target's certificate is checked against the host of its address: all that
/// stands before the last colon.
pub proof fn law_target_is_named_by_its_host(
    rules: Seq<RouteRule>,
    i: int,
    j: int,
    host: Seq<char>,
    port: Seq<char>,
)
    requires
        0 <= i < rules.len(),
        0 <= j < rules[i].upstream.len(),
        rules[i].upstream[j] == host.push(':') + port,
        !port.contains(':'),
    ensures
        routes_of(rules)[i].targets[j].sni == host,
{
    let address = host.push(':') + port;
    let n = host.len() as int;
    assert forall|k: int| n < k < address.len() implies address[k] != ':' by {
        assert(address[k] == port[k - n - 1]);
        assert(port.contains(port[k - n - 1]));
    }
    lemma_split_last(address, ':', n);
    assert(address.take(n) =~= host);
}

/// A target whose address has no colon names no host.
pub proof fn law_target_without_a_colon_names_no_host(rules: Seq<RouteRule>, i: int, j: int)
    requires
        0 <= i < rules.len(),
        0 <= j < rules[i].upstream.len(),
        !rules[i].upstream[j].contains(':'),
    ensures
        routes_of(rules)[i].targets[j].sni == Seq::<char>::empty(),
{
    law_nothing_to_split_at(rules[i].upstream[j], ':');
}

/// Each limit is the one that is configured under its name; nothing is limited
/// that is not configured.
pub proof fn law_limits_are_as_configured(config: Config)
    ensures
        config.limits is None ==> {
            &&& limits_of(config).max_body_bytes is None
            &&& limits_of(config).max_header_bytes is None
            &&& limits_of(config).connect_timeout is None
            &&& limits_of(config).read_timeout is None
        },
        config.limits matches Some(l) ==> {
            &&& limits_of(config).max_body_bytes == l.max_request_body_bytes
            &&& limits_of(config).max_header_bytes == l.max_request_header_bytes
            &&& limits_of(config).connect_timeout == l.upstream_connect_timeout_seconds
            &&& limits_of(config).read_timeout == l.upstream_read_timeout_seconds
        },
        config.compression is None ==> limits_of(config).compression_level is None,
        config.compression matches Some(c) ==> limits_of(config).compression_level == Some(
            c.level,
        ),
{
}

/// Requests are limited to the configured number in each second; HTTP/3 is
/// announced on its port, for a day; bodies up to the configured size are
/// cached. What is not configured is not done. Requests in flight get the
/// configured time at shutdown, or five seconds.
pub proof fn law_settings_are_as_configured(config: Config)
    ensures
        config.rate_limit is None ==> rate_of(config) is None,
        config.rate_limit matches Some(r) ==> rate_of(config) == Some(
            (1000u64, r.requests_per_second),
        ),
        config.http3 is None ==> alt_svc_of(config) is None,
        config.http3 matches Some(h) ==> alt_svc_of(config) == Some(
            seq!['h', '3', '=', '"', ':'] + decimal_text(h.listen.port as nat) + seq![
                '"',
                ';',
                ' ',
                'm',
                'a',
                '=',
                '8',
                '6',
                '4',
                '0',
                '0',
            ],
        ),
        config.cache is None ==> cached_body_of(config) == 0,
        config.cache matches Some(c) ==> cached_body_of(config) == c.max_body_bytes,
        config.shutdown_grace_seconds is None ==> grace_of(config) == 5,
        config.shutdown_grace_seconds matches Some(n) ==> grace_of(config) == n,
{
    reveal_strlit("h3=\":");
    reveal_strlit("\"; ma=86400");
    if let Some(h) = config.http3 {
        assert(alt_svc_text(h.listen.port) =~= seq!['h', '3', '=', '"', ':'] + decimal_text(
            h.listen.port as nat,
        ) + seq!['"', ';', ' ', 'm', 'a', '=', '8', '6', '4', '0', '0']);
    }
}

/// A cache holds as many entries as configured, and never none.
pub proof fn law_cache_has_room(max_entries: usize)
    ensures
        entries_of(max_entries) >= 1,
        max_entries >= 1 ==> entries_of(max_entries) == max_entries,
        max_entries == 0 ==> entries_of(max_entries) == 1,
{
}

/// The cache of a configuration starts empty, holds the configured entries in
/// memory and, where a directory is configured, as many in files below it.
pub proof fn law_cache_is_as_configured(config: Config, cache: Option<ResponseCache>)
    requires
        cache_built(config, cache),
    ensures
        cache is Some <==> config.cache is Some,
        config.cache matches Some(c) ==> {
            &&& cache->0@.dom().len() == 0
            &&& c.max_entries > 0 ==> cache->0.limit() == c.max_entries
            &&& c.disk_path is None ==> cache->0.disk_tier() is None
            &&& c.disk_path matches Some(dir) ==> cache->0.disk_tier() is Some
                && cache->0.disk_tier()->0.directory() == dir@ && (c.max_entries > 0
                ==> cache->0.disk_tier()->0.limit() == c.max_entries)
        },
{
}

/// A header section is accepted up to the configured size, or 64 KiB.
pub proof fn law_header_limit(limits: Limits)
    ensures
        limits.max_header_bytes matches Some(n) ==> header_bytes_limit(limits) == n,
        limits.max_header_bytes is None ==> header_bytes_limit(limits) == 64 * 1024,
{
}

/// An error tells whether the text could not be read or breaks a rule, and how.
pub proof fn law_error_in_words(text: String)
    ensures
        error_text(ConfigError::Toml(text)) == "invalid TOML: "@ + text@,
        error_text(ConfigError::Invalid(text)) == "invalid configuration: "@ + text@,
{
}

/// The configuration file is what follows the first `--config` or `-c` among
/// the arguments, whatever stands before and behind.
pub proof fn law_config_file_is_named(
    before: Seq<Seq<char>>,
    flag: Seq<char>,
    path: Seq<char>,
    behind: Seq<Seq<char>>,
)
    requires
        flag == "--config"@ || flag == "-c"@,
        forall|i: int|
            0 <= i < before.len() ==> (#[trigger] before[i]) != "--config"@ && before[i] != "-c"@,
    ensures
        config_argument(before) is None,
        config_argument(before.push(flag)) is None,
        config_argument(before + seq![flag, path] + behind) == Some(path),
    decreases before.len(),
{
    let all = before + seq![flag, path] + behind;
    if before.len() > 0 {
        let rest = before.skip(1);
        assert(before[0] != "--config"@ && before[0] != "-c"@);
        assert forall|i: int| 0 <= i < rest.len() implies (#[trigger] rest[i]) != "--config"@
            && rest[i] != "-c"@ by {
            assert(before[i + 1] == rest[i]);
        }
        law_config_file_is_named(rest, flag, path, behind);
        assert(all.skip(1) =~= rest + seq![flag, path] + behind);
        assert(before.push(flag).skip(1) =~= rest.push(flag));
        assert(all[0] == before[0]);
        assert(before.push(flag)[0] == before[0]);
    } else {
        assert(all[0] == flag);
        assert(all[1] == path);
        assert(before.push(flag)[0] == flag);
    }
}

} // verus!
