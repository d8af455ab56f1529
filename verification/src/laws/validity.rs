//! Which configurations are accepted, and what is said of the others.
use crate::config::{
    bad_upstream, blank, complaint, is_host_port, law_valid_config, law_valid_routes,
    rule_complaint, rules, rules_complaint, some_blank, Config, RouteRule,
};
use crate::laws::texts::{
    all_space, law_nothing_to_split_at, law_only_space, law_split_at_the_last, law_trimming, tight,
};
use crate::numeral::{all_digits, decimal_text, is_digit, lemma_decimal_round_trip, numeral};
use crate::text::{is_space, texts};
use vstd::prelude::*;

verus! {

/// Whether a route keeps the rules: it forwards or serves a directory, and not
/// both; its upstreams are addresses with a port; its path starts with a slash;
/// and it strips a prefix only where it has one.
pub open spec fn route_keeps_the_rules(rule: RouteRule) -> bool {
    &&& (rule.upstream.len() > 0) != (rule.root is Some)
    &&& forall|j: int| 0 <= j < rule.upstream.len() ==> is_host_port(#[trigger] rule.upstream[j])
    &&& rule.path matches Some(path) ==> path.len() > 0 && path[0] == '/'
    &&& rule.strip_prefix ==> rule.path is Some
}

/// Whether the settings but for the routes keep the rules.
pub open spec fn settings_keep_the_rules(c: Config) -> bool {
    &&& c.tls matches Some(tls) ==> !all_space(tls.cert@) && !all_space(tls.key@)
    &&& c.tls is None || c.acme is None
    &&& c.acme matches Some(acme) ==> {
        &&& acme.domains@.len() > 0
        &&& forall|i: int|
            0 <= i < acme.domains@.len() ==> !all_space(#[trigger] texts(acme.domains@)[i])
        &&& !all_space(acme.email@)
        &&& acme.renew_before_days > 0
        &&& acme.check_interval_seconds > 0
    }
    &&& c.rate_limit matches Some(l) ==> l.requests_per_second > 0
    &&& c.health_check matches Some(h) ==> h.interval_seconds > 0
    &&& c.limits matches Some(l) ==> {
        &&& l.max_request_body_bytes matches Some(n) ==> n > 0
        &&& l.upstream_connect_timeout_seconds matches Some(n) ==> n > 0
        &&& l.upstream_read_timeout_seconds matches Some(n) ==> n > 0
    }
    &&& c.http3 is Some || c.http is Some ==> c.tls is Some || c.acme is Some
    &&& c.compression matches Some(z) ==> z.level > 0
    &&& c.cache matches Some(k) ==> k.max_entries > 0 && k.max_body_bytes > 0
}

/// A configuration is accepted exactly where it has a route and keeps the rules:
/// nothing else is complained about, and nothing less.
pub proof fn law_what_is_accepted(c: Config)
    ensures
        complaint(c) is None <==> {
            &&& c.routes@.len() > 0
            &&& settings_keep_the_rules(c)
            &&& forall|i: int|
                0 <= i < c.routes@.len() ==> route_keeps_the_rules(#[trigger] rules(c.routes@)[i])
        },
{
    lemma_blank_settings(c);
    if complaint(c) is None {
        law_valid_config(c);
        assert forall|i: int| 0 <= i < c.routes@.len() implies route_keeps_the_rules(
            #[trigger] rules(c.routes@)[i],
        ) by {
            law_valid_routes(c, i);
            assert(rules(c.routes@)[i] == c.routes@[i]@);
        }
    }
    if c.routes@.len() > 0 && settings_keep_the_rules(c) && forall|i: int|
        0 <= i < c.routes@.len() ==> route_keeps_the_rules(#[trigger] rules(c.routes@)[i]) {
        lemma_rules_kept(rules(c.routes@), 0);
    }
}

proof fn lemma_blank_settings(c: Config)
    ensures
        c.tls matches Some(tls) ==> (blank(tls.cert@) <==> all_space(tls.cert@)) && (blank(
            tls.key@,
        ) <==> all_space(tls.key@)),
        c.acme matches Some(acme) ==> (blank(acme.email@) <==> all_space(acme.email@)) && (
        some_blank(texts(acme.domains@)) <==> exists|i: int|
            0 <= i < acme.domains@.len() && all_space(#[trigger] texts(acme.domains@)[i])),
{
    if let Some(tls) = c.tls {
        law_only_space(tls.cert@);
        law_only_space(tls.key@);
    }
    if let Some(acme) = c.acme {
        law_only_space(acme.email@);
        let list = texts(acme.domains@);
        assert forall|i: int| 0 <= i < list.len() implies (blank(#[trigger] list[i]) <==> all_space(
            list[i],
        )) by {
            law_only_space(list[i]);
        }
    }
}

proof fn lemma_rules_kept(all: Seq<RouteRule>, i: int)
    requires
        0 <= i <= all.len(),
        forall|j: int| 0 <= j < all.len() ==> route_keeps_the_rules(#[trigger] all[j]),
    ensures
        rules_complaint(all, i) is None,
    decreases all.len() - i,
{
    if i < all.len() {
        assert(route_keeps_the_rules(all[i]));
        lemma_upstreams_kept(all[i].upstream);
        lemma_rules_kept(all, i + 1);
    }
}

proof fn lemma_upstreams_kept(list: Seq<Seq<char>>)
    requires
        forall|j: int| 0 <= j < list.len() ==> is_host_port(#[trigger] list[j]),
    ensures
        bad_upstream(list) is None,
    decreases list.len(),
{
    if list.len() > 0 {
        let rest = list.skip(1);
        assert(is_host_port(list[0]));
        assert forall|j: int| 0 <= j < rest.len() implies is_host_port(#[trigger] rest[j]) by {
            assert(rest[j] == list[j + 1]);
        }
        lemma_upstreams_kept(rest);
    }
}

/// An upstream is a host and a port with a colon between them: the host is not
/// empty and may itself hold colons, and the port is a number of at most 65535.
pub proof fn law_host_and_port(host: Seq<char>, n: nat)
    requires
        host.len() > 0 ==> !is_space(host[0]),
    ensures
        is_host_port(host.push(':') + decimal_text(n)) <==> host.len() > 0 && n <= 65535,
{
    let port = decimal_text(n);
    let whole = host.push(':') + port;
    lemma_decimal_round_trip(n);
    assert(forall|i: int| 0 <= i < port.len() ==> is_digit(#[trigger] port[i]));
    assert(!port.contains(':')) by {
        if port.contains(':') {
            let k = choose|k: int| 0 <= k < port.len() && port[k] == ':';
            assert(is_digit(port[k]));
        }
    }
    assert(whole[whole.len() - 1] == port[port.len() - 1]);
    assert(is_digit(port[port.len() - 1]));
    assert(whole[0] == if host.len() > 0 {
        host[0]
    } else {
        ':'
    });
    assert(tight(whole));
    let none = Seq::<char>::empty();
    law_trimming(none, whole, none);
    assert(none + whole + none =~= whole);
    law_split_at_the_last(host, ':', port);
    assert(is_digit(port[0]));
    assert(crate::numeral::numeral_digits(port) == port);
}

/// Text without a colon is no upstream, nor is one whose port is no number.
pub proof fn law_no_host_and_port(text: Seq<char>, host: Seq<char>, port: Seq<char>, c: char)
    requires
        tight(text),
        !text.contains(':'),
        host.len() > 0,
        !is_space(host[0]),
        !port.contains(':'),
        tight(port),
        port.len() > 0,
        port.contains(c),
        !is_digit(c),
        c != '+',
    ensures
        !is_host_port(text),
        !is_host_port(host.push(':') + port),
{
    let none = Seq::<char>::empty();
    law_trimming(none, text, none);
    assert(none + text + none =~= text);
    law_nothing_to_split_at(text, ':');
    let whole = host.push(':') + port;
    assert(whole[0] == host[0]);
    assert(whole[whole.len() - 1] == port[port.len() - 1]);
    law_trimming(none, whole, none);
    assert(none + whole + none =~= whole);
    law_split_at_the_last(host, ':', port);
    let k = choose|k: int| 0 <= k < port.len() && port[k] == c;
    let digits = crate::numeral::numeral_digits(port);
    if digits.len() < port.len() {
        assert(digits[k - 1] == c);
    }
    assert(!all_digits(digits));
}

/// The first bad route is told by its place, and what is wrong with it in words.
pub proof fn law_bad_route_is_told(all: Seq<RouteRule>, k: int)
    requires
        0 <= k < all.len(),
        !route_keeps_the_rules(all[k]),
        forall|j: int| 0 <= j < k ==> route_keeps_the_rules(#[trigger] all[j]),
    ensures
        rules_complaint(all, 0) matches Some(text) && {
            let place = "route "@ + decimal_text(k as nat);
            &&& all[k].upstream.len() == 0 && all[k].root is None ==> text == place
                + ": requires an upstream or a root"@
            &&& all[k].upstream.len() > 0 && all[k].root is Some ==> text == place
                + ": cannot set both upstream and root"@
            &&& text.len() > place.len() && text.take(place.len() as int) == place
        },
{
    lemma_told(all, 0, k);
    let place = "route "@ + decimal_text(k as nat);
    let words = rule_complaint(all[k])->0;
    assert((place + words).take(place.len() as int) =~= place);
    lemma_words(all[k]);
}

proof fn lemma_words(rule: RouteRule)
    requires
        !route_keeps_the_rules(rule),
    ensures
        rule_complaint(rule) matches Some(words) && words.len() > 0,
{
    reveal_strlit(": requires an upstream or a root");
    reveal_strlit(": cannot set both upstream and root");
    reveal_strlit(": upstream must be `host:port`, got `");
    reveal_strlit(": path must start with `/`, got `");
    reveal_strlit(": strip_prefix requires a path");
    if bad_upstream(rule.upstream) is None {
        lemma_no_bad(rule.upstream);
    }
}

proof fn lemma_no_bad(list: Seq<Seq<char>>)
    requires
        bad_upstream(list) is None,
    ensures
        forall|j: int| 0 <= j < list.len() ==> is_host_port(#[trigger] list[j]),
    decreases list.len(),
{
    if list.len() > 0 {
        let rest = list.skip(1);
        lemma_no_bad(rest);
        assert forall|j: int| 0 <= j < list.len() implies is_host_port(#[trigger] list[j]) by {
            if j > 0 {
                assert(list[j] == rest[j - 1]);
            }
        }
    }
}

proof fn lemma_told(all: Seq<RouteRule>, i: int, k: int)
    requires
        0 <= i <= k < all.len(),
        !route_keeps_the_rules(all[k]),
        forall|j: int| 0 <= j < k ==> route_keeps_the_rules(#[trigger] all[j]),
    ensures
        rule_complaint(all[k]) is Some,
        rules_complaint(all, i) == Some(
            "route "@ + decimal_text(k as nat) + rule_complaint(all[k])->0,
        ),
    decreases k - i,
{
    lemma_words(all[k]);
    if i < k {
        assert(route_keeps_the_rules(all[i]));
        lemma_upstreams_kept(all[i].upstream);
        lemma_told(all, i + 1, k);
    }
}

} // verus!
