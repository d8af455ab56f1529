//! What managed sites contribute to a configuration.
use crate::config::{rules, Config};
use crate::laws::texts::{law_nothing_to_split_at, law_split_at_the_last};
use crate::sites::{
    extends, is_site_file, site_complaint, site_domains, site_file_names, site_rule, site_rules,
    with_domains, SiteConfig, SiteKind, SiteTls,
};
use crate::text::texts;
use vstd::prelude::*;

verus! {

/// Whether a site contributes a route: it is enabled, and says where its
/// requests go.
pub open spec fn contributes(site: SiteConfig) -> bool {
    &&& site.enabled
    &&& site.kind == SiteKind::Php ==> site.php_fpm is Some
    &&& site.kind == SiteKind::App ==> site.app is Some
}

/// A site's route accepts its domain, on every path, and does nothing but serve
/// its root, where it is a static site; forward to its process, where it is a
/// PHP site; or forward to its application.
pub proof fn law_site_route(site: SiteConfig)
    ensures
        site_rule(site) is Some <==> contributes(site),
        site_rule(site) matches Some(rule) ==> {
            &&& rule.host == Some(site.domain@)
            &&& rule.path is None
            &&& !rule.tls && !rule.strip_prefix && !rule.grpc
            &&& rule.request_headers.len() == 0
            &&& rule.response_headers.len() == 0
            &&& rule.plugins.len() == 0
            &&& site.kind == SiteKind::Static ==> rule.root == Some(site.root@)
                && rule.upstream.len() == 0
            &&& site.kind == SiteKind::Php ==> rule.root is None && rule.upstream == seq![
                site.php_fpm->0@,
            ]
            &&& site.kind == SiteKind::App ==> rule.root is None && rule.upstream == seq![
                site.app->0@,
            ]
        },
{
}

/// The sites that contribute a route.
pub open spec fn contributing() -> spec_fn(SiteConfig) -> bool {
    |s: SiteConfig| contributes(s)
}

/// The sites that want a certificate.
pub open spec fn certified() -> spec_fn(SiteConfig) -> bool {
    |s: SiteConfig| s.enabled && s.tls == SiteTls::Auto
}

/// The domains of sites.
pub open spec fn domain_names() -> spec_fn(SiteConfig) -> Seq<char> {
    |s: SiteConfig| s.domain@
}

/// The sites' routes are those of the sites that contribute one, in order; the
/// domains to be certified are those of the enabled sites that want it, in
/// order.
pub proof fn law_sites_contribute_in_order(sites: Seq<SiteConfig>)
    ensures
        site_rules(sites).len() == sites.filter(contributing()).len(),
        forall|i: int|
            0 <= i < site_rules(sites).len() ==> Some(#[trigger] site_rules(sites)[i])
                == site_rule(sites.filter(contributing())[i]),
        site_domains(sites) == sites.filter(certified()).map_values(domain_names()),
    decreases sites.len(),
{
    reveal(Seq::filter);
    if sites.len() > 0 {
        let front = sites.drop_last();
        let last = sites.last();
        law_sites_contribute_in_order(front);
        law_site_route(last);
        assert forall|i: int| 0 <= i < site_rules(sites).len() implies Some(
            #[trigger] site_rules(sites)[i],
        ) == site_rule(sites.filter(contributing())[i]) by {
            if i < site_rules(front).len() {
                assert(site_rules(sites)[i] == site_rules(front)[i]);
                assert(sites.filter(contributing())[i] == front.filter(contributing())[i]);
            }
        }
        if certified()(last) {
            assert(front.filter(certified()).push(last).map_values(domain_names()) =~= front.filter(
                certified(),
            ).map_values(domain_names()).push(last.domain@));
        }
        assert(site_domains(sites) =~= sites.filter(certified()).map_values(domain_names()));
    } else {
        assert(site_domains(sites) =~= sites.filter(certified()).map_values(domain_names()));
    }
}

/// A site is complained about exactly where it is to forward to an application
/// and does not say which; the complaint names the site.
pub proof fn law_site_without_its_application(site: SiteConfig)
    ensures
        site_complaint(site) is Some <==> site.kind == SiteKind::App && site.app is None,
        site_complaint(site) matches Some(text) ==> text == "site "@ + site.domain@
            + ": type `app` requires `app`"@,
{
}

/// Sites leave everything but the routes and the certified domains as it was:
/// their routes come before those of the main file, which stay in order, and
/// their domains behind.
pub proof fn law_sites_leave_the_rest(before: Config, after: Config, sites: Seq<SiteConfig>)
    requires
        extends(before, after, sites),
    ensures
        rules(after.routes@).len() == site_rules(sites).len() + rules(before.routes@).len(),
        forall|i: int|
            0 <= i < site_rules(sites).len() ==> #[trigger] rules(after.routes@)[i]
                == site_rules(sites)[i],
        forall|i: int|
            0 <= i < before.routes@.len() ==> rules(after.routes@)[site_rules(sites).len() + i]
                == (#[trigger] rules(before.routes@)[i]),
        after.listen == before.listen,
        after.worker_threads == before.worker_threads,
        after.shutdown_grace_seconds == before.shutdown_grace_seconds,
        after.tls == before.tls,
        after.metrics == before.metrics,
        after.rate_limit == before.rate_limit,
        after.response_headers == before.response_headers,
        after.health_check == before.health_check,
        after.compression == before.compression,
        after.plugins == before.plugins,
        after.cache == before.cache,
        after.access == before.access,
        after.limits == before.limits,
        after.http3 == before.http3,
        after.http == before.http,
        after.acme is Some <==> before.acme is Some,
        before.acme is Some ==> {
            &&& after.acme->0.email == before.acme->0.email
            &&& after.acme->0.directory == before.acme->0.directory
            &&& after.acme->0.cache_dir == before.acme->0.cache_dir
            &&& after.acme->0.renew_before_days == before.acme->0.renew_before_days
            &&& after.acme->0.check_interval_seconds == before.acme->0.check_interval_seconds
            &&& texts(after.acme->0.domains@) == with_domains(
                texts(before.acme->0.domains@),
                sites.filter(certified()).map_values(domain_names()),
            )
        },
{
    law_sites_contribute_in_order(sites);
}

/// A file is a site's exactly where its name is a stem, a dot and `toml`.
pub proof fn law_site_file_name(stem: Seq<char>, extension: Seq<char>)
    requires
        !extension.contains('.'),
    ensures
        is_site_file(stem.push('.') + extension) <==> stem.len() > 0 && extension == seq![
            't',
            'o',
            'm',
            'l',
        ],
{
    reveal_strlit("toml");
    assert("toml"@ =~= seq!['t', 'o', 'm', 'l']);
    law_split_at_the_last(stem, '.', extension);
}

/// A name without a dot is no site's.
pub proof fn law_name_without_a_dot_is_no_site(name: Seq<char>)
    requires
        !name.contains('.'),
    ensures
        !is_site_file(name),
{
    law_nothing_to_split_at(name, '.');
}

/// Names that are a site's.
pub open spec fn named_as_a_site() -> spec_fn(Seq<char>) -> bool {
    |n: Seq<char>| is_site_file(n)
}

/// Of a directory exactly the site files are read.
pub proof fn law_site_files_are_read(names: Seq<Seq<char>>)
    ensures
        site_file_names(names) == names.filter(named_as_a_site()),
    decreases names.len(),
{
    reveal(Seq::filter);
    if names.len() > 0 {
        law_site_files_are_read(names.drop_last());
    } else {
        assert(site_file_names(names) =~= names);
    }
}

} // verus!
