//! Managed sites, one file each, and how they extend the main configuration:
//! each contributes a route, and a domain for automatic certificates.
use crate::config::{rules, AcmeConfig, Config, ConfigError, RouteConfig, RouteRule};
use crate::headers::HeaderText;
use crate::order::{sort_distinct, sorted_distinct};
use crate::text::{
    chars_of, is_text, maybe, maybe_string, rsplit_once, same, split_last, string_of, texts, views,
};
use vstd::prelude::*;
use vstd::string::StringExecFns;

verus! {

/// How a site's requests are handled.
#[derive(Debug, Clone, Copy, PartialEq, Eq, Structural)]
pub enum SiteKind {
    /// Serve files directly from the document root.
    Static,
    /// Forward requests to a php-fpm process.
    Php,
    /// Forward requests to an upstream HTTP application.
    App,
}

/// Whether a site gets an automatic certificate.
#[derive(Debug, Clone, Copy, PartialEq, Eq, Structural)]
pub enum SiteTls {
    /// Obtain and renew a certificate through ACME.
    Auto,
    /// Serve plain HTTP only.
    Off,
}

impl Default for SiteTls {
    /// A site gets a certificate unless told otherwise.
    fn default() -> (r: SiteTls)
        ensures
            r == SiteTls::Auto,
    {
        SiteTls::Auto
    }
}

/// One managed site.
#[derive(Debug)]
pub struct SiteConfig {
    /// The host this site answers for.
    pub domain: String,
    /// The document root.
    pub root: String,
    /// How requests are served.
    pub kind: SiteKind,
    /// Whether to obtain a certificate automatically.
    pub tls: SiteTls,
    /// The upstream application of an [`SiteKind::App`] site.
    pub app: Option<String>,
    /// The php-fpm address of a [`SiteKind::Php`] site.
    pub php_fpm: Option<String>,
    /// Whether this site contributes routes.
    pub enabled: bool,
}

/// What is wrong with a site, if anything: one that forwards to an application
/// must say where that is.
pub open spec fn site_complaint(site: SiteConfig) -> Option<Seq<char>> {
    if site.kind == SiteKind::App && site.app is None {
        Some("site "@ + site.domain@ + ": type `app` requires `app`"@)
    } else {
        None
    }
}

/// Where the requests of a site go: to a directory, or to an upstream.
pub open spec fn site_upstream(site: SiteConfig) -> Option<Seq<char>> {
    match site.kind {
        SiteKind::Static => None,
        SiteKind::Php => maybe_string(site.php_fpm),
        SiteKind::App => maybe_string(site.app),
    }
}

/// The rule that a site contributes: its host served from its root, or by its
/// upstream. A disabled site contributes none, nor does one whose upstream is
/// missing.
pub open spec fn site_rule(site: SiteConfig) -> Option<RouteRule> {
    let plain = RouteRule {
        host: Some(site.domain@),
        path: None,
        upstream: Seq::empty(),
        root: None,
        tls: false,
        strip_prefix: false,
        request_headers: Seq::empty(),
        response_headers: Seq::empty(),
        grpc: false,
        plugins: Seq::empty(),
    };
    if !site.enabled {
        None
    } else if site.kind == SiteKind::Static {
        Some(RouteRule { root: Some(site.root@), ..plain })
    } else {
        match site_upstream(site) {
            Some(address) => Some(RouteRule { upstream: seq![address], ..plain }),
            None => None,
        }
    }
}

/// The domain of a site that wants an automatic certificate.
pub open spec fn site_domain(site: SiteConfig) -> Option<Seq<char>> {
    if site.enabled && site.tls == SiteTls::Auto {
        Some(site.domain@)
    } else {
        None
    }
}

/// The rules that the sites contribute, in order.
pub open spec fn site_rules(sites: Seq<SiteConfig>) -> Seq<RouteRule>
    decreases sites.len(),
{
    if sites.len() == 0 {
        Seq::empty()
    } else {
        let front = site_rules(sites.drop_last());
        match site_rule(sites.last()) {
            Some(rule) => front.push(rule),
            None => front,
        }
    }
}

/// The domains for which the sites want a certificate, in order.
pub open spec fn site_domains(sites: Seq<SiteConfig>) -> Seq<Seq<char>>
    decreases sites.len(),
{
    if sites.len() == 0 {
        Seq::empty()
    } else {
        let front = site_domains(sites.drop_last());
        match site_domain(sites.last()) {
            Some(domain) => front.push(domain),
            None => front,
        }
    }
}

/// A list of domains with more added, each where it is not listed yet.
pub open spec fn with_domains(domains: Seq<Seq<char>>, more: Seq<Seq<char>>) -> Seq<Seq<char>>
    decreases more.len(),
{
    if more.len() == 0 {
        domains
    } else {
        let front = with_domains(domains, more.drop_last());
        if front.contains(more.last()) {
            front
        } else {
            front.push(more.last())
        }
    }
}

/// Whether a file name ends in `.toml`, with something before it.
pub open spec fn is_site_file(name: Seq<char>) -> bool {
    match split_last(name, '.') {
        Some((stem, extension)) => stem.len() > 0 && extension == "toml"@,
        None => false,
    }
}

/// The names of site files among the names.
pub open spec fn site_file_names(names: Seq<Seq<char>>) -> Seq<Seq<char>>
    decreases names.len(),
{
    if names.len() == 0 {
        Seq::empty()
    } else if is_site_file(names.last()) {
        site_file_names(names.drop_last()).push(names.last())
    } else {
        site_file_names(names.drop_last())
    }
}

/// The site files of a directory, in order of their names.
pub fn site_files(names: &Vec<String>) -> (r: Vec<String>)
    ensures
        texts(r@) == sorted_distinct(site_file_names(texts(names@))),
{
    let ghost all = texts(names@);
    let mut kept: Vec<Vec<char>> = Vec::new();
    let mut i: usize = 0;
    assert(views(kept@) =~= Seq::<Seq<char>>::empty());
    while i < names.len()
        invariant
            i <= names.len(),
            all == texts(names@),
            views(kept@) == site_file_names(all.take(i as int)),
        decreases names.len() - i,
    {
        assert(all[i as int] == names@[i as int]@);
        assert(all.take(i + 1).drop_last() =~= all.take(i as int));
        let chars = chars_of(names[i].as_str());
        let is_site = match rsplit_once(chars.as_slice(), '.') {
            Some((stem, extension)) => stem.len() > 0 && is_text(extension, "toml"),
            None => false,
        };
        if is_site {
            let ghost front = kept@;
            kept.push(chars);
            assert(views(kept@) =~= views(front).push(all[i as int]));
        }
        i = i + 1;
    }
    assert(all.take(i as int) =~= all);
    let sorted = sort_distinct(kept);
    let ghost order = views(sorted@);
    let mut out: Vec<String> = Vec::new();
    let mut k: usize = 0;
    while k < sorted.len()
        invariant
            k <= sorted.len(),
            order == views(sorted@),
            texts(out@) == order.take(k as int),
        decreases sorted.len() - k,
    {
        let ghost o = out@;
        assert(order[k as int] == sorted@[k as int]@);
        let name = string_of(sorted[k].as_slice());
        out.push(name);
        assert(texts(out@) =~= texts(o).push(name@));
        assert(order.take(k + 1) =~= order.take(k as int).push(order[k as int]));
        k = k + 1;
    }
    assert(order.take(k as int) =~= order);
    out
}

impl SiteConfig {
    /// Whether the site says all that its kind requires; the error names what
    /// is missing.
    pub fn validate(&self) -> (r: Result<(), ConfigError>)
        ensures
            match site_complaint(*self) {
                Some(text) => r matches Err(ConfigError::Invalid(t)) && t@ == text,
                None => r is Ok,
            },
    {
        if self.kind == SiteKind::App && self.app.is_none() {
            let mut text = "site ".to_owned();
            text.append(self.domain.as_str());
            text.append(": type `app` requires `app`");
            return Err(ConfigError::Invalid(text));
        }
        Ok(())
    }

    /// The route that the site contributes.
    pub fn to_route(&self) -> (r: Option<RouteConfig>)
        ensures
            match r {
                Some(route) => site_rule(*self) == Some(route@),
                None => site_rule(*self) is None,
            },
    {
        if !self.enabled {
            return None;
        }
        let mut upstream: Vec<String> = Vec::new();
        let mut root: Option<String> = None;
        match self.kind {
            SiteKind::Static => {
                root = Some(self.root.clone());
            },
            SiteKind::Php => match &self.php_fpm {
                Some(address) => {
                    upstream.push(address.clone());
                },
                None => {
                    return None;
                },
            },
            SiteKind::App => match &self.app {
                Some(address) => {
                    upstream.push(address.clone());
                },
                None => {
                    return None;
                },
            },
        }
        let route = RouteConfig {
            host: Some(self.domain.clone()),
            path: None,
            upstream,
            root,
            tls: false,
            strip_prefix: false,
            request_headers: Vec::new(),
            response_headers: Vec::new(),
            grpc: false,
            plugins: Vec::new(),
        };
        proof {
            let rule = site_rule(*self)->0;
            assert(route@.upstream =~= rule.upstream);
            assert(route@.request_headers =~= Seq::<HeaderText>::empty());
            assert(route@.response_headers =~= Seq::<HeaderText>::empty());
            assert(route@.plugins =~= Seq::<Seq<char>>::empty());
            assert(route@ =~= rule);
        }
        Some(route)
    }

    /// The domain to obtain a certificate for.
    pub fn tls_domain(&self) -> (r: Option<&str>)
        ensures
            maybe(r) == site_domain(*self),
    {
        match self.tls {
            SiteTls::Auto => if self.enabled {
                Some(self.domain.as_str())
            } else {
                None
            },
            SiteTls::Off => None,
        }
    }
}

/// Whether the list holds the text.
fn contains_text(list: &Vec<String>, text: &str) -> (r: bool)
    ensures
        r == texts(list@).contains(text@),
{
    let ghost all = texts(list@);
    let mut i: usize = 0;
    while i < list.len()
        invariant
            i <= list.len(),
            all == texts(list@),
            forall|j: int| 0 <= j < i ==> #[trigger] all[j] != text@,
        decreases list.len() - i,
    {
        assert(all[i as int] == list@[i as int]@);
        if same(list[i].as_str(), text) {
            return true;
        }
        i = i + 1;
    }
    false
}

/// Adds the domains that are not listed yet.
fn add_domains(domains: &mut Vec<String>, more: &Vec<String>)
    ensures
        texts(final(domains)@) == with_domains(texts(old(domains)@), texts(more@)),
{
    let ghost start = texts(domains@);
    let ghost new = texts(more@);
    let mut i: usize = 0;
    while i < more.len()
        invariant
            i <= more.len(),
            new == texts(more@),
            texts(domains@) == with_domains(start, new.take(i as int)),
        decreases more.len() - i,
    {
        assert(new[i as int] == more@[i as int]@);
        assert(new.take(i + 1).drop_last() =~= new.take(i as int));
        if !contains_text(domains, more[i].as_str()) {
            let ghost front = domains@;
            domains.push(more[i].clone());
            assert(texts(domains@) =~= texts(front).push(new[i as int]));
        }
        i = i + 1;
    }
    assert(new.take(i as int) =~= new);
}

/// What the sites add to a configuration: their routes come first, so that
/// they win over a catch-all of the main file, and their domains join those of
/// ACME, where that is configured.
pub open spec fn extends(before: Config, after: Config, sites: Seq<SiteConfig>) -> bool {
    &&& after == (Config { routes: after.routes, acme: after.acme, ..before })
    &&& rules(after.routes@) == site_rules(sites) + rules(before.routes@)
    &&& match before.acme {
        Some(old_acme) => after.acme matches Some(new_acme) && new_acme == (AcmeConfig {
            domains: new_acme.domains,
            ..old_acme
        }) && texts(new_acme.domains@) == with_domains(
            texts(old_acme.domains@),
            site_domains(sites),
        ),
        None => after.acme is None,
    }
}

/// The configuration extended by the sites.
pub fn with_sites(config: Config, sites: &Vec<SiteConfig>) -> (r: Config)
    ensures
        extends(config, r, sites@),
{
    let ghost before = config;
    let mut routes: Vec<RouteConfig> = Vec::new();
    let mut domains: Vec<String> = Vec::new();
    let mut i: usize = 0;
    assert(rules(routes@) =~= Seq::<RouteRule>::empty());
    assert(texts(domains@) =~= Seq::<Seq<char>>::empty());
    while i < sites.len()
        invariant
            i <= sites.len(),
            rules(routes@) == site_rules(sites@.take(i as int)),
            texts(domains@) == site_domains(sites@.take(i as int)),
        decreases sites.len() - i,
    {
        assert(sites@.take(i + 1).drop_last() =~= sites@.take(i as int));
        match sites[i].to_route() {
            Some(route) => {
                let ghost front = routes@;
                routes.push(route);
                assert(rules(routes@) =~= rules(front).push(route@));
            },
            None => {},
        }
        match sites[i].tls_domain() {
            Some(domain) => {
                let ghost front = domains@;
                let copy = domain.to_owned();
                domains.push(copy);
                assert(texts(domains@) =~= texts(front).push(copy@));
            },
            None => {},
        }
        i = i + 1;
    }
    assert(sites@.take(i as int) =~= sites@);
    let mut result = config;
    let ghost front = routes@;
    let ghost back = result.routes@;
    routes.append(&mut result.routes);
    assert(rules(routes@) =~= rules(front) + rules(back));
    result.routes = routes;
    if let Some(acme) = &mut result.acme {
        add_domains(&mut acme.domains, &domains);
    }
    result
}

/// Adding domains keeps those that were listed, in place, lists every added
/// one, and lists nothing else.
pub proof fn law_domains_are_merged(
    domains: Seq<Seq<char>>,
    more: Seq<Seq<char>>,
    d: Seq<char>,
)
    ensures
        domains.len() <= with_domains(domains, more).len(),
        with_domains(domains, more).take(domains.len() as int) == domains,
        with_domains(domains, more).contains(d) <==> domains.contains(d) || more.contains(d),
        domains.no_duplicates() ==> with_domains(domains, more).no_duplicates(),
    decreases more.len(),
{
    let all = with_domains(domains, more);
    if more.len() == 0 {
        assert(all.take(domains.len() as int) =~= domains);
    } else {
        let front = more.drop_last();
        let last = more.last();
        let inner = with_domains(domains, front);
        law_domains_are_merged(domains, front, d);
        assert(more =~= front.push(last));
        assert(more.contains(d) <==> front.contains(d) || d == last) by {
            if more.contains(d) {
                let k = choose|k: int| 0 <= k < more.len() && more[k] == d;
                if k < front.len() {
                    assert(front[k] == d);
                }
            }
            if front.contains(d) {
                let k = choose|k: int| 0 <= k < front.len() && front[k] == d;
                assert(more[k] == d);
            }
            if d == last {
                assert(more[more.len() - 1] == d);
            }
        }
        if !inner.contains(last) {
            assert(all.take(domains.len() as int) =~= inner.take(domains.len() as int));
            assert(all.contains(d) <==> inner.contains(d) || d == last) by {
                if all.contains(d) {
                    let k = choose|k: int| 0 <= k < all.len() && all[k] == d;
                    if k < inner.len() {
                        assert(inner[k] == d);
                    }
                }
                if inner.contains(d) {
                    let k = choose|k: int| 0 <= k < inner.len() && inner[k] == d;
                    assert(all[k] == d);
                }
                if d == last {
                    assert(all[inner.len() as int] == d);
                }
            }
        }
    }
}

/// An enabled site that says all that its kind requires contributes a route,
/// unless it is a PHP site without a process to forward to.
pub proof fn law_valid_site_has_a_route(site: SiteConfig)
    requires
        site_complaint(site) is None,
        site.enabled,
        site.kind == SiteKind::Php ==> site.php_fpm is Some,
    ensures
        site_rule(site) is Some,
        (site_rule(site)->0).host == Some(site.domain@),
{
}

} // verus!
