//! Request routing and round-robin load balancing within a route.
//!
//! Given a host and a path, the router selects a route; each route hands its
//! requests to its upstream targets in turn.
use crate::headers::{pairs, HeaderText};
use crate::static_files::StaticDir;
use crate::text::{
    chars_of, maybe, maybe_string, same_ignore_case, same_ignoring_case, starts, string_of,
    strip_prefix, trim_end_char, without_trailing,
};
use vstd::arithmetic::div_mod::{
    lemma_add_mod_noop_right, lemma_fundamental_div_mod, lemma_fundamental_div_mod_converse,
    lemma_mod_add_multiples_vanish, lemma_mod_bound, lemma_mod_mod, lemma_mod_multiples_vanish,
    lemma_mod_self_0, lemma_small_mod,
};
use vstd::prelude::*;

verus! {

/// What it takes to reach an upstream target.
#[derive(Debug, Clone)]
pub struct Endpoint {
    /// Upstream address as `host:port`.
    pub address: String,
    /// Whether to connect to the upstream over TLS.
    pub tls: bool,
    /// SNI host name used when `tls` is true.
    pub sni: String,
    /// Whether to speak HTTP/2 to the upstream, as gRPC requires.
    pub h2: bool,
}

/// What it takes to reach an upstream target, as text.
#[verifier::ext_equal]
pub struct EndpointText {
    pub address: Seq<char>,
    pub tls: bool,
    pub sni: Seq<char>,
    pub h2: bool,
}

impl View for Endpoint {
    type V = EndpointText;

    open spec fn view(&self) -> EndpointText {
        EndpointText { address: self.address@, tls: self.tls, sni: self.sni@, h2: self.h2 }
    }
}

/// An upstream target that a request can be forwarded to. There is one value
/// for each target, so that its health is kept in one place; what a request is
/// sent by is its [`Endpoint`].
#[derive(Debug)]
pub struct Target {
    /// Upstream address as `host:port`.
    pub address: String,
    /// Whether to connect to the upstream over TLS.
    pub tls: bool,
    /// SNI host name used when `tls` is true.
    pub sni: String,
    /// Whether to speak HTTP/2 to the upstream, as gRPC requires.
    pub h2: bool,
    /// Whether the target is currently considered healthy.
    healthy: bool,
}

/// A target as text.
#[verifier::ext_equal]
pub struct TargetText {
    pub address: Seq<char>,
    pub tls: bool,
    pub sni: Seq<char>,
    pub h2: bool,
    pub healthy: bool,
}

impl View for Target {
    type V = TargetText;

    closed spec fn view(&self) -> TargetText {
        TargetText {
            address: self.address@,
            tls: self.tls,
            sni: self.sni@,
            h2: self.h2,
            healthy: self.healthy,
        }
    }
}

impl Target {
    /// A target that starts out healthy.
    pub fn new(address: String, tls: bool, sni: String) -> (r: Target)
        ensures
            r@ == (TargetText { address: address@, tls, sni: sni@, h2: false, healthy: true }),
    {
        Target { address, tls, sni, h2: false, healthy: true }
    }

    /// The target with HTTP/2 to the upstream switched on or off.
    pub fn with_h2(self, h2: bool) -> (r: Target)
        ensures
            r@ == (TargetText { h2, ..self@ }),
    {
        Target { h2, ..self }
    }

    /// Whether this target is currently considered healthy.
    pub fn is_healthy(&self) -> (r: bool)
        ensures
            r == self@.healthy,
    {
        self.healthy
    }

    /// What it takes to reach the target.
    pub fn endpoint(&self) -> (r: Endpoint)
        ensures
            r@ == endpoint_of(self@),
    {
        Endpoint {
            address: self.address.clone(),
            tls: self.tls,
            sni: self.sni.clone(),
            h2: self.h2,
        }
    }
}

/// What it takes to reach a target.
pub open spec fn endpoint_of(target: TargetText) -> EndpointText {
    EndpointText { address: target.address, tls: target.tls, sni: target.sni, h2: target.h2 }
}

/// The views of a list of targets.
pub open spec fn target_texts(targets: Seq<Target>) -> Seq<TargetText> {
    targets.map_values(|t: Target| t@)
}

/// The least value beyond a counter's range.
pub open spec fn counter_range() -> int {
    usize::MAX + 1
}

/// The place, among `n`, of the `k`-th try from a counter that wraps around.
pub open spec fn slot(next: usize, k: int, n: int) -> int {
    ((next + k) % counter_range()) % n
}

/// The first try from the `k`-th on that meets a healthy target; `n`, the
/// number of targets, where none of the first `n` tries does.
pub open spec fn first_healthy(targets: Seq<TargetText>, next: usize, k: int) -> int
    decreases targets.len() - k,
{
    if k >= targets.len() || targets[slot(next, k, targets.len() as int)].healthy {
        k
    } else {
        first_healthy(targets, next, k + 1)
    }
}

/// The target picked next: the first healthy one in turn; the next in turn
/// where none is met.
pub open spec fn picked(targets: Seq<TargetText>, next: usize) -> int {
    slot(next, first_healthy(targets, next, 0), targets.len() as int)
}

/// The counter after a pick: every try moved it by one.
pub open spec fn counter_after(targets: Seq<TargetText>, next: usize) -> usize {
    ((next + first_healthy(targets, next, 0) + 1) % counter_range()) as usize
}

/// A routing rule: optional matchers of host and path prefix, and the targets
/// that its requests are spread over.
#[derive(Debug)]
pub struct Route {
    host: Option<String>,
    path_prefix: Option<String>,
    targets: Vec<Target>,
    strip_prefix: bool,
    request_headers: Vec<(String, String)>,
    response_headers: Vec<(String, String)>,
    static_dir: Option<StaticDir>,
    id: usize,
    next: usize,
}

/// A routing rule as text. `next` counts the tries made for a target.
#[verifier::ext_equal]
pub struct RouteText {
    pub host: Option<Seq<char>>,
    pub path_prefix: Option<Seq<char>>,
    pub targets: Seq<TargetText>,
    pub strip_prefix: bool,
    pub request_headers: Seq<HeaderText>,
    pub response_headers: Seq<HeaderText>,
    pub static_root: Option<Seq<char>>,
    pub id: usize,
    pub next: usize,
}

/// The root of an optional static directory.
pub open spec fn maybe_root(dir: Option<StaticDir>) -> Option<Seq<char>> {
    match dir {
        Some(d) => Some(d@),
        None => None,
    }
}

impl View for Route {
    type V = RouteText;

    closed spec fn view(&self) -> RouteText {
        RouteText {
            host: maybe_string(self.host),
            path_prefix: maybe_string(self.path_prefix),
            targets: target_texts(self.targets@),
            strip_prefix: self.strip_prefix,
            request_headers: pairs(self.request_headers@),
            response_headers: pairs(self.response_headers@),
            static_root: maybe_root(self.static_dir),
            id: self.id,
            next: self.next,
        }
    }
}

/// Whether `path` is the prefix or lies below it on a segment boundary: `/v1`
/// accepts `/v1` and `/v1/users` but not `/v10`.
pub open spec fn under_prefix(path: Seq<char>, prefix: Seq<char>) -> bool {
    let p = without_trailing(prefix, '/');
    p.len() == 0 || path == p || starts(path, p.push('/'))
}

/// Whether a route accepts a request.
pub open spec fn accepts(route: RouteText, host: Option<Seq<char>>, path: Seq<char>) -> bool {
    &&& route.host is Some ==> host is Some && same_ignoring_case(host->0, route.host->0)
    &&& route.path_prefix is Some ==> under_prefix(path, route.path_prefix->0)
}

/// The path to forward for a request that a route accepted; none where it is
/// forwarded unchanged.
pub open spec fn rewritten(route: RouteText, path: Seq<char>) -> Option<Seq<char>> {
    if !route.strip_prefix || route.path_prefix is None {
        None
    } else {
        let p = without_trailing(route.path_prefix->0, '/');
        let rest = if starts(path, p) {
            path.skip(p.len() as int)
        } else {
            path
        };
        Some(
            if rest.len() == 0 {
                seq!['/']
            } else {
                rest
            },
        )
    }
}

/// Whether `path` equals `prefix` or lies below it on a segment boundary.
fn path_under_prefix(path: &str, prefix: &str) -> (r: bool)
    ensures
        r == under_prefix(path@, prefix@),
{
    let path_chars = chars_of(path);
    let prefix_chars = chars_of(prefix);
    let p = trim_end_char(prefix_chars.as_slice(), '/');
    if p.len() == 0 {
        return true;
    }
    match strip_prefix(path_chars.as_slice(), p) {
        Some(rest) => {
            if rest.len() == 0 {
                assert(path@ =~= path@.take(p.len() as int));
                return true;
            }
            proof {
                let n = p.len() as int;
                if rest@[0] == '/' {
                    assert(path@.take(n + 1) =~= p@.push('/'));
                } else if starts(path@, p@.push('/')) {
                    assert(path@.take(n + 1)[n] == '/');
                }
            }
            rest[0] == '/'
        },
        None => {
            proof {
                let n = p.len() as int;
                if path@ == p@ {
                    assert(path@.take(n) =~= p@);
                }
                if starts(path@, p@.push('/')) {
                    assert(path@.take(n) =~= path@.take(n + 1).take(n));
                    assert(p@.push('/').take(n) =~= p@);
                }
            }
            false
        },
    }
}

impl Route {
    /// A route. A `host` or `path_prefix` of `None` accepts anything.
    pub fn new(host: Option<String>, path_prefix: Option<String>, targets: Vec<Target>) -> (r:
        Route)
        ensures
            r@ == (RouteText {
                host: maybe_string(host),
                path_prefix: maybe_string(path_prefix),
                targets: target_texts(targets@),
                strip_prefix: false,
                request_headers: Seq::empty(),
                response_headers: Seq::empty(),
                static_root: None,
                id: 0,
                next: 0,
            }),
    {
        let r = Route {
            host,
            path_prefix,
            targets,
            strip_prefix: false,
            request_headers: Vec::new(),
            response_headers: Vec::new(),
            static_dir: None,
            id: 0,
            next: 0,
        };
        assert(r@.request_headers =~= Seq::<HeaderText>::empty());
        assert(r@.response_headers =~= Seq::<HeaderText>::empty());
        r
    }

    /// The route with its index set, by which its plugin chain is found.
    pub fn with_id(self, id: usize) -> (r: Route)
        ensures
            r@ == (RouteText { id, ..self@ }),
    {
        Route { id, ..self }
    }

    /// This route's index among the configured routes.
    pub fn id(&self) -> (r: usize)
        ensures
            r == self@.id,
    {
        self.id
    }

    /// The route serving static files from `dir` in place of an upstream.
    pub fn with_static(self, dir: StaticDir) -> (r: Route)
        ensures
            r@ == (RouteText { static_root: Some(dir@), ..self@ }),
    {
        Route { static_dir: Some(dir), ..self }
    }

    /// The static-file root of this route, if it serves files.
    pub fn static_dir(&self) -> (r: Option<&StaticDir>)
        ensures
            match r {
                Some(d) => self@.static_root == Some(d@),
                None => self@.static_root is None,
            },
    {
        self.static_dir.as_ref()
    }

    /// The route with prefix stripping switched on or off.
    pub fn with_strip_prefix(self, strip: bool) -> (r: Route)
        ensures
            r@ == (RouteText { strip_prefix: strip, ..self@ }),
    {
        Route { strip_prefix: strip, ..self }
    }

    /// The route with headers to set on the upstream request and on the
    /// response to the client.
    pub fn with_headers(
        self,
        request_headers: Vec<(String, String)>,
        response_headers: Vec<(String, String)>,
    ) -> (r: Route)
        ensures
            r@ == (RouteText {
                request_headers: pairs(request_headers@),
                response_headers: pairs(response_headers@),
                ..self@
            }),
    {
        Route { request_headers, response_headers, ..self }
    }

    /// Headers to set on the request forwarded upstream.
    pub fn request_headers(&self) -> (r: &Vec<(String, String)>)
        ensures
            pairs(r@) == self@.request_headers,
    {
        &self.request_headers
    }

    /// Headers to set on the response returned to the client.
    pub fn response_headers(&self) -> (r: &Vec<(String, String)>)
        ensures
            pairs(r@) == self@.response_headers,
    {
        &self.response_headers
    }

    /// The path to forward for a request `path` that matched this route, where
    /// its prefix is stripped; `None` to forward the path unchanged.
    pub fn rewrite_path(&self, path: &str) -> (r: Option<String>)
        ensures
            maybe_string(r) == rewritten(self@, path@),
    {
        if !self.strip_prefix {
            return None;
        }
        match &self.path_prefix {
            None => None,
            Some(prefix) => {
                let prefix_chars = chars_of(prefix.as_str());
                let path_chars = chars_of(path);
                let p = trim_end_char(prefix_chars.as_slice(), '/');
                let rest = match strip_prefix(path_chars.as_slice(), p) {
                    Some(rest) => rest,
                    None => path_chars.as_slice(),
                };
                if rest.len() == 0 {
                    let mut root = String::new();
                    root.push('/');
                    assert(root@ =~= seq!['/']);
                    Some(root)
                } else {
                    Some(string_of(rest))
                }
            },
        }
    }

    /// Picks the next upstream target in turn, a healthy one where there is
    /// one; `None` only if the route has no targets.
    pub fn next_target(&mut self) -> (r: Option<&Target>)
        ensures
            match r {
                Some(t) => {
                    &&& old(self)@.targets.len() > 0
                    &&& t@ == old(self)@.targets[picked(old(self)@.targets, old(self)@.next)]
                    &&& final(self)@ == (RouteText {
                        next: counter_after(old(self)@.targets, old(self)@.next),
                        ..old(self)@
                    })
                },
                None => old(self)@.targets.len() == 0 && final(self)@ == old(self)@,
            },
    {
        match self.next_index() {
            Some(i) => Some(&self.targets[i]),
            None => None,
        }
    }

    /// The place of the target that is picked next.
    fn next_index(&mut self) -> (r: Option<usize>)
        ensures
            final(self).targets == old(self).targets,
            match r {
                Some(i) => {
                    &&& old(self)@.targets.len() > 0
                    &&& i == picked(old(self)@.targets, old(self)@.next)
                    &&& i < final(self).targets.len()
                    &&& final(self)@ == (RouteText {
                        next: counter_after(old(self)@.targets, old(self)@.next),
                        ..old(self)@
                    })
                },
                None => old(self)@.targets.len() == 0 && final(self)@ == old(self)@,
            },
    {
        let count: usize = self.targets.len();
        if count == 0 {
            return None;
        }
        let ghost ts = self@.targets;
        let ghost start = self.next;
        let mut k: usize = 0;
        proof {
            lemma_small_mod(start as nat, counter_range() as nat);
        }
        while k < count
            invariant
                k <= count,
                0 < count,
                count == ts.len(),
                count == self.targets.len(),
                ts == target_texts(self.targets@),
                self.targets == old(self).targets,
                old(self)@.targets == ts,
                old(self)@.next == start,
                self@ == (RouteText { next: self.next, ..old(self)@ }),
                self.next == (start + k) % counter_range(),
                first_healthy(ts, start, 0) == first_healthy(ts, start, k as int),
            decreases count - k,
        {
            let index: usize = self.next % count;
            assert(index == slot(start, k as int, count as int));
            assert(ts[index as int] == self.targets@[index as int]@);
            proof {
                lemma_wrapping_step(start, k as int);
            }
            self.next = self.next.wrapping_add(1);
            if self.targets[index].is_healthy() {
                assert(first_healthy(ts, start, 0) == k);
                return Some(index);
            }
            k = k + 1;
        }
        let index: usize = self.next % count;
        proof {
            lemma_wrapping_step(start, k as int);
        }
        self.next = self.next.wrapping_add(1);
        Some(index)
    }

    /// Whether the route accepts a request.
    fn matches(&self, host: Option<&str>, path: &str) -> (r: bool)
        ensures
            r == accepts(self@, maybe(host), path@),
    {
        self.host_matches(host) && self.path_matches(path)
    }

    fn host_matches(&self, host: Option<&str>) -> (r: bool)
        ensures
            r == (self@.host is Some ==> maybe(host) is Some && same_ignoring_case(
                maybe(host)->0,
                self@.host->0,
            )),
    {
        match &self.host {
            None => true,
            Some(expected) => match host {
                Some(h) => same_ignore_case(h, expected.as_str()),
                None => false,
            },
        }
    }

    fn path_matches(&self, path: &str) -> (r: bool)
        ensures
            r == (self@.path_prefix is Some ==> under_prefix(path@, self@.path_prefix->0)),
    {
        match &self.path_prefix {
            None => true,
            Some(prefix) => path_under_prefix(path, prefix.as_str()),
        }
    }
}

proof fn lemma_wrapping_step(start: usize, k: int)
    requires
        0 <= k,
    ensures
        (start + k + 1) % counter_range() == (if (start + k) % counter_range() == usize::MAX {
            0
        } else {
            (start + k) % counter_range() + 1
        }),
        0 <= (start + k) % counter_range() <= usize::MAX,
{
    let range = counter_range();
    let m = (start + k) % range;
    lemma_add_mod_noop_right(1, start + k, range);
    lemma_mod_bound(start + k, range);
    if m == usize::MAX {
        lemma_mod_self_0(range);
    } else {
        lemma_small_mod((m + 1) as nat, range as nat);
    }
}

/// The views of a list of routes.
pub open spec fn route_texts(routes: Seq<Route>) -> Seq<RouteText> {
    routes.map_values(|r: Route| r@)
}

/// The place of the first route that accepts a request.
pub open spec fn route_for(
    routes: Seq<RouteText>,
    host: Option<Seq<char>>,
    path: Seq<char>,
) -> Option<int>
    decreases routes.len(),
{
    if routes.len() == 0 {
        None
    } else if accepts(routes[0], host, path) {
        Some(0)
    } else {
        match route_for(routes.skip(1), host, path) {
            Some(i) => Some(i + 1),
            None => None,
        }
    }
}

/// Names one target of a router, for its health to be updated.
#[derive(Clone, Copy, Debug, PartialEq, Eq, Structural)]
pub struct HealthHandle {
    pub route: usize,
    pub target: usize,
}

/// Every target's address and handle, route by route.
pub open spec fn probes(routes: Seq<RouteText>) -> Seq<(Seq<char>, HealthHandle)>
    decreases routes.len(),
{
    if routes.len() == 0 {
        Seq::empty()
    } else {
        let at = (routes.len() - 1) as usize;
        probes(routes.drop_last()) + Seq::new(
            routes.last().targets.len(),
            |j: int|
                (
                    routes.last().targets[j].address,
                    HealthHandle { route: at, target: j as usize },
                ),
        )
    }
}

/// The views of a list of probes.
pub open spec fn probe_texts(probes: Seq<(String, HealthHandle)>) -> Seq<
    (Seq<char>, HealthHandle),
> {
    probes.map_values(|p: (String, HealthHandle)| (p.0@, p.1))
}

/// The routes with the health of one target changed; unchanged where there is
/// no such target.
pub open spec fn with_health(
    routes: Seq<RouteText>,
    handle: HealthHandle,
    healthy: bool,
) -> Seq<RouteText> {
    let i = handle.route as int;
    let j = handle.target as int;
    if i < routes.len() && j < routes[i].targets.len() {
        let target = TargetText { healthy, ..routes[i].targets[j] };
        routes.update(i, RouteText { targets: routes[i].targets.update(j, target), ..routes[i] })
    } else {
        routes
    }
}

/// An ordered set of routes. The first route that matches a request wins.
#[derive(Debug)]
pub struct Router {
    routes: Vec<Route>,
}

impl View for Router {
    type V = Seq<RouteText>;

    closed spec fn view(&self) -> Seq<RouteText> {
        route_texts(self.routes@)
    }
}

impl Default for Router {
    /// A router without routes.
    fn default() -> (r: Router)
        ensures
            r@ == Seq::<RouteText>::empty(),
    {
        Router::new(Vec::new())
    }
}

impl Router {
    /// A router of routes in priority order.
    pub fn new(routes: Vec<Route>) -> (r: Router)
        ensures
            r@ == route_texts(routes@),
    {
        Router { routes }
    }

    /// The place of the first route that accepts the request.
    pub fn match_index(&self, host: Option<&str>, path: &str) -> (r: Option<usize>)
        ensures
            match r {
                Some(i) => i < self@.len() && route_for(self@, maybe(host), path@) == Some(
                    i as int,
                ),
                None => route_for(self@, maybe(host), path@) is None,
            },
    {
        let ghost all = self@;
        let mut i: usize = 0;
        assert(all.skip(0) =~= all);
        while i < self.routes.len()
            invariant
                i <= self.routes.len(),
                all == self@,
                route_for(all, maybe(host), path@) == (match route_for(
                    all.skip(i as int),
                    maybe(host),
                    path@,
                ) {
                    Some(k) => Some(k + i),
                    None => None,
                }),
            decreases self.routes.len() - i,
        {
            assert(all[i as int] == self.routes@[i as int]@);
            assert(all.skip(i as int)[0] == all[i as int]);
            assert(all.skip(i as int).skip(1) =~= all.skip(i + 1));
            if self.routes[i].matches(host, path) {
                return Some(i);
            }
            i = i + 1;
        }
        None
    }

    /// The first route whose host and path matchers accept the request.
    pub fn match_route(&self, host: Option<&str>, path: &str) -> (r: Option<&Route>)
        ensures
            match r {
                Some(route) => route_for(self@, maybe(host), path@) matches Some(i) && route@
                    == self@[i],
                None => route_for(self@, maybe(host), path@) is None,
            },
    {
        match self.match_index(host, path) {
            Some(i) => Some(&self.routes[i]),
            None => None,
        }
    }

    /// The route at a place, to pick a target from.
    pub fn route_mut(&mut self, i: usize) -> (r: &mut Route)
        requires
            i < old(self)@.len(),
        ensures
            r@ == old(self)@[i as int],
            final(self)@ == old(self)@.update(i as int, final(r)@),
    {
        &mut self.routes[i]
    }

    /// Picks the next target of the route at a place.
    pub fn pick(&mut self, i: usize) -> (r: Option<Endpoint>)
        requires
            i < old(self)@.len(),
        ensures
            maybe_endpoint(r) == pick_target(old(self)@, Some(i as int)),
            final(self)@ == after_pick(old(self)@, Some(i as int)),
    {
        let route = self.route_mut(i);
        let r = match route.next_target() {
            Some(t) => Some(t.endpoint()),
            None => None,
        };
        assert(old(self)@.update(i as int, old(self)@[i as int]) =~= old(self)@);
        r
    }

    /// Picks the next target of the route at a place, if there is one.
    pub fn pick_at(&mut self, at: Option<usize>) -> (r: Option<Endpoint>)
        requires
            at matches Some(i) ==> i < old(self)@.len(),
        ensures
            maybe_endpoint(r) == pick_target(old(self)@, place(at)),
            final(self)@ == after_pick(old(self)@, place(at)),
    {
        match at {
            Some(i) => self.pick(i),
            None => None,
        }
    }

    /// The route at a place.
    pub fn route(&self, i: usize) -> (r: &Route)
        requires
            i < self@.len(),
        ensures
            r@ == self@[i as int],
    {
        &self.routes[i]
    }

    /// The places of all routes and targets of a router can be counted.
    pub proof fn law_countable(&self)
        ensures
            countable(self@),
    {
        assert(self.routes.len() == self@.len());
        assert forall|i: int| 0 <= i < self@.len() implies (#[trigger] self@[i]).targets.len()
            <= usize::MAX by {
            let route = self.routes@[i];
            assert(self@[i] == route@);
            assert(route.targets.len() == route@.targets.len());
        }
    }

    /// Every target's address with a handle to update its health.
    pub fn health_probes(&self) -> (r: Vec<(String, HealthHandle)>)
        ensures
            probe_texts(r@) == probes(self@),
            countable(self@),
    {
        let ghost all = self@;
        let mut out: Vec<(String, HealthHandle)> = Vec::new();
        let mut i: usize = 0;
        assert(probe_texts(out@) =~= probes(all.take(0)));
        while i < self.routes.len()
            invariant
                i <= self.routes.len(),
                all == self@,
                probe_texts(out@) == probes(all.take(i as int)),
            decreases self.routes.len() - i,
        {
            let ghost front = probe_texts(out@);
            let ghost ts = all[i as int].targets;
            assert(all[i as int] == self.routes@[i as int]@);
            assert(all.take(i + 1).drop_last() =~= all.take(i as int));
            assert(all.take(i + 1).last() == all[i as int]);
            let mut j: usize = 0;
            while j < self.routes[i as usize].targets.len()
                invariant
                    i < self.routes.len(),
                    j <= self.routes@[i as int].targets.len(),
                    ts == target_texts(self.routes@[i as int].targets@),
                    probe_texts(out@) == front + Seq::new(
                        j as nat,
                        |k: int| (ts[k].address, HealthHandle { route: i, target: k as usize }),
                    ),
                decreases self.routes@[i as int].targets.len() - j,
            {
                let ghost o = out@;
                let target = &self.routes[i].targets[j];
                assert(ts[j as int] == target@);
                let handle = HealthHandle { route: i, target: j };
                out.push((target.address.clone(), handle));
                assert(probe_texts(out@) =~= probe_texts(o).push((target.address@, handle)));
                j = j + 1;
                assert(probe_texts(out@) =~= front + Seq::new(
                    j as nat,
                    |k: int| (ts[k].address, HealthHandle { route: i, target: k as usize }),
                ));
            }
            assert(probe_texts(out@) =~= probes(all.take(i + 1)));
            i = i + 1;
        }
        assert(all.take(i as int) =~= all);
        proof {
            self.law_countable();
        }
        out
    }

    /// Updates the health of one target.
    pub fn set_health(&mut self, handle: &HealthHandle, healthy: bool)
        ensures
            final(self)@ == with_health(old(self)@, *handle, healthy),
    {
        let i: usize = handle.route;
        let j: usize = handle.target;
        if i < self.routes.len() {
            assert(self@[i as int] == self.routes@[i as int]@);
            if j < self.routes[i].targets.len() {
                let ghost r0 = self.routes@[i as int];
                self.routes[i].targets[j].healthy = healthy;
                proof {
                    let r1 = self.routes@[i as int];
                    assert(r1@.targets =~= r0@.targets.update(
                        j as int,
                        TargetText { healthy, ..r0@.targets[j as int] },
                    ));
                    assert(self@ =~= with_health(old(self)@, *handle, healthy));
                }
            }
        }
    }
}

/// The place of an optional index.
pub open spec fn place(at: Option<usize>) -> Option<int> {
    match at {
        Some(i) => Some(i as int),
        None => None,
    }
}

/// The view of an optional endpoint.
pub open spec fn maybe_endpoint(t: Option<Endpoint>) -> Option<EndpointText> {
    match t {
        Some(t) => Some(t@),
        None => None,
    }
}

/// The target that a pick at a route gives; none without a route, or where it
/// has no targets.
pub open spec fn pick_target(routes: Seq<RouteText>, at: Option<int>) -> Option<EndpointText> {
    match at {
        Some(i) => if routes[i].targets.len() == 0 {
            None
        } else {
            Some(endpoint_of(routes[i].targets[picked(routes[i].targets, routes[i].next)]))
        },
        None => None,
    }
}

/// The routes after a pick at one of them: its counter has moved.
pub open spec fn after_pick(routes: Seq<RouteText>, at: Option<int>) -> Seq<RouteText> {
    match at {
        Some(i) => if routes[i].targets.len() == 0 {
            routes
        } else {
            routes.update(
                i,
                RouteText {
                    next: counter_after(routes[i].targets, routes[i].next),
                    ..routes[i]
                },
            )
        },
        None => routes,
    }
}

/// The first match wins: a route is found if and only if one accepts the
/// request, and no earlier route does.
pub proof fn law_first_match_wins(
    routes: Seq<RouteText>,
    host: Option<Seq<char>>,
    path: Seq<char>,
)
    ensures
        match route_for(routes, host, path) {
            Some(i) => 0 <= i < routes.len() && accepts(routes[i], host, path) && forall|j: int|
                0 <= j < i ==> !accepts(#[trigger] routes[j], host, path),
            None => forall|j: int|
                0 <= j < routes.len() ==> !accepts(#[trigger] routes[j], host, path),
        },
    decreases routes.len(),
{
    if routes.len() > 0 && !accepts(routes[0], host, path) {
        let rest = routes.skip(1);
        law_first_match_wins(rest, host, path);
        match route_for(rest, host, path) {
            Some(i) => {
                assert(routes[i + 1] == rest[i]);
                assert forall|j: int| 0 <= j < i + 1 implies !accepts(
                    #[trigger] routes[j],
                    host,
                    path,
                ) by {
                    if j > 0 {
                        assert(routes[j] == rest[j - 1]);
                    }
                }
            },
            None => {
                assert forall|j: int| 0 <= j < routes.len() implies !accepts(
                    #[trigger] routes[j],
                    host,
                    path,
                ) by {
                    if j > 0 {
                        assert(routes[j] == rest[j - 1]);
                    }
                }
            },
        }
    }
}

proof fn lemma_first_healthy(targets: Seq<TargetText>, next: usize, k: int)
    requires
        0 <= k <= targets.len(),
    ensures
        k <= first_healthy(targets, next, k) <= targets.len(),
        first_healthy(targets, next, k) < targets.len() ==> targets[slot(
            next,
            first_healthy(targets, next, k),
            targets.len() as int,
        )].healthy,
        forall|m: int|
            k <= m < first_healthy(targets, next, k) ==> !targets[#[trigger] slot(
                next,
                m,
                targets.len() as int,
            )].healthy,
    decreases targets.len() - k,
{
    if k < targets.len() && !targets[slot(next, k, targets.len() as int)].healthy {
        lemma_first_healthy(targets, next, k + 1);
    }
}

/// While every target is healthy, the targets take turns: a pick takes the
/// target that the counter names and moves the counter by one.
pub proof fn law_round_robin(targets: Seq<TargetText>, next: usize)
    requires
        targets.len() > 0,
        forall|i: int| 0 <= i < targets.len() ==> (#[trigger] targets[i]).healthy,
    ensures
        picked(targets, next) == next as int % targets.len() as int,
        counter_after(targets, next) == (next + 1) % counter_range(),
{
    lemma_small_mod(next as nat, counter_range() as nat);
    let i = slot(next, 0, targets.len() as int);
    assert(0 <= i < targets.len());
    assert(targets[i].healthy);
}

/// Whether `n` tries in a row meet the targets in turn: the counter does not
/// wrap around on the way, or does so at the end of a turn.
pub open spec fn unbroken(next: usize, n: int) -> bool {
    next + n <= counter_range() || counter_range() % n == 0
}

proof fn lemma_unbroken_slot(next: usize, k: int, n: int)
    requires
        0 <= k < n,
        unbroken(next, n),
    ensures
        slot(next, k, n) == (next + k) % n,
{
    if next + n <= counter_range() {
        lemma_small_mod((next + k) as nat, counter_range() as nat);
    } else {
        let q = counter_range() / n;
        lemma_fundamental_div_mod(counter_range(), n);
        assert(q > 0) by (nonlinear_arith)
            requires
                n * q > 0,
                n > 0,
        ;
        lemma_mod_mod(next + k, n, q);
    }
}

/// Among as many picks in a row as there are targets, all healthy, each target
/// is picked once. Where the counter wraps around within a turn, two of them
/// meet the same target.
pub proof fn law_turns_are_fair(n: int, next: usize, a: int, b: int)
    requires
        0 <= a < b < n,
        unbroken(next, n),
    ensures
        slot(next, a, n) != slot(next, b, n),
{
    lemma_unbroken_slot(next, a, n);
    lemma_unbroken_slot(next, b, n);
    lemma_turns_differ(n, next as int, a, b);
}

proof fn lemma_turns_differ(n: int, start: int, a: int, b: int)
    requires
        0 <= a < b < n,
    ensures
        (start + a) % n != (start + b) % n,
{
    let x = start + a;
    let y = start + b;
    if x % n == y % n {
        lemma_fundamental_div_mod(x, n);
        lemma_fundamental_div_mod(y, n);
        assert(y - x == n * (y / n - x / n)) by (nonlinear_arith)
            requires
                x == n * (x / n) + x % n,
                y == n * (y / n) + y % n,
                x % n == y % n,
        ;
        assert(false) by (nonlinear_arith)
            requires
                y - x == n * (y / n - x / n),
                0 < y - x < n,
        ;
    }
}

/// Whether one of as many tries as there are targets meets the target at a
/// place.
pub open spec fn tried(next: usize, n: int, place: int) -> bool {
    exists|k: int| 0 <= k < n && #[trigger] slot(next, k, n) == place
}

/// Every target is tried, unless the counter wraps around within a turn.
pub proof fn law_every_target_is_tried(next: usize, n: int, place: int)
    requires
        0 <= place < n,
        unbroken(next, n),
    ensures
        tried(next, n, place),
{
    let r = next as int % n;
    let k = if place >= r {
        place - r
    } else {
        place - r + n
    };
    lemma_fundamental_div_mod(next as int, n);
    let q = next as int / n;
    if place >= r {
        assert(next + k == q * n + place) by (nonlinear_arith)
            requires
                next == n * q + r,
                k == place - r,
        ;
        lemma_fundamental_div_mod_converse(next + k, n, q, place);
    } else {
        assert(next + k == (q + 1) * n + place) by (nonlinear_arith)
            requires
                next == n * q + r,
                k == place - r + n,
        ;
        lemma_fundamental_div_mod_converse(next + k, n, q + 1, place);
    }
    lemma_unbroken_slot(next, k, n);
    assert(slot(next, k, n) == place);
}

/// A healthy target is picked whenever one that is healthy is tried.
pub proof fn law_healthy_target_preferred(targets: Seq<TargetText>, next: usize, good: int)
    requires
        0 <= good < targets.len(),
        targets[good].healthy,
        tried(next, targets.len() as int, good),
    ensures
        0 <= picked(targets, next) < targets.len(),
        targets[picked(targets, next)].healthy,
{
    let n = targets.len() as int;
    lemma_first_healthy(targets, next, 0);
    let k = choose|k: int| 0 <= k < n && #[trigger] slot(next, k, n) == good;
    if first_healthy(targets, next, 0) == n {
        assert(!targets[slot(next, k, n)].healthy);
    }
}

/// The counter after `k` picks in a row.
pub open spec fn counter_at(targets: Seq<TargetText>, next: usize, k: nat) -> usize
    decreases k,
{
    if k == 0 {
        next
    } else {
        counter_after(targets, counter_at(targets, next, (k - 1) as nat))
    }
}

/// The target that the `k`-th of several picks in a row takes.
pub open spec fn pick_at(targets: Seq<TargetText>, next: usize, k: nat) -> int {
    picked(targets, counter_at(targets, next, k))
}

/// How many of the first `k` tries meet a healthy target.
pub open spec fn healthy_tries(targets: Seq<TargetText>, next: usize, k: nat) -> nat
    decreases k,
{
    if k == 0 {
        0
    } else {
        healthy_tries(targets, next, (k - 1) as nat) + if targets[slot(
            next,
            k - 1,
            targets.len() as int,
        )].healthy {
            1nat
        } else {
            0nat
        }
    }
}

proof fn lemma_healthy_tries_grow(targets: Seq<TargetText>, next: usize, a: nat, b: nat)
    requires
        a <= b,
    ensures
        healthy_tries(targets, next, a) <= healthy_tries(targets, next, b),
        a < b && targets[slot(next, a as int, targets.len() as int)].healthy ==> healthy_tries(
            targets,
            next,
            a,
        ) < healthy_tries(targets, next, b),
    decreases b - a,
{
    if a < b {
        lemma_healthy_tries_grow(targets, next, a + 1, b);
    }
}

proof fn lemma_unhealthy_tries(targets: Seq<TargetText>, next: usize, a: nat, b: nat)
    requires
        a <= b,
        forall|m: int|
            a <= m < b ==> !targets[#[trigger] slot(next, m, targets.len() as int)].healthy,
    ensures
        healthy_tries(targets, next, a) == healthy_tries(targets, next, b),
    decreases b - a,
{
    if a < b {
        assert(!targets[slot(next, b - 1, targets.len() as int)].healthy);
        lemma_unhealthy_tries(targets, next, a, (b - 1) as nat);
    }
}

/// A try from a counter that has moved is a later try from where it was.
proof fn lemma_moved_slot(next: usize, a: int, k: int, n: int)
    requires
        0 <= a,
        0 <= k,
    ensures
        0 <= (next + a) % counter_range() <= usize::MAX,
        slot(((next + a) % counter_range()) as usize, k, n) == slot(next, a + k, n),
{
    lemma_mod_bound(next + a, counter_range());
    lemma_add_mod_noop_right(k, next + a, counter_range());
}

/// The try with which the `k`-th of several picks in a row meets its target,
/// counted from the first pick on.
proof fn lemma_pick_offset(targets: Seq<TargetText>, next: usize, k: nat) -> (o: nat)
    requires
        k < healthy_tries(targets, next, targets.len()),
    ensures
        o < targets.len(),
        pick_at(targets, next, k) == slot(next, o as int, targets.len() as int),
        targets[slot(next, o as int, targets.len() as int)].healthy,
        healthy_tries(targets, next, o) == k,
        counter_at(targets, next, k + 1) == (next + o + 1) % counter_range(),
    decreases k,
{
    let n = targets.len() as int;
    let base: nat = if k == 0 {
        0
    } else {
        lemma_pick_offset(targets, next, (k - 1) as nat) + 1
    };
    let c = counter_at(targets, next, k);
    if k == 0 {
        lemma_small_mod(next as nat, counter_range() as nat);
    }
    assert(c == (next + base) % counter_range());
    assert(healthy_tries(targets, next, base) == k);
    lemma_first_healthy(targets, c, 0);
    let f = first_healthy(targets, c, 0);
    lemma_moved_slot(next, base as int, f, n);
    let o = (base + f) as nat;
    assert forall|m: int| base <= m < o implies !targets[#[trigger] slot(next, m, n)].healthy by {
        lemma_moved_slot(next, base as int, m - base, n);
        assert(!targets[slot(c, m - base, n)].healthy);
    }
    lemma_unhealthy_tries(targets, next, base, o);
    if o >= n {
        lemma_healthy_tries_grow(targets, next, n as nat, o);
        assert(false);
    }
    assert(counter_at(targets, next, k + 1) == counter_after(targets, c));
    lemma_moved_slot(next, base as int, f + 1, n);
    lemma_add_mod_noop_right(f + 1, next + base, counter_range());
    o
}

/// Picks in a row, as many as there are healthy targets, visit each healthy
/// target once, whatever the health of the others, and no other.
pub proof fn law_healthy_targets_take_turns(targets: Seq<TargetText>, next: usize, good: int) -> (
    turn: nat)
    requires
        0 <= good < targets.len(),
        targets[good].healthy,
        unbroken(next, targets.len() as int),
    ensures
        turn < healthy_count(targets),
        pick_at(targets, next, turn) == good,
        forall|k: nat|
            k < healthy_count(targets) ==> {
                &&& 0 <= #[trigger] pick_at(targets, next, k) < targets.len()
                &&& targets[pick_at(targets, next, k)].healthy
                &&& pick_at(targets, next, k) == good ==> k == turn
            },
{
    let n = targets.len() as int;
    law_a_turn_meets_every_healthy_target(targets, next);
    law_every_target_is_tried(next, n, good);
    let g = choose|g: int| 0 <= g < n && #[trigger] slot(next, g, n) == good;
    let turn = healthy_tries(targets, next, g as nat);
    lemma_healthy_tries_grow(targets, next, g as nat, n as nat);
    let o = lemma_pick_offset(targets, next, turn);
    if o < g {
        lemma_healthy_tries_grow(targets, next, o, g as nat);
    } else if g < o {
        lemma_healthy_tries_grow(targets, next, g as nat, o);
    }
    assert forall|k: nat| k < healthy_count(targets) implies {
        &&& 0 <= #[trigger] pick_at(targets, next, k) < targets.len()
        &&& targets[pick_at(targets, next, k)].healthy
        &&& pick_at(targets, next, k) == good ==> k == turn
    } by {
        let p = lemma_pick_offset(targets, next, k);
        lemma_mod_bound((next + p) % counter_range(), n);
        if pick_at(targets, next, k) == good && p != g {
            if p < g {
                law_turns_are_fair(n, next, p as int, g);
            } else {
                law_turns_are_fair(n, next, g, p as int);
            }
        }
    }
    turn
}

/// How many of the targets are healthy.
pub open spec fn healthy_count(targets: Seq<TargetText>) -> nat
    decreases targets.len(),
{
    if targets.len() == 0 {
        0
    } else {
        healthy_count(targets.drop_last()) + if targets.last().healthy {
            1nat
        } else {
            0nat
        }
    }
}

/// How many of `k` targets from `start` on, in turn, are healthy.
spec fn healthy_from(targets: Seq<TargetText>, start: int, k: nat) -> nat
    decreases k,
{
    if k == 0 {
        0
    } else {
        healthy_from(targets, start, (k - 1) as nat) + if targets[(start + k - 1)
            % targets.len() as int].healthy {
            1nat
        } else {
            0nat
        }
    }
}

proof fn lemma_healthy_from_next(targets: Seq<TargetText>, start: int, k: nat)
    ensures
        healthy_from(targets, start, k + 1) == healthy_from(targets, start + 1, k) + (
        if targets[start % targets.len() as int].healthy {
            1nat
        } else {
            0nat
        }),
    decreases k,
{
    if k == 0 {
        assert(healthy_from(targets, start, 1) == healthy_from(targets, start, 0) + (
        if targets[(start + 1 - 1) % targets.len() as int].healthy {
            1nat
        } else {
            0nat
        }));
    } else {
        lemma_healthy_from_next(targets, start, (k - 1) as nat);
    }
}

proof fn lemma_healthy_from(targets: Seq<TargetText>, start: nat)
    requires
        targets.len() > 0,
    ensures
        healthy_from(targets, start as int, targets.len()) == healthy_from(
            targets,
            0,
            targets.len(),
        ),
    decreases start,
{
    if start > 0 {
        let n = targets.len();
        let s = start - 1;
        lemma_healthy_from(targets, s as nat);
        lemma_healthy_from_next(targets, s, n);
        lemma_mod_add_multiples_vanish(s, n as int);
        assert((s + (n + 1) - 1) % n as int == s % n as int);
    }
}

proof fn lemma_healthy_prefix(targets: Seq<TargetText>, k: nat)
    requires
        k <= targets.len(),
    ensures
        healthy_from(targets, 0, k) == healthy_count(targets.take(k as int)),
    decreases k,
{
    if k > 0 {
        lemma_healthy_prefix(targets, (k - 1) as nat);
        lemma_small_mod((k - 1) as nat, targets.len());
        assert(targets.take(k as int).drop_last() =~= targets.take(k - 1));
    }
}

proof fn lemma_tries_from(targets: Seq<TargetText>, next: usize, k: nat)
    requires
        k <= targets.len(),
        unbroken(next, targets.len() as int),
    ensures
        healthy_tries(targets, next, k) == healthy_from(targets, next as int, k),
    decreases k,
{
    if k > 0 {
        lemma_tries_from(targets, next, (k - 1) as nat);
        lemma_unbroken_slot(next, k - 1, targets.len() as int);
        assert(next as int + k - 1 == next + (k - 1));
    }
}

/// One turn of tries meets each healthy target: as many tries meet one as there
/// are.
pub proof fn law_a_turn_meets_every_healthy_target(targets: Seq<TargetText>, next: usize)
    requires
        targets.len() > 0,
        unbroken(next, targets.len() as int),
    ensures
        healthy_tries(targets, next, targets.len()) == healthy_count(targets),
{
    lemma_tries_from(targets, next, targets.len());
    lemma_healthy_from(targets, next as nat);
    lemma_healthy_prefix(targets, targets.len());
    assert(targets.take(targets.len() as int) =~= targets);
}

/// Whether `n` picks in a row, none of which meets a healthy target, take the
/// targets in turn: the counter, which every pick moves by one more than there
/// are targets, does not wrap around on the way, or does so at the end of a
/// turn.
pub open spec fn unbroken_picks(next: usize, n: int) -> bool {
    next + n * (n + 1) <= counter_range() || counter_range() % n == 0
}

proof fn lemma_unhealthy_pick(targets: Seq<TargetText>, next: usize, k: nat)
    requires
        0 <= k < targets.len(),
        forall|i: int| 0 <= i < targets.len() ==> !(#[trigger] targets[i]).healthy,
        unbroken_picks(next, targets.len() as int),
    ensures
        counter_at(targets, next, k) == (next + k * (targets.len() + 1)) % counter_range(),
        pick_at(targets, next, k) == (next + k) % targets.len() as int,
    decreases k,
{
    let n = targets.len() as int;
    if k == 0 {
        lemma_small_mod(next as nat, counter_range() as nat);
        assert(k * (n + 1) == 0) by (nonlinear_arith)
            requires
                k == 0,
        ;
    } else {
        lemma_unhealthy_pick(targets, next, (k - 1) as nat);
        let before = (k - 1) * (n + 1);
        assert(before >= 0) by (nonlinear_arith)
            requires
                k >= 1,
                n >= 0,
                before == (k - 1) * (n + 1),
        ;
        let c = counter_at(targets, next, (k - 1) as nat);
        lemma_all_tries_fail(targets, c);
        assert(k * (n + 1) == before + n + 1) by (nonlinear_arith)
            requires
                before == (k - 1) * (n + 1),
        ;
        lemma_add_mod_noop_right(n + 1, next + before, counter_range());
    }
    let moved = k * (n + 1);
    assert(0 <= moved && moved + n < n * (n + 1)) by (nonlinear_arith)
        requires
            0 <= k <= n - 1,
            moved == k * (n + 1),
    ;
    let c = counter_at(targets, next, k);
    lemma_all_tries_fail(targets, c);
    lemma_moved_slot(next, moved, n, n);
    let x = next + moved + n;
    assert(slot(c, n, n) == (x % counter_range()) % n);
    if next + n * (n + 1) <= counter_range() {
        lemma_small_mod(x as nat, counter_range() as nat);
    } else {
        let q = counter_range() / n;
        lemma_fundamental_div_mod(counter_range(), n);
        assert(q > 0) by (nonlinear_arith)
            requires
                n * q > 0,
                n > 0,
        ;
        lemma_mod_mod(x, n, q);
    }
    assert(x == n * (k + 1) + (next + k)) by (nonlinear_arith)
        requires
            x == next + moved + n,
            moved == k * (n + 1),
    ;
    lemma_mod_multiples_vanish((k + 1) as int, next + k, n);
}

proof fn lemma_all_tries_fail(targets: Seq<TargetText>, next: usize)
    requires
        targets.len() > 0,
        forall|i: int| 0 <= i < targets.len() ==> !(#[trigger] targets[i]).healthy,
    ensures
        first_healthy(targets, next, 0) == targets.len(),
{
    lemma_first_healthy(targets, next, 0);
    let f = first_healthy(targets, next, 0);
    if f < targets.len() {
        let at = slot(next, f, targets.len() as int);
        lemma_mod_bound((next + f) % counter_range(), targets.len() as int);
        assert(!targets[at].healthy);
    }
}

/// While no target is healthy, traffic still flows, and the targets take turns:
/// picks in a row, as many as there are targets, take each target once.
pub proof fn law_unhealthy_targets_take_turns(
    targets: Seq<TargetText>,
    next: usize,
    place: int,
) -> (turn: nat)
    requires
        0 <= place < targets.len(),
        forall|i: int| 0 <= i < targets.len() ==> !(#[trigger] targets[i]).healthy,
        unbroken_picks(next, targets.len() as int),
    ensures
        turn < targets.len(),
        pick_at(targets, next, turn) == place,
        forall|k: nat|
            k < targets.len() ==> {
                &&& 0 <= #[trigger] pick_at(targets, next, k) < targets.len()
                &&& pick_at(targets, next, k) == place ==> k == turn
            },
{
    let n = targets.len() as int;
    let r = next as int % n;
    let turn: nat = if place >= r {
        (place - r) as nat
    } else {
        (place - r + n) as nat
    };
    lemma_fundamental_div_mod(next as int, n);
    let q = next as int / n;
    if place >= r {
        assert(next + turn == q * n + place) by (nonlinear_arith)
            requires
                next == n * q + r,
                turn == place - r,
        ;
        lemma_fundamental_div_mod_converse(next + turn, n, q, place);
    } else {
        assert(next + turn == (q + 1) * n + place) by (nonlinear_arith)
            requires
                next == n * q + r,
                turn == place - r + n,
        ;
        lemma_fundamental_div_mod_converse(next + turn, n, q + 1, place);
    }
    lemma_unhealthy_pick(targets, next, turn);
    assert forall|k: nat| k < targets.len() implies {
        &&& 0 <= #[trigger] pick_at(targets, next, k) < targets.len()
        &&& pick_at(targets, next, k) == place ==> k == turn
    } by {
        lemma_unhealthy_pick(targets, next, k);
        lemma_mod_bound(next + k, n);
        if k < turn {
            lemma_turns_differ(n, next as int, k as int, turn as int);
        } else if turn < k {
            lemma_turns_differ(n, next as int, turn as int, k as int);
        }
    }
    turn
}

/// Whatever the targets' health, a pick takes one of them.
pub proof fn law_pick_is_a_target(targets: Seq<TargetText>, next: usize)
    requires
        targets.len() > 0,
    ensures
        0 <= picked(targets, next) < targets.len(),
{
}

/// A path that a route accepted is forwarded as a path that starts with `/`.
pub proof fn law_rewritten_path_is_rooted(
    route: RouteText,
    host: Option<Seq<char>>,
    path: Seq<char>,
)
    requires
        accepts(route, host, path),
        path.len() > 0 && path[0] == '/',
        rewritten(route, path) is Some,
    ensures
        (rewritten(route, path)->0).len() > 0,
        (rewritten(route, path)->0)[0] == '/',
{
    let p = without_trailing(route.path_prefix->0, '/');
    let n = p.len() as int;
    if n == 0 {
        assert(path.skip(0) =~= path);
    } else if starts(path, p.push('/')) {
        assert(path.take(n + 1)[n] == '/');
    } else {
        assert(path.skip(n).len() == 0);
    }
}

/// A prefix accepts a path of another first segment only where it is empty: the
/// prefix `/v1` does not accept `/v10`.
pub proof fn law_prefix_ends_at_a_segment(path: Seq<char>, prefix: Seq<char>, c: char)
    requires
        prefix.len() > 0,
        prefix.last() != '/',
        starts(path, prefix.push(c)),
        c != '/',
    ensures
        !under_prefix(path, prefix),
{
    let n = prefix.len() as int;
    assert(path.take(n + 1)[n] == c);
    if starts(path, prefix.push('/')) {
        assert(path.take(n + 1)[n] == '/');
    }
}

/// The targets of all routes, route by route.
pub open spec fn all_targets(routes: Seq<RouteText>) -> Seq<TargetText>
    decreases routes.len(),
{
    if routes.len() == 0 {
        Seq::empty()
    } else {
        all_targets(routes.drop_last()) + routes.last().targets
    }
}

/// Whether the places of all routes and targets can be counted.
pub open spec fn countable(routes: Seq<RouteText>) -> bool {
    &&& routes.len() <= usize::MAX
    &&& forall|i: int| 0 <= i < routes.len() ==> (#[trigger] routes[i]).targets.len() <= usize::MAX
}

/// There is one probe for each target, in order. Setting the health by the
/// `j`-th probe changes the health of the `j`-th target, and nothing else.
pub proof fn law_probe_sets_its_target_alone(routes: Seq<RouteText>, j: int, healthy: bool)
    requires
        countable(routes),
        0 <= j < probes(routes).len(),
    ensures
        probes(routes).len() == all_targets(routes).len(),
        probes(routes)[j].0 == all_targets(routes)[j].address,
        probes(routes)[j].1.route < routes.len(),
        probes(routes)[j].1.target < routes[probes(routes)[j].1.route as int].targets.len(),
        all_targets(with_health(routes, probes(routes)[j].1, healthy)) == all_targets(
            routes,
        ).update(j, TargetText { healthy, ..all_targets(routes)[j] }),
        with_health(routes, probes(routes)[j].1, healthy).len() == routes.len(),
        forall|i: int|
            0 <= i < routes.len() ==> {
                let changed = #[trigger] with_health(routes, probes(routes)[j].1, healthy)[i];
                changed == (RouteText { targets: changed.targets, ..routes[i] })
            },
    decreases routes.len(),
{
    let front = routes.drop_last();
    let last = routes.last();
    lemma_probe_count(front);
    assert forall|i: int| 0 <= i < front.len() implies (#[trigger] front[i]).targets.len()
        <= usize::MAX by {
        assert(front[i] == routes[i]);
    }
    assert(routes[routes.len() - 1].targets.len() <= usize::MAX);
    let h = probes(routes)[j].1;
    let after = with_health(routes, h, healthy);
    let n = probes(front).len() as int;
    if j < n {
        law_probe_sets_its_target_alone(front, j, healthy);
        assert(h == probes(front)[j].1);
        let changed = with_health(front, h, healthy);
        assert(after =~= changed.push(last));
        assert(after.drop_last() =~= changed);
        assert(all_targets(after) =~= all_targets(routes).update(
            j,
            TargetText { healthy, ..all_targets(routes)[j] },
        ));
        assert forall|i: int| 0 <= i < routes.len() implies {
            let one = #[trigger] after[i];
            one == (RouteText { targets: one.targets, ..routes[i] })
        } by {
            if i < front.len() {
                assert(after[i] == changed[i]);
            }
        }
    } else {
        assert(h == HealthHandle { route: (routes.len() - 1) as usize, target: (j - n) as usize });
        assert(after.drop_last() =~= front);
        assert(after.last().targets == last.targets.update(
            j - n,
            TargetText { healthy, ..last.targets[j - n] },
        ));
        assert(all_targets(after) =~= all_targets(routes).update(
            j,
            TargetText { healthy, ..all_targets(routes)[j] },
        ));
    }
}

proof fn lemma_probe_count(routes: Seq<RouteText>)
    ensures
        probes(routes).len() == all_targets(routes).len(),
    decreases routes.len(),
{
    if routes.len() > 0 {
        lemma_probe_count(routes.drop_last());
    }
}

} // verus!
