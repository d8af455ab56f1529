//! One HTTP/3 request from its arrival to the end of its response. The caller
//! performs the step it is told and reports what happened; every decision in
//! between is made here.
use crate::access::{permitted, AccessControl, IpAddress};
use crate::cache::{CachedResponse, ResponseText};
use crate::clock::Timestamp;
use crate::consult::{
    cache_wf, complete, completed, consult, heard, kept, key_for, looked_into, maybe_pending,
    refreshed, request_key, routes_after, same_cache, settle, settlement, Consulted, ConsultedText,
    Pending, Settled, SettledText,
};
use crate::encoding::{total, Encoding};
use crate::headers::{copy_pairs, pairs, HeaderText};
use crate::http3::{
    edited, forward, forwarding, goes_to_plugins, hit_reply, hit_reply_text, maybe_response,
    open_request, opening, plugin_reply, plugin_reply_text, plugin_request, relay_response,
    relay_texts, relays, Forward, ForwardText, Forwarding, ForwardingText, Limits, Opening,
    OpeningText, PluginCall, PluginCallText, RelayField, RelayText,
};
use crate::message::{field_text, fields, full_target, HeaderField, Inbound};
use crate::plugin::{PluginRequest, Plugins, Request, Response};
use crate::relay::{
    accumulate_cache_body, bare, bare_reply, exceeds, gathered, intake, over_limit, static_reply,
    take_in, Intake, Reply, ReplyText,
};
use crate::router::{after_pick, place, route_for, Endpoint, EndpointText, RouteText, Router};
use crate::static_files::StaticDir;
use crate::store::{file_name, maybe_slice, DiskWrite, ResponseCache};
use crate::text::{maybe, maybe_string};
use crate::upstream::{
    conditional_request, revalidation_request, Outbound, OutboundText, Revalidated,
};
use vstd::prelude::*;

verus! {

/// How responses are cached, apart from the cache itself.
#[derive(Clone, Copy, Debug)]
pub struct Caching {
    /// Bodies larger than this are not cached.
    pub max_body: u64,
    /// Whether stale entries can be revalidated with the origin.
    pub can_revalidate: bool,
}

/// One request, as it arrived.
#[derive(Debug)]
pub struct Exchange {
    pub request: Inbound,
    /// The host of the request target.
    pub host: Option<String>,
    pub client_ip: IpAddress,
    /// The client's address in words.
    pub client_text: String,
    /// Whether the request came before the handshake was complete.
    pub is_early: bool,
}

/// The host of a request; empty where it gives none.
pub open spec fn host_text(x: Exchange) -> Seq<char> {
    match x.host {
        Some(h) => h@,
        None => Seq::empty(),
    }
}

/// How far a request has come.
#[derive(Debug)]
#[allow(inconsistent_fields)]
pub enum Stage {
    /// Nothing was done yet.
    Arrived,
    /// A static file is being read.
    Serving,
    /// The body is being buffered for the plugins.
    Buffering { call: PluginCall, body: Vec<u8>, cap: u64 },
    /// The plugins are running.
    Running { response_headers: Vec<(String, String)> },
    /// A cache file is being read. What has come of the request body is kept.
    Consulting { route: Option<usize>, key: Option<String>, ahead: Vec<u8> },
    /// The origin is being asked about a stale entry. What has come of the
    /// request body is kept.
    Revalidating { route: Option<usize>, key: String, hit: CachedResponse, ahead: Vec<u8> },
    /// The upstream is being asked.
    Sending { route: Option<usize>, key: Option<String> },
    /// The upstream's response is being relayed.
    Relaying { pending: Option<Pending>, body: Vec<u8>, overflow: bool },
    /// The request is answered.
    Done,
}

/// What happened.
#[derive(Debug)]
pub enum Event {
    /// The request arrived.
    Arrival,
    /// A static file was read: its path and contents, where it exists.
    FileRead(Option<(String, Vec<u8>)>),
    /// A piece of the request body came.
    BodyChunk(Vec<u8>),
    /// The request body is complete.
    BodyEnded,
    /// The plugins ran; none where one of them, or the upstream, failed.
    PluginsRan(Option<Response>),
    /// A cache file was read, where it exists.
    CacheFileRead(Option<Vec<u8>>),
    /// The origin was asked about a stale entry.
    OriginAsked(Revalidated),
    /// So many bytes of the request body have come while it is sent upstream.
    BodyReached(u64),
    /// The upstream did not answer in time.
    UpstreamTimedOut,
    /// The upstream answered with this status and these headers.
    UpstreamAnswered(u16, Vec<HeaderField>),
    /// A piece of the upstream's body came.
    ResponseChunk(Vec<u8>),
    /// The upstream's body is complete.
    ResponseEnded,
}

/// What to do.
#[derive(Debug)]
pub enum Step {
    /// Send this response.
    Answer(Reply),
    /// Read the file at this path below the directory.
    ReadFile { dir: StaticDir, relative: String },
    /// Read the next piece of the request body.
    ReadBody,
    /// Run the plugins of the route on the request.
    RunPlugins { route_id: usize, request: Request, host: String, target: Endpoint },
    /// Read this cache file.
    ReadCacheFile(String),
    /// Ask the origin with this request about a stale entry.
    AskOrigin(Outbound),
    /// Send this request upstream, passing the body on: first what has come of
    /// it, then the rest.
    Send { forward: Forward, ahead: Vec<u8> },
    /// Go on with what is under way.
    Wait,
    /// Abort the request to the upstream, which must not take the body for
    /// complete, and send this response.
    Abort(Reply),
    /// Abort the request to the upstream, and break off the response that is
    /// being relayed.
    BreakOff,
    /// Send this head, and read the upstream's body.
    Relay { status: u16, fields: Vec<RelayField>, encoding: Option<Encoding> },
    /// Pass this piece of the body on, compressed as the head says.
    PassOn(Vec<u8>),
    /// End the response.
    Finish,
    /// Give up: what happened was not to be expected.
    Stop,
}

/// How far a request has come, as text.
#[allow(inconsistent_fields)]
pub enum StageText {
    Arrived,
    Serving,
    Buffering { call: PluginCallText, body: Seq<u8>, cap: u64 },
    Running { response_headers: Seq<HeaderText> },
    Consulting { route: Option<int>, key: Option<Seq<char>>, ahead: Seq<u8> },
    Revalidating { route: Option<int>, key: Seq<char>, hit: ResponseText, ahead: Seq<u8> },
    Sending { route: Option<int>, key: Option<Seq<char>> },
    Relaying { pending: Option<Pending>, body: Seq<u8>, overflow: bool },
    Done,
}

impl View for Stage {
    type V = StageText;

    open spec fn view(&self) -> StageText {
        match *self {
            Stage::Arrived => StageText::Arrived,
            Stage::Serving => StageText::Serving,
            Stage::Buffering { call, body, cap } => StageText::Buffering {
                call: call@,
                body: body@,
                cap,
            },
            Stage::Running { response_headers } => StageText::Running {
                response_headers: pairs(response_headers@),
            },
            Stage::Consulting { route, key, ahead } => StageText::Consulting {
                route: place(route),
                key: maybe_string(key),
                ahead: ahead@,
            },
            Stage::Revalidating { route, key, hit, ahead } => StageText::Revalidating {
                route: place(route),
                key: key@,
                hit: hit@,
                ahead: ahead@,
            },
            Stage::Sending { route, key } => StageText::Sending {
                route: place(route),
                key: maybe_string(key),
            },
            Stage::Relaying { pending, body, overflow } => StageText::Relaying {
                pending,
                body: body@,
                overflow,
            },
            Stage::Done => StageText::Done,
        }
    }
}

/// What to do, as text.
pub enum StepText {
    Answer(ReplyText),
    ReadFile { root: Seq<char>, relative: Seq<char> },
    ReadBody,
    RunPlugins { route_id: usize, request: PluginRequest, host: Seq<char>, target: EndpointText },
    ReadCacheFile(Seq<char>),
    AskOrigin(OutboundText),
    Send { forward: ForwardText, ahead: Seq<u8> },
    Wait,
    Abort(ReplyText),
    BreakOff,
    Relay { status: u16, fields: Seq<RelayText>, encoding: Option<Encoding> },
    PassOn(Seq<u8>),
    Finish,
    Stop,
}

impl View for Step {
    type V = StepText;

    open spec fn view(&self) -> StepText {
        match *self {
            Step::Answer(reply) => StepText::Answer(reply@),
            Step::ReadFile { dir, relative } => StepText::ReadFile {
                root: dir@,
                relative: relative@,
            },
            Step::ReadBody => StepText::ReadBody,
            Step::RunPlugins { route_id, request, host, target } => StepText::RunPlugins {
                route_id,
                request: request@,
                host: host@,
                target: target@,
            },
            Step::ReadCacheFile(path) => StepText::ReadCacheFile(path@),
            Step::AskOrigin(outbound) => StepText::AskOrigin(outbound@),
            Step::Send { forward, ahead } => StepText::Send { forward: forward@, ahead: ahead@ },
            Step::Wait => StepText::Wait,
            Step::Abort(reply) => StepText::Abort(reply@),
            Step::BreakOff => StepText::BreakOff,
            Step::Relay { status, fields, encoding } => StepText::Relay {
                status,
                fields: relay_texts(fields@),
                encoding,
            },
            Step::PassOn(data) => StepText::PassOn(data@),
            Step::Finish => StepText::Finish,
            Step::Stop => StepText::Stop,
        }
    }
}

/// Where a request stands and what to do next. A cache file may have to be
/// written besides.
#[derive(Debug)]
pub struct Advance {
    pub stage: Stage,
    pub step: Step,
    pub write: Option<DiskWrite>,
}

/// Whether the route that a stage speaks of exists.
pub open spec fn stage_wf(stage: Stage, routes: Seq<RouteText>) -> bool {
    match stage {
        Stage::Consulting { route, .. } => route matches Some(i) ==> i < routes.len(),
        Stage::Revalidating { route, .. } => route matches Some(i) ==> i < routes.len(),
        Stage::Sending { route, .. } => route matches Some(i) ==> i < routes.len(),
        _ => true,
    }
}

/// The next of a request that is fetched: it is refused, or sent upstream.
pub open spec fn fetch_next(
    x: Exchange,
    routes: Seq<RouteText>,
    route: Option<int>,
    key: Option<Seq<char>>,
    ahead: Seq<u8>,
    max_body: Option<u64>,
) -> (StageText, StepText) {
    match forwarding(x.request@, x.is_early, routes, route, max_body) {
        ForwardingText::Answer(reply) => (StageText::Done, StepText::Answer(reply)),
        ForwardingText::Send(forward) => (
            StageText::Sending { route, key },
            StepText::Send { forward, ahead },
        ),
    }
}

/// The next of a request for which the cache was consulted: the entry is
/// served, the origin is asked, or the request is fetched.
pub open spec fn hear_next(
    x: Exchange,
    routes: Seq<RouteText>,
    route: Option<int>,
    said: ConsultedText,
    ahead: Seq<u8>,
    max_body: Option<u64>,
) -> (StageText, StepText) {
    match said {
        ConsultedText::Serve(hit) => (StageText::Done, StepText::Answer(hit_of(x, hit))),
        ConsultedText::Revalidate { key, hit, target, etag } => (
            StageText::Revalidating { route, key, hit, ahead },
            StepText::AskOrigin(
                conditional_request(target, full_target(x.request@), host_text(x), etag),
            ),
        ),
        ConsultedText::Fetch(key) => fetch_next(x, routes, route, key, ahead, max_body),
    }
}

/// The response that a cache entry makes.
pub open spec fn hit_of(x: Exchange, hit: ResponseText) -> ReplyText {
    hit_reply_text(hit, field_text(x.request@.headers, "if-none-match"@))
}

/// The routes after what the cache said was acted on.
pub open spec fn routes_heard(
    routes: Seq<RouteText>,
    route: Option<int>,
    said: ConsultedText,
) -> Seq<RouteText> {
    if said is Fetch {
        after_pick(routes, route)
    } else {
        routes
    }
}

/// The key of a request in the cache.
pub open spec fn exchange_key(x: Exchange) -> Option<Seq<char>> {
    key_for(x.request@.method, x.request@.headers, host_text(x), full_target(x.request@))
}

/// The cache file to read before the cache can be consulted.
pub open spec fn file_wanted(cache: Option<ResponseCache>, key: Option<Seq<char>>) -> Option<
    Seq<char>,
> {
    match (cache, key) {
        (Some(c), Some(k)) => match c.disk_tier() {
            Some(disk) => if c@.contains_key(k) {
                None
            } else {
                Some(crate::paths::path_below(disk.directory(), file_name(k)))
            },
            None => None,
        },
        _ => None,
    }
}

/// How the cache, the routes and the request go on once the cache is
/// consulted.
pub open spec fn consults(
    x: Exchange,
    cache: Option<ResponseCache>,
    cache_after: Option<ResponseCache>,
    routes: Seq<RouteText>,
    final_routes: Seq<RouteText>,
    route: Option<int>,
    key: Option<Seq<char>>,
    ahead: Seq<u8>,
    caching: Caching,
    limits: Limits,
    now: Timestamp,
    file: Option<Seq<u8>>,
    next: (StageText, StepText),
) -> bool {
    let said = heard(cache, key, routes, route, caching.can_revalidate, now, file);
    let middle = routes_after(cache, key, routes, route, now, file);
    &&& looked_into(cache, cache_after, key, now, file)
    &&& next == hear_next(x, middle, route, said, ahead, limits.max_body_bytes)
    &&& final_routes == routes_heard(middle, route, said)
}

impl Exchange {
    fn host_str(&self) -> (r: &str)
        ensures
            r@ == host_text(*self),
    {
        match &self.host {
            Some(h) => h.as_str(),
            None => {
                proof {
                    reveal_strlit("");
                    assert(""@ =~= Seq::<char>::empty());
                }
                ""
            },
        }
    }

    /// Sends the request upstream, or refuses it.
    fn fetch(
        &self,
        router: &mut Router,
        route: Option<usize>,
        key: Option<String>,
        ahead: Vec<u8>,
        limits: &Limits,
    ) -> (r: (Stage, Step))
        requires
            route matches Some(i) ==> i < old(router)@.len(),
        ensures
            (r.0@, r.1@) == fetch_next(
                *self,
                old(router)@,
                place(route),
                maybe_string(key),
                ahead@,
                limits.max_body_bytes,
            ),
            final(router)@ == after_pick(old(router)@, place(route)),
            stage_wf(r.0, final(router)@),
    {
        match forward(&self.request, self.is_early, router, route, limits) {
            Forwarding::Answer(reply) => (Stage::Done, Step::Answer(reply)),
            Forwarding::Send(f) => (
                Stage::Sending { route, key },
                Step::Send { forward: f, ahead },
            ),
        }
    }

    /// Consults the cache and acts on what it says.
    fn ask_cache(
        &self,
        router: &mut Router,
        cache: &mut Option<ResponseCache>,
        route: Option<usize>,
        key: Option<String>,
        ahead: Vec<u8>,
        caching: &Caching,
        limits: &Limits,
        now: Timestamp,
        file: Option<&[u8]>,
    ) -> (r: (Stage, Step))
        requires
            cache_wf(*old(cache)),
            route matches Some(i) ==> i < old(router)@.len(),
        ensures
            same_cache(*old(cache), *final(cache)),
            consults(
                *self,
                *old(cache),
                *final(cache),
                old(router)@,
                final(router)@,
                place(route),
                maybe_string(key),
                ahead@,
                *caching,
                *limits,
                now,
                maybe_slice(file),
                (r.0@, r.1@),
            ),
            stage_wf(r.0, final(router)@),
    {
        match consult(cache, router, key, route, caching.can_revalidate, now, file) {
            Consulted::Serve(hit) => (
                Stage::Done,
                Step::Answer(hit_reply(hit, &self.request.headers)),
            ),
            Consulted::Revalidate { key, hit, target, etag } => {
                let outbound = revalidation_request(
                    &target,
                    self.request.full_target(),
                    self.host_str(),
                    etag.as_str(),
                );
                (Stage::Revalidating { route, key, hit, ahead }, Step::AskOrigin(outbound))
            },
            Consulted::Fetch(key) => self.fetch(router, route, key, ahead, limits),
        }
    }
}

/// The routes after the first step of a request.
pub open spec fn opened_routes<P>(
    x: Exchange,
    allowed: bool,
    routes: Seq<RouteText>,
    plugins: Option<&Plugins<P>>,
) -> Seq<RouteText> {
    if goes_to_plugins(
        x.request@,
        maybe_string(x.host),
        allowed,
        x.is_early,
        routes,
        plugins,
    ) {
        after_pick(routes, route_for(routes, maybe_string(x.host), x.request@.path))
    } else {
        routes
    }
}

/// How a request goes on that is to be proxied: its cache file is read, or the
/// cache is consulted at once. `ahead` is what has come of its body.
pub open spec fn proxies(
    x: Exchange,
    cache: Option<ResponseCache>,
    cache_after: Option<ResponseCache>,
    routes: Seq<RouteText>,
    final_routes: Seq<RouteText>,
    route: Option<int>,
    ahead: Seq<u8>,
    caching: Caching,
    limits: Limits,
    now: Timestamp,
    next: (StageText, StepText),
) -> bool {
    match file_wanted(cache, exchange_key(x)) {
        Some(path) => {
            &&& next == (
                StageText::Consulting { route, key: exchange_key(x), ahead },
                StepText::ReadCacheFile(path),
            )
            &&& cache_after == cache
            &&& final_routes == routes
        },
        None => consults(
            x,
            cache,
            cache_after,
            routes,
            final_routes,
            route,
            exchange_key(x),
            ahead,
            caching,
            limits,
            now,
            None,
            next,
        ),
    }
}

/// How a request goes on when it arrives: it is refused, served from a
/// directory, handed to plugins, or looked up in the cache.
pub open spec fn arrives<P>(
    x: Exchange,
    allowed: bool,
    plugins: Option<&Plugins<P>>,
    cache: Option<ResponseCache>,
    cache_after: Option<ResponseCache>,
    routes: Seq<RouteText>,
    final_routes: Seq<RouteText>,
    caching: Caching,
    limits: Limits,
    now: Timestamp,
    next: (StageText, StepText),
) -> bool {
    let first = opening(
        x.request@,
        maybe_string(x.host),
        allowed,
        x.is_early,
        routes,
        plugins,
    );
    match first {
        OpeningText::Proxy { route } => proxies(
            x,
            cache,
            cache_after,
            routes,
            final_routes,
            route,
            Seq::empty(),
            caching,
            limits,
            now,
            next,
        ),
        _ => {
            &&& next == match first {
                OpeningText::Answer(reply) => (StageText::Done, StepText::Answer(reply)),
                OpeningText::Static { root, relative } => (
                    StageText::Serving,
                    StepText::ReadFile { root, relative },
                ),
                OpeningText::Plugins(call) => (
                    StageText::Buffering { call, body: Seq::empty(), cap: plugins->0.cap() },
                    StepText::ReadBody,
                ),
                _ => (StageText::Done, StepText::Stop),
            }
            &&& cache_after == cache
            &&& final_routes == opened_routes(x, allowed, routes, plugins)
        },
    }
}

/// How a request of a plugin route goes on once `body` has come: it is buffered
/// on, goes on without the plugins where they cannot take so much, or is
/// refused where no request may be so large.
pub open spec fn buffers(
    x: Exchange,
    cache: Option<ResponseCache>,
    cache_after: Option<ResponseCache>,
    routes: Seq<RouteText>,
    final_routes: Seq<RouteText>,
    call: PluginCallText,
    body: Seq<u8>,
    cap: u64,
    caching: Caching,
    limits: Limits,
    now: Timestamp,
    next: (StageText, StepText),
) -> bool {
    match intake(body.len(), cap, limits.max_body_bytes) {
        Intake::Buffer => {
            &&& next == (StageText::Buffering { call, body, cap }, StepText::ReadBody)
            &&& cache_after == cache
            &&& final_routes == routes
        },
        Intake::Bypass => proxies(
            x,
            cache,
            cache_after,
            routes,
            final_routes,
            route_for(routes, maybe_string(x.host), x.request@.path),
            body,
            caching,
            limits,
            now,
            next,
        ),
        Intake::Refuse => {
            &&& next == (StageText::Done, StepText::Answer(bare(413)))
            &&& cache_after == cache
            &&& final_routes == routes
        },
    }
}

/// How a request goes on after an event that concerns neither the routes nor
/// the cache; none for every other.
pub open spec fn plain_next(
    x: Exchange,
    stage: Stage,
    event: Event,
    caching: Caching,
    limits: Limits,
) -> Option<(StageText, StepText)> {
    match (stage, event) {
        (Stage::Serving, Event::FileRead(file)) => Some(
            (
                StageText::Done,
                StepText::Answer(
                    match file {
                        Some((path, body)) => crate::relay::file_reply(
                            crate::relay::mime_for(path@),
                            body@,
                        ),
                        None => bare(404),
                    },
                ),
            ),
        ),
        (Stage::Buffering { call, body, cap }, Event::BodyEnded) => Some(
            (
                StageText::Running { response_headers: call@.response_headers },
                StepText::RunPlugins {
                    route_id: call.route_id,
                    request: PluginRequest {
                        body: body@,
                        client_ip: x.client_text@,
                        ..call@.request
                    },
                    host: call@.host,
                    target: call@.target,
                },
            ),
        ),
        (Stage::Running { response_headers }, Event::PluginsRan(outcome)) => Some(
            (
                StageText::Done,
                StepText::Answer(
                    plugin_reply_text(maybe_response(outcome), pairs(response_headers@)),
                ),
            ),
        ),
        (Stage::Sending { .. }, Event::UpstreamTimedOut) => Some(
            (StageText::Done, StepText::Answer(bare(504))),
        ),
        (Stage::Sending { .. }, Event::BodyReached(len)) => Some(
            if over_limit(len as nat, limits.max_body_bytes) {
                (StageText::Done, StepText::Abort(bare(413)))
            } else {
                (stage@, StepText::Wait)
            },
        ),
        (Stage::Relaying { .. }, Event::BodyReached(len)) => Some(
            if over_limit(len as nat, limits.max_body_bytes) {
                (StageText::Done, StepText::BreakOff)
            } else {
                (stage@, StepText::Wait)
            },
        ),
        (Stage::Relaying { pending, body, overflow }, Event::ResponseChunk(data)) => {
            let g = gathered(body@, overflow, pending is Some, data@, caching.max_body as int);
            Some(
                (
                    StageText::Relaying { pending, body: g.0, overflow: g.1 },
                    StepText::PassOn(data@),
                ),
            )
        },
        _ => None,
    }
}

/// The headers that a route sets on responses.
pub open spec fn route_sets(routes: Seq<RouteText>, route: Option<usize>) -> Seq<HeaderText> {
    match route {
        Some(i) => routes[i as int].response_headers,
        None => Seq::empty(),
    }
}

/// How a request goes on after an event: the stage it comes to, the step to
/// take, the cache file to write, and what becomes of the routes and the cache.
pub open spec fn advances<P, F: Fn(&str) -> bool>(
    x: Exchange,
    stage: Stage,
    event: Event,
    allowed: bool,
    plugins: Option<&Plugins<P>>,
    cache: Option<ResponseCache>,
    cache_after: Option<ResponseCache>,
    routes: Seq<RouteText>,
    final_routes: Seq<RouteText>,
    caching: Caching,
    limits: Limits,
    now: Timestamp,
    zero_quality: F,
    next: (StageText, StepText),
    write: Option<DiskWrite>,
) -> bool {
    match (stage, event) {
        (Stage::Arrived, Event::Arrival) => write is None && arrives(
            x,
            allowed,
            plugins,
            cache,
            cache_after,
            routes,
            final_routes,
            caching,
            limits,
            now,
            next,
        ),
        (Stage::Buffering { call, body, cap }, Event::BodyChunk(chunk)) => write is None && buffers(
            x,
            cache,
            cache_after,
            routes,
            final_routes,
            call@,
            body@ + chunk@,
            cap,
            caching,
            limits,
            now,
            next,
        ),
        (Stage::Consulting { route, key, ahead }, Event::CacheFileRead(file)) => write is None
            && consults(
            x,
            cache,
            cache_after,
            routes,
            final_routes,
            place(route),
            maybe_string(key),
            ahead@,
            caching,
            limits,
            now,
            crate::relay::maybe_bytes(file),
            next,
        ),
        (Stage::Revalidating { route, key, hit, ahead }, Event::OriginAsked(outcome)) => {
            &&& kept(cache, cache_after, key@, refreshed(hit@, outcome@), now, write)
            &&& match settlement(key@, hit@, outcome@) {
                SettledText::Serve { response, .. } => {
                    &&& next == (StageText::Done, StepText::Answer(hit_of(x, response)))
                    &&& final_routes == routes
                },
                SettledText::Fetch(k) => {
                    &&& next == fetch_next(
                        x,
                        routes,
                        place(route),
                        Some(k),
                        ahead@,
                        limits.max_body_bytes,
                    )
                    &&& final_routes == after_pick(routes, place(route))
                },
            }
        },
        (Stage::Sending { route, key }, Event::UpstreamAnswered(status, headers)) => {
            &&& next.0 matches StageText::Relaying { pending, body, overflow }
            &&& body == Seq::<u8>::empty()
            &&& !overflow
            &&& next.1 matches StepText::Relay { status: sent, fields: list, encoding }
            &&& sent == status
            &&& relays(
                edited(fields(headers@), route_sets(routes, route)),
                field_text(x.request@.headers, "accept-encoding"@),
                status,
                maybe_string(key),
                limits.compression_level,
                zero_quality,
                list,
                maybe_pending(pending),
                encoding,
            )
            &&& cache_after == cache
            &&& final_routes == routes
            &&& write is None
        },
        (Stage::Relaying { pending, body, overflow }, Event::ResponseEnded) => {
            &&& next == (StageText::Done, StepText::Finish)
            &&& final_routes == routes
            &&& match completed(pending, body@, overflow) {
                Some(p) => kept(
                    cache,
                    cache_after,
                    p.key,
                    Some((p.secs, p.response)),
                    now,
                    write,
                ),
                None => cache_after == cache && write is None,
            }
        },
        _ => {
            &&& next == match plain_next(x, stage, event, caching, limits) {
                Some(n) => n,
                None => (StageText::Done, StepText::Stop),
            }
            &&& cache_after == cache
            &&& final_routes == routes
            &&& write is None
        },
    }
}

impl Exchange {
    /// Proxies the request: its cache file is to be read, or the cache is
    /// consulted.
    fn proxy(
        &self,
        router: &mut Router,
        cache: &mut Option<ResponseCache>,
        route: Option<usize>,
        ahead: Vec<u8>,
        caching: &Caching,
        limits: &Limits,
        now: Timestamp,
    ) -> (r: (Stage, Step))
        requires
            cache_wf(*old(cache)),
            route matches Some(i) ==> i < old(router)@.len(),
        ensures
            same_cache(*old(cache), *final(cache)),
            proxies(
                *self,
                *old(cache),
                *final(cache),
                old(router)@,
                final(router)@,
                place(route),
                ahead@,
                *caching,
                *limits,
                now,
                (r.0@, r.1@),
            ),
            stage_wf(r.0, final(router)@),
    {
        let key = request_key(
            self.request.method.as_str(),
            &self.request.headers,
            self.host_str(),
            self.request.full_target(),
        );
        let file = match (&*cache, &key) {
            (Some(c), Some(k)) => c.file_to_read(k.as_str()),
            _ => None,
        };
        match file {
            Some(path) => (Stage::Consulting { route, key, ahead }, Step::ReadCacheFile(path)),
            None => self.ask_cache(router, cache, route, key, ahead, caching, limits, now, None),
        }
    }

    /// The host of the request, if it gives one.
    fn host_name(&self) -> (r: Option<&str>)
        ensures
            maybe(r) == maybe_string(self.host),
    {
        match &self.host {
            Some(h) => Some(h.as_str()),
            None => None,
        }
    }

    /// Takes the first step.
    fn arrive<P>(
        &self,
        access: &AccessControl,
        router: &mut Router,
        cache: &mut Option<ResponseCache>,
        plugins: Option<&Plugins<P>>,
        caching: &Caching,
        limits: &Limits,
        now: Timestamp,
    ) -> (r: (Stage, Step))
        requires
            access.wf(),
            cache_wf(*old(cache)),
        ensures
            same_cache(*old(cache), *final(cache)),
            arrives(
                *self,
                permitted(access.allowed(), access.denied(), self.client_ip),
                plugins,
                *old(cache),
                *final(cache),
                old(router)@,
                final(router)@,
                *caching,
                *limits,
                now,
                (r.0@, r.1@),
            ),
            stage_wf(r.0, final(router)@),
    {
        let first = open_request(
            &self.request,
            self.host_name(),
            self.client_ip,
            self.is_early,
            access,
            router,
            plugins,
        );
        match first {
            Opening::Answer(reply) => (Stage::Done, Step::Answer(reply)),
            Opening::Static { dir, relative } => (Stage::Serving, Step::ReadFile { dir, relative }),
            Opening::Plugins(call) => {
                let cap: u64 = match plugins {
                    Some(p) => p.max_body(),
                    None => 0,
                };
                let body: Vec<u8> = Vec::new();
                assert(body@ =~= Seq::<u8>::empty());
                (Stage::Buffering { call, body, cap }, Step::ReadBody)
            },
            Opening::Proxy { route } => {
                let ahead: Vec<u8> = Vec::new();
                assert(ahead@ =~= Seq::<u8>::empty());
                self.proxy(router, cache, route, ahead, caching, limits, now)
            },
        }
    }

    /// Decides how the request goes on after an event.
    pub fn step<P, F: Fn(&str) -> bool>(
        &self,
        stage: Stage,
        event: Event,
        access: &AccessControl,
        router: &mut Router,
        cache: &mut Option<ResponseCache>,
        plugins: Option<&Plugins<P>>,
        caching: &Caching,
        limits: &Limits,
        now: Timestamp,
        zero_quality: &F,
    ) -> (r: Advance)
        requires
            access.wf(),
            cache_wf(*old(cache)),
            stage_wf(stage, old(router)@),
            total(*zero_quality),
        ensures
            same_cache(*old(cache), *final(cache)),
            stage_wf(r.stage, final(router)@),
            advances(
                *self,
                stage,
                event,
                permitted(access.allowed(), access.denied(), self.client_ip),
                plugins,
                *old(cache),
                *final(cache),
                old(router)@,
                final(router)@,
                *caching,
                *limits,
                now,
                *zero_quality,
                (r.stage@, r.step@),
                r.write,
            ),
    {
        match (stage, event) {
            (Stage::Arrived, Event::Arrival) => {
                let (stage, step) = self.arrive(
                    access,
                    router,
                    cache,
                    plugins,
                    caching,
                    limits,
                    now,
                );
                Advance { stage, step, write: None }
            },
            (Stage::Serving, Event::FileRead(file)) => Advance {
                stage: Stage::Done,
                step: Step::Answer(static_reply(file)),
                write: None,
            },
            (Stage::Buffering { call, body, cap }, Event::BodyChunk(chunk)) => {
                let mut body = body;
                match take_in(&mut body, chunk.as_slice(), cap, limits.max_body_bytes) {
                    Intake::Buffer => Advance {
                        stage: Stage::Buffering { call, body, cap },
                        step: Step::ReadBody,
                        write: None,
                    },
                    Intake::Bypass => {
                        let route = router.match_index(
                            self.host_name(),
                            self.request.path.as_str(),
                        );
                        let (stage, step) = self.proxy(
                            router,
                            cache,
                            route,
                            body,
                            caching,
                            limits,
                            now,
                        );
                        Advance { stage, step, write: None }
                    },
                    Intake::Refuse => Advance {
                        stage: Stage::Done,
                        step: Step::Answer(bare_reply(413)),
                        write: None,
                    },
                }
            },
            (Stage::Buffering { call, body, cap }, Event::BodyEnded) => {
                let request = plugin_request(call.request, body, self.client_text.clone());
                Advance {
                    stage: Stage::Running { response_headers: call.response_headers },
                    step: Step::RunPlugins {
                        route_id: call.route_id,
                        request,
                        host: call.host,
                        target: call.target,
                    },
                    write: None,
                }
            },
            (Stage::Running { response_headers }, Event::PluginsRan(outcome)) => Advance {
                stage: Stage::Done,
                step: Step::Answer(plugin_reply(outcome, &response_headers)),
                write: None,
            },
            (Stage::Consulting { route, key, ahead }, Event::CacheFileRead(file)) => {
                let bytes = match &file {
                    Some(b) => Some(b.as_slice()),
                    None => None,
                };
                let (stage, step) = self.ask_cache(
                    router,
                    cache,
                    route,
                    key,
                    ahead,
                    caching,
                    limits,
                    now,
                    bytes,
                );
                Advance { stage, step, write: None }
            },
            (Stage::Revalidating { route, key, hit, ahead }, Event::OriginAsked(outcome)) => {
                let (settled, write) = settle(cache, key, hit, outcome, now);
                match settled {
                    Settled::Serve { response, renewed } => Advance {
                        stage: Stage::Done,
                        step: Step::Answer(hit_reply(response, &self.request.headers)),
                        write,
                    },
                    Settled::Fetch(k) => {
                        let (stage, step) = self.fetch(router, route, Some(k), ahead, limits);
                        Advance { stage, step, write }
                    },
                }
            },
            (Stage::Sending { route, key }, Event::BodyReached(len)) => {
                if exceeds(len, limits.max_body_bytes) {
                    Advance {
                        stage: Stage::Done,
                        step: Step::Abort(bare_reply(413)),
                        write: None,
                    }
                } else {
                    Advance {
                        stage: Stage::Sending { route, key },
                        step: Step::Wait,
                        write: None,
                    }
                }
            },
            (Stage::Relaying { pending, body, overflow }, Event::BodyReached(len)) => {
                if exceeds(len, limits.max_body_bytes) {
                    Advance { stage: Stage::Done, step: Step::BreakOff, write: None }
                } else {
                    Advance {
                        stage: Stage::Relaying { pending, body, overflow },
                        step: Step::Wait,
                        write: None,
                    }
                }
            },
            (Stage::Sending { route, key }, Event::UpstreamTimedOut) => Advance {
                stage: Stage::Done,
                step: Step::Answer(bare_reply(504)),
                write: None,
            },
            (Stage::Sending { route, key }, Event::UpstreamAnswered(status, headers)) => {
                let sets: Vec<(String, String)> = match route {
                    Some(i) => copy_pairs(router.route(i).response_headers()),
                    None => Vec::new(),
                };
                assert(pairs(sets@) =~= route_sets(router@, route));
                let relay = relay_response(
                    &self.request,
                    &sets,
                    status,
                    &headers,
                    key,
                    limits,
                    zero_quality,
                );
                let body: Vec<u8> = Vec::new();
                assert(body@ =~= Seq::<u8>::empty());
                Advance {
                    stage: Stage::Relaying { pending: relay.pending, body, overflow: false },
                    step: Step::Relay {
                        status: relay.status,
                        fields: relay.fields,
                        encoding: relay.encoding,
                    },
                    write: None,
                }
            },
            (Stage::Relaying { pending, body, overflow }, Event::ResponseChunk(data)) => {
                let mut buf = body;
                let mut too_large = overflow;
                accumulate_cache_body(
                    pending.is_some(),
                    &mut buf,
                    &mut too_large,
                    data.as_slice(),
                    caching.max_body,
                );
                Advance {
                    stage: Stage::Relaying { pending, body: buf, overflow: too_large },
                    step: Step::PassOn(data),
                    write: None,
                }
            },
            (Stage::Relaying { pending, body, overflow }, Event::ResponseEnded) => {
                let write = complete(cache, pending, body, overflow, now);
                Advance { stage: Stage::Done, step: Step::Finish, write }
            },
            _ => Advance { stage: Stage::Done, step: Step::Stop, write: None },
        }
    }
}

/// A client that is denied, and early data that is not safe to repeat, are
/// answered at once: no target is taken, no plugin runs, and the cache stays as
/// it was.
pub proof fn law_refusal_has_no_effect<P, F: Fn(&str) -> bool>(
    x: Exchange,
    allowed: bool,
    plugins: Option<&Plugins<P>>,
    cache: Option<ResponseCache>,
    cache_after: Option<ResponseCache>,
    routes: Seq<RouteText>,
    final_routes: Seq<RouteText>,
    caching: Caching,
    limits: Limits,
    now: Timestamp,
    zero_quality: F,
    next: (StageText, StepText),
    write: Option<DiskWrite>,
)
    requires
        !allowed || (x.is_early && !crate::relay::safe_method(x.request@.method)),
        advances(
            x,
            Stage::Arrived,
            Event::Arrival,
            allowed,
            plugins,
            cache,
            cache_after,
            routes,
            final_routes,
            caching,
            limits,
            now,
            zero_quality,
            next,
            write,
        ),
    ensures
        next == (
            StageText::Done,
            StepText::Answer(
                bare(
                    if allowed {
                        425
                    } else {
                        403
                    },
                ),
            ),
        ),
        cache_after == cache,
        final_routes == routes,
        write is None,
{
}

/// A request that is answered stays answered: whatever happens then changes
/// nothing.
pub proof fn law_answered_once<P, F: Fn(&str) -> bool>(
    x: Exchange,
    event: Event,
    allowed: bool,
    plugins: Option<&Plugins<P>>,
    cache: Option<ResponseCache>,
    cache_after: Option<ResponseCache>,
    routes: Seq<RouteText>,
    final_routes: Seq<RouteText>,
    caching: Caching,
    limits: Limits,
    now: Timestamp,
    zero_quality: F,
    next: (StageText, StepText),
    write: Option<DiskWrite>,
)
    requires
        advances(
            x,
            Stage::Done,
            event,
            allowed,
            plugins,
            cache,
            cache_after,
            routes,
            final_routes,
            caching,
            limits,
            now,
            zero_quality,
            next,
            write,
        ),
    ensures
        next == (StageText::Done, StepText::Stop),
        cache_after == cache,
        final_routes == routes,
        write is None,
{
}

/// Plugins get the whole body or none of it: what is buffered for them never
/// exceeds what they can take, and a body that does goes on with the request,
/// no byte of it lost, without a plugin being run.
pub proof fn law_large_body_bypasses_plugins(
    x: Exchange,
    cache: Option<ResponseCache>,
    cache_after: Option<ResponseCache>,
    routes: Seq<RouteText>,
    final_routes: Seq<RouteText>,
    call: PluginCallText,
    body: Seq<u8>,
    cap: u64,
    caching: Caching,
    limits: Limits,
    now: Timestamp,
    next: (StageText, StepText),
)
    requires
        buffers(
            x,
            cache,
            cache_after,
            routes,
            final_routes,
            call,
            body,
            cap,
            caching,
            limits,
            now,
            next,
        ),
        !over_limit(body.len(), limits.max_body_bytes),
    ensures
        body.len() <= cap ==> next == (
            StageText::Buffering { call, body, cap },
            StepText::ReadBody,
        ),
        body.len() > cap ==> match next {
            (StageText::Consulting { ahead, .. }, StepText::ReadCacheFile(_)) => ahead == body,
            (StageText::Revalidating { ahead, .. }, StepText::AskOrigin(_)) => ahead == body,
            (StageText::Sending { .. }, StepText::Send { ahead, .. }) => ahead == body,
            (StageText::Done, StepText::Answer(_)) => true,
            _ => false,
        },
{
}

/// A body that passes the limit is answered 413 and the request to the upstream
/// is aborted, whether or not its length was declared; once the response is
/// under way it is broken off, and nothing is stored.
pub proof fn law_oversized_body_is_refused<P, F: Fn(&str) -> bool>(
    x: Exchange,
    stage: Stage,
    len: u64,
    allowed: bool,
    plugins: Option<&Plugins<P>>,
    cache: Option<ResponseCache>,
    cache_after: Option<ResponseCache>,
    routes: Seq<RouteText>,
    final_routes: Seq<RouteText>,
    caching: Caching,
    limits: Limits,
    now: Timestamp,
    zero_quality: F,
    next: (StageText, StepText),
    write: Option<DiskWrite>,
)
    requires
        stage is Sending || stage is Relaying,
        over_limit(len as nat, limits.max_body_bytes),
        advances(
            x,
            stage,
            Event::BodyReached(len),
            allowed,
            plugins,
            cache,
            cache_after,
            routes,
            final_routes,
            caching,
            limits,
            now,
            zero_quality,
            next,
            write,
        ),
    ensures
        stage is Sending ==> next == (StageText::Done, StepText::Abort(bare(413))),
        stage is Relaying ==> next == (StageText::Done, StepText::BreakOff),
        cache_after == cache,
        write is None,
{
}

} // verus!
