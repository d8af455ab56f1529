//! One HTTP/1 or HTTP/2 request until it is answered or goes on to be
//! forwarded. The caller performs the step it is told and reports what
//! happened.
use crate::access::AccessControl;
use crate::cache::{CachedResponse, ResponseText};
use crate::clock::Timestamp;
use crate::consult::{
    cache_wf, consult, heard, kept, key_for, looked_into, refreshed, request_key, routes_after,
    same_cache, settle, settlement, Consulted, ConsultedText, Settled, SettledText,
};
use crate::exchange::file_wanted;
use crate::headers::{pairs, HeaderText};
use crate::http3::{plugin_request, too_large, PluginCall, PluginCallText};
use crate::message::{field_text, find_field, full_target, Inbound, InboundText};
use crate::plugin::{PluginRequest, Plugins, Request, Response};
use crate::proxy::{
    call_plugins, client_key, has_room, hit_reply, hit_reply_text, host_of, maybe_reply,
    plugin_ask, plugin_reply, plugin_reply_of, plugin_route, rate_checked, refusal, refused,
    request_host, screen, static_ask, static_path, Client,
};
use crate::ratelimit::RateLimiter;
use crate::relay::{
    file_reply, intake, mime_for, over_limit, static_reply, take_in, Intake, Reply, ReplyText,
};
use crate::router::{after_pick, route_for, Endpoint, EndpointText, RouteText, Router};
use crate::static_files::StaticDir;
use crate::store::{maybe_slice, DiskWrite, ResponseCache};
use crate::text::{before, chars_of, head, maybe_string, string_of};
use crate::upstream::{
    conditional_request, revalidation_request, Outbound, OutboundText, Revalidated,
};
use vstd::prelude::*;

verus! {

/// One request, as it arrived.
#[derive(Debug)]
pub struct Filter {
    pub request: Inbound,
    /// The client, where its address is known.
    pub client: Option<Client>,
}

/// The settings that a request is filtered by.
#[derive(Clone, Copy, Debug)]
pub struct FilterLimits {
    /// Requests with a larger body are refused.
    pub max_body_bytes: Option<u64>,
}

/// How far a request has come.
#[derive(Debug)]
#[allow(inconsistent_fields)]
pub enum Stage {
    /// Nothing was done yet.
    Arrived,
    /// A static file is being read.
    Serving,
    /// The body is being buffered for the plugins.
    Buffering { call: PluginCall, body: Vec<u8>, cap: u64 },
    /// The plugins are running.
    Running { response_headers: Vec<(String, String)> },
    /// A cache file is being read. What has come of the body is kept.
    Consulting { key: Option<String>, ahead: Vec<u8> },
    /// The origin is being asked about a stale entry. What has come of the body
    /// is kept.
    Revalidating { key: String, hit: CachedResponse, ahead: Vec<u8> },
    /// The request is answered or goes on.
    Done,
}

/// What happened.
#[derive(Debug)]
pub enum Event {
    /// The request arrived.
    Arrival,
    /// A static file was read: its path and contents, where it exists.
    FileRead(Option<(String, Vec<u8>)>),
    /// A piece of the request body came.
    BodyChunk(Vec<u8>),
    /// The request body is complete.
    BodyEnded,
    /// The plugins ran; none where one of them, or the upstream, failed.
    PluginsRan(Option<Response>),
    /// A cache file was read, where it exists.
    CacheFileRead(Option<Vec<u8>>),
    /// The origin was asked about a stale entry.
    OriginAsked(Revalidated),
}

/// What to do.
#[derive(Debug)]
pub enum Step {
    /// Send an error response of this status.
    Refuse(u16),
    /// Send this response; fail where its status cannot be sent.
    Answer(Option<Reply>),
    /// Read the file at this path below the directory.
    ReadFile { dir: StaticDir, relative: String },
    /// Read the next piece of the request body.
    ReadBody,
    /// Run the plugins of the route on the request.
    RunPlugins { route_id: usize, request: Request, host: String, target: Endpoint },
    /// Read this cache file.
    ReadCacheFile(String),
    /// Ask the origin with this request about a stale entry.
    AskOrigin(Outbound),
    /// Forward the request, what has come of its body ahead of the rest, and
    /// store the answer under the key if there is one.
    GoOn { key: Option<String>, ahead: Vec<u8> },
    /// Give up: what happened was not to be expected.
    Stop,
}

/// How far a request has come, as text.
#[allow(inconsistent_fields)]
pub enum StageText {
    Arrived,
    Serving,
    Buffering { call: PluginCallText, body: Seq<u8>, cap: u64 },
    Running { response_headers: Seq<HeaderText> },
    Consulting { key: Option<Seq<char>>, ahead: Seq<u8> },
    Revalidating { key: Seq<char>, hit: ResponseText, ahead: Seq<u8> },
    Done,
}

impl View for Stage {
    type V = StageText;

    open spec fn view(&self) -> StageText {
        match *self {
            Stage::Arrived => StageText::Arrived,
            Stage::Serving => StageText::Serving,
            Stage::Buffering { call, body, cap } => StageText::Buffering {
                call: call@,
                body: body@,
                cap,
            },
            Stage::Running { response_headers } => StageText::Running {
                response_headers: pairs(response_headers@),
            },
            Stage::Consulting { key, ahead } => StageText::Consulting {
                key: maybe_string(key),
                ahead: ahead@,
            },
            Stage::Revalidating { key, hit, ahead } => StageText::Revalidating {
                key: key@,
                hit: hit@,
                ahead: ahead@,
            },
            Stage::Done => StageText::Done,
        }
    }
}

/// What to do, as text.
pub enum StepText {
    Refuse(u16),
    Answer(Option<ReplyText>),
    ReadFile { root: Seq<char>, relative: Seq<char> },
    ReadBody,
    RunPlugins { route_id: usize, request: PluginRequest, host: Seq<char>, target: EndpointText },
    ReadCacheFile(Seq<char>),
    AskOrigin(OutboundText),
    GoOn { key: Option<Seq<char>>, ahead: Seq<u8> },
    Stop,
}

impl View for Step {
    type V = StepText;

    open spec fn view(&self) -> StepText {
        match *self {
            Step::Refuse(status) => StepText::Refuse(status),
            Step::Answer(reply) => StepText::Answer(maybe_reply(reply)),
            Step::ReadFile { dir, relative } => StepText::ReadFile {
                root: dir@,
                relative: relative@,
            },
            Step::ReadBody => StepText::ReadBody,
            Step::RunPlugins { route_id, request, host, target } => StepText::RunPlugins {
                route_id,
                request: request@,
                host: host@,
                target: target@,
            },
            Step::ReadCacheFile(path) => StepText::ReadCacheFile(path@),
            Step::AskOrigin(outbound) => StepText::AskOrigin(outbound@),
            Step::GoOn { key, ahead } => StepText::GoOn {
                key: maybe_string(key),
                ahead: ahead@,
            },
            Step::Stop => StepText::Stop,
        }
    }
}

/// Where a request stands and what to do next. A cache file may have to be
/// written besides.
#[derive(Debug)]
pub struct Advance {
    pub stage: Stage,
    pub step: Step,
    pub write: Option<DiskWrite>,
}

/// The host of a request; empty where it gives none.
pub open spec fn plain_host(request: InboundText) -> Seq<char> {
    match host_of(request.headers) {
        Some(h) => h,
        None => Seq::empty(),
    }
}

/// The route by which a stale entry is revalidated.
pub open spec fn origin_route(request: InboundText, routes: Seq<RouteText>) -> Option<int> {
    route_for(routes, Some(plain_host(request)), head(full_target(request), '?'))
}

/// The key of a request in the cache.
pub open spec fn filter_key(request: InboundText) -> Option<Seq<char>> {
    key_for(request.method, request.headers, plain_host(request), full_target(request))
}

/// The response that a cache entry makes. One that the origin has just sent is
/// served whole.
pub open spec fn hit_of(
    request: InboundText,
    hit: ResponseText,
    renewed: bool,
) -> Option<ReplyText> {
    hit_reply_text(
        hit,
        if renewed {
            None
        } else {
            field_text(request.headers, "if-none-match"@)
        },
    )
}

/// The next of a request for which the cache was consulted: the entry is
/// served, the origin is asked, or the request goes on.
pub open spec fn hear_next(request: InboundText, said: ConsultedText, ahead: Seq<u8>) -> (
    StageText,
    StepText,
) {
    match said {
        ConsultedText::Serve(hit) => (
            StageText::Done,
            StepText::Answer(hit_of(request, hit, false)),
        ),
        ConsultedText::Revalidate { key, hit, target, etag } => (
            StageText::Revalidating { key, hit, ahead },
            StepText::AskOrigin(
                conditional_request(target, full_target(request), plain_host(request), etag),
            ),
        ),
        ConsultedText::Fetch(key) => (StageText::Done, StepText::GoOn { key, ahead }),
    }
}

/// How the cache, the routes and the request go on once the cache is
/// consulted.
pub open spec fn consults(
    request: InboundText,
    cache: Option<ResponseCache>,
    cache_after: Option<ResponseCache>,
    routes: Seq<RouteText>,
    final_routes: Seq<RouteText>,
    key: Option<Seq<char>>,
    ahead: Seq<u8>,
    now: Timestamp,
    file: Option<Seq<u8>>,
    next: (StageText, StepText),
) -> bool {
    let route = origin_route(request, routes);
    &&& looked_into(cache, cache_after, key, now, file)
    &&& next == hear_next(request, heard(cache, key, routes, route, true, now, file), ahead)
    &&& final_routes == routes_after(cache, key, routes, route, now, file)
}

/// How a request goes on that is to be proxied: its cache file is read, or the
/// cache is consulted at once. `ahead` is what has come of its body.
pub open spec fn proxies(
    request: InboundText,
    cache: Option<ResponseCache>,
    cache_after: Option<ResponseCache>,
    routes: Seq<RouteText>,
    final_routes: Seq<RouteText>,
    ahead: Seq<u8>,
    now: Timestamp,
    next: (StageText, StepText),
) -> bool {
    match file_wanted(cache, filter_key(request)) {
        Some(path) => {
            &&& next == (
                StageText::Consulting { key: filter_key(request), ahead },
                StepText::ReadCacheFile(path),
            )
            &&& cache_after == cache
            &&& final_routes == routes
        },
        None => consults(
            request,
            cache,
            cache_after,
            routes,
            final_routes,
            filter_key(request),
            ahead,
            now,
            None,
            next,
        ),
    }
}

/// How a request of a plugin route goes on once `body` has come: it is buffered
/// on, goes on without the plugins where they cannot take so much, or is
/// refused where no request may be so large.
pub open spec fn buffers(
    request: InboundText,
    cache: Option<ResponseCache>,
    cache_after: Option<ResponseCache>,
    routes: Seq<RouteText>,
    final_routes: Seq<RouteText>,
    call: PluginCallText,
    body: Seq<u8>,
    cap: u64,
    max_body: Option<u64>,
    now: Timestamp,
    next: (StageText, StepText),
) -> bool {
    match intake(body.len(), cap, max_body) {
        Intake::Buffer => {
            &&& next == (StageText::Buffering { call, body, cap }, StepText::ReadBody)
            &&& cache_after == cache
            &&& final_routes == routes
        },
        Intake::Bypass => proxies(
            request,
            cache,
            cache_after,
            routes,
            final_routes,
            body,
            now,
            next,
        ),
        Intake::Refuse => {
            &&& next == (StageText::Done, StepText::Refuse(413))
            &&& cache_after == cache
            &&& final_routes == routes
        },
    }
}

/// How a request goes on when it arrives: it is refused, served from a
/// directory, handed to plugins, or looked up in the cache.
pub open spec fn arrives<P>(
    x: Filter,
    refusal: Option<u16>,
    plugins: Option<&Plugins<P>>,
    cache: Option<ResponseCache>,
    cache_after: Option<ResponseCache>,
    routes: Seq<RouteText>,
    final_routes: Seq<RouteText>,
    now: Timestamp,
    next: (StageText, StepText),
) -> bool {
    let request = x.request@;
    let turned = after_pick(routes, plugin_route(request, routes, plugins));
    if refusal is Some {
        &&& next == (StageText::Done, StepText::Refuse(refusal->0))
        &&& cache_after == cache
        &&& final_routes == routes
    } else if static_path(request, routes) is Some {
        let file = static_path(request, routes)->0;
        &&& next == (
            StageText::Serving,
            StepText::ReadFile { root: file.0, relative: file.1 },
        )
        &&& cache_after == cache
        &&& final_routes == routes
    } else if plugin_ask(request, routes, plugins) is Some {
        &&& next == (
            StageText::Buffering {
                call: plugin_ask(request, routes, plugins)->0,
                body: Seq::empty(),
                cap: plugins->0.cap(),
            },
            StepText::ReadBody,
        )
        &&& cache_after == cache
        &&& final_routes == turned
    } else {
        proxies(
            request,
            cache,
            cache_after,
            turned,
            final_routes,
            Seq::empty(),
            now,
            next,
        )
    }
}

/// How a request goes on after an event that concerns neither the routes nor
/// the cache; none for every other.
pub open spec fn plain_next(x: Filter, stage: Stage, event: Event) -> Option<
    (StageText, StepText),
> {
    match (stage, event) {
        (Stage::Serving, Event::FileRead(file)) => Some(
            (
                StageText::Done,
                match file {
                    Some((path, body)) => StepText::Answer(
                        Some(file_reply(mime_for(path@), body@)),
                    ),
                    None => StepText::Refuse(404),
                },
            ),
        ),
        (Stage::Buffering { call, body, cap }, Event::BodyEnded) => Some(
            (
                StageText::Running { response_headers: call@.response_headers },
                StepText::RunPlugins {
                    route_id: call.route_id,
                    request: PluginRequest {
                        body: body@,
                        client_ip: client_key(x.client),
                        ..call@.request
                    },
                    host: call@.host,
                    target: call@.target,
                },
            ),
        ),
        (Stage::Running { response_headers }, Event::PluginsRan(outcome)) => Some(
            (
                StageText::Done,
                match outcome {
                    Some(response) => StepText::Answer(
                        plugin_reply_of(response@, pairs(response_headers@)),
                    ),
                    None => StepText::Refuse(502),
                },
            ),
        ),
        _ => None,
    }
}

/// How a request goes on after an event: the stage it comes to, the step to
/// take, the cache file to write, and what becomes of the routes and the cache.
/// `refusal` is the status with which it is refused on arrival, if it is.
pub open spec fn advances<P>(
    x: Filter,
    stage: Stage,
    event: Event,
    refusal: Option<u16>,
    plugins: Option<&Plugins<P>>,
    cache: Option<ResponseCache>,
    cache_after: Option<ResponseCache>,
    routes: Seq<RouteText>,
    final_routes: Seq<RouteText>,
    max_body: Option<u64>,
    now: Timestamp,
    next: (StageText, StepText),
    write: Option<DiskWrite>,
) -> bool {
    match (stage, event) {
        (Stage::Arrived, Event::Arrival) => write is None && arrives(
            x,
            refusal,
            plugins,
            cache,
            cache_after,
            routes,
            final_routes,
            now,
            next,
        ),
        (Stage::Buffering { call, body, cap }, Event::BodyChunk(chunk)) => write is None && buffers(
            x.request@,
            cache,
            cache_after,
            routes,
            final_routes,
            call@,
            body@ + chunk@,
            cap,
            max_body,
            now,
            next,
        ),
        (Stage::Consulting { key, ahead }, Event::CacheFileRead(file)) => write is None && consults(
            x.request@,
            cache,
            cache_after,
            routes,
            final_routes,
            maybe_string(key),
            ahead@,
            now,
            crate::relay::maybe_bytes(file),
            next,
        ),
        (Stage::Revalidating { key, hit, ahead }, Event::OriginAsked(outcome)) => {
            &&& kept(cache, cache_after, key@, refreshed(hit@, outcome@), now, write)
            &&& final_routes == routes
            &&& next == (
                StageText::Done,
                match settlement(key@, hit@, outcome@) {
                    SettledText::Serve { response, renewed } => StepText::Answer(
                        hit_of(x.request@, response, renewed),
                    ),
                    SettledText::Fetch(k) => StepText::GoOn { key: Some(k), ahead: ahead@ },
                },
            )
        },
        _ => {
            &&& next == match plain_next(x, stage, event) {
                Some(n) => n,
                None => (StageText::Done, StepText::Stop),
            }
            &&& cache_after == cache
            &&& final_routes == routes
            &&& write is None
        },
    }
}

impl Filter {
    /// The host of the request; empty where it gives none.
    fn host_string(&self) -> (r: String)
        ensures
            r@ == plain_host(self.request@),
    {
        match request_host(&self.request.headers) {
            Some(h) => h,
            None => String::new(),
        }
    }

    /// Consults the cache and acts on what it says.
    fn ask_cache(
        &self,
        router: &mut Router,
        cache: &mut Option<ResponseCache>,
        key: Option<String>,
        ahead: Vec<u8>,
        now: Timestamp,
        file: Option<&[u8]>,
    ) -> (r: (Stage, Step))
        requires
            cache_wf(*old(cache)),
        ensures
            same_cache(*old(cache), *final(cache)),
            consults(
                self.request@,
                *old(cache),
                *final(cache),
                old(router)@,
                final(router)@,
                maybe_string(key),
                ahead@,
                now,
                maybe_slice(file),
                (r.0@, r.1@),
            ),
    {
        let host = self.host_string();
        let target = chars_of(self.request.full_target());
        let path = string_of(before(target.as_slice(), '?'));
        let route = router.match_index(Some(host.as_str()), path.as_str());
        match consult(cache, router, key, route, true, now, file) {
            Consulted::Serve(hit) => {
                let inm = find_field(&self.request.headers, "if-none-match");
                (Stage::Done, Step::Answer(hit_reply(hit, inm)))
            },
            Consulted::Revalidate { key, hit, target, etag } => {
                let outbound = revalidation_request(
                    &target,
                    self.request.full_target(),
                    host.as_str(),
                    etag.as_str(),
                );
                (Stage::Revalidating { key, hit, ahead }, Step::AskOrigin(outbound))
            },
            Consulted::Fetch(key) => (Stage::Done, Step::GoOn { key, ahead }),
        }
    }

    /// Proxies the request: its cache file is to be read, or the cache is
    /// consulted.
    fn proxy(
        &self,
        router: &mut Router,
        cache: &mut Option<ResponseCache>,
        ahead: Vec<u8>,
        now: Timestamp,
    ) -> (r: (Stage, Step))
        requires
            cache_wf(*old(cache)),
        ensures
            same_cache(*old(cache), *final(cache)),
            proxies(
                self.request@,
                *old(cache),
                *final(cache),
                old(router)@,
                final(router)@,
                ahead@,
                now,
                (r.0@, r.1@),
            ),
    {
        let host = self.host_string();
        let key = request_key(
            self.request.method.as_str(),
            &self.request.headers,
            host.as_str(),
            self.request.full_target(),
        );
        let file = match (&*cache, &key) {
            (Some(c), Some(k)) => c.file_to_read(k.as_str()),
            _ => None,
        };
        match file {
            Some(path) => (Stage::Consulting { key, ahead }, Step::ReadCacheFile(path)),
            None => self.ask_cache(router, cache, key, ahead, now, None),
        }
    }

    /// Takes the first step.
    fn arrive<P>(
        &self,
        access: &AccessControl,
        limiter: &mut Option<RateLimiter>,
        router: &mut Router,
        cache: &mut Option<ResponseCache>,
        plugins: Option<&Plugins<P>>,
        limits: &FilterLimits,
        now: Timestamp,
        now_ms: u64,
    ) -> (r: (Stage, Step))
        requires
            access.wf(),
            cache_wf(*old(cache)),
        ensures
            same_cache(*old(cache), *final(cache)),
            arrives(
                *self,
                refusal(
                    refused(*access, self.client),
                    has_room(*old(limiter), client_key(self.client), now_ms),
                    too_large(self.request@.headers, limits.max_body_bytes),
                ),
                plugins,
                *old(cache),
                *final(cache),
                old(router)@,
                final(router)@,
                now,
                (r.0@, r.1@),
            ),
            rate_checked(
                *old(limiter),
                *final(limiter),
                refused(*access, self.client),
                client_key(self.client),
                now_ms,
                has_room(*old(limiter), client_key(self.client), now_ms),
            ),
    {
        if let Some(status) = screen(
            &self.request,
            &self.client,
            access,
            limiter,
            now_ms,
            limits.max_body_bytes,
        ) {
            return (Stage::Done, Step::Refuse(status));
        }
        if let Some(ask) = static_ask(&self.request, router) {
            return (Stage::Serving, Step::ReadFile { dir: ask.dir, relative: ask.relative });
        }
        if let Some(call) = call_plugins(&self.request, router, plugins) {
            let cap: u64 = match plugins {
                Some(p) => p.max_body(),
                None => 0,
            };
            let body: Vec<u8> = Vec::new();
            assert(body@ =~= Seq::<u8>::empty());
            return (Stage::Buffering { call, body, cap }, Step::ReadBody);
        }
        let ahead: Vec<u8> = Vec::new();
        assert(ahead@ =~= Seq::<u8>::empty());
        self.proxy(router, cache, ahead, now)
    }

    /// Decides how the request goes on after an event. `now_ms` counts from
    /// the start of the process.
    pub fn step<P>(
        &self,
        stage: Stage,
        event: Event,
        access: &AccessControl,
        limiter: &mut Option<RateLimiter>,
        router: &mut Router,
        cache: &mut Option<ResponseCache>,
        plugins: Option<&Plugins<P>>,
        limits: &FilterLimits,
        now: Timestamp,
        now_ms: u64,
    ) -> (r: Advance)
        requires
            access.wf(),
            cache_wf(*old(cache)),
        ensures
            same_cache(*old(cache), *final(cache)),
            advances(
                *self,
                stage,
                event,
                refusal(
                    refused(*access, self.client),
                    has_room(*old(limiter), client_key(self.client), now_ms),
                    too_large(self.request@.headers, limits.max_body_bytes),
                ),
                plugins,
                *old(cache),
                *final(cache),
                old(router)@,
                final(router)@,
                limits.max_body_bytes,
                now,
                (r.stage@, r.step@),
                r.write,
            ),
            if stage is Arrived && event is Arrival {
                rate_checked(
                    *old(limiter),
                    *final(limiter),
                    refused(*access, self.client),
                    client_key(self.client),
                    now_ms,
                    has_room(*old(limiter), client_key(self.client), now_ms),
                )
            } else {
                *final(limiter) == *old(limiter)
            },
    {
        match (stage, event) {
            (Stage::Arrived, Event::Arrival) => {
                let (stage, step) = self.arrive(
                    access,
                    limiter,
                    router,
                    cache,
                    plugins,
                    limits,
                    now,
                    now_ms,
                );
                Advance { stage, step, write: None }
            },
            (Stage::Serving, Event::FileRead(file)) => {
                let step = if file.is_some() {
                    Step::Answer(Some(static_reply(file)))
                } else {
                    Step::Refuse(404)
                };
                Advance { stage: Stage::Done, step, write: None }
            },
            (Stage::Buffering { call, body, cap }, Event::BodyChunk(chunk)) => {
                let mut body = body;
                match take_in(&mut body, chunk.as_slice(), cap, limits.max_body_bytes) {
                    Intake::Buffer => Advance {
                        stage: Stage::Buffering { call, body, cap },
                        step: Step::ReadBody,
                        write: None,
                    },
                    Intake::Bypass => {
                        let (stage, step) = self.proxy(router, cache, body, now);
                        Advance { stage, step, write: None }
                    },
                    Intake::Refuse => Advance {
                        stage: Stage::Done,
                        step: Step::Refuse(413),
                        write: None,
                    },
                }
            },
            (Stage::Buffering { call, body, cap }, Event::BodyEnded) => {
                let client_ip = match &self.client {
                    Some(c) => c.text.clone(),
                    None => String::new(),
                };
                let request = plugin_request(call.request, body, client_ip);
                Advance {
                    stage: Stage::Running { response_headers: call.response_headers },
                    step: Step::RunPlugins {
                        route_id: call.route_id,
                        request,
                        host: call.host,
                        target: call.target,
                    },
                    write: None,
                }
            },
            (Stage::Running { response_headers }, Event::PluginsRan(outcome)) => {
                let step = match outcome {
                    Some(response) => Step::Answer(plugin_reply(response, &response_headers)),
                    None => Step::Refuse(502),
                };
                Advance { stage: Stage::Done, step, write: None }
            },
            (Stage::Consulting { key, ahead }, Event::CacheFileRead(file)) => {
                let bytes = match &file {
                    Some(b) => Some(b.as_slice()),
                    None => None,
                };
                let (stage, step) = self.ask_cache(router, cache, key, ahead, now, bytes);
                Advance { stage, step, write: None }
            },
            (Stage::Revalidating { key, hit, ahead }, Event::OriginAsked(outcome)) => {
                let (settled, write) = settle(cache, key, hit, outcome, now);
                let step = match settled {
                    Settled::Serve { response, renewed } => {
                        let inm = if renewed {
                            None
                        } else {
                            find_field(&self.request.headers, "if-none-match")
                        };
                        Step::Answer(hit_reply(response, inm))
                    },
                    Settled::Fetch(k) => Step::GoOn { key: Some(k), ahead },
                };
                Advance { stage: Stage::Done, step, write }
            },
            _ => Advance { stage: Stage::Done, step: Step::Stop, write: None },
        }
    }
}

/// A request that the access rules, the rate limit or the body limit refuse is
/// answered at once, and changes neither the routes nor the cache.
pub proof fn law_refusal_has_no_effect<P>(
    x: Filter,
    status: u16,
    plugins: Option<&Plugins<P>>,
    cache: Option<ResponseCache>,
    cache_after: Option<ResponseCache>,
    routes: Seq<RouteText>,
    final_routes: Seq<RouteText>,
    max_body: Option<u64>,
    now: Timestamp,
    next: (StageText, StepText),
    write: Option<DiskWrite>,
)
    requires
        advances(
            x,
            Stage::Arrived,
            Event::Arrival,
            Some(status),
            plugins,
            cache,
            cache_after,
            routes,
            final_routes,
            max_body,
            now,
            next,
            write,
        ),
    ensures
        next == (StageText::Done, StepText::Refuse(status)),
        cache_after == cache,
        final_routes == routes,
        write is None,
{
}

/// The access rules are asked before the rate limit, and both before the body
/// limit: a client that is denied does not use up its rate.
pub proof fn law_access_rules_come_first(
    before: Option<RateLimiter>,
    after: Option<RateLimiter>,
    key: Seq<char>,
    now_ms: u64,
    within_rate: bool,
    oversized: bool,
)
    requires
        rate_checked(before, after, true, key, now_ms, within_rate),
    ensures
        refusal(true, within_rate, oversized) == Some(403u16),
        after == before,
        refusal(false, false, oversized) == Some(429u16),
        refusal(false, true, true) == Some(413u16),
        refusal(false, true, false) is None,
{
}

/// Plugins get the whole body or none of it: what is buffered for them never
/// exceeds what they can take, and a body that does goes on with the request,
/// no byte of it lost, without a plugin being run.
pub proof fn law_large_body_bypasses_plugins(
    request: InboundText,
    cache: Option<ResponseCache>,
    cache_after: Option<ResponseCache>,
    routes: Seq<RouteText>,
    final_routes: Seq<RouteText>,
    call: PluginCallText,
    body: Seq<u8>,
    cap: u64,
    max_body: Option<u64>,
    now: Timestamp,
    next: (StageText, StepText),
)
    requires
        buffers(
            request,
            cache,
            cache_after,
            routes,
            final_routes,
            call,
            body,
            cap,
            max_body,
            now,
            next,
        ),
        !over_limit(body.len(), max_body),
    ensures
        body.len() <= cap ==> next == (
            StageText::Buffering { call, body, cap },
            StepText::ReadBody,
        ),
        body.len() > cap ==> match next {
            (StageText::Consulting { ahead, .. }, StepText::ReadCacheFile(_)) => ahead == body,
            (StageText::Revalidating { ahead, .. }, StepText::AskOrigin(_)) => ahead == body,
            (StageText::Done, StepText::GoOn { ahead, .. }) => ahead == body,
            (StageText::Done, StepText::Answer(_)) => true,
            _ => false,
        },
{
}

} // verus!
