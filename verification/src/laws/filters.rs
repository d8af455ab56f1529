//! A request over HTTP/1 or HTTP/2, step by step, until it is answered or goes on
//! to be forwarded.
use crate::cache::{CachedResponse, ResponseText};
use crate::clock::Timestamp;
use crate::consult::{heard, kept, looked_into, refreshed, routes_after, ConsultedText};
use crate::exchange::file_wanted;
use crate::filter::{
    advances, consults, filter_key, hear_next, origin_route, proxies, Event, Filter, Stage,
    StageText, StepText,
};
use crate::headers::pairs;
use crate::http3::PluginCall;
use crate::laws::forwarding::{goes_out_as, leads_to};
use crate::laws::requests::{law_target_is_whole, lemma_turn, turn_of, whole_target};
use crate::laws::texts::law_head;
use crate::message::{declared_length, field_text, InboundText};
use crate::plugin::{has_chain, Plugins, Response};
use crate::proxy::{h1_plugin_call, hit_reply_text, host_of, plugin_reply_of};
use crate::relay::{file_reply, mime_for};
use crate::router::{after_pick, route_for, EndpointText, RouteText};
use crate::store::{DiskWrite, ResponseCache};
use crate::text::maybe_string;
use crate::upstream::{Revalidated, RevalidatedText};
use vstd::prelude::*;

verus! {

/// A request is known in the cache by its method, headers, host without the port
/// and whole target.
pub proof fn law_key_of_a_request(request: InboundText)
    ensures
        host_of(request.headers) matches Some(h) ==> filter_key(request) == crate::consult::key_for(
            request.method,
            request.headers,
            h,
            whole_target(request),
        ),
        host_of(request.headers) is None ==> filter_key(request) == crate::consult::key_for(
            request.method,
            request.headers,
            Seq::empty(),
            whole_target(request),
        ),
{
    law_target_is_whole(request);
}

/// A stale entry is checked by the route of the request's host and of its path,
/// without the query.
pub proof fn law_route_to_the_origin(
    request: InboundText,
    routes: Seq<RouteText>,
    path: Seq<char>,
    query: Seq<char>,
    host: Seq<char>,
)
    requires
        !path.contains('?'),
        request.target == Some(path) || request.target == Some(path.push('?') + query),
        host_of(request.headers) == Some(host),
    ensures
        origin_route(request, routes) == route_for(routes, Some(host), path),
{
    law_head(path, '?', query);
}

/// What the cache says is done: its entry is served, as far as the client does
/// not have it; the origin is asked about a stale one, at the target that was
/// picked, for the whole target and host of the request, by the entry's tag;
/// otherwise the request goes on, its answer to be kept under the key, with what
/// has come of its body.
pub proof fn law_what_the_cache_says_is_done(
    request: InboundText,
    hit: ResponseText,
    key: Seq<char>,
    target: EndpointText,
    etag: Seq<char>,
    fetch_key: Option<Seq<char>>,
    ahead: Seq<u8>,
)
    ensures
        hear_next(request, ConsultedText::Serve(hit), ahead) == (
            StageText::Done,
            StepText::Answer(
                hit_reply_text(hit, field_text(request.headers, "if-none-match"@)),
            ),
        ),
        hear_next(request, ConsultedText::Fetch(fetch_key), ahead) == (
            StageText::Done,
            StepText::GoOn { key: fetch_key, ahead },
        ),
        ({
            let next = hear_next(
                request,
                (ConsultedText::Revalidate { key, hit, target, etag }),
                ahead,
            );
            &&& next.0 == (StageText::Revalidating { key, hit, ahead })
            &&& next.1 matches StepText::AskOrigin(outbound)
            &&& outbound.method == "GET"@
            &&& leads_to(outbound.uri, target, whole_target(request), None)
            &&& outbound.headers.len() == 2
            &&& outbound.headers[0].0 == "host"@
            &&& host_of(request.headers) matches Some(h) ==> outbound.headers[0].1 == h
            &&& host_of(request.headers) is None ==> outbound.headers[0].1.len() == 0
            &&& outbound.headers[1] == ("if-none-match"@, etag)
        }),
{
    law_target_is_whole(request);
}

/// Without a cache, a request that is not refused, that no plugin handles and
/// whose route is no directory goes on as soon as it arrives, whole.
pub proof fn law_request_goes_on<P>(
    x: Filter,
    refusal: Option<u16>,
    plugins: Option<&Plugins<P>>,
    cache: Option<ResponseCache>,
    cache_after: Option<ResponseCache>,
    routes: Seq<RouteText>,
    final_routes: Seq<RouteText>,
    max_body: Option<u64>,
    now: Timestamp,
    next: (StageText, StepText),
    write: Option<DiskWrite>,
)
    requires
        refusal is None,
        cache is None,
        plugins is None,
        route_for(routes, host_of(x.request@.headers), x.request@.path) matches Some(i)
            ==> routes[i].static_root is None,
        advances(
            x,
            Stage::Arrived,
            Event::Arrival,
            refusal,
            plugins,
            cache,
            cache_after,
            routes,
            final_routes,
            max_body,
            now,
            next,
            write,
        ),
    ensures
        next.0 == StageText::Done,
        next.1 matches StepText::GoOn { key, ahead } && key is None && ahead.len() == 0,
        final_routes == routes,
        cache_after is None,
        write is None,
{
}

/// A request that is refused gets the status of the refusal, and nothing is done
/// for it.
pub proof fn law_refused_request<P>(
    x: Filter,
    status: u16,
    refusal: Option<u16>,
    plugins: Option<&Plugins<P>>,
    cache: Option<ResponseCache>,
    cache_after: Option<ResponseCache>,
    routes: Seq<RouteText>,
    final_routes: Seq<RouteText>,
    max_body: Option<u64>,
    now: Timestamp,
    next: (StageText, StepText),
    write: Option<DiskWrite>,
)
    requires
        refusal == Some(status),
        advances(
            x,
            Stage::Arrived,
            Event::Arrival,
            refusal,
            plugins,
            cache,
            cache_after,
            routes,
            final_routes,
            max_body,
            now,
            next,
            write,
        ),
    ensures
        next == (StageText::Done, StepText::Refuse(status)),
        cache_after == cache,
        final_routes == routes,
        write is None,
{
}

/// A request whose route is a directory is served the file of its routed path,
/// whatever cache and plugins there are.
pub proof fn law_request_for_a_file<P>(
    x: Filter,
    i: int,
    root: Seq<char>,
    out: Seq<char>,
    refusal: Option<u16>,
    plugins: Option<&Plugins<P>>,
    cache: Option<ResponseCache>,
    cache_after: Option<ResponseCache>,
    routes: Seq<RouteText>,
    final_routes: Seq<RouteText>,
    max_body: Option<u64>,
    now: Timestamp,
    next: (StageText, StepText),
    write: Option<DiskWrite>,
)
    requires
        refusal is None,
        route_for(routes, host_of(x.request@.headers), x.request@.path) == Some(i),
        routes[i].static_root == Some(root),
        goes_out_as(routes[i], x.request@.path, out),
        advances(
            x,
            Stage::Arrived,
            Event::Arrival,
            refusal,
            plugins,
            cache,
            cache_after,
            routes,
            final_routes,
            max_body,
            now,
            next,
            write,
        ),
    ensures
        next == (StageText::Serving, StepText::ReadFile { root, relative: out }),
        cache_after == cache,
        final_routes == routes,
        write is None,
{
    crate::laws::requests::lemma_routed(routes[i], x.request@.path, out);
}

/// A request that plugins handle has its body buffered for them, from nothing up
/// to what they can take, and takes a turn of its route's targets.
pub proof fn law_request_for_plugins<P>(
    x: Filter,
    i: int,
    chains: &Plugins<P>,
    refusal: Option<u16>,
    plugins: Option<&Plugins<P>>,
    cache: Option<ResponseCache>,
    cache_after: Option<ResponseCache>,
    routes: Seq<RouteText>,
    final_routes: Seq<RouteText>,
    max_body: Option<u64>,
    now: Timestamp,
    next: (StageText, StepText),
    write: Option<DiskWrite>,
)
    requires
        refusal is None,
        plugins == Some(chains),
        route_for(routes, host_of(x.request@.headers), x.request@.path) == Some(i),
        0 <= i < routes.len(),
        routes[i].static_root is None,
        routes[i].targets.len() > 0,
        has_chain(chains@, routes[i].id as int),
        declared_length(x.request@.headers) matches Some(n) ==> n <= chains.cap(),
        advances(
            x,
            Stage::Arrived,
            Event::Arrival,
            refusal,
            plugins,
            cache,
            cache_after,
            routes,
            final_routes,
            max_body,
            now,
            next,
            write,
        ),
    ensures
        next.0 matches StageText::Buffering { call, body, cap } && {
            &&& call == h1_plugin_call(x.request@, routes[i], turn_of(routes[i]))
            &&& body.len() == 0
            &&& cap == chains.cap()
        },
        next.1 == StepText::ReadBody,
        cache_after == cache,
        final_routes == after_pick(routes, Some(i)),
        write is None,
{
    lemma_turn(routes, i);
}

/// A file that was read is answered with its contents and the media type of its
/// path; one that does not exist with 404.
pub proof fn law_file_was_read<P>(
    x: Filter,
    file: Option<(String, Vec<u8>)>,
    refusal: Option<u16>,
    plugins: Option<&Plugins<P>>,
    cache: Option<ResponseCache>,
    cache_after: Option<ResponseCache>,
    routes: Seq<RouteText>,
    final_routes: Seq<RouteText>,
    max_body: Option<u64>,
    now: Timestamp,
    next: (StageText, StepText),
    write: Option<DiskWrite>,
)
    requires
        advances(
            x,
            Stage::Serving,
            Event::FileRead(file),
            refusal,
            plugins,
            cache,
            cache_after,
            routes,
            final_routes,
            max_body,
            now,
            next,
            write,
        ),
    ensures
        file is None ==> next == (StageText::Done, StepText::Refuse(404)),
        file matches Some((path, body)) ==> next == (
            StageText::Done,
            StepText::Answer(Some(file_reply(mime_for(path@), body@))),
        ),
        cache_after == cache,
        final_routes == routes,
        write is None,
{
}

/// A piece of the body that plugins can take is added behind what has come.
pub proof fn law_body_is_gathered_for_plugins<P>(
    x: Filter,
    call: PluginCall,
    body: Vec<u8>,
    cap: u64,
    chunk: Vec<u8>,
    refusal: Option<u16>,
    plugins: Option<&Plugins<P>>,
    cache: Option<ResponseCache>,
    cache_after: Option<ResponseCache>,
    routes: Seq<RouteText>,
    final_routes: Seq<RouteText>,
    max_body: Option<u64>,
    now: Timestamp,
    next: (StageText, StepText),
    write: Option<DiskWrite>,
)
    requires
        body@.len() + chunk@.len() <= cap,
        max_body matches Some(m) ==> body@.len() + chunk@.len() <= m,
        advances(
            x,
            (Stage::Buffering { call, body, cap }),
            Event::BodyChunk(chunk),
            refusal,
            plugins,
            cache,
            cache_after,
            routes,
            final_routes,
            max_body,
            now,
            next,
            write,
        ),
    ensures
        next == (
            StageText::Buffering { call: call@, body: body@ + chunk@, cap },
            StepText::ReadBody,
        ),
        cache_after == cache,
        final_routes == routes,
        write is None,
{
}

/// A body over the limit of all requests is refused with 413.
pub proof fn law_body_over_the_limit_is_refused<P>(
    x: Filter,
    call: PluginCall,
    body: Vec<u8>,
    cap: u64,
    chunk: Vec<u8>,
    max: u64,
    refusal: Option<u16>,
    plugins: Option<&Plugins<P>>,
    cache: Option<ResponseCache>,
    cache_after: Option<ResponseCache>,
    routes: Seq<RouteText>,
    final_routes: Seq<RouteText>,
    max_body: Option<u64>,
    now: Timestamp,
    next: (StageText, StepText),
    write: Option<DiskWrite>,
)
    requires
        max_body == Some(max),
        body@.len() + chunk@.len() > max,
        advances(
            x,
            (Stage::Buffering { call, body, cap }),
            Event::BodyChunk(chunk),
            refusal,
            plugins,
            cache,
            cache_after,
            routes,
            final_routes,
            max_body,
            now,
            next,
            write,
        ),
    ensures
        next == (StageText::Done, StepText::Refuse(413)),
        cache_after == cache,
        final_routes == routes,
        write is None,
{
}

/// Once the body is complete the plugins of the route get the request as it
/// arrived, with the whole body and the client's address, empty where that is not
/// known.
pub proof fn law_plugins_are_run<P>(
    x: Filter,
    call: PluginCall,
    body: Vec<u8>,
    cap: u64,
    refusal: Option<u16>,
    plugins: Option<&Plugins<P>>,
    cache: Option<ResponseCache>,
    cache_after: Option<ResponseCache>,
    routes: Seq<RouteText>,
    final_routes: Seq<RouteText>,
    max_body: Option<u64>,
    now: Timestamp,
    next: (StageText, StepText),
    write: Option<DiskWrite>,
)
    requires
        advances(
            x,
            (Stage::Buffering { call, body, cap }),
            Event::BodyEnded,
            refusal,
            plugins,
            cache,
            cache_after,
            routes,
            final_routes,
            max_body,
            now,
            next,
            write,
        ),
    ensures
        next.0 == (StageText::Running { response_headers: pairs(call.response_headers@) }),
        next.1 matches StepText::RunPlugins { route_id, request, host, target } && {
            &&& route_id == call.route_id
            &&& request.method == call.request.method@
            &&& request.path == call.request.path@
            &&& request.headers == pairs(call.request.headers@)
            &&& request.body == body@
            &&& x.client matches Some(c) ==> request.client_ip == c.text@
            &&& x.client is None ==> request.client_ip.len() == 0
            &&& host == call.host@
            &&& target.address == call.target.address@
            &&& target.tls == call.target.tls
            &&& target.sni == call.target.sni@
            &&& target.h2 == call.target.h2
        },
        cache_after == cache,
        final_routes == routes,
        write is None,
{
}

/// What the plugins answer is sent with the route's headers; a failure is a 502.
pub proof fn law_plugins_have_run<P>(
    x: Filter,
    response_headers: Vec<(String, String)>,
    response: Response,
    outcome: Option<Response>,
    refusal: Option<u16>,
    plugins: Option<&Plugins<P>>,
    cache: Option<ResponseCache>,
    cache_after: Option<ResponseCache>,
    routes: Seq<RouteText>,
    final_routes: Seq<RouteText>,
    max_body: Option<u64>,
    now: Timestamp,
    next: (StageText, StepText),
    write: Option<DiskWrite>,
)
    requires
        advances(
            x,
            (Stage::Running { response_headers }),
            Event::PluginsRan(outcome),
            refusal,
            plugins,
            cache,
            cache_after,
            routes,
            final_routes,
            max_body,
            now,
            next,
            write,
        ),
    ensures
        outcome is None ==> next == (StageText::Done, StepText::Refuse(502)),
        outcome == Some(response) ==> next == (
            StageText::Done,
            StepText::Answer(plugin_reply_of(response@, pairs(response_headers@))),
        ),
        cache_after == cache,
        final_routes == routes,
        write is None,
{
}

/// A confirmed entry is served, as far as the client does not have it; a new one is
/// served whole; where the origin gave no answer, the request goes on with what has
/// come of its body, its answer to be kept under the same key.
pub proof fn law_origin_was_asked<P>(
    x: Filter,
    key: String,
    hit: CachedResponse,
    ahead: Vec<u8>,
    outcome: Revalidated,
    refusal: Option<u16>,
    plugins: Option<&Plugins<P>>,
    cache: Option<ResponseCache>,
    cache_after: Option<ResponseCache>,
    routes: Seq<RouteText>,
    final_routes: Seq<RouteText>,
    max_body: Option<u64>,
    now: Timestamp,
    next: (StageText, StepText),
    write: Option<DiskWrite>,
)
    requires
        advances(
            x,
            (Stage::Revalidating { key, hit, ahead }),
            Event::OriginAsked(outcome),
            refusal,
            plugins,
            cache,
            cache_after,
            routes,
            final_routes,
            max_body,
            now,
            next,
            write,
        ),
    ensures
        outcome is NotModified ==> next == (
            StageText::Done,
            StepText::Answer(
                hit_reply_text(hit@, field_text(x.request@.headers, "if-none-match"@)),
            ),
        ),
        outcome@ matches RevalidatedText::Modified(fresh) ==> next == (
            StageText::Done,
            StepText::Answer(hit_reply_text(fresh, None)),
        ),
        outcome is Failed ==> next == (
            StageText::Done,
            StepText::GoOn { key: Some(key@), ahead: ahead@ },
        ) && cache_after == cache && write is None,
        final_routes == routes,
        kept(cache, cache_after, key@, refreshed(hit@, outcome@), now, write),
{
}

/// Once the cache file was read, or found missing, the cache is consulted under the
/// same key, and what it says is done with what has come of the body.
pub proof fn law_cache_file_was_read<P>(
    x: Filter,
    key: Option<String>,
    ahead: Vec<u8>,
    file: Option<Vec<u8>>,
    refusal: Option<u16>,
    plugins: Option<&Plugins<P>>,
    cache: Option<ResponseCache>,
    cache_after: Option<ResponseCache>,
    routes: Seq<RouteText>,
    final_routes: Seq<RouteText>,
    max_body: Option<u64>,
    now: Timestamp,
    next: (StageText, StepText),
    write: Option<DiskWrite>,
)
    requires
        advances(
            x,
            (Stage::Consulting { key, ahead }),
            Event::CacheFileRead(file),
            refusal,
            plugins,
            cache,
            cache_after,
            routes,
            final_routes,
            max_body,
            now,
            next,
            write,
        ),
    ensures
        write is None,
        ({
            let bytes = if file is Some {
                Some(file->0@)
            } else {
                None
            };
            let route = origin_route(x.request@, routes);
            &&& looked_into(cache, cache_after, maybe_string(key), now, bytes)
            &&& next == hear_next(
                x.request@,
                heard(cache, maybe_string(key), routes, route, true, now, bytes),
                ahead@,
            )
            &&& final_routes == routes_after(
                cache,
                maybe_string(key),
                routes,
                route,
                now,
                bytes,
            )
        }),
{
}

/// A request that is answered or has gone on is done with: nothing that happens
/// then has an effect.
pub proof fn law_answered_once<P>(
    x: Filter,
    event: Event,
    refusal: Option<u16>,
    plugins: Option<&Plugins<P>>,
    cache: Option<ResponseCache>,
    cache_after: Option<ResponseCache>,
    routes: Seq<RouteText>,
    final_routes: Seq<RouteText>,
    max_body: Option<u64>,
    now: Timestamp,
    next: (StageText, StepText),
    write: Option<DiskWrite>,
)
    requires
        advances(
            x,
            Stage::Done,
            event,
            refusal,
            plugins,
            cache,
            cache_after,
            routes,
            final_routes,
            max_body,
            now,
            next,
            write,
        ),
    ensures
        next == (StageText::Done, StepText::Stop),
        cache_after == cache,
        final_routes == routes,
        write is None,
{
}

/// A request that is proxied waits for its cache file where one is to be read,
/// with its key and what has come of its body; otherwise the cache is consulted
/// at once.
pub proof fn law_cache_file_is_read_first(
    request: InboundText,
    cache: Option<ResponseCache>,
    cache_after: Option<ResponseCache>,
    routes: Seq<RouteText>,
    final_routes: Seq<RouteText>,
    ahead: Seq<u8>,
    now: Timestamp,
    next: (StageText, StepText),
)
    requires
        proxies(request, cache, cache_after, routes, final_routes, ahead, now, next),
    ensures
        file_wanted(cache, filter_key(request)) matches Some(path) ==> {
            &&& next.0 == (StageText::Consulting { key: filter_key(request), ahead })
            &&& next.1 == StepText::ReadCacheFile(path)
            &&& cache_after == cache
            &&& final_routes == routes
        },
        file_wanted(cache, filter_key(request)) is None ==> consults(
            request,
            cache,
            cache_after,
            routes,
            final_routes,
            filter_key(request),
            ahead,
            now,
            None,
            next,
        ),
{
}

} // verus!
