//! A request over HTTP/3, step by step: what is done after each event.
use crate::cache::ResponseText;
use crate::clock::Timestamp;
use crate::consult::{heard, kept, looked_into, refreshed, Pending};
use crate::exchange::{
    advances, consults, exchange_key, fetch_next, file_wanted, hear_next, proxies, route_sets,
    routes_heard, Caching, Event, Exchange, Stage, StageText, StepText,
};
use crate::headers::pairs;
use crate::http3::{edited, plugin_reply_text, relay_fields, Limits, PluginCall};
use crate::laws::forwarding::{
    empty_reply, goes_out_as, law_request_is_sent_or_refused,
    law_request_keeps_method_path_and_query, leads_to, lemma_empty_reply,
};
use crate::laws::relaying::{coding_field, law_compressing_changes_two_fields, not_named};
use crate::laws::requests::{law_target_is_whole, lemma_turn, turn_of, whole_target};
use crate::message::{declared_length, field_text, fields, HeaderField, InboundText};
use crate::plugin::{has_chain, Plugins, Response};
use crate::relay::{file_reply, mime_for, safe_method};
use crate::router::{after_pick, place, route_for, EndpointText, RouteText};
use crate::store::{DiskWrite, ResponseCache};
use crate::text::maybe_string;
use crate::upstream::{Revalidated, RevalidatedText};
use vstd::prelude::*;

verus! {

/// Whether a request declares a body over the limit.
pub open spec fn oversized(request: InboundText, max_body: Option<u64>) -> bool {
    max_body matches Some(m) && (declared_length(request.headers) matches Some(n) && n > m)
}

/// Whether a request that is fetched goes on as it must: to the target of its
/// route whose turn it is, with its method, the routed path and its query, and
/// with what has come of its body ahead; or is answered 404 without a target, and
/// 413 where its body is over the limit.
pub open spec fn goes_upstream(
    request: InboundText,
    routes: Seq<RouteText>,
    route: Option<int>,
    key: Option<Seq<char>>,
    ahead: Seq<u8>,
    max_body: Option<u64>,
    out: Seq<char>,
    next: (StageText, StepText),
) -> bool {
    if route is None || routes[route->0].targets.len() == 0 {
        next == (StageText::Done, StepText::Answer(empty_reply(404)))
    } else if oversized(request, max_body) {
        next == (StageText::Done, StepText::Answer(empty_reply(413)))
    } else {
        &&& next.0 == (StageText::Sending { route, key })
        &&& next.1 matches StepText::Send { forward, ahead: first }
        &&& first == ahead
        &&& forward.method == request.method
        &&& leads_to(forward.uri, turn_of(routes[route->0]), out, request.query)
    }
}

/// A request that is fetched is sent upstream, whole, or refused.
pub proof fn law_fetched_request_goes_upstream(
    x: Exchange,
    routes: Seq<RouteText>,
    route: Option<int>,
    key: Option<Seq<char>>,
    ahead: Seq<u8>,
    max_body: Option<u64>,
    out: Seq<char>,
)
    requires
        route matches Some(i) ==> 0 <= i < routes.len() && goes_out_as(
            routes[i],
            x.request@.path,
            out,
        ),
    ensures
        goes_upstream(
            x.request@,
            routes,
            route,
            key,
            ahead,
            max_body,
            out,
            fetch_next(x, routes, route, key, ahead, max_body),
        ),
{
    lemma_empty_reply(404);
    lemma_empty_reply(413);
    if let Some(i) = route {
        lemma_turn(routes, i);
        law_request_is_sent_or_refused(x.request@, x.is_early, routes, i, max_body);
        law_request_keeps_method_path_and_query(
            x.request@,
            x.is_early,
            routes[i],
            turn_of(routes[i]),
            out,
        );
    }
}

/// Where the cache says to fetch, the request goes upstream and its route's
/// targets take a turn; where it has the answer, that is served at once, and no
/// target takes a turn for it.
pub proof fn law_what_the_cache_says_is_done(
    x: Exchange,
    routes: Seq<RouteText>,
    route: Option<int>,
    hit: ResponseText,
    key: Option<Seq<char>>,
    ahead: Seq<u8>,
    max_body: Option<u64>,
)
    ensures
        hear_next(
            x,
            routes,
            route,
            crate::consult::ConsultedText::Serve(hit),
            ahead,
            max_body,
        ) == (
            StageText::Done,
            StepText::Answer(
                crate::http3::hit_reply_text(
                    hit,
                    field_text(x.request@.headers, "if-none-match"@),
                ),
            ),
        ),
        hear_next(
            x,
            routes,
            route,
            crate::consult::ConsultedText::Fetch(key),
            ahead,
            max_body,
        ) == fetch_next(x, routes, route, key, ahead, max_body),
        routes_heard(routes, route, crate::consult::ConsultedText::Serve(hit)) == routes,
        routes_heard(routes, route, crate::consult::ConsultedText::Fetch(key)) == after_pick(
            routes,
            route,
        ),
{
}

/// The origin is asked about a stale entry at the target that was picked, for
/// the whole target and the host of the request, by the entry's tag; the entry,
/// its key and what has come of the body are remembered.
pub proof fn law_origin_is_asked(
    x: Exchange,
    routes: Seq<RouteText>,
    route: Option<int>,
    key: Seq<char>,
    hit: ResponseText,
    target: EndpointText,
    etag: Seq<char>,
    ahead: Seq<u8>,
    max_body: Option<u64>,
)
    ensures
        ({
            let next = hear_next(
                x,
                routes,
                route,
                (crate::consult::ConsultedText::Revalidate { key, hit, target, etag }),
                ahead,
                max_body,
            );
            &&& next.0 == (StageText::Revalidating { route, key, hit, ahead })
            &&& next.1 matches StepText::AskOrigin(outbound)
            &&& outbound.method == "GET"@
            &&& leads_to(outbound.uri, target, whole_target(x.request@), None)
            &&& outbound.headers.len() == 2
            &&& outbound.headers[1] == ("if-none-match"@, etag)
            &&& outbound.headers[0].0 == "host"@
            &&& x.host matches Some(h) ==> outbound.headers[0].1 == h@
            &&& x.host is None ==> outbound.headers[0].1.len() == 0
        }),
{
    law_target_is_whole(x.request@);
}

/// Without a cache, a request of a permitted client that no plugin handles and
/// whose route is no directory is sent upstream as soon as it arrives.
pub proof fn law_request_is_proxied<P, F: Fn(&str) -> bool>(
    x: Exchange,
    out: Seq<char>,
    allowed: bool,
    plugins: Option<&Plugins<P>>,
    cache: Option<ResponseCache>,
    cache_after: Option<ResponseCache>,
    routes: Seq<RouteText>,
    final_routes: Seq<RouteText>,
    caching: Caching,
    limits: Limits,
    now: Timestamp,
    zero_quality: F,
    next: (StageText, StepText),
    write: Option<DiskWrite>,
)
    requires
        allowed,
        x.is_early ==> safe_method(x.request@.method),
        cache is None,
        plugins is None,
        route_for(routes, maybe_string(x.host), x.request@.path) matches Some(i) ==> 0 <= i
            < routes.len() && routes[i].static_root is None && goes_out_as(
            routes[i],
            x.request@.path,
            out,
        ),
        advances(
            x,
            Stage::Arrived,
            Event::Arrival,
            allowed,
            plugins,
            cache,
            cache_after,
            routes,
            final_routes,
            caching,
            limits,
            now,
            zero_quality,
            next,
            write,
        ),
    ensures
        goes_upstream(
            x.request@,
            routes,
            route_for(routes, maybe_string(x.host), x.request@.path),
            None,
            Seq::empty(),
            limits.max_body_bytes,
            out,
            next,
        ),
        final_routes == after_pick(
            routes,
            route_for(routes, maybe_string(x.host), x.request@.path),
        ),
        cache_after is None,
        write is None,
{
    let route = route_for(routes, maybe_string(x.host), x.request@.path);
    law_fetched_request_goes_upstream(
        x,
        routes,
        route,
        None,
        Seq::empty(),
        limits.max_body_bytes,
        out,
    );
}

/// A request whose route is a directory is served the file of its routed path,
/// whatever cache and plugins there are.
pub proof fn law_request_for_a_file<P, F: Fn(&str) -> bool>(
    x: Exchange,
    i: int,
    root: Seq<char>,
    out: Seq<char>,
    allowed: bool,
    plugins: Option<&Plugins<P>>,
    cache: Option<ResponseCache>,
    cache_after: Option<ResponseCache>,
    routes: Seq<RouteText>,
    final_routes: Seq<RouteText>,
    caching: Caching,
    limits: Limits,
    now: Timestamp,
    zero_quality: F,
    next: (StageText, StepText),
    write: Option<DiskWrite>,
)
    requires
        allowed,
        x.is_early ==> safe_method(x.request@.method),
        route_for(routes, maybe_string(x.host), x.request@.path) == Some(i),
        0 <= i < routes.len(),
        routes[i].static_root == Some(root),
        goes_out_as(routes[i], x.request@.path, out),
        advances(
            x,
            Stage::Arrived,
            Event::Arrival,
            allowed,
            plugins,
            cache,
            cache_after,
            routes,
            final_routes,
            caching,
            limits,
            now,
            zero_quality,
            next,
            write,
        ),
    ensures
        next == (StageText::Serving, StepText::ReadFile { root, relative: out }),
        cache_after == cache,
        final_routes == routes,
        write is None,
{
    crate::laws::requests::lemma_routed(routes[i], x.request@.path, out);
}

/// A request that plugins handle has its body buffered for them, from nothing up
/// to what they can take, and takes a turn of its route's targets.
pub proof fn law_request_for_plugins<P, F: Fn(&str) -> bool>(
    x: Exchange,
    i: int,
    chains: &Plugins<P>,
    allowed: bool,
    plugins: Option<&Plugins<P>>,
    cache: Option<ResponseCache>,
    cache_after: Option<ResponseCache>,
    routes: Seq<RouteText>,
    final_routes: Seq<RouteText>,
    caching: Caching,
    limits: Limits,
    now: Timestamp,
    zero_quality: F,
    next: (StageText, StepText),
    write: Option<DiskWrite>,
)
    requires
        allowed,
        x.is_early ==> safe_method(x.request@.method),
        plugins == Some(chains),
        route_for(routes, maybe_string(x.host), x.request@.path) == Some(i),
        0 <= i < routes.len(),
        routes[i].static_root is None,
        routes[i].targets.len() > 0,
        has_chain(chains@, routes[i].id as int),
        declared_length(x.request@.headers) matches Some(n) ==> n <= chains.cap(),
        advances(
            x,
            Stage::Arrived,
            Event::Arrival,
            allowed,
            plugins,
            cache,
            cache_after,
            routes,
            final_routes,
            caching,
            limits,
            now,
            zero_quality,
            next,
            write,
        ),
    ensures
        next.0 matches StageText::Buffering { call, body, cap } && {
            &&& call == crate::http3::plugin_call(
                x.request@,
                maybe_string(x.host),
                x.is_early,
                routes[i],
                turn_of(routes[i]),
            )
            &&& body.len() == 0
            &&& cap == chains.cap()
        },
        next.1 == StepText::ReadBody,
        cache_after == cache,
        final_routes == after_pick(routes, Some(i)),
        write is None,
{
    lemma_turn(routes, i);
}

/// A file that was read is answered with its contents and the media type of its
/// path; one that does not exist with 404.
pub proof fn law_file_was_read<P, F: Fn(&str) -> bool>(
    x: Exchange,
    file: Option<(String, Vec<u8>)>,
    allowed: bool,
    plugins: Option<&Plugins<P>>,
    cache: Option<ResponseCache>,
    cache_after: Option<ResponseCache>,
    routes: Seq<RouteText>,
    final_routes: Seq<RouteText>,
    caching: Caching,
    limits: Limits,
    now: Timestamp,
    zero_quality: F,
    next: (StageText, StepText),
    write: Option<DiskWrite>,
)
    requires
        advances(
            x,
            Stage::Serving,
            Event::FileRead(file),
            allowed,
            plugins,
            cache,
            cache_after,
            routes,
            final_routes,
            caching,
            limits,
            now,
            zero_quality,
            next,
            write,
        ),
    ensures
        file is None ==> next == (StageText::Done, StepText::Answer(empty_reply(404))),
        file matches Some((path, body)) ==> next == (
            StageText::Done,
            StepText::Answer(file_reply(mime_for(path@), body@)),
        ),
        cache_after == cache,
        final_routes == routes,
        write is None,
{
    lemma_empty_reply(404);
}

/// A piece of the body that plugins can take is added behind what has come.
pub proof fn law_body_is_gathered_for_plugins<P, F: Fn(&str) -> bool>(
    x: Exchange,
    call: PluginCall,
    body: Vec<u8>,
    cap: u64,
    chunk: Vec<u8>,
    allowed: bool,
    plugins: Option<&Plugins<P>>,
    cache: Option<ResponseCache>,
    cache_after: Option<ResponseCache>,
    routes: Seq<RouteText>,
    final_routes: Seq<RouteText>,
    caching: Caching,
    limits: Limits,
    now: Timestamp,
    zero_quality: F,
    next: (StageText, StepText),
    write: Option<DiskWrite>,
)
    requires
        body@.len() + chunk@.len() <= cap,
        limits.max_body_bytes matches Some(m) ==> body@.len() + chunk@.len() <= m,
        advances(
            x,
            (Stage::Buffering { call, body, cap }),
            Event::BodyChunk(chunk),
            allowed,
            plugins,
            cache,
            cache_after,
            routes,
            final_routes,
            caching,
            limits,
            now,
            zero_quality,
            next,
            write,
        ),
    ensures
        next == (
            StageText::Buffering { call: call@, body: body@ + chunk@, cap },
            StepText::ReadBody,
        ),
        cache_after == cache,
        final_routes == routes,
        write is None,
{
}

/// A body over the limit of all requests is refused with 413.
pub proof fn law_body_over_the_limit_is_refused<P, F: Fn(&str) -> bool>(
    x: Exchange,
    call: PluginCall,
    body: Vec<u8>,
    cap: u64,
    chunk: Vec<u8>,
    max: u64,
    allowed: bool,
    plugins: Option<&Plugins<P>>,
    cache: Option<ResponseCache>,
    cache_after: Option<ResponseCache>,
    routes: Seq<RouteText>,
    final_routes: Seq<RouteText>,
    caching: Caching,
    limits: Limits,
    now: Timestamp,
    zero_quality: F,
    next: (StageText, StepText),
    write: Option<DiskWrite>,
)
    requires
        limits.max_body_bytes == Some(max),
        body@.len() + chunk@.len() > max,
        advances(
            x,
            (Stage::Buffering { call, body, cap }),
            Event::BodyChunk(chunk),
            allowed,
            plugins,
            cache,
            cache_after,
            routes,
            final_routes,
            caching,
            limits,
            now,
            zero_quality,
            next,
            write,
        ),
    ensures
        next == (StageText::Done, StepText::Answer(empty_reply(413))),
        cache_after == cache,
        final_routes == routes,
        write is None,
{
    lemma_empty_reply(413);
}

/// Once the body is complete the plugins of the route get the request as it
/// arrived, with the whole body and the client's address.
pub proof fn law_plugins_are_run<P, F: Fn(&str) -> bool>(
    x: Exchange,
    call: PluginCall,
    body: Vec<u8>,
    cap: u64,
    allowed: bool,
    plugins: Option<&Plugins<P>>,
    cache: Option<ResponseCache>,
    cache_after: Option<ResponseCache>,
    routes: Seq<RouteText>,
    final_routes: Seq<RouteText>,
    caching: Caching,
    limits: Limits,
    now: Timestamp,
    zero_quality: F,
    next: (StageText, StepText),
    write: Option<DiskWrite>,
)
    requires
        advances(
            x,
            (Stage::Buffering { call, body, cap }),
            Event::BodyEnded,
            allowed,
            plugins,
            cache,
            cache_after,
            routes,
            final_routes,
            caching,
            limits,
            now,
            zero_quality,
            next,
            write,
        ),
    ensures
        next.0 == (StageText::Running { response_headers: pairs(call.response_headers@) }),
        next.1 matches StepText::RunPlugins { route_id, request, host, target } && {
            &&& route_id == call.route_id
            &&& request.method == call.request.method@
            &&& request.path == call.request.path@
            &&& request.headers == pairs(call.request.headers@)
            &&& request.body == body@
            &&& request.client_ip == x.client_text@
            &&& host == call.host@
            &&& target.address == call.target.address@
            &&& target.tls == call.target.tls
            &&& target.sni == call.target.sni@
            &&& target.h2 == call.target.h2
        },
        cache_after == cache,
        final_routes == routes,
        write is None,
{
}

/// What the plugins answer is sent with the route's headers; a failure is a bare
/// 502.
pub proof fn law_plugins_have_run<P, F: Fn(&str) -> bool>(
    x: Exchange,
    response_headers: Vec<(String, String)>,
    response: Response,
    outcome: Option<Response>,
    allowed: bool,
    plugins: Option<&Plugins<P>>,
    cache: Option<ResponseCache>,
    cache_after: Option<ResponseCache>,
    routes: Seq<RouteText>,
    final_routes: Seq<RouteText>,
    caching: Caching,
    limits: Limits,
    now: Timestamp,
    zero_quality: F,
    next: (StageText, StepText),
    write: Option<DiskWrite>,
)
    requires
        advances(
            x,
            (Stage::Running { response_headers }),
            Event::PluginsRan(outcome),
            allowed,
            plugins,
            cache,
            cache_after,
            routes,
            final_routes,
            caching,
            limits,
            now,
            zero_quality,
            next,
            write,
        ),
    ensures
        outcome is None ==> next == (StageText::Done, StepText::Answer(empty_reply(502))),
        outcome == Some(response) ==> next == (
            StageText::Done,
            StepText::Answer(plugin_reply_text(Some(response@), pairs(response_headers@))),
        ),
        cache_after == cache,
        final_routes == routes,
        write is None,
{
    lemma_empty_reply(502);
}

/// An upstream that does not answer in time makes a bare 504.
pub proof fn law_upstream_timed_out<P, F: Fn(&str) -> bool>(
    x: Exchange,
    route: Option<usize>,
    key: Option<String>,
    allowed: bool,
    plugins: Option<&Plugins<P>>,
    cache: Option<ResponseCache>,
    cache_after: Option<ResponseCache>,
    routes: Seq<RouteText>,
    final_routes: Seq<RouteText>,
    caching: Caching,
    limits: Limits,
    now: Timestamp,
    zero_quality: F,
    next: (StageText, StepText),
    write: Option<DiskWrite>,
)
    requires
        advances(
            x,
            (Stage::Sending { route, key }),
            Event::UpstreamTimedOut,
            allowed,
            plugins,
            cache,
            cache_after,
            routes,
            final_routes,
            caching,
            limits,
            now,
            zero_quality,
            next,
            write,
        ),
    ensures
        next == (StageText::Done, StepText::Answer(empty_reply(504))),
        cache_after == cache,
        final_routes == routes,
        write is None,
{
    lemma_empty_reply(504);
}

/// A body that stays within the limit changes nothing while it is sent.
pub proof fn law_body_within_the_limit_goes_on<P, F: Fn(&str) -> bool>(
    x: Exchange,
    stage: Stage,
    len: u64,
    allowed: bool,
    plugins: Option<&Plugins<P>>,
    cache: Option<ResponseCache>,
    cache_after: Option<ResponseCache>,
    routes: Seq<RouteText>,
    final_routes: Seq<RouteText>,
    caching: Caching,
    limits: Limits,
    now: Timestamp,
    zero_quality: F,
    next: (StageText, StepText),
    write: Option<DiskWrite>,
)
    requires
        stage is Sending || stage is Relaying,
        limits.max_body_bytes matches Some(m) ==> len <= m,
        advances(
            x,
            stage,
            Event::BodyReached(len),
            allowed,
            plugins,
            cache,
            cache_after,
            routes,
            final_routes,
            caching,
            limits,
            now,
            zero_quality,
            next,
            write,
        ),
    ensures
        next == (stage@, StepText::Wait),
        cache_after == cache,
        final_routes == routes,
        write is None,
{
}

/// The upstream's answer is relayed with its status; its fields are the edited
/// ones, and where it is compressed, those without the length and with the coding
/// behind. What is to be stored of it is taken from the edited fields, before any
/// compression.
pub proof fn law_answer_is_relayed<P, F: Fn(&str) -> bool>(
    x: Exchange,
    route: Option<usize>,
    key: Option<String>,
    status: u16,
    headers: Vec<HeaderField>,
    allowed: bool,
    plugins: Option<&Plugins<P>>,
    cache: Option<ResponseCache>,
    cache_after: Option<ResponseCache>,
    routes: Seq<RouteText>,
    final_routes: Seq<RouteText>,
    caching: Caching,
    limits: Limits,
    now: Timestamp,
    zero_quality: F,
    next: (StageText, StepText),
    write: Option<DiskWrite>,
)
    requires
        route matches Some(i) ==> i < routes.len(),
        advances(
            x,
            (Stage::Sending { route, key }),
            Event::UpstreamAnswered(status, headers),
            allowed,
            plugins,
            cache,
            cache_after,
            routes,
            final_routes,
            caching,
            limits,
            now,
            zero_quality,
            next,
            write,
        ),
    ensures
        ({
            let sets = if route is Some {
                routes[route->0 as int].response_headers
            } else {
                Seq::empty()
            };
            let plain = edited(fields(headers@), sets);
            &&& next.1 matches StepText::Relay { status: sent, fields: list, encoding }
            &&& sent == status
            &&& encoding is None ==> list == plain
            &&& encoding matches Some(c) ==> list == plain.filter(
                not_named("content-length"@),
            ).push(coding_field(c))
            &&& limits.compression_level is None ==> encoding is None
            &&& next.0 matches StageText::Relaying { pending, body, overflow }
            &&& body.len() == 0 && !overflow
            &&& key is None ==> pending is None
            &&& pending matches Some(p) ==> p.key@ == key->0@ && p.status == status && pairs(
                p.headers@,
            ) == crate::relay::storable(relay_fields(plain))
        }),
        cache_after == cache,
        final_routes == routes,
        write is None,
{
    let plain = edited(fields(headers@), route_sets(routes, route));
    if let StepText::Relay { status: _, fields: _, encoding } = next.1 {
        if let Some(c) = encoding {
            law_compressing_changes_two_fields(plain, c);
        }
    }
}

/// Every piece of the upstream's body is passed on as it came. For the cache it is
/// added behind what has come, as long as that is not too large; a response that is
/// not to be stored gathers nothing.
pub proof fn law_pieces_are_passed_on<P, F: Fn(&str) -> bool>(
    x: Exchange,
    pending: Option<Pending>,
    body: Vec<u8>,
    overflow: bool,
    data: Vec<u8>,
    allowed: bool,
    plugins: Option<&Plugins<P>>,
    cache: Option<ResponseCache>,
    cache_after: Option<ResponseCache>,
    routes: Seq<RouteText>,
    final_routes: Seq<RouteText>,
    caching: Caching,
    limits: Limits,
    now: Timestamp,
    zero_quality: F,
    next: (StageText, StepText),
    write: Option<DiskWrite>,
)
    requires
        advances(
            x,
            (Stage::Relaying { pending, body, overflow }),
            Event::ResponseChunk(data),
            allowed,
            plugins,
            cache,
            cache_after,
            routes,
            final_routes,
            caching,
            limits,
            now,
            zero_quality,
            next,
            write,
        ),
    ensures
        next.1 == StepText::PassOn(data@),
        next.0 matches StageText::Relaying { pending: p, body: b, overflow: o } && {
            &&& p == pending
            &&& pending is None || overflow ==> b == body@ && o == overflow
            &&& pending is Some && !overflow && body@.len() + data@.len() <= caching.max_body
                ==> b == body@ + data@ && !o
            &&& pending is Some && !overflow && body@.len() + data@.len() > caching.max_body ==> o
        },
        cache_after == cache,
        final_routes == routes,
        write is None,
{
}

/// The end of the upstream's body ends the response; it is stored under its key,
/// with its whole body and for its lifetime, where it was to be and was not too
/// large, and not otherwise.
pub proof fn law_response_has_ended<P, F: Fn(&str) -> bool>(
    x: Exchange,
    pending: Option<Pending>,
    body: Vec<u8>,
    overflow: bool,
    allowed: bool,
    plugins: Option<&Plugins<P>>,
    cache: Option<ResponseCache>,
    cache_after: Option<ResponseCache>,
    routes: Seq<RouteText>,
    final_routes: Seq<RouteText>,
    caching: Caching,
    limits: Limits,
    now: Timestamp,
    zero_quality: F,
    next: (StageText, StepText),
    write: Option<DiskWrite>,
)
    requires
        advances(
            x,
            (Stage::Relaying { pending, body, overflow }),
            Event::ResponseEnded,
            allowed,
            plugins,
            cache,
            cache_after,
            routes,
            final_routes,
            caching,
            limits,
            now,
            zero_quality,
            next,
            write,
        ),
    ensures
        next == (StageText::Done, StepText::Finish),
        final_routes == routes,
        pending is None || overflow || cache is None ==> cache_after == cache && write is None,
        pending is Some && !overflow && cache is Some ==> {
            &&& cache_after is Some
            &&& cache_after->0@.contains_key(pending->0.key@)
            &&& cache_after->0@[pending->0.key@].0 == now.later(pending->0.secs as int)
            &&& cache_after->0@[pending->0.key@].1.status == pending->0.status
            &&& cache_after->0@[pending->0.key@].1.headers == pairs(pending->0.headers@)
            &&& cache_after->0@[pending->0.key@].1.body == body@
            &&& write is Some <==> cache->0.disk_tier() is Some
        },
{
}

/// A confirmed entry is served, a new one in its place, and no target takes a turn
/// for it; where the origin gave no answer, the request goes upstream with what has
/// come of its body, its answer to be kept under the same key.
pub proof fn law_origin_was_asked<P, F: Fn(&str) -> bool>(
    x: Exchange,
    route: Option<usize>,
    key: String,
    hit: crate::cache::CachedResponse,
    ahead: Vec<u8>,
    outcome: Revalidated,
    out: Seq<char>,
    allowed: bool,
    plugins: Option<&Plugins<P>>,
    cache: Option<ResponseCache>,
    cache_after: Option<ResponseCache>,
    routes: Seq<RouteText>,
    final_routes: Seq<RouteText>,
    caching: Caching,
    limits: Limits,
    now: Timestamp,
    zero_quality: F,
    next: (StageText, StepText),
    write: Option<DiskWrite>,
)
    requires
        route matches Some(i) ==> i < routes.len() && goes_out_as(
            routes[i as int],
            x.request@.path,
            out,
        ),
        advances(
            x,
            (Stage::Revalidating { route, key, hit, ahead }),
            Event::OriginAsked(outcome),
            allowed,
            plugins,
            cache,
            cache_after,
            routes,
            final_routes,
            caching,
            limits,
            now,
            zero_quality,
            next,
            write,
        ),
    ensures
        outcome is NotModified ==> next == (
            StageText::Done,
            StepText::Answer(
                crate::http3::hit_reply_text(
                    hit@,
                    field_text(x.request@.headers, "if-none-match"@),
                ),
            ),
        ) && final_routes == routes,
        outcome@ matches RevalidatedText::Modified(fresh) ==> next == (
            StageText::Done,
            StepText::Answer(
                crate::http3::hit_reply_text(
                    fresh,
                    field_text(x.request@.headers, "if-none-match"@),
                ),
            ),
        ) && final_routes == routes,
        outcome is Failed ==> goes_upstream(
            x.request@,
            routes,
            place(route),
            Some(key@),
            ahead@,
            limits.max_body_bytes,
            out,
            next,
        ) && final_routes == after_pick(routes, place(route)) && cache_after == cache
            && write is None,
        kept(cache, cache_after, key@, refreshed(hit@, outcome@), now, write),
{
    law_fetched_request_goes_upstream(
        x,
        routes,
        place(route),
        Some(key@),
        ahead@,
        limits.max_body_bytes,
        out,
    );
}

/// Once the cache file was read, or found missing, the cache is consulted under the
/// same key, and what it says is done with what has come of the body.
pub proof fn law_cache_file_was_read<P, F: Fn(&str) -> bool>(
    x: Exchange,
    route: Option<usize>,
    key: Option<String>,
    ahead: Vec<u8>,
    file: Option<Vec<u8>>,
    allowed: bool,
    plugins: Option<&Plugins<P>>,
    cache: Option<ResponseCache>,
    cache_after: Option<ResponseCache>,
    routes: Seq<RouteText>,
    final_routes: Seq<RouteText>,
    caching: Caching,
    limits: Limits,
    now: Timestamp,
    zero_quality: F,
    next: (StageText, StepText),
    write: Option<DiskWrite>,
)
    requires
        advances(
            x,
            (Stage::Consulting { route, key, ahead }),
            Event::CacheFileRead(file),
            allowed,
            plugins,
            cache,
            cache_after,
            routes,
            final_routes,
            caching,
            limits,
            now,
            zero_quality,
            next,
            write,
        ),
    ensures
        write is None,
        ({
            let bytes = if file is Some {
                Some(file->0@)
            } else {
                None
            };
            let said = heard(
                cache,
                maybe_string(key),
                routes,
                place(route),
                caching.can_revalidate,
                now,
                bytes,
            );
            let middle = crate::consult::routes_after(
                cache,
                maybe_string(key),
                routes,
                place(route),
                now,
                bytes,
            );
            &&& looked_into(cache, cache_after, maybe_string(key), now, bytes)
            &&& next == hear_next(
                x,
                middle,
                place(route),
                said,
                ahead@,
                limits.max_body_bytes,
            )
            &&& final_routes == routes_heard(middle, place(route), said)
        }),
{
}

/// A request is known in the cache by its method, headers, host and whole
/// target.
pub proof fn law_key_of_a_request(x: Exchange)
    ensures
        x.host matches Some(h) ==> exchange_key(x) == crate::consult::key_for(
            x.request@.method,
            x.request@.headers,
            h@,
            whole_target(x.request@),
        ),
        x.host is None ==> exchange_key(x) == crate::consult::key_for(
            x.request@.method,
            x.request@.headers,
            Seq::empty(),
            whole_target(x.request@),
        ),
{
    law_target_is_whole(x.request@);
}

/// A request that is proxied waits for its cache file where one is to be read,
/// with its route, key and what has come of its body; otherwise the cache is
/// consulted at once.
pub proof fn law_cache_file_is_read_first(
    x: Exchange,
    cache: Option<ResponseCache>,
    cache_after: Option<ResponseCache>,
    routes: Seq<RouteText>,
    final_routes: Seq<RouteText>,
    route: Option<int>,
    ahead: Seq<u8>,
    caching: Caching,
    limits: Limits,
    now: Timestamp,
    next: (StageText, StepText),
)
    requires
        proxies(
            x,
            cache,
            cache_after,
            routes,
            final_routes,
            route,
            ahead,
            caching,
            limits,
            now,
            next,
        ),
    ensures
        file_wanted(cache, exchange_key(x)) matches Some(path) ==> {
            &&& next.0 == (StageText::Consulting { route, key: exchange_key(x), ahead })
            &&& next.1 == StepText::ReadCacheFile(path)
            &&& cache_after == cache
            &&& final_routes == routes
        },
        file_wanted(cache, exchange_key(x)) is None ==> consults(
            x,
            cache,
            cache_after,
            routes,
            final_routes,
            route,
            exchange_key(x),
            ahead,
            caching,
            limits,
            now,
            None,
            next,
        ),
{
}

} // verus!
