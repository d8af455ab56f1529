//! The HTTP/1 and HTTP/2 front end: what to do with a request before it is
//! forwarded, how it is changed on its way, and what becomes of its response.
use crate::access::{permitted, AccessControl, IpAddress};
use crate::cache::{CachedResponse, ResponseText};
use crate::headers::{
    copy_pairs, first_value, host_name, host_without_port, pairs, HeaderText,
};
use crate::http3::{
    declares_too_large, routed_path, too_large, with_query, PluginCall, PluginCallText,
};
use crate::message::{
    all_appended, all_inserted, append_headers, content_length, declared_length, field_text,
    fields, find_field, full_target, insert_header, insert_headers, inserted, keep_text,
    text_pairs, valid_status, FieldText, HeadText, HeaderField, Inbound, InboundText, ResponseHead,
};
use crate::numeral::{decimal, decimal_text};
use crate::plugin::{has_chain, PluginRequest, Plugins, Request, Response};
use crate::ratelimit::{checked, RateLimiter};
use crate::relay::{
    count_chunk, hit_marker, hit_not_modified, not_modified, seen_after, Reply, ReplyText,
};
use crate::router::{
    after_pick, pick_target, rewritten, route_for, Endpoint, EndpointText, RouteText, Router,
};
use crate::static_files::StaticDir;
use crate::text::{maybe, maybe_string};
use vstd::prelude::*;
use vstd::string::StringExecFns;

verus! {

/// The host that a request asks for: its `Host` header without the port.
pub open spec fn host_of(h: Seq<FieldText>) -> Option<Seq<char>> {
    match field_text(h, "host"@) {
        Some(text) => Some(host_name(text)),
        None => None,
    }
}

/// The host that a request asks for.
pub fn request_host(headers: &Vec<HeaderField>) -> (r: Option<String>)
    ensures
        maybe_string(r) == host_of(fields(headers@)),
{
    match find_field(headers, "host") {
        Some(text) => Some(host_without_port(text)),
        None => None,
    }
}

/// The host that a request asks for, as a borrowed option.
fn as_deref(s: &Option<String>) -> (r: Option<&str>)
    ensures
        maybe(r) == maybe_string(*s),
{
    match s {
        Some(t) => Some(t.as_str()),
        None => None,
    }
}

/// A client whose address is known.
#[derive(Debug)]
pub struct Client {
    pub ip: IpAddress,
    /// The address in words.
    pub text: String,
}

/// The name under which a client's requests are counted.
pub open spec fn client_key(client: Option<Client>) -> Seq<char> {
    match client {
        Some(c) => c.text@,
        None => Seq::empty(),
    }
}

/// Whether the access rules refuse a client. One whose address is not known is
/// not refused.
pub open spec fn refused(access: AccessControl, client: Option<Client>) -> bool {
    client matches Some(c) && !permitted(access.allowed(), access.denied(), c.ip)
}

/// The status with which a request is refused before it is routed: 403 by the
/// access rules, 429 by the rate limit, 413 for a body that is declared too
/// large.
pub open spec fn refusal(denied: bool, within_rate: bool, oversized: bool) -> Option<u16> {
    if denied {
        Some(403)
    } else if !within_rate {
        Some(429)
    } else if oversized {
        Some(413)
    } else {
        None
    }
}

/// How the rate limiter takes a request into account: not at all where there is
/// none, or the request was refused before.
pub open spec fn rate_checked(
    before: Option<RateLimiter>,
    after: Option<RateLimiter>,
    denied: bool,
    key: Seq<char>,
    now_ms: u64,
    within_rate: bool,
) -> bool {
    match before {
        Some(limiter) => if denied {
            after == before
        } else {
            &&& after matches Some(next)
            &&& next.window() == limiter.window()
            &&& next.limit() == limiter.limit()
            &&& checked(
                limiter@,
                next@,
                limiter.window(),
                limiter.limit(),
                key,
                now_ms,
                within_rate,
            )
        },
        None => after is None && within_rate,
    }
}

/// Whether the window of a key has room for one more request.
pub open spec fn has_room(limiter: Option<RateLimiter>, key: Seq<char>, now_ms: u64) -> bool {
    match limiter {
        Some(l) => crate::ratelimit::window_at(l@, l.window(), key, now_ms).count < l.limit(),
        None => true,
    }
}

/// Decides whether a request is refused before it is routed.
pub fn screen(
    request: &Inbound,
    client: &Option<Client>,
    access: &AccessControl,
    limiter: &mut Option<RateLimiter>,
    now_ms: u64,
    max_body: Option<u64>,
) -> (r: Option<u16>)
    requires
        access.wf(),
    ensures
        r == refusal(
            refused(*access, *client),
            has_room(*old(limiter), client_key(*client), now_ms),
            too_large(request@.headers, max_body),
        ),
        rate_checked(
            *old(limiter),
            *final(limiter),
            refused(*access, *client),
            client_key(*client),
            now_ms,
            has_room(*old(limiter), client_key(*client), now_ms),
        ),
{
    if let Some(c) = client {
        if !access.is_empty() && !access.allows(c.ip) {
            assert(refused(*access, *client));
            return Some(403);
        }
    }
    assert(!refused(*access, *client));
    if let Some(l) = limiter {
        let within = match client {
            Some(c) => l.check(c.text.as_str(), now_ms),
            None => {
                let nobody = String::new();
                l.check(nobody.as_str(), now_ms)
            },
        };
        if !within {
            return Some(429);
        }
    }
    if declares_too_large(&request.headers, max_body) {
        return Some(413);
    }
    None
}

/// What a route to a directory serves.
#[derive(Debug)]
pub struct StaticAsk {
    pub dir: StaticDir,
    pub relative: String,
}

/// What a route to a directory serves, as text: the root, and the path below
/// it. None where the request's route is no such route.
pub open spec fn static_path(request: InboundText, routes: Seq<RouteText>) -> Option<
    (Seq<char>, Seq<char>),
> {
    match route_for(routes, host_of(request.headers), request.path) {
        Some(i) => match routes[i].static_root {
            Some(root) => Some((root, routed_path(routes[i], request.path))),
            None => None,
        },
        None => None,
    }
}

/// What the request's route serves, if it is a route to a directory.
pub fn static_ask(request: &Inbound, router: &Router) -> (r: Option<StaticAsk>)
    ensures
        match r {
            Some(ask) => static_path(request@, router@) == Some((ask.dir@, ask.relative@)),
            None => static_path(request@, router@) is None,
        },
{
    let host = request_host(&request.headers);
    match router.match_route(as_deref(&host), request.path.as_str()) {
        Some(route) => match route.static_dir() {
            Some(dir) => {
                let relative = match route.rewrite_path(request.path.as_str()) {
                    Some(p) => p,
                    None => request.path.clone(),
                };
                Some(StaticAsk { dir: dir.copy(), relative })
            },
            None => None,
        },
        None => None,
    }
}

/// What plugins are called with. The route's path prefix is not stripped:
/// rewriting is up to the plugins.
pub open spec fn h1_plugin_call(
    request: InboundText,
    route: RouteText,
    target: EndpointText,
) -> PluginCallText {
    PluginCallText {
        route_id: route.id,
        target,
        request: PluginRequest {
            method: request.method,
            path: full_target(request),
            headers: text_pairs(request.headers) + route.request_headers,
            body: Seq::empty(),
            client_ip: Seq::empty(),
        },
        host: match field_text(request.headers, "host"@) {
            Some(h) => h,
            None => Seq::empty(),
        },
        response_headers: route.response_headers,
    }
}

/// The route of a request whose plugins are to be run, if it has any.
pub open spec fn plugin_route<P>(
    request: InboundText,
    routes: Seq<RouteText>,
    plugins: Option<&Plugins<P>>,
) -> Option<int> {
    match (plugins, route_for(routes, host_of(request.headers), request.path)) {
        (Some(p), Some(i)) => if has_chain(p@, routes[i].id as int) {
            Some(i)
        } else {
            None
        },
        _ => None,
    }
}

/// What plugins are called with, if any are: the route has some and a target,
/// and the body is not declared larger than they can take.
pub open spec fn plugin_ask<P>(
    request: InboundText,
    routes: Seq<RouteText>,
    plugins: Option<&Plugins<P>>,
) -> Option<PluginCallText> {
    let at = plugin_route(request, routes, plugins);
    match pick_target(routes, at) {
        Some(target) => if declared_length(request.headers) matches Some(n) && n
            > plugins->0.cap() {
            None
        } else {
            Some(h1_plugin_call(request, routes[at->0], target))
        },
        None => None,
    }
}

/// The view of an optional call.
pub open spec fn maybe_call(c: Option<PluginCall>) -> Option<PluginCallText> {
    match c {
        Some(c) => Some(c@),
        None => None,
    }
}

/// What plugins are called with, if any are. A turn of the route's targets is
/// taken as soon as the route has plugins.
pub fn call_plugins<P>(request: &Inbound, router: &mut Router, plugins: Option<&Plugins<P>>) -> (r:
    Option<PluginCall>)
    ensures
        maybe_call(r) == plugin_ask(request@, old(router)@, plugins),
        final(router)@ == after_pick(old(router)@, plugin_route(request@, old(router)@, plugins)),
{
    let p = match plugins {
        Some(p) => p,
        None => return None,
    };
    let host = request_host(&request.headers);
    let i: usize = match router.match_index(as_deref(&host), request.path.as_str()) {
        Some(i) => i,
        None => return None,
    };
    let route = router.route(i);
    let route_id = route.id();
    if p.chain(route_id).is_none() {
        return None;
    }
    let mut own = copy_pairs(route.request_headers());
    let response_headers = copy_pairs(route.response_headers());
    let target = match router.pick(i) {
        Some(t) => t,
        None => return None,
    };
    if let Some(n) = content_length(&request.headers) {
        if n > p.max_body() {
            return None;
        }
    }
    let mut headers = keep_text(&request.headers);
    let ghost h0 = headers@;
    let ghost o0 = own@;
    headers.append(&mut own);
    assert(pairs(headers@) =~= pairs(h0) + pairs(o0));
    let call = PluginCall {
        route_id,
        target,
        request: Request {
            method: request.method.clone(),
            path: request.full_target().to_owned(),
            headers,
            body: Vec::new(),
            client_ip: String::new(),
        },
        host: match find_field(&request.headers, "host") {
            Some(h) => h.to_owned(),
            None => String::new(),
        },
        response_headers,
    };
    assert(call@.request.body =~= Seq::<u8>::empty());
    assert(call@ =~= h1_plugin_call(request@, old(router)@[i as int], target@));
    Some(call)
}

/// A response whose status has three digits; none for any other.
pub open spec fn h1_reply(status: u16, headers: Seq<HeaderText>, body: Option<Seq<u8>>) -> Option<
    ReplyText,
> {
    if 100 <= status <= 999 {
        Some(ReplyText { head: HeadText { status, headers }, body })
    } else {
        None
    }
}

/// The view of an optional reply.
pub open spec fn maybe_reply(r: Option<Reply>) -> Option<ReplyText> {
    match r {
        Some(r) => Some(r@),
        None => None,
    }
}

/// The response to a request that plugins have handled. The route's headers
/// win over the plugins'. None where the plugins' status cannot be sent.
pub open spec fn plugin_reply_of(
    response: ResponseText,
    response_headers: Seq<HeaderText>,
) -> Option<ReplyText> {
    h1_reply(
        response.status,
        inserted(
            all_inserted(all_appended(Seq::empty(), response.headers), response_headers),
            ("content-length"@, decimal_text(response.body.len())),
        ),
        Some(response.body),
    )
}

/// The response to a request that plugins have handled.
pub fn plugin_reply(response: Response, response_headers: &Vec<(String, String)>) -> (r: Option<
    Reply,
>)
    ensures
        maybe_reply(r) == plugin_reply_of(response@, pairs(response_headers@)),
{
    if !valid_status(response.status) {
        return None;
    }
    let mut headers: Vec<(String, String)> = Vec::new();
    assert(pairs(headers@) =~= Seq::<HeaderText>::empty());
    append_headers(&mut headers, &response.headers);
    insert_headers(&mut headers, response_headers);
    let length = decimal(response.body.len() as u64);
    insert_header(&mut headers, "content-length", length.as_str());
    Some(
        Reply {
            head: ResponseHead { status: response.status, headers },
            body: Some(response.body),
        },
    )
}

/// The response to a request that the cache answers: a 304 without a body
/// where the client has the entry already, or else the entry. None where the
/// stored status cannot be sent.
pub open spec fn hit_reply_text(hit: ResponseText, if_none_match: Option<Seq<char>>) -> Option<
    ReplyText,
> {
    if not_modified(hit, if_none_match) {
        h1_reply(
            304,
            all_inserted(
                Seq::empty(),
                seq![("etag"@, first_value(hit.headers, "etag"@)->0), hit_marker()],
            ),
            None,
        )
    } else {
        h1_reply(
            hit.status,
            inserted(
                inserted(
                    all_inserted(Seq::empty(), hit.headers),
                    ("content-length"@, decimal_text(hit.body.len())),
                ),
                hit_marker(),
            ),
            Some(hit.body),
        )
    }
}

/// The response to a request that the cache answers.
pub fn hit_reply(hit: CachedResponse, if_none_match: Option<&str>) -> (r: Option<Reply>)
    ensures
        maybe_reply(r) == hit_reply_text(hit@, maybe(if_none_match)),
{
    let mut headers: Vec<(String, String)> = Vec::new();
    assert(pairs(headers@) =~= Seq::<HeaderText>::empty());
    if hit_not_modified(&hit, if_none_match) {
        let mut list: Vec<(String, String)> = Vec::new();
        if let Some(etag) = hit.etag() {
            list.push(("etag".to_owned(), etag.to_owned()));
        }
        list.push(("x-cache".to_owned(), "HIT".to_owned()));
        assert(pairs(list@) =~= seq![
            ("etag"@, first_value(hit@.headers, "etag"@)->0),
            hit_marker(),
        ]);
        insert_headers(&mut headers, &list);
        return Some(Reply { head: ResponseHead { status: 304, headers }, body: None });
    }
    if !valid_status(hit.status) {
        return None;
    }
    insert_headers(&mut headers, &hit.headers);
    let length = decimal(hit.body.len() as u64);
    insert_header(&mut headers, "content-length", length.as_str());
    insert_header(&mut headers, "x-cache", "HIT");
    Some(Reply { head: ResponseHead { status: hit.status, headers }, body: Some(hit.body) })
}

/// Where a request is forwarded, and what the route changes on the way.
#[derive(Debug)]
pub struct Peer {
    pub target: Endpoint,
    /// The path to forward in place of the request's.
    pub rewrite_path: Option<String>,
    pub request_headers: Vec<(String, String)>,
    pub response_headers: Vec<(String, String)>,
}

/// Where a request is forwarded, as text.
#[verifier::ext_equal]
pub struct PeerText {
    pub target: EndpointText,
    pub rewrite_path: Option<Seq<char>>,
    pub request_headers: Seq<HeaderText>,
    pub response_headers: Seq<HeaderText>,
}

impl View for Peer {
    type V = PeerText;

    open spec fn view(&self) -> PeerText {
        PeerText {
            target: self.target@,
            rewrite_path: maybe_string(self.rewrite_path),
            request_headers: pairs(self.request_headers@),
            response_headers: pairs(self.response_headers@),
        }
    }
}

/// Where a request is forwarded; none where no route with a target accepts it.
pub open spec fn peer_for(request: InboundText, routes: Seq<RouteText>) -> Option<PeerText> {
    let at = route_for(routes, host_of(request.headers), request.path);
    match pick_target(routes, at) {
        Some(target) => Some(
            PeerText {
                target,
                rewrite_path: rewritten(routes[at->0], request.path),
                request_headers: routes[at->0].request_headers,
                response_headers: routes[at->0].response_headers,
            },
        ),
        None => None,
    }
}

/// The view of an optional peer.
pub open spec fn maybe_peer(p: Option<Peer>) -> Option<PeerText> {
    match p {
        Some(p) => Some(p@),
        None => None,
    }
}

/// Where a request is forwarded, and what the route changes on the way.
pub fn upstream_peer(request: &Inbound, router: &mut Router) -> (r: Option<Peer>)
    ensures
        maybe_peer(r) == peer_for(request@, old(router)@),
        final(router)@ == after_pick(
            old(router)@,
            route_for(old(router)@, host_of(request@.headers), request@.path),
        ),
{
    let host = request_host(&request.headers);
    let i: usize = match router.match_index(as_deref(&host), request.path.as_str()) {
        Some(i) => i,
        None => return None,
    };
    let route = router.route(i);
    let rewrite_path = route.rewrite_path(request.path.as_str());
    let request_headers = copy_pairs(route.request_headers());
    let response_headers = copy_pairs(route.response_headers());
    match router.pick(i) {
        Some(target) => Some(Peer { target, rewrite_path, request_headers, response_headers }),
        None => None,
    }
}

/// How a request is changed before it is sent upstream.
#[derive(Debug)]
pub struct RequestEdits {
    /// The path and query to send in place of the request's.
    pub target: Option<String>,
    /// Headers set in place of all of their names.
    pub set: Vec<(String, String)>,
    /// The client's address, added to `X-Forwarded-For`.
    pub forwarded_for: Option<String>,
    /// The scheme that the client used, set as `X-Forwarded-Proto`.
    pub forwarded_proto: String,
}

/// The path and query that a request is sent with in place of its own; none
/// where the route forwards the path as it is.
pub open spec fn sent_target(rewrite_path: Option<Seq<char>>, query: Option<Seq<char>>) -> Option<
    Seq<char>,
> {
    match rewrite_path {
        Some(path) => Some(with_query(path, query)),
        None => None,
    }
}

/// The address that is added to `X-Forwarded-For`: the client's, where it is
/// known.
pub open spec fn sent_client(client: Option<Client>) -> Option<Seq<char>> {
    match client {
        Some(c) => Some(c.text@),
        None => None,
    }
}

/// What `X-Forwarded-Proto` is set to.
pub open spec fn sent_proto(tls_enabled: bool) -> Seq<char> {
    if tls_enabled {
        "https"@
    } else {
        "http"@
    }
}

/// Decides how a request is changed before it is sent upstream.
pub fn edit_request(
    rewrite_path: Option<&str>,
    query: Option<&str>,
    request_headers: &Vec<(String, String)>,
    client: &Option<Client>,
    tls_enabled: bool,
) -> (r: RequestEdits)
    ensures
        maybe_string(r.target) == sent_target(maybe(rewrite_path), maybe(query)),
        pairs(r.set@) == pairs(request_headers@),
        maybe_string(r.forwarded_for) == sent_client(*client),
        r.forwarded_proto@ == sent_proto(tls_enabled),
{
    let target = match rewrite_path {
        Some(path) => {
            let mut out = path.to_owned();
            if let Some(q) = query {
                out.push('?');
                out.append(q);
            }
            Some(out)
        },
        None => None,
    };
    RequestEdits {
        target,
        set: copy_pairs(request_headers),
        forwarded_for: match client {
            Some(c) => Some(c.text.clone()),
            None => None,
        },
        forwarded_proto: (if tls_enabled {
            "https"
        } else {
            "http"
        }).to_owned(),
    }
}

/// The headers set on every response, in order: the global ones, those of the
/// route, which override them, and the announcement of HTTP/3.
pub open spec fn response_sets(
    global: Seq<HeaderText>,
    route: Seq<HeaderText>,
    alt_svc: Option<Seq<char>>,
) -> Seq<HeaderText> {
    global + route + match alt_svc {
        Some(text) => seq![("alt-svc"@, text)],
        None => Seq::empty(),
    }
}

/// The headers set on a response.
pub fn edit_response(
    global: &Vec<(String, String)>,
    route: &Vec<(String, String)>,
    alt_svc: &Option<String>,
) -> (r: Vec<(String, String)>)
    ensures
        pairs(r@) == response_sets(pairs(global@), pairs(route@), maybe_string(*alt_svc)),
{
    let mut out = copy_pairs(global);
    let mut own = copy_pairs(route);
    let ghost g = out@;
    let ghost o = own@;
    out.append(&mut own);
    assert(pairs(out@) =~= pairs(g) + pairs(o));
    let ghost both = out@;
    if let Some(text) = alt_svc {
        let p = ("alt-svc".to_owned(), text.clone());
        out.push(p);
        assert(pairs(out@) =~= pairs(both).push((p.0@, p.1@)));
    }
    assert(pairs(out@) =~= response_sets(pairs(global@), pairs(route@), maybe_string(*alt_svc)));
    out
}

/// A header of the route overrides a global one of the same name.
pub proof fn law_route_header_overrides(
    response: Seq<HeaderText>,
    global: Seq<HeaderText>,
    h: HeaderText,
)
    requires
        crate::message::well_formed(h),
    ensures
        all_inserted(response, global.push(h)).last() == h,
        crate::message::without(all_inserted(response, global.push(h)), h.0)
            == crate::message::without(all_inserted(response, global), h.0),
{
    let all = global.push(h);
    assert(all.drop_last() =~= global);
    let list = all_inserted(response, global);
    let kept = crate::message::without(list, h.0);
    assert(kept.push(h).drop_last() =~= kept);
    lemma_without_twice(list, h.0);
}

proof fn lemma_without_twice(list: Seq<HeaderText>, name: Seq<char>)
    ensures
        crate::message::without(crate::message::without(list, name), name)
            == crate::message::without(list, name),
    decreases list.len(),
{
    if list.len() > 0 {
        lemma_without_twice(list.drop_last(), name);
        let front = crate::message::without(list.drop_last(), name);
        if !crate::text::same_ignoring_case(list.last().0, name) {
            assert(front.push(list.last()).drop_last() =~= front);
        }
    }
}

/// What went wrong while proxying.
#[derive(Debug, Clone, Copy, PartialEq, Eq, Structural)]
pub enum FailKind {
    /// A status was asked for.
    Status(u16),
    /// Connecting, reading, writing or the TLS handshake took too long.
    TimedOut,
    /// The connection could not be read from or written to, or was closed.
    Disconnected,
    /// Anything else.
    Other,
}

/// On which side it went wrong.
#[derive(Debug, Clone, Copy, PartialEq, Eq, Structural)]
pub enum FailSource {
    Upstream,
    Downstream,
    Internal,
}

/// The status that a failure is answered with; 0 for no answer, where the
/// client is gone.
pub open spec fn failure_status(kind: FailKind, source: FailSource) -> u16 {
    match kind {
        FailKind::Status(code) => code,
        FailKind::TimedOut => 504,
        _ => match source {
            FailSource::Upstream => 502,
            FailSource::Downstream => if kind == FailKind::Disconnected {
                0
            } else {
                400
            },
            FailSource::Internal => 500,
        },
    }
}

/// The status that a failure is answered with. An upstream timeout is a 504,
/// not a 502.
pub fn fail_to_proxy(kind: FailKind, source: FailSource) -> (r: u16)
    ensures
        r == failure_status(kind, source),
{
    match kind {
        FailKind::Status(code) => code,
        FailKind::TimedOut => 504,
        FailKind::Disconnected => match source {
            FailSource::Upstream => 502,
            FailSource::Downstream => 0,
            FailSource::Internal => 500,
        },
        FailKind::Other => match source {
            FailSource::Upstream => 502,
            FailSource::Downstream => 400,
            FailSource::Internal => 500,
        },
    }
}

/// The count of body bytes after one more piece, and the failure of the request
/// where it may not have so many. Without a limit nothing is counted.
pub open spec fn counted_chunk(seen: u64, len: nat, max: Option<u64>) -> (int, Option<FailKind>) {
    match max {
        Some(m) => (
            seen_after(seen, len),
            if seen_after(seen, len) > m {
                Some(FailKind::Status(413))
            } else {
                None
            },
        ),
        None => (seen as int, None),
    }
}

/// Counts a piece of the body of a request that is being forwarded. Once more
/// has come than any request may have, the request fails with 413.
pub fn body_chunk(seen: &mut u64, len: usize, max: Option<u64>) -> (r: Option<FailKind>)
    ensures
        (*final(seen) as int, r) == counted_chunk(*old(seen), len as nat, max),
{
    if count_chunk(seen, len, max) {
        None
    } else {
        Some(FailKind::Status(413))
    }
}

/// The line that is logged for a request.
pub open spec fn log_text(
    method: Seq<char>,
    host: Option<Seq<char>>,
    path: Seq<char>,
    status: u16,
    duration_ms: u64,
) -> Seq<char> {
    "method="@ + method + " host="@ + (match host {
        Some(h) => h,
        None => "-"@,
    }) + " path="@ + path + " status="@ + decimal_text(status as nat) + " dur_ms="@ + decimal_text(
        duration_ms as nat,
    )
}

/// The line that is logged for a request.
pub fn log_line(request: &Inbound, status: u16, duration_ms: u64) -> (r: String)
    ensures
        r@ == log_text(
            request@.method,
            field_text(request@.headers, "host"@),
            request@.path,
            status,
            duration_ms,
        ),
{
    let mut out = "method=".to_owned();
    out.append(request.method.as_str());
    out.append(" host=");
    out.append(
        match find_field(&request.headers, "host") {
            Some(h) => h,
            None => "-",
        },
    );
    out.append(" path=");
    out.append(request.path.as_str());
    out.append(" status=");
    let code = decimal(status as u64);
    out.append(code.as_str());
    out.append(" dur_ms=");
    let ms = decimal(duration_ms);
    out.append(ms.as_str());
    out
}

} // verus!
