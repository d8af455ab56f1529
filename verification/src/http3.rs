//! The HTTP/3 front end: what to do with a request, step by step. Each step
//! takes what happened since the last one and tells what to do next.
use crate::access::{permitted, AccessControl, IpAddress};
use crate::cache::{CachedResponse, ResponseText};
use crate::consult::{capture, capture_of, maybe_pending, Pending, PendingText};
use crate::encoding::{judges, negotiate_encoding, negotiated, total, Encoding};
use crate::headers::{copy_pairs, pairs, HeaderText};
use crate::message::{
    contains_field, content_length, declared_length, field_text, fields, find_field, full_target,
    has_field, header_name, is_header_name, is_header_value, keep_text, response_head, safe_head,
    text_pairs, valid_value, FieldText, HeaderField, Inbound, InboundText,
};
use crate::plugin::{has_chain, PluginRequest, Plugins, Request, Response};
use crate::relay::{
    bare, bare_reply, hit_marker, hit_not_modified, is_safe_method, not_modified, safe_method,
    Reply, ReplyText,
};
use crate::router::{
    after_pick, pick_target, place, rewritten, route_for, Endpoint, EndpointText, Route, RouteText,
    Router,
};
use crate::static_files::StaticDir;
use crate::text::{chars_of, copy_maybe, lowered, maybe, maybe_string, same};
use crate::upstream::{target_uri, upstream_uri};
use vstd::prelude::*;
use vstd::string::StringExecFns;

verus! {

/// The largest header section accepted where none is configured: 64 KiB.
pub const DEFAULT_MAX_HEADER_BYTES: u64 = 65_536;

/// Limits of requests and upstream timeouts, which are in seconds.
#[derive(Clone, Copy, Debug)]
pub struct Limits {
    /// Requests with a larger body are refused.
    pub max_body_bytes: Option<u64>,
    /// Requests with a larger header section are refused.
    pub max_header_bytes: Option<u64>,
    /// Timeout for connecting to the upstream.
    pub connect_timeout: Option<u64>,
    /// Timeout for the upstream response.
    pub read_timeout: Option<u64>,
    /// If set, compress responses that the client accepts compressed.
    pub compression_level: Option<u32>,
}

impl Default for Limits {
    /// No limits.
    fn default() -> (r: Limits)
        ensures
            r == (Limits {
                max_body_bytes: None,
                max_header_bytes: None,
                connect_timeout: None,
                read_timeout: None,
                compression_level: None,
            }),
    {
        Limits {
            max_body_bytes: None,
            max_header_bytes: None,
            connect_timeout: None,
            read_timeout: None,
            compression_level: None,
        }
    }
}

/// The largest header section accepted under some limits.
pub open spec fn header_bytes_limit(limits: Limits) -> u64 {
    match limits.max_header_bytes {
        Some(n) => n,
        None => DEFAULT_MAX_HEADER_BYTES,
    }
}

impl Limits {
    /// The largest header section accepted.
    pub fn header_limit(&self) -> (r: u64)
        ensures
            r == header_bytes_limit(*self),
    {
        match self.max_header_bytes {
            Some(n) => n,
            None => DEFAULT_MAX_HEADER_BYTES,
        }
    }
}

/// A call of a route's plugins, once the request body is buffered.
#[derive(Debug)]
pub struct PluginCall {
    /// The index by which the chain is found.
    pub route_id: usize,
    /// Where the request goes if no plugin answers it.
    pub target: Endpoint,
    /// The request, without its body and client address yet.
    pub request: Request,
    /// The host that the client asked for.
    pub host: String,
    /// The headers that the route sets on the response.
    pub response_headers: Vec<(String, String)>,
}

/// A call of a route's plugins as text.
#[verifier::ext_equal]
pub struct PluginCallText {
    pub route_id: usize,
    pub target: EndpointText,
    pub request: PluginRequest,
    pub host: Seq<char>,
    pub response_headers: Seq<HeaderText>,
}

impl View for PluginCall {
    type V = PluginCallText;

    open spec fn view(&self) -> PluginCallText {
        PluginCallText {
            route_id: self.route_id,
            target: self.target@,
            request: self.request@,
            host: self.host@,
            response_headers: pairs(self.response_headers@),
        }
    }
}

/// The first step of a request.
#[derive(Debug)]
pub enum Opening {
    /// Answer with this.
    Answer(Reply),
    /// Serve the file at this path below the directory.
    Static { dir: StaticDir, relative: String },
    /// Buffer the body and run the plugins.
    Plugins(PluginCall),
    /// Consult the cache, then forward to the route, if there is one.
    Proxy { route: Option<usize> },
}

/// The first step of a request, as text.
pub enum OpeningText {
    Answer(ReplyText),
    Static { root: Seq<char>, relative: Seq<char> },
    Plugins(PluginCallText),
    Proxy { route: Option<int> },
}

impl View for Opening {
    type V = OpeningText;

    open spec fn view(&self) -> OpeningText {
        match *self {
            Opening::Answer(reply) => OpeningText::Answer(reply@),
            Opening::Static { dir, relative } => OpeningText::Static {
                root: dir@,
                relative: relative@,
            },
            Opening::Plugins(call) => OpeningText::Plugins(call@),
            Opening::Proxy { route } => OpeningText::Proxy { route: place(route) },
        }
    }
}

/// The path that a route forwards or serves.
pub open spec fn routed_path(route: RouteText, path: Seq<char>) -> Seq<char> {
    match rewritten(route, path) {
        Some(p) => p,
        None => path,
    }
}

/// The header that tells an upstream that a request was early data.
pub open spec fn early_header(is_early: bool) -> Seq<HeaderText> {
    if is_early {
        seq![("early-data"@, "1"@)]
    } else {
        Seq::empty()
    }
}

/// Whether the plugins of a route handle a request: it has a chain, and the
/// body's declared length, if any, is within the cap.
pub open spec fn plugins_handle<P>(
    plugins: Option<&Plugins<P>>,
    route: RouteText,
    headers: Seq<FieldText>,
) -> bool {
    match plugins {
        Some(p) => has_chain(p@, route.id as int) && (declared_length(headers) matches Some(n)
            ==> n <= p.cap()),
        None => false,
    }
}

/// What plugins are called with.
pub open spec fn plugin_call(
    request: InboundText,
    host: Option<Seq<char>>,
    is_early: bool,
    route: RouteText,
    target: EndpointText,
) -> PluginCallText {
    PluginCallText {
        route_id: route.id,
        target,
        request: PluginRequest {
            method: request.method,
            path: full_target(request),
            headers: text_pairs(request.headers) + route.request_headers + early_header(is_early),
            body: Seq::empty(),
            client_ip: Seq::empty(),
        },
        host: match host {
            Some(h) => h,
            None => Seq::empty(),
        },
        response_headers: route.response_headers,
    }
}

/// The route of a request that is neither denied nor refused, if any.
pub open spec fn admitted_route(
    request: InboundText,
    host: Option<Seq<char>>,
    allowed: bool,
    is_early: bool,
    routes: Seq<RouteText>,
) -> Option<int> {
    if !allowed || (is_early && !safe_method(request.method)) {
        None
    } else {
        route_for(routes, host, request.path)
    }
}

/// Whether a request goes to its route's plugins.
pub open spec fn goes_to_plugins<P>(
    request: InboundText,
    host: Option<Seq<char>>,
    allowed: bool,
    is_early: bool,
    routes: Seq<RouteText>,
    plugins: Option<&Plugins<P>>,
) -> bool {
    match admitted_route(request, host, allowed, is_early, routes) {
        Some(i) => routes[i].static_root is None && plugins_handle(
            plugins,
            routes[i],
            request.headers,
        ),
        None => false,
    }
}

/// The first step of a request: a client that is denied gets 403; early data of
/// an unsafe method, which could be replayed, gets 425; a route to a directory
/// serves a file; a route with plugins runs them, or gets 404 where it has no
/// target; anything else is proxied.
pub open spec fn opening<P>(
    request: InboundText,
    host: Option<Seq<char>>,
    allowed: bool,
    is_early: bool,
    routes: Seq<RouteText>,
    plugins: Option<&Plugins<P>>,
) -> OpeningText {
    let route = route_for(routes, host, request.path);
    if !allowed {
        OpeningText::Answer(bare(403))
    } else if is_early && !safe_method(request.method) {
        OpeningText::Answer(bare(425))
    } else {
        match route {
            None => OpeningText::Proxy { route: None },
            Some(i) => if routes[i].static_root is Some {
                OpeningText::Static {
                    root: routes[i].static_root->0,
                    relative: routed_path(routes[i], request.path),
                }
            } else if plugins_handle(plugins, routes[i], request.headers) {
                match pick_target(routes, route) {
                    Some(target) => OpeningText::Plugins(
                        plugin_call(request, host, is_early, routes[i], target),
                    ),
                    None => OpeningText::Answer(bare(404)),
                }
            } else {
                OpeningText::Proxy { route }
            },
        }
    }
}

/// The path that a route forwards or serves.
fn path_for(route: &Route, path: &str) -> (r: String)
    ensures
        r@ == routed_path(route@, path@),
{
    match route.rewrite_path(path) {
        Some(p) => p,
        None => path.to_owned(),
    }
}

/// Adds the header that marks early data.
fn push_early(headers: &mut Vec<(String, String)>, is_early: bool)
    ensures
        pairs(final(headers)@) == pairs(old(headers)@) + early_header(is_early),
{
    if is_early {
        headers.push(("early-data".to_owned(), "1".to_owned()));
    }
    assert(pairs(headers@) =~= pairs(old(headers)@) + early_header(is_early));
}

/// Takes the first step of a request. `is_early` tells that it came before the
/// handshake was complete.
pub fn open_request<P>(
    request: &Inbound,
    host: Option<&str>,
    client_ip: IpAddress,
    is_early: bool,
    access: &AccessControl,
    router: &mut Router,
    plugins: Option<&Plugins<P>>,
) -> (r: Opening)
    requires
        access.wf(),
    ensures
        r@ == opening(
            request@,
            maybe(host),
            permitted(access.allowed(), access.denied(), client_ip),
            is_early,
            old(router)@,
            plugins,
        ),
        final(router)@ == if goes_to_plugins(
            request@,
            maybe(host),
            permitted(access.allowed(), access.denied(), client_ip),
            is_early,
            old(router)@,
            plugins,
        ) {
            after_pick(old(router)@, route_for(old(router)@, maybe(host), request@.path))
        } else {
            old(router)@
        },
        r matches Opening::Proxy { route: Some(i) } ==> i < final(router)@.len(),
{
    if !access.is_empty() && !access.allows(client_ip) {
        return Opening::Answer(bare_reply(403));
    }
    assert(permitted(access.allowed(), access.denied(), client_ip));
    if is_early && !is_safe_method(request.method.as_str()) {
        return Opening::Answer(bare_reply(425));
    }
    let found = router.match_index(host, request.path.as_str());
    let i: usize = match found {
        Some(i) => i,
        None => return Opening::Proxy { route: None },
    };
    let route = router.route(i);
    if let Some(dir) = route.static_dir() {
        return Opening::Static {
            dir: dir.copy(),
            relative: path_for(route, request.path.as_str()),
        };
    }
    let handled = match plugins {
        Some(p) => {
            if p.chain(route.id()).is_some() {
                match content_length(&request.headers) {
                    Some(n) => n <= p.max_body(),
                    None => true,
                }
            } else {
                false
            }
        },
        None => false,
    };
    if !handled {
        return Opening::Proxy { route: Some(i) };
    }
    let route_id = route.id();
    let mut own = copy_pairs(route.request_headers());
    let response_headers = copy_pairs(route.response_headers());
    let mut headers = keep_text(&request.headers);
    let ghost h0 = headers@;
    let ghost o0 = own@;
    headers.append(&mut own);
    assert(pairs(headers@) =~= pairs(h0) + pairs(o0));
    push_early(&mut headers, is_early);
    let target = match router.pick(i) {
        Some(t) => t,
        None => return Opening::Answer(bare_reply(404)),
    };
    let call = PluginCall {
        route_id,
        target,
        request: Request {
            method: request.method.clone(),
            path: request.full_target().to_owned(),
            headers,
            body: Vec::new(),
            client_ip: String::new(),
        },
        host: match host {
            Some(h) => h.to_owned(),
            None => String::new(),
        },
        response_headers,
    };
    assert(call@.request.body =~= Seq::<u8>::empty());
    assert(call@ =~= plugin_call(
        request@,
        maybe(host),
        is_early,
        old(router)@[i as int],
        target@,
    ));
    Opening::Plugins(call)
}

/// The request that plugins get, once its body is buffered.
pub fn plugin_request(request: Request, body: Vec<u8>, client_ip: String) -> (r: Request)
    ensures
        r@ == (PluginRequest { body: body@, client_ip: client_ip@, ..request@ }),
{
    Request { body, client_ip, ..request }
}

/// The response to a request that plugins have handled: theirs, with the
/// route's headers behind; 502 where one failed.
pub open spec fn plugin_reply_text(
    outcome: Option<ResponseText>,
    response_headers: Seq<HeaderText>,
) -> ReplyText {
    match outcome {
        Some(response) => ReplyText {
            head: safe_head(
                response.status,
                response.headers + response_headers,
                Some(response.body.len()),
            ),
            body: if response.body.len() == 0 {
                None
            } else {
                Some(response.body)
            },
        },
        None => bare(502),
    }
}

/// The view of an optional response.
pub open spec fn maybe_response(r: Option<Response>) -> Option<ResponseText> {
    match r {
        Some(response) => Some(response@),
        None => None,
    }
}

/// The response to a request that plugins have handled; `None` where one of
/// them, or the upstream, failed.
pub fn plugin_reply(outcome: Option<Response>, response_headers: &Vec<(String, String)>) -> (r:
    Reply)
    ensures
        r@ == plugin_reply_text(maybe_response(outcome), pairs(response_headers@)),
{
    match outcome {
        Some(response) => {
            let mut headers = copy_pairs(&response.headers);
            let mut own = copy_pairs(response_headers);
            let ghost h0 = headers@;
            let ghost o0 = own@;
            headers.append(&mut own);
            assert(pairs(headers@) =~= pairs(h0) + pairs(o0));
            let head = response_head(response.status, &headers, Some(response.body.len()));
            let body = if response.body.len() == 0 {
                None
            } else {
                Some(response.body)
            };
            Reply { head, body }
        },
        None => bare_reply(502),
    }
}

/// The response to a request that the cache answers: a 304 without a body
/// where the client has the entry already, or else the entry.
pub open spec fn hit_reply_text(hit: ResponseText, if_none_match: Option<Seq<char>>) -> ReplyText {
    if not_modified(hit, if_none_match) {
        ReplyText {
            head: safe_head(
                304,
                seq![
                    ("etag"@, crate::headers::first_value(hit.headers, "etag"@)->0),
                    hit_marker(),
                ],
                None,
            ),
            body: None,
        }
    } else {
        ReplyText {
            head: safe_head(hit.status, hit.headers.push(hit_marker()), Some(hit.body.len())),
            body: Some(hit.body),
        }
    }
}

/// The response to a request that the cache answers. The stored headers may be
/// of any kind: a cache file can be damaged.
pub fn hit_reply(hit: CachedResponse, headers: &Vec<HeaderField>) -> (r: Reply)
    ensures
        r@ == hit_reply_text(hit@, field_text(fields(headers@), "if-none-match"@)),
{
    let if_none_match = find_field(headers, "if-none-match");
    if hit_not_modified(&hit, if_none_match) {
        let mut list: Vec<(String, String)> = Vec::new();
        if let Some(etag) = hit.etag() {
            list.push(("etag".to_owned(), etag.to_owned()));
        }
        list.push(("x-cache".to_owned(), "HIT".to_owned()));
        assert(pairs(list@) =~= seq![
            ("etag"@, crate::headers::first_value(hit@.headers, "etag"@)->0),
            hit_marker(),
        ]);
        return Reply { head: response_head(304, &list, None), body: None };
    }
    let mut list = copy_pairs(&hit.headers);
    let ghost l0 = list@;
    list.push(("x-cache".to_owned(), "HIT".to_owned()));
    assert(pairs(list@) =~= pairs(l0).push(hit_marker()));
    Reply {
        head: response_head(hit.status, &list, Some(hit.body.len())),
        body: Some(hit.body),
    }
}

/// A request to be sent upstream, but for its body.
#[derive(Debug)]
pub struct Forward {
    pub method: String,
    pub uri: String,
    /// The places of the client's header fields that are passed on as they
    /// are.
    pub copied: Vec<usize>,
    /// Headers added behind them.
    pub added: Vec<(String, String)>,
}

/// A request to be sent upstream, as text.
#[verifier::ext_equal]
pub struct ForwardText {
    pub method: Seq<char>,
    pub uri: Seq<char>,
    pub copied: Seq<int>,
    pub added: Seq<HeaderText>,
}

/// The places in a list.
pub open spec fn places(v: Seq<usize>) -> Seq<int> {
    v.map_values(|i: usize| i as int)
}

impl View for Forward {
    type V = ForwardText;

    open spec fn view(&self) -> ForwardText {
        ForwardText {
            method: self.method@,
            uri: self.uri@,
            copied: places(self.copied@),
            added: pairs(self.added@),
        }
    }
}

/// What to do with a request that is not answered from the cache.
#[derive(Debug)]
pub enum Forwarding {
    /// Answer with this.
    Answer(Reply),
    /// Send this upstream, and pass the body on.
    Send(Forward),
}

/// What to do with a request that is not answered from the cache, as text.
pub enum ForwardingText {
    Answer(ReplyText),
    Send(ForwardText),
}

impl View for Forwarding {
    type V = ForwardingText;

    open spec fn view(&self) -> ForwardingText {
        match *self {
            Forwarding::Answer(reply) => ForwardingText::Answer(reply@),
            Forwarding::Send(forward) => ForwardingText::Send(forward@),
        }
    }
}

/// The places of all header fields but `host`.
pub open spec fn not_host_places(h: Seq<FieldText>) -> Seq<int>
    decreases h.len(),
{
    if h.len() == 0 {
        Seq::empty()
    } else if h.last().0 == "host"@ {
        not_host_places(h.drop_last())
    } else {
        not_host_places(h.drop_last()).push(h.len() - 1)
    }
}

/// A path with the query behind it, where there is one.
pub open spec fn with_query(path: Seq<char>, query: Option<Seq<char>>) -> Seq<char> {
    match query {
        Some(q) => path.push('?') + q,
        None => path,
    }
}

/// The request sent upstream.
pub open spec fn forwarded(
    request: InboundText,
    is_early: bool,
    route: RouteText,
    target: EndpointText,
) -> ForwardText {
    ForwardText {
        method: request.method,
        uri: target_uri(target, with_query(routed_path(route, request.path), request.query)),
        copied: not_host_places(request.headers),
        added: route.request_headers + early_header(is_early),
    }
}

/// Whether a request declares a body larger than allowed.
pub open spec fn too_large(headers: Seq<FieldText>, max: Option<u64>) -> bool {
    max matches Some(m) && (declared_length(headers) matches Some(n) && n > m)
}

/// What to do with a request that is not answered from the cache: 404 without
/// a target, 413 for a body that is declared too large; otherwise send it.
pub open spec fn forwarding(
    request: InboundText,
    is_early: bool,
    routes: Seq<RouteText>,
    route: Option<int>,
    max_body: Option<u64>,
) -> ForwardingText {
    match pick_target(routes, route) {
        None => ForwardingText::Answer(bare(404)),
        Some(target) => if too_large(request.headers, max_body) {
            ForwardingText::Answer(bare(413))
        } else {
            ForwardingText::Send(forwarded(request, is_early, routes[route->0], target))
        },
    }
}

/// Whether a request declares a body larger than allowed.
pub fn declares_too_large(headers: &Vec<HeaderField>, max: Option<u64>) -> (r: bool)
    ensures
        r == too_large(fields(headers@), max),
{
    match (max, content_length(headers)) {
        (Some(m), Some(n)) => n > m,
        _ => false,
    }
}

/// The places of all header fields but `host`.
fn places_but_host(h: &Vec<HeaderField>) -> (r: Vec<usize>)
    ensures
        places(r@) == not_host_places(fields(h@)),
{
    let ghost all = fields(h@);
    let mut out: Vec<usize> = Vec::new();
    let mut i: usize = 0;
    assert(places(out@) =~= Seq::<int>::empty());
    while i < h.len()
        invariant
            i <= h.len(),
            all == fields(h@),
            places(out@) == not_host_places(all.take(i as int)),
        decreases h.len() - i,
    {
        let ghost o = out@;
        assert(all[i as int].0 == h@[i as int].name@);
        assert(all.take(i + 1).drop_last() =~= all.take(i as int));
        if !same(h[i].name.as_str(), "host") {
            out.push(i);
            assert(places(out@) =~= places(o).push(i as int));
        }
        i = i + 1;
    }
    assert(all.take(i as int) =~= all);
    out
}

/// Decides what to do with a request that is not answered from the cache.
pub fn forward(
    request: &Inbound,
    is_early: bool,
    router: &mut Router,
    route: Option<usize>,
    limits: &Limits,
) -> (r: Forwarding)
    requires
        route matches Some(i) ==> i < old(router)@.len(),
    ensures
        r@ == forwarding(
            request@,
            is_early,
            old(router)@,
            place(route),
            limits.max_body_bytes,
        ),
        final(router)@ == after_pick(old(router)@, place(route)),
{
    let i: usize = match route {
        Some(i) => i,
        None => return Forwarding::Answer(bare_reply(404)),
    };
    let matched = router.route(i);
    let mut path_and_query = path_for(matched, request.path.as_str());
    let mut added = copy_pairs(matched.request_headers());
    push_early(&mut added, is_early);
    let target = match router.pick(i) {
        Some(t) => t,
        None => return Forwarding::Answer(bare_reply(404)),
    };
    if let Some(query) = &request.query {
        path_and_query.push('?');
        path_and_query.append(query.as_str());
    }
    if declares_too_large(&request.headers, limits.max_body_bytes) {
        return Forwarding::Answer(bare_reply(413));
    }
    let forward = Forward {
        method: request.method.clone(),
        uri: upstream_uri(&target, path_and_query.as_str()),
        copied: places_but_host(&request.headers),
        added,
    };
    Forwarding::Send(forward)
}

/// Where a header value of a relayed response comes from.
#[derive(Debug)]
pub enum FieldSource {
    /// The upstream's header field at this place, byte for byte.
    Copied(usize),
    /// This text.
    Given(String),
}

/// A header field of a relayed response. `text` is its value where that is
/// visible ASCII text.
#[derive(Debug)]
pub struct RelayField {
    pub name: String,
    pub text: Option<String>,
    pub source: FieldSource,
}

/// Where a header value comes from, as text.
pub enum SourceText {
    Copied(int),
    Given(Seq<char>),
}

/// A header field of a relayed response, as text.
#[verifier::ext_equal]
pub struct RelayText {
    pub name: Seq<char>,
    pub text: Option<Seq<char>>,
    pub source: SourceText,
}

impl View for RelayField {
    type V = RelayText;

    open spec fn view(&self) -> RelayText {
        RelayText {
            name: self.name@,
            text: maybe_string(self.text),
            source: match self.source {
                FieldSource::Copied(i) => SourceText::Copied(i as int),
                FieldSource::Given(text) => SourceText::Given(text@),
            },
        }
    }
}

/// The views of a list of relayed fields.
pub open spec fn relay_texts(v: Seq<RelayField>) -> Seq<RelayText> {
    v.map_values(|f: RelayField| f@)
}

/// The upstream's fields, to be passed on as they are.
pub open spec fn passed_on(h: Seq<FieldText>) -> Seq<RelayText> {
    Seq::new(
        h.len(),
        |i: int| RelayText { name: h[i].0, text: h[i].1, source: SourceText::Copied(i) },
    )
}

/// The names and texts of relayed fields.
pub open spec fn relay_fields(v: Seq<RelayText>) -> Seq<FieldText> {
    v.map_values(|f: RelayText| (f.name, f.text))
}

/// The fields that are not called `name`.
pub open spec fn unnamed(v: Seq<RelayText>, name: Seq<char>) -> Seq<RelayText>
    decreases v.len(),
{
    if v.len() == 0 {
        Seq::empty()
    } else if v.last().name == name {
        unnamed(v.drop_last(), name)
    } else {
        unnamed(v.drop_last(), name).push(v.last())
    }
}

/// Whether text is visible ASCII: printable characters and tabs.
pub open spec fn visible(s: Seq<char>) -> bool {
    forall|i: int| 0 <= i < s.len() ==> (#[trigger] s[i] == '\t' || 32 <= s[i] as u32 <= 126)
}

/// A field with a given value.
pub open spec fn given(name: Seq<char>, value: Seq<char>) -> RelayText {
    RelayText {
        name,
        text: if visible(value) {
            Some(value)
        } else {
            None
        },
        source: SourceText::Given(value),
    }
}

/// The fields with a given one in place of all of its name; unchanged where it
/// is not well formed.
pub open spec fn with_given(v: Seq<RelayText>, h: HeaderText) -> Seq<RelayText> {
    if is_header_name(h.0) && is_header_value(h.1) {
        unnamed(v, lowered(h.0)).push(given(lowered(h.0), h.1))
    } else {
        v
    }
}

/// The fields with several given ones in place of all of their names.
pub open spec fn with_all_given(v: Seq<RelayText>, more: Seq<HeaderText>) -> Seq<RelayText>
    decreases more.len(),
{
    if more.len() == 0 {
        v
    } else {
        with_given(with_all_given(v, more.drop_last()), more.last())
    }
}

/// The fields of the upstream's response without those of the connection, and
/// with those that the route sets.
pub open spec fn edited(h: Seq<FieldText>, route_headers: Seq<HeaderText>) -> Seq<RelayText> {
    with_all_given(
        unnamed(
            unnamed(unnamed(passed_on(h), "connection"@), "transfer-encoding"@),
            "upgrade"@,
        ),
        route_headers,
    )
}

/// The coding that a response is compressed with: none where compression is
/// off or the upstream has encoded it already.
pub open spec fn chosen_coding(
    fields: Seq<RelayText>,
    accept_encoding: Option<Seq<char>>,
    level: Option<u32>,
    zero: spec_fn(Seq<char>) -> bool,
) -> Option<Encoding> {
    if level is Some && !has_field(relay_fields(fields), "content-encoding"@) {
        negotiated(accept_encoding, zero)
    } else {
        None
    }
}

/// The fields of a response that is compressed on the way: the coding is named,
/// and the length, which is no longer true, is dropped.
pub open spec fn encoded_fields(fields: Seq<RelayText>, coding: Option<Encoding>) -> Seq<
    RelayText,
> {
    match coding {
        Some(c) => unnamed(
            fields.push(given("content-encoding"@, c.token())),
            "content-length"@,
        ),
        None => fields,
    }
}

/// A response to be relayed to the client.
#[derive(Debug)]
pub struct Relay {
    pub status: u16,
    pub fields: Vec<RelayField>,
    /// What to store in the cache once the body is complete.
    pub pending: Option<Pending>,
    /// The coding to compress the body with.
    pub encoding: Option<Encoding>,
}

/// How a response with the edited fields is relayed: what is stored of it, how
/// it is compressed, and the fields that the client gets.
pub open spec fn relays<F: Fn(&str) -> bool>(
    plain: Seq<RelayText>,
    accept_encoding: Option<Seq<char>>,
    status: u16,
    cache_key: Option<Seq<char>>,
    level: Option<u32>,
    zero_quality: F,
    fields: Seq<RelayText>,
    pending: Option<PendingText>,
    encoding: Option<Encoding>,
) -> bool {
    &&& pending == capture_of(cache_key, status, relay_fields(plain))
    &&& fields == encoded_fields(plain, encoding)
    &&& encoding is Some ==> level is Some
    &&& forall|zero: spec_fn(Seq<char>) -> bool| #[trigger]
        judges(zero_quality, zero) ==> encoding == chosen_coding(
            plain,
            accept_encoding,
            level,
            zero,
        )
}

/// Drops the fields called `name`.
fn drop_fields(v: &mut Vec<RelayField>, name: &str)
    ensures
        relay_texts(final(v)@) == unnamed(relay_texts(old(v)@), name@),
{
    let ghost all = relay_texts(v@);
    let ghost mut k: int = 0;
    let mut i: usize = 0;
    assert(relay_texts(v@) =~= unnamed(all.take(0), name@) + all.skip(0));
    while i < v.len()
        invariant
            0 <= k <= all.len(),
            i == unnamed(all.take(k), name@).len(),
            relay_texts(v@) == unnamed(all.take(k), name@) + all.skip(k),
        decreases v.len() - i,
    {
        let ghost front = unnamed(all.take(k), name@);
        let ghost v0 = v@;
        assert(relay_texts(v@)[i as int] == all.skip(k)[0]);
        assert(v@[i as int]@ == all[k]);
        assert(all.take(k + 1).drop_last() =~= all.take(k));
        if same(v[i].name.as_str(), name) {
            v.remove(i);
            assert(relay_texts(v@) =~= relay_texts(v0).remove(i as int));
            assert(relay_texts(v@) =~= front + all.skip(k + 1));
        } else {
            i = i + 1;
            assert(relay_texts(v@) =~= front.push(all[k]) + all.skip(k + 1));
        }
        proof {
            k = k + 1;
        }
    }
    assert(all.skip(k).len() == 0);
    assert(k == all.len());
    assert(all.take(k) =~= all);
    assert(relay_texts(v@) =~= unnamed(all, name@));
}

/// Whether text is visible ASCII.
fn is_visible(s: &str) -> (r: bool)
    ensures
        r == visible(s@),
{
    let chars = chars_of(s);
    let mut i: usize = 0;
    while i < chars.len()
        invariant
            i <= chars.len(),
            chars@ == s@,
            forall|j: int| 0 <= j < i ==> (#[trigger] s@[j] == '\t' || 32 <= s@[j] as u32 <= 126),
        decreases chars.len() - i,
    {
        let c: char = chars[i];
        if c != '\t' && !(32 <= c as u32 && c as u32 <= 126) {
            return false;
        }
        i = i + 1;
    }
    true
}

/// Adds a field with a given value.
fn push_given(v: &mut Vec<RelayField>, name: String, value: &str)
    ensures
        relay_texts(final(v)@) == relay_texts(old(v)@).push(given(name@, value@)),
{
    let text = if is_visible(value) {
        Some(value.to_owned())
    } else {
        None
    };
    let f = RelayField { name, text, source: FieldSource::Given(value.to_owned()) };
    assert(f@ =~= given(name@, value@));
    v.push(f);
    assert(relay_texts(v@) =~= relay_texts(old(v)@).push(f@));
}

/// Puts headers in place of all of their names, each if it is well formed.
fn give_all(v: &mut Vec<RelayField>, more: &Vec<(String, String)>)
    ensures
        relay_texts(final(v)@) == with_all_given(relay_texts(old(v)@), pairs(more@)),
{
    let ghost start = relay_texts(v@);
    let ghost all = pairs(more@);
    let mut i: usize = 0;
    while i < more.len()
        invariant
            i <= more.len(),
            all == pairs(more@),
            relay_texts(v@) == with_all_given(start, all.take(i as int)),
        decreases more.len() - i,
    {
        assert(all[i as int] == (more@[i as int].0@, more@[i as int].1@));
        assert(all.take(i + 1).drop_last() =~= all.take(i as int));
        match header_name(more[i].0.as_str()) {
            Some(name) => {
                if valid_value(more[i].1.as_str()) {
                    drop_fields(v, name.as_str());
                    push_given(v, name, more[i].1.as_str());
                }
            },
            None => {},
        }
        i = i + 1;
    }
    assert(all.take(i as int) =~= all);
}

/// The upstream's fields, to be passed on as they are.
fn pass_on(h: &Vec<HeaderField>) -> (r: Vec<RelayField>)
    ensures
        relay_texts(r@) == passed_on(fields(h@)),
{
    let ghost all = passed_on(fields(h@));
    let mut out: Vec<RelayField> = Vec::new();
    let mut i: usize = 0;
    while i < h.len()
        invariant
            i <= h.len(),
            all == passed_on(fields(h@)),
            relay_texts(out@) == all.take(i as int),
        decreases h.len() - i,
    {
        let ghost o = out@;
        let f = RelayField {
            name: h[i].name.clone(),
            text: copy_maybe(&h[i].value),
            source: FieldSource::Copied(i),
        };
        assert(f@ =~= all[i as int]);
        out.push(f);
        assert(relay_texts(out@) =~= relay_texts(o).push(f@));
        assert(all.take(i + 1) =~= all.take(i as int).push(all[i as int]));
        i = i + 1;
    }
    assert(all.take(i as int) =~= all);
    out
}

/// The names and texts of relayed fields.
fn field_list(v: &Vec<RelayField>) -> (r: Vec<HeaderField>)
    ensures
        fields(r@) == relay_fields(relay_texts(v@)),
{
    let ghost all = relay_fields(relay_texts(v@));
    let mut out: Vec<HeaderField> = Vec::new();
    let mut i: usize = 0;
    while i < v.len()
        invariant
            i <= v.len(),
            all == relay_fields(relay_texts(v@)),
            fields(out@) == all.take(i as int),
        decreases v.len() - i,
    {
        let ghost o = out@;
        let f = HeaderField { name: v[i].name.clone(), value: copy_maybe(&v[i].text) };
        out.push(f);
        assert(fields(out@) =~= fields(o).push((f.name@, maybe_string(f.value))));
        assert(all[i as int] == (v@[i as int].name@, maybe_string(v@[i as int].text)));
        assert(all.take(i + 1) =~= all.take(i as int).push(all[i as int]));
        i = i + 1;
    }
    assert(all.take(i as int) =~= all);
    out
}

/// Decides how an upstream response is relayed: which headers it gets, whether
/// it is stored, and how it is compressed. `zero_quality` judges whether the
/// text of a quality value denotes zero.
pub fn relay_response<F: Fn(&str) -> bool>(
    request: &Inbound,
    route_headers: &Vec<(String, String)>,
    status: u16,
    headers: &Vec<HeaderField>,
    cache_key: Option<String>,
    limits: &Limits,
    zero_quality: &F,
) -> (r: Relay)
    requires
        total(*zero_quality),
    ensures
        r.status == status,
        relays(
            edited(fields(headers@), pairs(route_headers@)),
            field_text(request@.headers, "accept-encoding"@),
            status,
            maybe_string(cache_key),
            limits.compression_level,
            *zero_quality,
            relay_texts(r.fields@),
            maybe_pending(r.pending),
            r.encoding,
        ),
{
    let mut list = pass_on(headers);
    drop_fields(&mut list, "connection");
    drop_fields(&mut list, "transfer-encoding");
    drop_fields(&mut list, "upgrade");
    give_all(&mut list, route_headers);
    let ghost plain = edited(fields(headers@), pairs(route_headers@));
    assert(relay_texts(list@) == plain);
    let view = field_list(&list);
    let pending = capture(cache_key, status, &view);
    let encoding = if limits.compression_level.is_some() && !contains_field(
        &view,
        "content-encoding",
    ) {
        negotiate_encoding(find_field(&request.headers, "accept-encoding"), zero_quality)
    } else {
        None
    };
    if let Some(coding) = encoding {
        push_given(&mut list, "content-encoding".to_owned(), coding.header_value());
        drop_fields(&mut list, "content-length");
    }
    Relay { status, fields: list, pending, encoding }
}

/// A client that is denied gets 403 and nothing else happens.
pub proof fn law_denied_client_is_refused<P>(
    request: InboundText,
    host: Option<Seq<char>>,
    is_early: bool,
    routes: Seq<RouteText>,
    plugins: Option<&Plugins<P>>,
)
    ensures
        opening(request, host, false, is_early, routes, plugins) == OpeningText::Answer(bare(403)),
        !goes_to_plugins(request, host, false, is_early, routes, plugins),
{
}

/// Early data, which could be replayed, never reaches an upstream or a plugin
/// unless its method is safe; and then it is marked.
pub proof fn law_early_data_is_replay_safe<P>(
    request: InboundText,
    host: Option<Seq<char>>,
    allowed: bool,
    routes: Seq<RouteText>,
    plugins: Option<&Plugins<P>>,
    route: RouteText,
    target: EndpointText,
)
    ensures
        !safe_method(request.method) ==> {
            let step = opening(request, host, allowed, true, routes, plugins);
            step == OpeningText::Answer(bare(425)) || step == OpeningText::Answer(bare(403))
        },
        opening(request, host, allowed, true, routes, plugins) matches OpeningText::Plugins(call)
            ==> call.request.headers.last() == ("early-data"@, "1"@),
        forwarded(request, true, route, target).added.last() == ("early-data"@, "1"@),
{
}

/// What is relayed is never both compressed here and by the upstream, and a
/// response compressed here declares no length.
pub proof fn law_compressed_once(
    fields: Seq<RelayText>,
    accept_encoding: Option<Seq<char>>,
    level: Option<u32>,
    zero: spec_fn(Seq<char>) -> bool,
)
    requires
        chosen_coding(fields, accept_encoding, level, zero) is Some,
    ensures
        level is Some,
        !has_field(relay_fields(fields), "content-encoding"@),
        !has_field(
            relay_fields(
                encoded_fields(fields, chosen_coding(fields, accept_encoding, level, zero)),
            ),
            "content-length"@,
        ),
{
    let coding = chosen_coding(fields, accept_encoding, level, zero);
    let list = fields.push(given("content-encoding"@, coding->0.token()));
    lemma_unnamed(list, "content-length"@);
}

proof fn lemma_unnamed(v: Seq<RelayText>, name: Seq<char>)
    ensures
        !has_field(relay_fields(unnamed(v, name)), name),
        forall|i: int| 0 <= i < unnamed(v, name).len() ==> (#[trigger] unnamed(v, name)[i]).name != name,
    decreases v.len(),
{
    if v.len() > 0 {
        lemma_unnamed(v.drop_last(), name);
    }
    let list = unnamed(v, name);
    assert forall|i: int| 0 <= i < relay_fields(list).len() implies (#[trigger] relay_fields(
        list,
    )[i]).0 != name by {
        assert(list[i].name != name);
    }
}

/// A request whose declared body is larger than plugins can take is not
/// handed to them.
pub proof fn law_large_body_bypasses_plugins<P>(
    request: InboundText,
    host: Option<Seq<char>>,
    allowed: bool,
    is_early: bool,
    routes: Seq<RouteText>,
    plugins: &Plugins<P>,
)
    requires
        declared_length(request.headers) matches Some(n) && n > plugins.cap(),
    ensures
        !(opening(request, host, allowed, is_early, routes, Some(plugins)) is Plugins),
        !goes_to_plugins(request, host, allowed, is_early, routes, Some(plugins)),
{
}

/// A client that names the tag of a cached entry gets 304 without a body; any
/// other gets the stored body and its length.
pub proof fn law_known_entry_is_not_sent_again(hit: ResponseText, if_none_match: Option<Seq<char>>)
    ensures
        not_modified(hit, if_none_match) ==> {
            &&& hit_reply_text(hit, if_none_match).head.status == 304
            &&& hit_reply_text(hit, if_none_match).body is None
        },
        !not_modified(hit, if_none_match) ==> hit_reply_text(hit, if_none_match).body == Some(
            hit.body,
        ),
{
}

} // verus!
