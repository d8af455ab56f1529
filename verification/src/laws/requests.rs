//! What is decided about a request before it is forwarded, and how it and its
//! response are changed on the way.
use crate::access::{permitted, AccessControl};
use crate::cache::ResponseText;
use crate::headers::{host_name, HeaderText};
use crate::http3;
use crate::http3::{opening, plugin_call, routed_path, OpeningText};
use crate::laws::forwarding::{empty_reply, goes_out_as, lemma_empty_reply};
use crate::laws::headers::{
    has_text, last_of_name, law_appending, law_response_head, law_setting, law_setting_one,
    law_text_fields_are_kept, lemma_filter_member, lemma_length_is_sendable, not_called, sendable,
    sets_name, with_lower_name,
};
use crate::laws::routing::{is_stem, law_stripped_path, law_unstripped_path};
use crate::laws::texts::law_head;
use crate::message::{
    all_appended, all_inserted, declared_length, field_text, full_target, FieldText, InboundText,
};
use crate::numeral::decimal_text;
use crate::order::joined;
use crate::plugin::{has_chain, Plugins};
use crate::proxy::{
    client_key, counted_chunk, failure_status, h1_plugin_call, has_room, host_of, log_text, peer_for, plugin_ask,
    plugin_reply_of, plugin_route, rate_checked, refused, response_sets, sent_client, sent_proto,
    sent_target, static_path, Client, FailKind, FailSource,
};
use crate::ratelimit::RateLimiter;
use crate::relay::{file_reply, intake, over_limit, safe_method, seen_after, Intake};
use crate::router::{pick_target, picked, route_for, EndpointText, RouteText};
use crate::text::same_ignoring_case;
use vstd::prelude::*;

verus! {

/// A host is known without its port: a name, or an IPv6 address with its
/// brackets.
pub proof fn law_host_has_no_port(name: Seq<char>, port: Seq<char>)
    requires
        !name.contains(':'),
        !name.contains('['),
        !name.contains(']'),
        !port.contains(']'),
    ensures
        host_name(name) == name,
        host_name(name.push(':') + port) == name,
{
    let whole = name.push(':') + port;
    law_head(name, ':', port);
    if whole[0] == '[' {
        if name.len() > 0 {
            assert(name[0] == '[');
        }
    }
    if name.len() > 0 && name[0] == '[' {
        assert(name.contains('['));
    }
}

/// An IPv6 address keeps its brackets and loses the port.
pub proof fn law_bracketed_host_has_no_port(inner: Seq<char>, rest: Seq<char>)
    requires
        !inner.contains(']'),
    ensures
        host_name(seq!['['] + inner + seq![']'] + rest) == seq!['['] + inner + seq![']'],
{
    let whole = seq!['['] + inner + seq![']'] + rest;
    let front = seq!['['] + inner;
    assert(!front.contains(']')) by {
        if front.contains(']') {
            let k = choose|k: int| 0 <= k < front.len() && front[k] == ']';
            assert(inner[k - 1] == ']');
        }
    }
    law_head(front, ']', rest);
    assert(whole =~= front.push(']') + rest);
    assert(whole[front.len() as int] == ']');
    assert(front.push(']') =~= seq!['['] + inner + seq![']']);
}

/// The host that a request is routed by is its `Host` header without the port;
/// a request without one gives none.
pub proof fn law_request_is_routed_by_its_host(h: Seq<FieldText>)
    ensures
        field_text(h, "host"@) is None ==> host_of(h) is None,
        field_text(h, "host"@) matches Some(text) ==> host_of(h) == Some(host_name(text)),
{
}

/// A client is refused exactly where its address is known and the access rules
/// do not permit it; its requests are counted under its address, and those of
/// clients without one together.
pub proof fn law_client_is_judged_by_its_address(access: AccessControl, client: Option<Client>)
    ensures
        client is None ==> !refused(access, client) && client_key(client).len() == 0,
        client matches Some(c) ==> {
            &&& refused(access, client) <==> !permitted(access.allowed(), access.denied(), c.ip)
            &&& client_key(client) == c.text@
        },
{
}

/// A limiter stays a limiter with its window and limit, and no limiter stays
/// none; a request that was refused before is not counted.
pub proof fn law_limiter_stays(
    before: Option<RateLimiter>,
    after: Option<RateLimiter>,
    denied: bool,
    key: Seq<char>,
    now_ms: u64,
    within_rate: bool,
)
    requires
        rate_checked(before, after, denied, key, now_ms, within_rate),
    ensures
        before is None ==> after is None && within_rate,
        denied ==> after == before,
        before is Some ==> after is Some && after->0.window() == before->0.window()
            && after->0.limit() == before->0.limit(),
{
}

/// There is room for a request without a limiter; with one, while the window of
/// its key has counted fewer than the limit. A key that was not seen before, or
/// whose window has run its time, has counted none.
pub proof fn law_room_for_a_request(limiter: RateLimiter, key: Seq<char>, now_ms: u64)
    ensures
        has_room(None, key, now_ms),
        !limiter@.contains_key(key) ==> (has_room(Some(limiter), key, now_ms) <==> limiter.limit()
            > 0),
        limiter@.contains_key(key) && now_ms >= limiter@[key].start_ms + limiter.window() ==> (
        has_room(Some(limiter), key, now_ms) <==> limiter.limit() > 0),
        limiter@.contains_key(key) && now_ms < limiter@[key].start_ms + limiter.window()
            && limiter.window() > 0 ==> (has_room(Some(limiter), key, now_ms)
            <==> limiter@[key].count < limiter.limit()),
{
}

/// A route to a directory serves the path that it would forward, below its
/// root; a request without a route, or whose route is no such route, is not
/// served a file.
pub proof fn law_file_below_the_root(
    request: InboundText,
    routes: Seq<RouteText>,
    i: int,
    out: Seq<char>,
)
    requires
        route_for(routes, host_of(request.headers), request.path) == Some(i),
        goes_out_as(routes[i], request.path, out),
    ensures
        routes[i].static_root matches Some(root) ==> static_path(request, routes) == Some(
            (root, out),
        ),
        routes[i].static_root is None ==> static_path(request, routes) is None,
{
    lemma_routed(routes[i], request.path, out);
}

/// What goes out is the routed path.
pub proof fn lemma_routed(route: RouteText, path: Seq<char>, out: Seq<char>)
    requires
        goes_out_as(route, path, out),
    ensures
        routed_path(route, path) == out,
{
    law_unstripped_path(route, path);
    if route.strip_prefix && route.path_prefix is Some {
        let prefix = route.path_prefix->0;
        let stem = choose|stem: Seq<char>|
            {
                &&& #[trigger] is_stem(prefix, stem)
                &&& (path == stem + out && out.len() > 0) || (path == stem && out == seq!['/'])
            };
        law_stripped_path(route, prefix, stem, out);
    }
}

/// Without a route no file is served and nothing is forwarded.
pub proof fn law_no_route_no_file(request: InboundText, routes: Seq<RouteText>)
    requires
        route_for(routes, host_of(request.headers), request.path) is None,
    ensures
        static_path(request, routes) is None,
        peer_for(request, routes) is None,
{
}

/// The target whose turn it is.
pub open spec fn turn_of(route: RouteText) -> EndpointText {
    let target = route.targets[picked(route.targets, route.next)];
    EndpointText { address: target.address, tls: target.tls, sni: target.sni, h2: target.h2 }
}

/// The turn is what picking gives.
pub proof fn lemma_turn(routes: Seq<RouteText>, i: int)
    requires
        0 <= i < routes.len(),
    ensures
        routes[i].targets.len() == 0 ==> pick_target(routes, Some(i)) is None,
        routes[i].targets.len() > 0 ==> pick_target(routes, Some(i)) == Some(turn_of(routes[i])),
{
    crate::laws::routing::law_pick_takes_a_configured_target(routes, i);
    if let Some(e) = pick_target(routes, Some(i)) {
        assert(e =~= turn_of(routes[i]));
    }
}

/// A request is forwarded to the target of its route whose turn it is, with the
/// path that the route makes of it and the headers that the route sets; a route
/// without targets forwards nothing.
pub proof fn law_peer_is_of_the_route(
    request: InboundText,
    routes: Seq<RouteText>,
    i: int,
    out: Seq<char>,
)
    requires
        route_for(routes, host_of(request.headers), request.path) == Some(i),
        0 <= i < routes.len(),
        goes_out_as(routes[i], request.path, out),
    ensures
        routes[i].targets.len() == 0 ==> peer_for(request, routes) is None,
        routes[i].targets.len() > 0 ==> (peer_for(request, routes) matches Some(peer) && {
            &&& peer.target == turn_of(routes[i])
            &&& peer.rewrite_path matches Some(p) ==> p == out
            &&& peer.rewrite_path is None ==> out == request.path
            &&& peer.request_headers == routes[i].request_headers
            &&& peer.response_headers == routes[i].response_headers
        }),
{
    lemma_turn(routes, i);
    lemma_routed(routes[i], request.path, out);
}

/// A request whose path is rewritten is sent with the new path and its own
/// query; any other as it is. The client's address and scheme are told.
pub proof fn law_request_is_sent_with_its_query(
    path: Seq<char>,
    query: Seq<char>,
    client: Option<Client>,
)
    ensures
        sent_target(Some(path), Some(query)) == Some(path + seq!['?'] + query),
        sent_target(Some(path), None) == Some(path),
        sent_target(None, Some(query)) is None,
        sent_target(None, None) is None,
        client matches Some(c) ==> sent_client(client) == Some(c.text@),
        client is None ==> sent_client(client) is None,
        sent_proto(true) == seq!['h', 't', 't', 'p', 's'],
        sent_proto(false) == seq!['h', 't', 't', 'p'],
{
    reveal_strlit("http");
    reveal_strlit("https");
    assert(sent_target(Some(path), Some(query))->0 =~= path + seq!['?'] + query);
    assert(sent_proto(true) =~= seq!['h', 't', 't', 'p', 's']);
    assert(sent_proto(false) =~= seq!['h', 't', 't', 'p']);
}

/// What a response gets: the announcement of HTTP/3, where there is one; the
/// route's headers; the global ones, where the route has none of the name; and
/// its own, where neither has. For each name that is set, the last counts.
pub proof fn law_response_gets_its_headers(
    response: Seq<HeaderText>,
    global: Seq<HeaderText>,
    route: Seq<HeaderText>,
    h: HeaderText,
)
    ensures
        all_inserted(response, response_sets(global, route, None)).contains(h) <==> {
            ||| exists|i: int| #[trigger] last_of_name(route, i) && route[i] == h
            ||| !sets_name(route, h.0) && exists|i: int| #[trigger]
                last_of_name(global, i) && global[i] == h
            ||| !sets_name(route, h.0) && !sets_name(global, h.0) && response.contains(h)
        },
{
    let sets = response_sets(global, route, None);
    assert(sets =~= global + route);
    lemma_set_one_after_the_other(response, global, route);
    law_setting(all_inserted(response, global), route, h);
    law_setting(response, global, h);
    assert forall|i: int| #[trigger] last_of_name(route, i) && route[i] == h implies sets_name(
        route,
        h.0,
    ) by {}
}

/// Where HTTP/3 is announced, the response tells so, whatever else sets that
/// header, and is otherwise as without.
pub proof fn law_http3_is_announced(
    response: Seq<HeaderText>,
    global: Seq<HeaderText>,
    route: Seq<HeaderText>,
    text: Seq<char>,
    h: HeaderText,
)
    requires
        sendable()(("alt-svc"@, text)),
    ensures
        all_inserted(response, response_sets(global, route, Some(text))).contains(h) <==> {
            ||| h == ("alt-svc"@, text)
            ||| !same_ignoring_case(h.0, "alt-svc"@) && all_inserted(
                response,
                response_sets(global, route, None),
            ).contains(h)
        },
{
    let alt = seq![("alt-svc"@, text)];
    let plain = response_sets(global, route, None);
    assert(plain =~= global + route);
    assert(response_sets(global, route, Some(text)) =~= plain + alt);
    lemma_set_one_after_the_other(response, plain, alt);
    let before = all_inserted(response, plain);
    assert(alt.drop_last() =~= Seq::<HeaderText>::empty());
    assert(all_inserted(before, alt.drop_last()) == before);
    law_setting_one(before, ("alt-svc"@, text));
    lemma_filter_member(before, not_called("alt-svc"@), h);
    lemma_pushed(before.filter(not_called("alt-svc"@)), ("alt-svc"@, text), h);
}

proof fn lemma_set_one_after_the_other(
    list: Seq<HeaderText>,
    a: Seq<HeaderText>,
    b: Seq<HeaderText>,
)
    ensures
        all_inserted(list, a + b) == all_inserted(all_inserted(list, a), b),
    decreases b.len(),
{
    if b.len() > 0 {
        lemma_set_one_after_the_other(list, a, b.drop_last());
        assert((a + b).drop_last() =~= a + b.drop_last());
        assert((a + b).last() == b.last());
    } else {
        assert(a + b =~= a);
    }
}

proof fn lemma_pushed(s: Seq<HeaderText>, x: HeaderText, h: HeaderText)
    ensures
        s.push(x).contains(h) <==> s.contains(h) || x == h,
{
    if s.contains(h) {
        let k = choose|k: int| 0 <= k < s.len() && s[k] == h;
        assert(s.push(x)[k] == h);
    }
    if x == h {
        assert(s.push(x)[s.len() as int] == h);
    }
    if s.push(x).contains(h) {
        let k = choose|k: int| 0 <= k < s.push(x).len() && s.push(x)[k] == h;
        if k < s.len() {
            assert(s[k] == h);
        }
    }
}

/// What plugins answer over HTTP/1 or HTTP/2 reaches the client with its status
/// and body, every header of theirs that can be sent and whose name the route
/// does not set, the route's headers, and the body's length.
pub proof fn law_plugin_answer_reaches_the_client(
    response: ResponseText,
    route: Seq<HeaderText>,
    h: HeaderText,
)
    ensures
        response.status < 100 || response.status > 999 ==> plugin_reply_of(response, route) is None,
        100 <= response.status && response.status <= 999 ==> (plugin_reply_of(
            response,
            route,
        ) matches Some(reply) && {
            &&& reply.head.status == response.status
            &&& reply.body == Some(response.body)
            &&& reply.head.headers.contains(h) <==> {
                ||| h == ("content-length"@, decimal_text(response.body.len()))
                ||| !same_ignoring_case(h.0, "content-length"@) && {
                    ||| exists|i: int| #[trigger] last_of_name(route, i) && route[i] == h
                    ||| sendable()(h) && response.headers.contains(h) && !sets_name(route, h.0)
                }
            }
        }),
{
    let none = Seq::<HeaderText>::empty();
    let theirs = all_appended(none, response.headers);
    law_appending(none, response.headers);
    assert(theirs =~= response.headers.filter(sendable()));
    lemma_filter_member(response.headers, sendable(), h);
    let both = all_inserted(theirs, route);
    law_setting(theirs, route, h);
    let length = ("content-length"@, decimal_text(response.body.len()));
    lemma_length_is_sendable(response.body.len());
    law_setting_one(both, length);
    lemma_filter_member(both, not_called("content-length"@), h);
    lemma_pushed(both.filter(not_called("content-length"@)), length, h);
}

/// What plugins answer over HTTP/3 reaches the client with its status, or 502
/// where that cannot be sent; with every header that can be sent, theirs before
/// the route's, names in lower case; the body's length in place of any given
/// one; and the body, where it is not empty. Where a plugin fails, the answer is
/// a bare 502.
pub proof fn law_http3_plugin_answer_reaches_the_client(
    response: ResponseText,
    route: Seq<HeaderText>,
)
    ensures
        http3::plugin_reply_text(None, route) == empty_reply(502),
        http3::plugin_reply_text(Some(response), route).head.status == if 100 <= response.status
            && response.status <= 999 {
            response.status
        } else {
            502
        },
        http3::plugin_reply_text(Some(response), route).head.headers == (response.headers
            + route).filter(sendable()).filter(not_called("content-length"@)).map_values(
            with_lower_name(),
        ).push(("content-length"@, decimal_text(response.body.len()))),
        response.body.len() > 0 ==> http3::plugin_reply_text(Some(response), route).body == Some(
            response.body,
        ),
        response.body.len() == 0 ==> http3::plugin_reply_text(Some(response), route).body is None,
{
    lemma_empty_reply(502);
    law_response_head(response.status, response.headers + route, Some(response.body.len()));
}

/// The path and query of a request as they came; a slash where it gives none.
pub open spec fn whole_target(request: InboundText) -> Seq<char> {
    if request.target is Some {
        request.target->0
    } else {
        seq!['/']
    }
}

/// The whole target is what plugins, the cache and the origin see of the path
/// and query.
pub proof fn law_target_is_whole(request: InboundText)
    ensures
        full_target(request) == whole_target(request),
{
    reveal_strlit("/");
    assert("/"@ =~= seq!['/']);
}

/// What plugins get of a request over HTTP/1 or HTTP/2: its method, its path
/// and query as they came, its headers with text and those that the route sets
/// behind; no body and no address yet.
pub proof fn law_plugins_get_the_request(
    request: InboundText,
    route: RouteText,
    target: EndpointText,
)
    ensures
        h1_plugin_call(request, route, target).route_id == route.id,
        h1_plugin_call(request, route, target).target == target,
        h1_plugin_call(request, route, target).response_headers == route.response_headers,
        h1_plugin_call(request, route, target).request.method == request.method,
        h1_plugin_call(request, route, target).request.path == whole_target(request),
        h1_plugin_call(request, route, target).request.headers == request.headers.filter(
            has_text(),
        ).map_values(crate::laws::headers::as_pair()) + route.request_headers,
        h1_plugin_call(request, route, target).request.body.len() == 0,
        h1_plugin_call(request, route, target).request.client_ip.len() == 0,
        field_text(request.headers, "host"@) matches Some(host) ==> h1_plugin_call(
            request,
            route,
            target,
        ).host == host,
        field_text(request.headers, "host"@) is None ==> h1_plugin_call(
            request,
            route,
            target,
        ).host.len() == 0,
{
    law_target_is_whole(request);
    law_text_fields_are_kept(request.headers);
}

/// What plugins get of a request over HTTP/3: as over HTTP/1, with the host of
/// the request's target, and a mark where it came as early data.
pub proof fn law_http3_plugins_get_the_request(
    request: InboundText,
    host: Option<Seq<char>>,
    is_early: bool,
    route: RouteText,
    target: EndpointText,
)
    ensures
        plugin_call(request, host, is_early, route, target).route_id == route.id,
        plugin_call(request, host, is_early, route, target).target == target,
        plugin_call(request, host, is_early, route, target).response_headers
            == route.response_headers,
        plugin_call(request, host, is_early, route, target).request.method == request.method,
        plugin_call(request, host, is_early, route, target).request.path == whole_target(request),
        !is_early ==> plugin_call(request, host, is_early, route, target).request.headers
            == request.headers.filter(has_text()).map_values(crate::laws::headers::as_pair())
            + route.request_headers,
        is_early ==> plugin_call(request, host, is_early, route, target).request.headers
            == request.headers.filter(has_text()).map_values(crate::laws::headers::as_pair())
            + route.request_headers + seq![("early-data"@, "1"@)],
        plugin_call(request, host, is_early, route, target).request.body.len() == 0,
        plugin_call(request, host, is_early, route, target).request.client_ip.len() == 0,
        host matches Some(h) ==> plugin_call(request, host, is_early, route, target).host == h,
        host is None ==> plugin_call(request, host, is_early, route, target).host.len() == 0,
{
    law_target_is_whole(request);
    law_text_fields_are_kept(request.headers);
    let c = plugin_call(request, host, is_early, route, target);
    if !is_early {
        assert(c.request.headers =~= request.headers.filter(has_text()).map_values(
            crate::laws::headers::as_pair(),
        ) + route.request_headers);
    }
}

/// Plugins are called for a request over HTTP/1 or HTTP/2 exactly where its
/// route has a chain and a target, and the body is not declared larger than
/// they can take; they may pass it on to the target whose turn it is.
pub proof fn law_plugins_are_called<P>(
    request: InboundText,
    routes: Seq<RouteText>,
    plugins: &Plugins<P>,
    i: int,
)
    requires
        route_for(routes, host_of(request.headers), request.path) == Some(i),
        0 <= i < routes.len(),
    ensures
        plugin_route::<P>(request, routes, None) is None,
        plugin_ask::<P>(request, routes, None) is None,
        plugin_route(request, routes, Some(plugins)) == if has_chain(
            plugins@,
            routes[i].id as int,
        ) {
            Some(i)
        } else {
            None
        },
        plugin_ask(request, routes, Some(plugins)) is Some <==> {
            &&& has_chain(plugins@, routes[i].id as int)
            &&& routes[i].targets.len() > 0
            &&& declared_length(request.headers) matches Some(n) ==> n <= plugins.cap()
        },
        plugin_ask(request, routes, Some(plugins)) matches Some(call) ==> call == h1_plugin_call(
            request,
            routes[i],
            turn_of(routes[i]),
        ),
{
    lemma_turn(routes, i);
}

/// The first step of a request over HTTP/3. Where the client is permitted and
/// the request can be repeated safely or came after the handshake, its route
/// decides: a directory serves the file below its root, plugins handle it where
/// they can, and otherwise it is proxied.
pub proof fn law_first_step<P>(
    request: InboundText,
    host: Option<Seq<char>>,
    is_early: bool,
    routes: Seq<RouteText>,
    plugins: &Plugins<P>,
    i: int,
    out: Seq<char>,
)
    requires
        is_early ==> safe_method(request.method),
        route_for(routes, host, request.path) == Some(i),
        0 <= i < routes.len(),
        goes_out_as(routes[i], request.path, out),
    ensures
        routes[i].static_root matches Some(root) ==> opening(
            request,
            host,
            true,
            is_early,
            routes,
            Some(plugins),
        ) == (OpeningText::Static { root, relative: out }),
        routes[i].static_root is None ==> {
            let takes = has_chain(plugins@, routes[i].id as int) && (declared_length(
                request.headers,
            ) matches Some(n) ==> n <= plugins.cap());
            &&& takes && routes[i].targets.len() > 0 ==> opening(
                request,
                host,
                true,
                is_early,
                routes,
                Some(plugins),
            ) == OpeningText::Plugins(
                plugin_call(request, host, is_early, routes[i], turn_of(routes[i])),
            )
            &&& takes && routes[i].targets.len() == 0 ==> opening(
                request,
                host,
                true,
                is_early,
                routes,
                Some(plugins),
            ) == OpeningText::Answer(empty_reply(404))
            &&& !takes ==> opening(request, host, true, is_early, routes, Some(plugins))
                == (OpeningText::Proxy { route: Some(i) })
            &&& opening::<P>(request, host, true, is_early, routes, None)
                == (OpeningText::Proxy { route: Some(i) })
        },
{
    lemma_turn(routes, i);
    lemma_routed(routes[i], request.path, out);
    lemma_empty_reply(404);
}

/// Without a route a request that is not refused goes on to be proxied, with
/// no route.
pub proof fn law_first_step_without_a_route<P>(
    request: InboundText,
    host: Option<Seq<char>>,
    is_early: bool,
    routes: Seq<RouteText>,
    plugins: Option<&Plugins<P>>,
)
    requires
        is_early ==> safe_method(request.method),
        route_for(routes, host, request.path) is None,
    ensures
        opening(request, host, true, is_early, routes, plugins) == (OpeningText::Proxy {
            route: None,
        }),
{
}

/// A request is safe to repeat exactly where its method only reads.
pub proof fn law_safe_methods(method: Seq<char>)
    ensures
        safe_method(method) <==> seq!["GET"@, "HEAD"@, "OPTIONS"@, "TRACE"@].contains(method),
{
    let safe = seq!["GET"@, "HEAD"@, "OPTIONS"@, "TRACE"@];
    if method == "GET"@ {
        assert(safe[0] == method);
    } else if method == "HEAD"@ {
        assert(safe[1] == method);
    } else if method == "OPTIONS"@ {
        assert(safe[2] == method);
    } else if method == "TRACE"@ {
        assert(safe[3] == method);
    }
}

/// What is buffered for plugins goes on being buffered up to what they can take,
/// that size included; beyond it they are left out, and beyond what any request
/// may have it is refused.
pub proof fn law_body_is_taken_in(len: nat, cap: u64, max: u64)
    ensures
        len <= cap ==> intake(len, cap, None) == Intake::Buffer,
        len > cap ==> intake(len, cap, None) == Intake::Bypass,
        len > max ==> intake(len, cap, Some(max)) == Intake::Refuse,
        len <= max && len <= cap ==> intake(len, cap, Some(max)) == Intake::Buffer,
        len <= max && len > cap ==> intake(len, cap, Some(max)) == Intake::Bypass,
        !over_limit(len, None),
        over_limit(len, Some(max)) <==> len > max,
{
}

/// The count of body bytes never goes down, adds up, and stays at the largest
/// count once it would exceed it.
pub proof fn law_body_bytes_add_up(seen: u64, a: nat, b: nat)
    ensures
        seen_after(seen, a) == if seen + a <= 0xffff_ffff_ffff_ffff {
            seen + a
        } else {
            0xffff_ffff_ffff_ffff
        },
        seen <= seen_after(seen, a) <= 0xffff_ffff_ffff_ffff,
        seen_after(seen_after(seen, a) as u64, b) == seen_after(seen, a + b),
{
}

/// A body of a request that is being forwarded fails it with 413 exactly once
/// more has come than a request may have; without a limit it never does.
pub proof fn law_forwarded_body_is_limited(seen: u64, len: nat, max: u64)
    ensures
        seen + len <= max ==> counted_chunk(seen, len, Some(max)) == (
            seen + len,
            None::<FailKind>,
        ),
        seen + len > max ==> (counted_chunk(seen, len, Some(max)).0 > max || max
            == 0xffff_ffff_ffff_ffff),
        seen + len > max && max < 0xffff_ffff_ffff_ffff ==> counted_chunk(seen, len, Some(max)).1
            == Some(FailKind::Status(413)),
        counted_chunk(seen, len, None).1 is None,
{
}

/// A file is answered 200 with its media type, its length and its bytes.
pub proof fn law_file_is_answered(mime: Seq<char>, body: Seq<u8>)
    ensures
        file_reply(mime, body).head.status == 200,
        file_reply(mime, body).head.headers.len() == 2,
        file_reply(mime, body).head.headers[0] == ("content-type"@, mime),
        file_reply(mime, body).head.headers[1] == ("content-length"@, decimal_text(body.len())),
        file_reply(mime, body).body == Some(body),
{
}

/// A failure is answered with the status that was asked for; with 504 where time
/// ran out; with 502 where the upstream failed and 500 where the proxy did; and
/// with 400, or not at all where the connection is gone, where the client did.
pub proof fn law_failure_is_answered(code: u16, source: FailSource)
    ensures
        failure_status(FailKind::Status(code), source) == code,
        failure_status(FailKind::TimedOut, source) == 504,
        failure_status(FailKind::Disconnected, FailSource::Upstream) == 502,
        failure_status(FailKind::Other, FailSource::Upstream) == 502,
        failure_status(FailKind::Disconnected, FailSource::Downstream) == 0,
        failure_status(FailKind::Other, FailSource::Downstream) == 400,
        failure_status(FailKind::Disconnected, FailSource::Internal) == 500,
        failure_status(FailKind::Other, FailSource::Internal) == 500,
{
}

/// A request is logged as five entries with a space between them: its method,
/// host, path and status, and how long it took; a dash stands for no host.
pub proof fn law_log_line(
    method: Seq<char>,
    host: Seq<char>,
    path: Seq<char>,
    status: u16,
    duration_ms: u64,
)
    ensures
        log_text(method, Some(host), path, status, duration_ms) == joined(
            seq![
                "method="@ + method,
                "host="@ + host,
                "path="@ + path,
                "status="@ + decimal_text(status as nat),
                "dur_ms="@ + decimal_text(duration_ms as nat),
            ],
            ' ',
        ),
        log_text(method, None, path, status, duration_ms) == log_text(
            method,
            Some(seq!['-']),
            path,
            status,
            duration_ms,
        ),
{
    reveal_strlit(" host=");
    reveal_strlit("host=");
    reveal_strlit(" path=");
    reveal_strlit("path=");
    reveal_strlit(" status=");
    reveal_strlit("status=");
    reveal_strlit(" dur_ms=");
    reveal_strlit("dur_ms=");
    reveal_strlit("-");
    assert("-"@ =~= seq!['-']);
    assert(" host="@ =~= seq![' '] + "host="@);
    assert(" path="@ =~= seq![' '] + "path="@);
    assert(" status="@ =~= seq![' '] + "status="@);
    assert(" dur_ms="@ =~= seq![' '] + "dur_ms="@);
    let e1 = "method="@ + method;
    let e2 = "host="@ + host;
    let e3 = "path="@ + path;
    let e4 = "status="@ + decimal_text(status as nat);
    let e5 = "dur_ms="@ + decimal_text(duration_ms as nat);
    let all = seq![e1, e2, e3, e4, e5];
    assert(all.drop_last() =~= seq![e1, e2, e3, e4]);
    assert(seq![e1, e2, e3, e4].drop_last() =~= seq![e1, e2, e3]);
    assert(seq![e1, e2, e3].drop_last() =~= seq![e1, e2]);
    assert(seq![e1, e2].drop_last() =~= seq![e1]);
    reveal_with_fuel(joined, 6);
    assert(log_text(method, Some(host), path, status, duration_ms) =~= joined(all, ' '));
}

} // verus!
