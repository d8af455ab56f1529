//! What is sent upstream for a request that arrived over HTTP/3.
use crate::headers::HeaderText;
use crate::http3::{forwarded, forwarding, not_host_places, ForwardingText};
use crate::laws::routing::{is_stem, law_stripped_path, law_unstripped_path};
use crate::message::{declared_length, FieldText, InboundText};
use crate::relay::ReplyText;
use crate::router::{pick_target, picked, EndpointText, RouteText};
use crate::upstream::{conditional_request, plain_request};
use vstd::prelude::*;

verus! {

/// Whether `out` is the path that a route forwards for `path`: the path itself
/// where nothing is stripped; otherwise what follows the prefix, or `/` where
/// nothing does.
pub open spec fn goes_out_as(route: RouteText, path: Seq<char>, out: Seq<char>) -> bool {
    if route.strip_prefix && route.path_prefix is Some {
        exists|stem: Seq<char>|
            {
                &&& #[trigger] is_stem(route.path_prefix->0, stem)
                &&& (path == stem + out && out.len() > 0) || (path == stem && out == seq!['/'])
            }
    } else {
        out == path
    }
}

/// Whether a URI leads to the target, over TLS or not as it is configured, with
/// the path, and the query where there is one.
pub open spec fn leads_to(
    uri: Seq<char>,
    target: EndpointText,
    path: Seq<char>,
    query: Option<Seq<char>>,
) -> bool {
    let front = if target.tls {
        "https://"@
    } else {
        "http://"@
    };
    match query {
        Some(q) => uri == front + target.address + path + seq!['?'] + q,
        None => uri == front + target.address + path,
    }
}

/// Every request that is sent upstream keeps its method, and goes to the target
/// with the routed path and with its query, whether or not the route strips its
/// prefix.
pub proof fn law_request_keeps_method_path_and_query(
    request: InboundText,
    is_early: bool,
    route: RouteText,
    target: EndpointText,
    out: Seq<char>,
)
    requires
        goes_out_as(route, request.path, out),
    ensures
        forwarded(request, is_early, route, target).method == request.method,
        leads_to(forwarded(request, is_early, route, target).uri, target, out, request.query),
{
    law_unstripped_path(route, request.path);
    if route.strip_prefix && route.path_prefix is Some {
        let prefix = route.path_prefix->0;
        let stem = choose|stem: Seq<char>|
            {
                &&& #[trigger] is_stem(prefix, stem)
                &&& (request.path == stem + out && out.len() > 0) || (request.path == stem && out
                    == seq!['/'])
            };
        law_stripped_path(route, prefix, stem, out);
        if request.path == stem && out == seq!['/'] {
            assert(crate::router::rewritten(route, request.path) == Some(out));
        }
    }
    let uri = forwarded(request, is_early, route, target).uri;
    let front = if target.tls {
        "https://"@
    } else {
        "http://"@
    };
    match request.query {
        Some(q) => {
            assert(uri =~= front + target.address + out + seq!['?'] + q);
        },
        None => {
            assert(uri =~= front + target.address + out);
        },
    }
}

/// The URI of a request with a query ends in `?` and the query; two requests
/// that differ in their query alone go to different URIs.
pub proof fn law_query_reaches_the_upstream(
    request: InboundText,
    other: InboundText,
    is_early: bool,
    route: RouteText,
    target: EndpointText,
    out: Seq<char>,
    q: Seq<char>,
)
    requires
        goes_out_as(route, request.path, out),
        request.query == Some(q),
        other == (InboundText { query: other.query, ..request }),
    ensures
        forwarded(request, is_early, route, target).uri.len() >= q.len() + 1,
        forwarded(request, is_early, route, target).uri.skip(
            forwarded(request, is_early, route, target).uri.len() - q.len() - 1,
        ) == seq!['?'] + q,
        forwarded(request, is_early, route, target).uri == forwarded(
            other,
            is_early,
            route,
            target,
        ).uri ==> other.query == Some(q),
{
    law_request_keeps_method_path_and_query(request, is_early, route, target, out);
    law_request_keeps_method_path_and_query(other, is_early, route, target, out);
    let front = (if target.tls {
        "https://"@
    } else {
        "http://"@
    }) + target.address + out;
    let uri = forwarded(request, is_early, route, target).uri;
    assert(uri =~= front + (seq!['?'] + q));
    assert(uri.skip(front.len() as int) =~= seq!['?'] + q);
    if let Some(p) = other.query {
        let theirs = forwarded(other, is_early, route, target).uri;
        assert(theirs =~= front + (seq!['?'] + p));
        if uri == theirs {
            assert(p =~= theirs.skip((front.len() + 1) as int));
            assert(q =~= uri.skip((front.len() + 1) as int));
        }
    } else {
        let theirs = forwarded(other, is_early, route, target).uri;
        assert(theirs.len() == front.len());
    }
}

/// The client's headers go along, in order, but for the host; then those that
/// the route sets; and a mark where the request came as early data.
pub proof fn law_request_headers_go_along(
    request: InboundText,
    is_early: bool,
    route: RouteText,
    target: EndpointText,
)
    ensures
        forall|j: int|
            #[trigger] forwarded(request, is_early, route, target).copied.contains(j) <==> 0 <= j
                < request.headers.len() && request.headers[j].0 != "host"@,
        forall|a: int, b: int|
            0 <= a < b < forwarded(request, is_early, route, target).copied.len() ==> (
            #[trigger] forwarded(request, is_early, route, target).copied[a]) < (
            #[trigger] forwarded(request, is_early, route, target).copied[b]),
        !is_early ==> forwarded(request, is_early, route, target).added == route.request_headers,
        is_early ==> forwarded(request, is_early, route, target).added
            == route.request_headers.push(("early-data"@, "1"@)),
{
    let f = forwarded(request, is_early, route, target);
    lemma_places(request.headers);
    if is_early {
        assert(f.added =~= route.request_headers.push(("early-data"@, "1"@)));
    } else {
        assert(f.added =~= route.request_headers);
    }
}

proof fn lemma_places(h: Seq<FieldText>)
    ensures
        forall|j: int|
            #[trigger] not_host_places(h).contains(j) <==> 0 <= j < h.len() && h[j].0 != "host"@,
        forall|a: int, b: int|
            0 <= a < b < not_host_places(h).len() ==> (#[trigger] not_host_places(h)[a]) < (
            #[trigger] not_host_places(h)[b]),
    decreases h.len(),
{
    if h.len() > 0 {
        let front = h.drop_last();
        let before = not_host_places(front);
        let all = not_host_places(h);
        lemma_places(front);
        assert forall|j: int| #[trigger] all.contains(j) <==> 0 <= j < h.len() && h[j].0
            != "host"@ by {
            assert(before.contains(j) <==> 0 <= j < front.len() && front[j].0 != "host"@);
            if before.contains(j) {
                let k = choose|k: int| 0 <= k < before.len() && before[k] == j;
                assert(all[k] == j);
            }
            if j == h.len() - 1 && h[j].0 != "host"@ {
                assert(all[all.len() - 1] == j);
            }
            if all.contains(j) {
                let k = choose|k: int| 0 <= k < all.len() && all[k] == j;
                if k < before.len() {
                    assert(before[k] == j);
                }
            }
        }
        assert forall|a: int, b: int| 0 <= a < b < all.len() implies (#[trigger] all[a]) < (
        #[trigger] all[b]) by {
            if b < before.len() {
                assert(before[a] < before[b]);
            } else {
                assert(before.contains(before[a]));
            }
        }
    }
}

/// A request is sent upstream exactly where its route has a target and it does
/// not declare a body over the limit; without a target it gets 404, and with
/// such a body 413, each without headers or body. It goes to the target whose
/// turn it is.
pub proof fn law_request_is_sent_or_refused(
    request: InboundText,
    is_early: bool,
    routes: Seq<RouteText>,
    i: int,
    max_body: Option<u64>,
)
    requires
        0 <= i < routes.len(),
    ensures
        forwarding(request, is_early, routes, None, max_body) == ForwardingText::Answer(
            empty_reply(404),
        ),
        routes[i].targets.len() == 0 ==> forwarding(request, is_early, routes, Some(i), max_body)
            == ForwardingText::Answer(empty_reply(404)),
        routes[i].targets.len() > 0 ==> {
            let oversized = max_body matches Some(m) && (declared_length(
                request.headers,
            ) matches Some(n) && n > m);
            let target = routes[i].targets[picked(routes[i].targets, routes[i].next)];
            &&& oversized ==> forwarding(request, is_early, routes, Some(i), max_body)
                == ForwardingText::Answer(empty_reply(413))
            &&& !oversized ==> forwarding(request, is_early, routes, Some(i), max_body)
                == ForwardingText::Send(
                forwarded(
                    request,
                    is_early,
                    routes[i],
                    (EndpointText {
                        address: target.address,
                        tls: target.tls,
                        sni: target.sni,
                        h2: target.h2,
                    }),
                ),
            )
        },
{
    lemma_empty_reply(404);
    lemma_empty_reply(413);
    crate::laws::routing::law_pick_takes_a_configured_target(routes, i);
    if let Some(e) = pick_target(routes, Some(i)) {
        let target = routes[i].targets[picked(routes[i].targets, routes[i].next)];
        assert(e =~= EndpointText {
            address: target.address,
            tls: target.tls,
            sni: target.sni,
            h2: target.h2,
        });
    }
}

/// A response of a status alone.
pub open spec fn empty_reply(status: u16) -> ReplyText {
    ReplyText {
        head: crate::message::HeadText { status, headers: Seq::empty() },
        body: None,
    }
}

/// A bare response has its status and nothing else.
pub proof fn lemma_empty_reply(status: u16)
    ensures
        crate::relay::bare(status) == empty_reply(status),
{
    assert(crate::relay::bare(status).head.headers =~= Seq::<HeaderText>::empty());
}

/// The origin is asked about a stale entry with a `GET` of the same path and
/// query at the target, for the same host, naming the entry's tag.
pub proof fn law_origin_is_asked_about_the_entry(
    target: EndpointText,
    path_and_query: Seq<char>,
    host: Seq<char>,
    etag: Seq<char>,
)
    ensures
        conditional_request(target, path_and_query, host, etag).method == "GET"@,
        leads_to(
            conditional_request(target, path_and_query, host, etag).uri,
            target,
            path_and_query,
            None,
        ),
        conditional_request(target, path_and_query, host, etag).headers == seq![
            ("host"@, host),
            ("if-none-match"@, etag),
        ],
{
}

/// Headers that are not called `Host`, up to case.
pub open spec fn not_the_host() -> spec_fn(HeaderText) -> bool {
    |h: HeaderText| !crate::text::same_ignoring_case(h.0, "host"@)
}

/// What plugins pass on goes to the target with its method, path and query; the
/// host is the client's, whatever a plugin says, and every other header goes
/// along in order.
pub proof fn law_plugin_request_goes_along(
    target: EndpointText,
    method: Seq<char>,
    path_and_query: Seq<char>,
    host: Seq<char>,
    headers: Seq<HeaderText>,
)
    ensures
        plain_request(target, method, path_and_query, host, headers).method == method,
        leads_to(
            plain_request(target, method, path_and_query, host, headers).uri,
            target,
            path_and_query,
            None,
        ),
        plain_request(target, method, path_and_query, host, headers).headers == seq![
            ("host"@, host),
        ] + headers.filter(not_the_host()),
{
    lemma_not_host(headers);
}

proof fn lemma_not_host(headers: Seq<HeaderText>)
    ensures
        crate::upstream::not_host(headers) == headers.filter(not_the_host()),
    decreases headers.len(),
{
    reveal(Seq::filter);
    if headers.len() > 0 {
        lemma_not_host(headers.drop_last());
    } else {
        assert(crate::upstream::not_host(headers) =~= headers);
    }
}

} // verus!
