//! Which route a request gets, what path it is forwarded with, and which target
//! takes it.
use crate::router::{accepts, after_pick, counter_after, pick_target, picked, rewritten, RouteText};
use crate::text::{lower_char, lowered, same_ignoring_case, starts, without_trailing};
use vstd::prelude::*;

verus! {

/// Whether two characters are the same, up to the case of an ASCII letter.
pub open spec fn same_letter(x: char, y: char) -> bool {
    ||| x == y
    ||| 'a' <= x <= 'z' && y as u32 + 32 == x as u32
    ||| 'a' <= y <= 'z' && x as u32 + 32 == y as u32
}

/// Texts that are equal up to case are as long as each other, and agree in
/// every place up to the case of a letter.
pub proof fn law_case_alone_is_ignored(a: Seq<char>, b: Seq<char>)
    ensures
        same_ignoring_case(a, b) <==> a.len() == b.len() && forall|i: int|
            0 <= i < a.len() ==> same_letter(#[trigger] a[i], b[i]),
{
    if same_ignoring_case(a, b) {
        assert(lowered(a).len() == a.len() && lowered(b).len() == b.len());
        assert forall|i: int| 0 <= i < a.len() implies same_letter(#[trigger] a[i], b[i]) by {
            assert(lowered(a)[i] == lower_char(a[i]));
            assert(lowered(b)[i] == lower_char(b[i]));
            lemma_letters(a[i], b[i]);
        }
    }
    if a.len() == b.len() && forall|i: int|
        0 <= i < a.len() ==> same_letter(#[trigger] a[i], b[i]) {
        assert forall|i: int| 0 <= i < a.len() implies lowered(a)[i] == lowered(b)[i] by {
            assert(same_letter(a[i], b[i]));
            lemma_letters(a[i], b[i]);
        }
        assert(lowered(a) =~= lowered(b));
    }
}

proof fn lemma_letters(x: char, y: char)
    ensures
        lower_char(x) == lower_char(y) <==> same_letter(x, y),
{
}

/// Whether a configured prefix is `stem` and slashes behind it.
pub open spec fn is_stem(prefix: Seq<char>, stem: Seq<char>) -> bool {
    &&& stem.len() <= prefix.len()
    &&& prefix.take(stem.len() as int) == stem
    &&& forall|i: int| stem.len() <= i < prefix.len() ==> #[trigger] prefix[i] == '/'
    &&& stem.len() > 0 ==> stem[stem.len() - 1] != '/'
}

proof fn lemma_stem(prefix: Seq<char>, stem: Seq<char>)
    requires
        is_stem(prefix, stem),
    ensures
        without_trailing(prefix, '/') == stem,
    decreases prefix.len(),
{
    if prefix.len() > stem.len() {
        assert(prefix[prefix.len() - 1] == '/');
        let front = prefix.drop_last();
        assert(front.take(stem.len() as int) =~= stem);
        assert forall|i: int| stem.len() <= i < front.len() implies #[trigger] front[i] == '/' by {
            assert(prefix[i] == '/');
        }
        lemma_stem(front, stem);
    } else {
        assert(prefix =~= stem);
    }
}

/// Whether a path is the stem of a prefix or lies below it.
pub open spec fn lies_under(path: Seq<char>, stem: Seq<char>) -> bool {
    &&& stem.len() <= path.len()
    &&& forall|i: int| 0 <= i < stem.len() ==> #[trigger] path[i] == stem[i]
    &&& stem.len() == 0 || path.len() == stem.len() || path[stem.len() as int] == '/'
}

/// A route accepts a request exactly where its host, if it has one, is the
/// request's up to case, and its path prefix, if it has one, ends at a segment
/// of the request's path.
pub proof fn law_route_accepts(
    route: RouteText,
    host: Option<Seq<char>>,
    path: Seq<char>,
    stem: Seq<char>,
)
    requires
        route.path_prefix matches Some(prefix) ==> is_stem(prefix, stem),
    ensures
        accepts(route, host, path) <==> {
            &&& route.host matches Some(wanted) ==> {
                &&& host matches Some(given)
                &&& given.len() == wanted.len()
                &&& forall|i: int|
                    0 <= i < given.len() ==> same_letter(#[trigger] given[i], wanted[i])
            }
            &&& route.path_prefix is Some ==> lies_under(path, stem)
        },
{
    if let (Some(wanted), Some(given)) = (route.host, host) {
        law_case_alone_is_ignored(given, wanted);
    }
    if let Some(prefix) = route.path_prefix {
        lemma_stem(prefix, stem);
        let n = stem.len() as int;
        if lies_under(path, stem) && n > 0 {
            if path.len() == n {
                assert(path =~= stem);
            } else {
                assert(path.take(n + 1) =~= stem.push('/'));
                assert(starts(path, stem.push('/')));
            }
        }
        if starts(path, stem.push('/')) {
            let front = path.take(n + 1);
            assert forall|i: int| 0 <= i < n implies #[trigger] path[i] == stem[i] by {
                assert(front[i] == path[i]);
            }
            assert(front[n] == path[n]);
        }
    }
}

/// Where a route strips its prefix, the stem and the path that is forwarded
/// make the request's path again; the stem alone is forwarded as `/`.
pub proof fn law_stripped_path(
    route: RouteText,
    prefix: Seq<char>,
    stem: Seq<char>,
    rest: Seq<char>,
)
    requires
        route.strip_prefix,
        route.path_prefix == Some(prefix),
        is_stem(prefix, stem),
    ensures
        rest.len() > 0 ==> rewritten(route, stem + rest) == Some(rest),
        rewritten(route, stem) == Some(seq!['/']),
{
    lemma_stem(prefix, stem);
    assert((stem + rest).take(stem.len() as int) =~= stem);
    assert((stem + rest).skip(stem.len() as int) =~= rest);
    assert(stem.take(stem.len() as int) =~= stem);
    assert(stem.skip(stem.len() as int) =~= Seq::<char>::empty());
}

/// A route that does not strip, or has no prefix to strip, forwards the path as
/// it came.
pub proof fn law_unstripped_path(route: RouteText, path: Seq<char>)
    ensures
        rewritten(route, path) is None <==> !route.strip_prefix || route.path_prefix is None,
{
}

/// Two requests that a stripping route forwards by the same path asked for the
/// same path, or one of them for the prefix itself and the other for the slash
/// behind it.
pub proof fn law_stripping_loses_nothing(
    route: RouteText,
    prefix: Seq<char>,
    stem: Seq<char>,
    a: Seq<char>,
    b: Seq<char>,
)
    requires
        route.strip_prefix,
        route.path_prefix == Some(prefix),
        is_stem(prefix, stem),
        rewritten(route, stem + a) == rewritten(route, stem + b),
    ensures
        a == b || (a.len() == 0 && b == seq!['/']) || (b.len() == 0 && a == seq!['/']),
{
    law_stripped_path(route, prefix, stem, a);
    law_stripped_path(route, prefix, stem, b);
    assert(stem + Seq::<char>::empty() =~= stem);
    if a.len() == 0 {
        assert(a =~= Seq::empty());
    }
    if b.len() == 0 {
        assert(b =~= Seq::empty());
    }
}

/// A pick at a route takes one of its targets, as that was configured, and moves
/// nothing but that route's own counter.
pub proof fn law_pick_takes_a_configured_target(routes: Seq<RouteText>, i: int)
    requires
        0 <= i < routes.len(),
    ensures
        pick_target(routes, Some(i)) is None <==> routes[i].targets.len() == 0,
        pick_target(routes, Some(i)) matches Some(endpoint) ==> {
            let j = picked(routes[i].targets, routes[i].next);
            &&& 0 <= j < routes[i].targets.len()
            &&& endpoint.address == routes[i].targets[j].address
            &&& endpoint.tls == routes[i].targets[j].tls
            &&& endpoint.sni == routes[i].targets[j].sni
            &&& endpoint.h2 == routes[i].targets[j].h2
        },
        pick_target(routes, None) is None,
        after_pick(routes, None) == routes,
        after_pick(routes, Some(i)).len() == routes.len(),
        forall|k: int|
            0 <= k < routes.len() && k != i ==> #[trigger] after_pick(routes, Some(i))[k]
                == routes[k],
        after_pick(routes, Some(i))[i] == (RouteText {
            next: if routes[i].targets.len() == 0 {
                routes[i].next
            } else {
                counter_after(routes[i].targets, routes[i].next)
            },
            ..routes[i]
        }),
{
    if routes[i].targets.len() > 0 {
        crate::router::law_pick_is_a_target(routes[i].targets, routes[i].next);
    }
}

} // verus!
