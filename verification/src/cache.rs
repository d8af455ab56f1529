//! A small, conservative response cache.
//!
//! Only plainly safe responses are cached: `GET` requests without
//! `Authorization`, `200` responses with an explicit `Cache-Control:
//! max-age=N` (N > 0) that are not `private`, `no-store` or `no-cache` and set
//! no cookies. `Vary` is honoured for `Accept-Encoding`, which is part of the
//! key; a response that varies on anything else is not cached.
use crate::encoding::{quality, quality_text};
use crate::headers::{copy_pairs, find_value, first_value, pairs, HeaderText};
use crate::numeral::{numeral, parse_u64};
use crate::order::{
    ascending, join, joined, lemma_join_split, lemma_one_piece, lemma_piece_added,
    lemma_pieces_hold_no_separator, lemma_sorted_distinct, lemma_sorted_exists, lemma_sorted_same,
    same_members, sort_distinct, sorted_distinct,
};
use crate::text::{
    before, chars_of, eq, eq_ignore_case, head, is_space, is_text, lemma_head, lemma_head_within,
    lemma_lowered_within, lemma_trimmed_within, lower_char, lowercase, lowered, maybe, pieces,
    same, same_ignoring_case, split, starts, string_of, strip_prefix, trim, trimmed, trimmed_end,
    trimmed_start, views,
};
use vstd::prelude::*;

verus! {

/// The name of one `Cache-Control` directive: what stands before its `=`.
pub open spec fn directive_name(part: Seq<char>) -> Seq<char> {
    trimmed(head(trimmed(part), '='))
}

/// Whether one of the directives is called `name`.
pub open spec fn some_directive(parts: Seq<Seq<char>>, name: Seq<char>) -> bool {
    exists|i: int| 0 <= i < parts.len() && directive_name(#[trigger] parts[i]) == name
}

/// Whether a `Cache-Control` value lists the directive called `name`.
pub open spec fn lists_directive(cache_control: Option<Seq<char>>, name: Seq<char>) -> bool {
    match cache_control {
        Some(value) => some_directive(pieces(value, ','), name),
        None => false,
    }
}

/// The seconds that one directive gives as `max-age=N`.
pub open spec fn max_age_part(part: Seq<char>) -> Option<nat> {
    let t = trimmed(part);
    if starts(t, "max-age="@) {
        numeral(trimmed(t.skip("max-age="@.len() as int)), u64::MAX as nat)
    } else {
        None
    }
}

/// The first `max-age` among the directives that reads as a number.
pub open spec fn first_max_age(parts: Seq<Seq<char>>) -> Option<nat>
    decreases parts.len(),
{
    if parts.len() == 0 {
        None
    } else {
        match max_age_part(parts[0]) {
            Some(n) => Some(n),
            None => first_max_age(parts.skip(1)),
        }
    }
}

/// Whether every item of a list is `Accept-Encoding`.
pub open spec fn only_accept_encoding(parts: Seq<Seq<char>>) -> bool {
    forall|i: int|
        0 <= i < parts.len() ==> same_ignoring_case(
            trimmed(#[trigger] parts[i]),
            "accept-encoding"@,
        )
}

/// Whether a response with this `Vary` may be cached: it varies on nothing, or
/// on `Accept-Encoding` alone.
pub open spec fn vary_allows(vary: Option<Seq<char>>) -> bool {
    match vary {
        Some(value) => trimmed(value) != "*"@ && only_accept_encoding(
            pieces(trimmed(value), ','),
        ),
        None => true,
    }
}

/// Whether a request may be served from, and stored in, the cache.
pub open spec fn cacheable_request(
    method: Seq<char>,
    cache_control: Option<Seq<char>>,
    has_authorization: bool,
) -> bool {
    &&& method == "GET"@
    &&& !has_authorization
    &&& !lists_directive(cache_control, "no-store"@)
    &&& !lists_directive(cache_control, "no-cache"@)
}

/// The seconds that a response may be cached for; none where it may not be.
pub open spec fn ttl(
    status: u16,
    cache_control: Option<Seq<char>>,
    has_set_cookie: bool,
    vary: Option<Seq<char>>,
) -> Option<nat> {
    if status != 200 || has_set_cookie || !vary_allows(vary) || lists_directive(
        cache_control,
        "no-store"@,
    ) || lists_directive(cache_control, "no-cache"@) || lists_directive(
        cache_control,
        "private"@,
    ) {
        None
    } else {
        match cache_control {
            Some(value) => match first_max_age(pieces(value, ',')) {
                Some(n) => if n > 0 {
                    Some(n)
                } else {
                    None
                },
                None => None,
            },
            None => None,
        }
    }
}

/// Whether a `Cache-Control` value lists the bare directive.
pub fn has_directive(cache_control: Option<&str>, directive: &str) -> (r: bool)
    ensures
        r == lists_directive(maybe(cache_control), directive@),
{
    match cache_control {
        Some(value) => {
            let chars = chars_of(value);
            let parts = split(chars.as_slice(), ',');
            let ghost ps = pieces(value@, ',');
            let mut i: usize = 0;
            while i < parts.len()
                invariant
                    i <= parts.len(),
                    cache_control == Some(value),
                    views(parts@) == ps,
                    ps == pieces(value@, ','),
                    forall|j: int| 0 <= j < i ==> directive_name(#[trigger] ps[j]) != directive@,
                decreases parts.len() - i,
            {
                assert(ps[i as int] == parts@[i as int]@);
                if is_text(trim(before(trim(parts[i].as_slice()), '=')), directive) {
                    assert(directive_name(ps[i as int]) == directive@);
                    return true;
                }
                i = i + 1;
            }
            false
        },
        None => false,
    }
}

/// The first `max-age=N` of a `Cache-Control` value.
pub fn max_age(cache_control: &str) -> (r: Option<u64>)
    ensures
        match r {
            Some(n) => first_max_age(pieces(cache_control@, ',')) == Some(n as nat),
            None => first_max_age(pieces(cache_control@, ',')) is None,
        },
{
    let chars = chars_of(cache_control);
    let parts = split(chars.as_slice(), ',');
    let marker = chars_of("max-age=");
    let ghost ps = pieces(cache_control@, ',');
    let mut i: usize = 0;
    assert(ps.skip(0) =~= ps);
    while i < parts.len()
        invariant
            i <= parts.len(),
            views(parts@) == ps,
            ps == pieces(cache_control@, ','),
            marker@ == "max-age="@,
            first_max_age(ps) == first_max_age(ps.skip(i as int)),
        decreases parts.len() - i,
    {
        assert(ps[i as int] == parts@[i as int]@);
        assert(ps.skip(i as int).skip(1) =~= ps.skip(i + 1));
        let part = trim(parts[i].as_slice());
        match strip_prefix(part, marker.as_slice()) {
            Some(rest) => match parse_u64(trim(rest)) {
                Some(n) => {
                    assert(max_age_part(ps[i as int]) == Some(n as nat));
                    return Some(n);
                },
                None => {},
            },
            None => {},
        }
        assert(max_age_part(ps[i as int]) is None);
        i = i + 1;
    }
    None
}

/// Whether a response with this `Vary` may be cached.
pub fn vary_cacheable(vary: Option<&str>) -> (r: bool)
    ensures
        r == vary_allows(maybe(vary)),
{
    match vary {
        Some(value) => {
            let chars = chars_of(value);
            let trimmed_value = trim(chars.as_slice());
            if is_text(trimmed_value, "*") {
                return false;
            }
            let wanted = chars_of("accept-encoding");
            let parts = split(trimmed_value, ',');
            let ghost ps = pieces(trimmed(value@), ',');
            let mut i: usize = 0;
            while i < parts.len()
                invariant
                    i <= parts.len(),
                    vary == Some(value),
                    views(parts@) == ps,
                    ps == pieces(trimmed(value@), ','),
                    wanted@ == "accept-encoding"@,
                    forall|j: int|
                        0 <= j < i ==> same_ignoring_case(
                            trimmed(#[trigger] ps[j]),
                            "accept-encoding"@,
                        ),
                decreases parts.len() - i,
            {
                assert(ps[i as int] == parts@[i as int]@);
                if !eq_ignore_case(trim(parts[i].as_slice()), wanted.as_slice()) {
                    return false;
                }
                i = i + 1;
            }
            true
        },
        None => true,
    }
}

/// Whether a request may be served from, and stored in, the cache.
pub fn request_cacheable(
    method: &str,
    cache_control: Option<&str>,
    has_authorization: bool,
) -> (r: bool)
    ensures
        r == cacheable_request(method@, maybe(cache_control), has_authorization),
{
    same(method, "GET") && !has_authorization && !has_directive(cache_control, "no-store")
        && !has_directive(cache_control, "no-cache")
}

/// The seconds that a response may be cached for, if it is cacheable at all.
///
/// A response that varies on anything but `Accept-Encoding`, which the cache
/// keys on, is not cached, so the wrong variant is never served.
pub fn response_ttl(
    status: u16,
    cache_control: Option<&str>,
    has_set_cookie: bool,
    vary: Option<&str>,
) -> (r: Option<u64>)
    ensures
        match r {
            Some(n) => ttl(status, maybe(cache_control), has_set_cookie, maybe(vary)) == Some(
                n as nat,
            ),
            None => ttl(status, maybe(cache_control), has_set_cookie, maybe(vary)) is None,
        },
{
    if status != 200 || has_set_cookie || !vary_cacheable(vary) {
        return None;
    }
    if has_directive(cache_control, "no-store") || has_directive(cache_control, "no-cache")
        || has_directive(cache_control, "private") {
        return None;
    }
    match cache_control {
        Some(value) => match max_age(value) {
            Some(n) => if n > 0 {
                Some(n)
            } else {
                None
            },
            None => None,
        },
        None => None,
    }
}

/// The content coding that one item of an `Accept-Encoding` list names.
pub open spec fn coding_name(part: Seq<char>) -> Seq<char> {
    lowered(trimmed(head(part, ';')))
}

/// Whether a quality value is zero: `0`, or `0.` and zeros.
pub open spec fn zero_text(s: Seq<char>) -> bool {
    &&& s.len() > 0
    &&& s[0] == '0'
    &&& s.len() > 1 ==> s[1] == '.'
    &&& forall|i: int| 2 <= i < s.len() ==> #[trigger] s[i] == '0'
}

/// Whether one item of an `Accept-Encoding` list refuses its coding: it has a
/// quality of zero.
pub open spec fn refuses_coding(part: Seq<char>) -> bool {
    exists|i: int|
        1 <= i < pieces(part, ';').len() && quality_text(#[trigger] pieces(part, ';')[i]) is Some
            && zero_text(quality_text(pieces(part, ';')[i])->0)
}

/// The content codings asked for by the items of a list; an empty item names
/// none, and one that is refused is not asked for.
pub open spec fn coding_names(parts: Seq<Seq<char>>) -> Seq<Seq<char>>
    decreases parts.len(),
{
    if parts.len() == 0 {
        Seq::empty()
    } else {
        let front = coding_names(parts.drop_last());
        let name = coding_name(parts.last());
        if name.len() == 0 || refuses_coding(parts.last()) {
            front
        } else {
            front.push(name)
        }
    }
}

/// The content codings that an `Accept-Encoding` header asks for; none where
/// it is absent.
pub open spec fn accepted_codings(accept_encoding: Option<Seq<char>>) -> Seq<Seq<char>> {
    match accept_encoding {
        Some(value) => coding_names(pieces(value, ',')),
        None => Seq::empty(),
    }
}

/// The canonical form of `Accept-Encoding`: the codings it asks for, in lower
/// case, each once, in order.
pub open spec fn canonical_codings(accept_encoding: Option<Seq<char>>) -> Seq<char> {
    joined(sorted_distinct(accepted_codings(accept_encoding)), ',')
}

/// Whether a quality value is zero.
fn is_zero_text(s: &[char]) -> (r: bool)
    ensures
        r == zero_text(s@),
{
    if s.len() == 0 || s[0] != '0' || (s.len() > 1 && s[1] != '.') {
        return false;
    }
    let mut i: usize = 2;
    while i < s.len()
        invariant
            2 <= i,
            s@.len() > 0,
            s@[0] == '0',
            s@.len() > 1 ==> s@[1] == '.',
            forall|j: int| 2 <= j < i && j < s@.len() ==> #[trigger] s@[j] == '0',
        decreases s.len() - i,
    {
        if s[i] != '0' {
            return false;
        }
        i = i + 1;
    }
    true
}

/// Whether one item of an `Accept-Encoding` list refuses its coding.
fn is_refused(part: &[char]) -> (r: bool)
    ensures
        r == refuses_coding(part@),
{
    let fields = split(part, ';');
    let ghost fs = pieces(part@, ';');
    let mut i: usize = 1;
    while i < fields.len()
        invariant
            1 <= i,
            views(fields@) == fs,
            fs == pieces(part@, ';'),
            forall|j: int|
                1 <= j < i && j < fs.len() && quality_text(#[trigger] fs[j]) is Some ==> !zero_text(
                    quality_text(fs[j])->0,
                ),
        decreases fields.len() - i,
    {
        assert(fs[i as int] == fields@[i as int]@);
        if let Some(text) = quality(fields[i].as_slice()) {
            let chars = chars_of(text.as_str());
            if is_zero_text(chars.as_slice()) {
                return true;
            }
        }
        i = i + 1;
    }
    false
}

/// A canonical form of `Accept-Encoding` for use in the cache key, so that a
/// compressed variant is never served to a client that did not ask for it.
pub fn normalize_accept_encoding(accept_encoding: Option<&str>) -> (r: String)
    ensures
        r@ == canonical_codings(maybe(accept_encoding)),
{
    let mut names: Vec<Vec<char>> = Vec::new();
    assert(views(names@) =~= Seq::<Seq<char>>::empty());
    match accept_encoding {
        Some(value) => {
            let chars = chars_of(value);
            let parts = split(chars.as_slice(), ',');
            let ghost ps = pieces(value@, ',');
            let mut i: usize = 0;
            assert(ps.take(0) =~= Seq::<Seq<char>>::empty());
            while i < parts.len()
                invariant
                    i <= parts.len(),
                    views(parts@) == ps,
                    views(names@) == coding_names(ps.take(i as int)),
                decreases parts.len() - i,
            {
                assert(ps[i as int] == parts@[i as int]@);
                assert(ps.take(i + 1).drop_last() =~= ps.take(i as int));
                let name = lowercase(trim(before(parts[i].as_slice(), ';')));
                let ghost front = names@;
                if name.len() > 0 && !is_refused(parts[i].as_slice()) {
                    let ghost text = name@;
                    names.push(name);
                    assert(views(names@) =~= views(front).push(text));
                }
                i = i + 1;
            }
            assert(ps.take(i as int) =~= ps);
        },
        None => {},
    }
    let sorted = sort_distinct(names);
    let list = join(&sorted, ',');
    string_of(list.as_slice())
}

/// An entity tag without its weak marker.
pub open spec fn weak_stripped(etag: Seq<char>) -> Seq<char> {
    let t = trimmed(etag);
    if starts(t, "W/"@) {
        trimmed(t.skip("W/"@.len() as int))
    } else {
        t
    }
}

/// Whether one of the candidates is the entity tag, by weak comparison.
pub open spec fn some_tag(candidates: Seq<Seq<char>>, etag: Seq<char>) -> bool {
    exists|i: int|
        0 <= i < candidates.len() && weak_stripped(trimmed(#[trigger] candidates[i]))
            == weak_stripped(etag)
}

/// Whether `If-None-Match` names the entity tag, by weak comparison.
pub open spec fn none_match_names(if_none_match: Seq<char>, etag: Seq<char>) -> bool {
    let list = trimmed(if_none_match);
    list == "*"@ || some_tag(pieces(list, ','), etag)
}

/// Drops a leading weak-validator marker.
fn strip_weak(etag: &[char]) -> (r: &[char])
    ensures
        r@ == weak_stripped(etag@),
{
    let marker = chars_of("W/");
    let t = trim(etag);
    match strip_prefix(t, marker.as_slice()) {
        Some(rest) => trim(rest),
        None => t,
    }
}

/// Whether an `If-None-Match` request header matches `etag` by weak
/// comparison, so that `304 Not Modified` may be returned in place of the body.
pub fn if_none_match_satisfied(if_none_match: &str, etag: &str) -> (r: bool)
    ensures
        r == none_match_names(if_none_match@, etag@),
{
    let chars = chars_of(if_none_match);
    let list = trim(chars.as_slice());
    if is_text(list, "*") {
        return true;
    }
    let etag_chars = chars_of(etag);
    let target = strip_weak(etag_chars.as_slice());
    let parts = split(list, ',');
    let ghost ps = pieces(trimmed(if_none_match@), ',');
    let mut i: usize = 0;
    while i < parts.len()
        invariant
            i <= parts.len(),
            views(parts@) == ps,
            ps == pieces(trimmed(if_none_match@), ','),
            target@ == weak_stripped(etag@),
            forall|j: int|
                0 <= j < i ==> weak_stripped(trimmed(#[trigger] ps[j])) != weak_stripped(etag@),
        decreases parts.len() - i,
    {
        assert(ps[i as int] == parts@[i as int]@);
        if eq(strip_weak(trim(parts[i].as_slice())), target) {
            return true;
        }
        i = i + 1;
    }
    false
}

proof fn lemma_coding_name_plain(part: Seq<char>)
    requires
        !part.contains(','),
    ensures
        !coding_name(part).contains(','),
{
    let h = head(part, ';');
    if coding_name(part).contains(',') {
        lemma_lowered_within(trimmed(h), ',');
        lemma_trimmed_within(h, ',');
        lemma_head_within(part, ';', ',');
    }
}

proof fn lemma_coding_names_plain(parts: Seq<Seq<char>>)
    requires
        forall|i: int| 0 <= i < parts.len() ==> !(#[trigger] parts[i]).contains(','),
    ensures
        forall|t: Seq<char>| #[trigger]
            coding_names(parts).contains(t) ==> t.len() > 0 && !t.contains(','),
    decreases parts.len(),
{
    if parts.len() > 0 {
        let front = parts.drop_last();
        assert forall|i: int| 0 <= i < front.len() implies !(#[trigger] front[i]).contains(',') by {
            assert(front[i] == parts[i]);
        }
        lemma_coding_names_plain(front);
        assert(!parts[parts.len() - 1].contains(','));
        lemma_coding_name_plain(parts.last());
        let names = coding_names(parts);
        let before = coding_names(front);
        assert forall|t: Seq<char>| #[trigger] names.contains(t) implies t.len() > 0 && !t.contains(
            ',',
        ) by {
            let k = choose|k: int| 0 <= k < names.len() && names[k] == t;
            if k < before.len() {
                assert(before[k] == t);
                assert(before.contains(t));
            }
        }
    }
}

proof fn lemma_sorted_codings(accept_encoding: Option<Seq<char>>)
    ensures
        same_members(
            sorted_distinct(accepted_codings(accept_encoding)),
            accepted_codings(accept_encoding),
        ),
        forall|i: int|
            0 <= i < sorted_distinct(accepted_codings(accept_encoding)).len() ==> (
            #[trigger] sorted_distinct(accepted_codings(accept_encoding))[i]).len() > 0
                && !sorted_distinct(accepted_codings(accept_encoding))[i].contains(','),
{
    let names = accepted_codings(accept_encoding);
    let sorted = sorted_distinct(names);
    lemma_sorted_exists(names);
    match accept_encoding {
        Some(value) => {
            lemma_pieces_hold_no_separator(value, ',');
            lemma_coding_names_plain(pieces(value, ','));
        },
        None => {},
    }
    assert forall|i: int| 0 <= i < sorted.len() implies (#[trigger] sorted[i]).len() > 0
        && !sorted[i].contains(',') by {
        assert(sorted.contains(sorted[i]));
        assert(names.contains(sorted[i]));
    }
}

/// Two `Accept-Encoding` headers have the same canonical form if and only if
/// they ask for the same content codings, in whatever order, case or number.
pub proof fn law_canonical_codings(a: Option<Seq<char>>, b: Option<Seq<char>>)
    ensures
        canonical_codings(a) == canonical_codings(b) <==> same_members(
            accepted_codings(a),
            accepted_codings(b),
        ),
{
    let x = sorted_distinct(accepted_codings(a));
    let y = sorted_distinct(accepted_codings(b));
    lemma_sorted_codings(a);
    lemma_sorted_codings(b);
    if same_members(accepted_codings(a), accepted_codings(b)) {
        lemma_sorted_same(accepted_codings(a), accepted_codings(b));
    }
    if joined(x, ',') == joined(y, ',') {
        if x.len() > 0 {
            lemma_join_split(x, ',');
        }
        if y.len() > 0 {
            lemma_join_split(y, ',');
        }
        if x.len() == 0 && y.len() > 0 {
            assert(pieces(joined(x, ','), ',') =~= seq![Seq::<char>::empty()]);
            assert(y[0].len() > 0);
        }
        if y.len() == 0 && x.len() > 0 {
            assert(pieces(joined(y, ','), ',') =~= seq![Seq::<char>::empty()]);
            assert(x[0].len() > 0);
        }
        assert(x =~= y);
        assert forall|t: Seq<char>| #[trigger] accepted_codings(a).contains(t)
            <==> accepted_codings(b).contains(t) by {
            assert(x.contains(t) <==> accepted_codings(a).contains(t));
            assert(y.contains(t) <==> accepted_codings(b).contains(t));
        }
    }
}

proof fn lemma_trimmed_start_fixed(s: Seq<char>)
    ensures
        trimmed_start(s).len() > 0 ==> !is_space(trimmed_start(s)[0]),
    decreases s.len(),
{
    if s.len() > 0 && is_space(s[0]) {
        lemma_trimmed_start_fixed(s.skip(1));
    }
}

proof fn lemma_trimmed_end_fixed(s: Seq<char>)
    ensures
        trimmed_end(s).len() > 0 ==> !is_space(trimmed_end(s).last()) && trimmed_end(s)[0] == s[0],
    decreases s.len(),
{
    if s.len() > 0 && is_space(s.last()) {
        lemma_trimmed_end_fixed(s.drop_last());
    }
}

/// A coding's name is the name of itself.
proof fn lemma_coding_name_fixed(part: Seq<char>)
    ensures
        coding_name(coding_name(part)) == coding_name(part),
        !refuses_coding(coding_name(part)),
        !coding_name(part).contains(';'),
{
    let h = head(part, ';');
    let t = trimmed(h);
    let n = lowered(t);
    lemma_head_plain(part, ';');
    if n.contains(';') {
        lemma_lowered_within(t, ';');
        lemma_trimmed_within(h, ';');
    }
    lemma_one_piece(n, ';');
    lemma_head(n, ';', n.len() as int);
    assert(n.take(n.len() as int) =~= n);
    lemma_trimmed_start_fixed(h);
    lemma_trimmed_end_fixed(trimmed_start(h));
    if n.len() > 0 {
        assert(n[0] == lower_char(t[0]));
        assert(n.last() == lower_char(t.last()));
        assert(trimmed_start(n) == n);
        assert(trimmed_end(n) == n);
    }
    assert(lowered(n) =~= n);
}

proof fn lemma_head_plain(s: Seq<char>, sep: char)
    ensures
        !head(s, sep).contains(sep),
    decreases s.len(),
{
    if s.len() > 0 && s[0] != sep {
        lemma_head_plain(s.skip(1), sep);
        let h = head(s, sep);
        if h.contains(sep) {
            let k = choose|k: int| 0 <= k < h.len() && h[k] == sep;
            assert(head(s.skip(1), sep)[k - 1] == sep);
        }
    }
}

/// What a list of items asks for: the names of those that are named and not
/// refused.
proof fn lemma_coding_names(parts: Seq<Seq<char>>, t: Seq<char>)
    ensures
        coding_names(parts).contains(t) <==> exists|i: int|
            0 <= i < parts.len() && t == coding_name(#[trigger] parts[i]) && t.len() > 0
                && !refuses_coding(parts[i]),
    decreases parts.len(),
{
    if parts.len() > 0 {
        let front = parts.drop_last();
        let names = coding_names(parts);
        let before = coding_names(front);
        lemma_coding_names(front, t);
        if names.contains(t) {
            let k = choose|k: int| 0 <= k < names.len() && names[k] == t;
            if k < before.len() {
                assert(before[k] == t);
                assert(before.contains(t));
                let i = choose|i: int|
                    0 <= i < front.len() && t == coding_name(#[trigger] front[i]) && t.len() > 0
                        && !refuses_coding(front[i]);
                assert(parts[i] == front[i]);
            } else {
                assert(t == coding_name(parts[parts.len() - 1]));
            }
        }
        if exists|i: int|
            0 <= i < parts.len() && t == coding_name(#[trigger] parts[i]) && t.len() > 0
                && !refuses_coding(parts[i]) {
            let i = choose|i: int|
                0 <= i < parts.len() && t == coding_name(#[trigger] parts[i]) && t.len() > 0
                    && !refuses_coding(parts[i]);
            if i < front.len() {
                assert(front[i] == parts[i]);
                let k = choose|k: int| 0 <= k < before.len() && before[k] == t;
                assert(names[k] == t);
            } else {
                assert(names.last() == t);
            }
        }
    }
}

proof fn lemma_names_of_names(l: Seq<Seq<char>>)
    requires
        forall|i: int|
            0 <= i < l.len() ==> (#[trigger] l[i]).len() > 0 && coding_name(l[i]) == l[i]
                && !refuses_coding(l[i]),
    ensures
        coding_names(l) == l,
    decreases l.len(),
{
    if l.len() > 0 {
        let front = l.drop_last();
        assert forall|i: int| 0 <= i < front.len() implies (#[trigger] front[i]).len() > 0
            && coding_name(front[i]) == front[i] && !refuses_coding(front[i]) by {
            assert(front[i] == l[i]);
        }
        lemma_names_of_names(front);
        assert(coding_name(l[l.len() - 1]) == l.last());
        assert(front.push(l.last()) =~= l);
    } else {
        assert(coding_names(l) =~= l);
    }
}

/// The canonical form of a header is the ascending list, joined by commas, of
/// the distinct names that it asks for, each once; and it is its own canonical
/// form.
pub proof fn law_canonical_form(accept_encoding: Option<Seq<char>>, t: Seq<char>)
    ensures
        canonical_codings(accept_encoding) == joined(
            sorted_distinct(accepted_codings(accept_encoding)),
            ',',
        ),
        ascending(sorted_distinct(accepted_codings(accept_encoding))),
        sorted_distinct(accepted_codings(accept_encoding)).contains(t) <==> (accept_encoding
            matches Some(value) && exists|i: int|
            0 <= i < pieces(value, ',').len() && t == lowered(
                trimmed(head(#[trigger] pieces(value, ',')[i], ';')),
            ) && t.len() > 0 && !refuses_coding(pieces(value, ',')[i])),
        canonical_codings(Some(canonical_codings(accept_encoding))) == canonical_codings(
            accept_encoding,
        ),
{
    let names = accepted_codings(accept_encoding);
    let sorted = sorted_distinct(names);
    lemma_sorted_exists(names);
    lemma_sorted_codings(accept_encoding);
    assert(sorted.contains(t) <==> names.contains(t));
    if let Some(value) = accept_encoding {
        let ps = pieces(value, ',');
        lemma_coding_names(ps, t);
        if names.contains(t) {
            let i = choose|i: int|
                0 <= i < ps.len() && t == coding_name(#[trigger] ps[i]) && t.len() > 0
                    && !refuses_coding(ps[i]);
            assert(t == lowered(trimmed(head(ps[i], ';'))));
        }
        if exists|i: int|
            0 <= i < ps.len() && t == lowered(trimmed(head(#[trigger] ps[i], ';'))) && t.len() > 0
                && !refuses_coding(ps[i]) {
            let i = choose|i: int|
                0 <= i < ps.len() && t == lowered(trimmed(head(#[trigger] ps[i], ';'))) && t.len()
                    > 0 && !refuses_coding(ps[i]);
            assert(t == coding_name(ps[i]));
        }
    }
    let r = joined(sorted, ',');
    assert forall|i: int| 0 <= i < sorted.len() implies (#[trigger] sorted[i]).len() > 0
        && coding_name(sorted[i]) == sorted[i] && !refuses_coding(sorted[i]) by {
        assert(sorted.contains(sorted[i]));
        assert(names.contains(sorted[i]));
        if let Some(value) = accept_encoding {
            let ps = pieces(value, ',');
            lemma_coding_names(ps, sorted[i]);
            let j = choose|j: int|
                0 <= j < ps.len() && sorted[i] == coding_name(#[trigger] ps[j]) && sorted[i].len()
                    > 0 && !refuses_coding(ps[j]);
            lemma_coding_name_fixed(ps[j]);
        }
    }
    if sorted.len() > 0 {
        lemma_join_split(sorted, ',');
        lemma_names_of_names(sorted);
    } else {
        let none = Seq::<char>::empty();
        assert(pieces(r, ',') =~= seq![none]);
        lemma_coding_name_fixed(none);
        assert(coding_name(none) =~= none);
        assert(seq![none].drop_last() =~= Seq::<Seq<char>>::empty());
        assert(coding_names(Seq::<Seq<char>>::empty()) =~= sorted);
        assert(coding_names(seq![none]) =~= sorted);
    }
    assert(same_members(sorted, names));
    lemma_sorted_same(sorted, names);
}

/// Whether every item of one list names, up to letter case and white space, a
/// coding that an item of the other names too, and no item is refused.
pub open spec fn named_among(a: Seq<Seq<char>>, b: Seq<Seq<char>>) -> bool {
    forall|i: int|
        0 <= i < a.len() ==> !refuses_coding(#[trigger] a[i]) && exists|j: int|
            0 <= j < b.len() && same_ignoring_case(
                trimmed(head(a[i], ';')),
                trimmed(head(#[trigger] b[j], ';')),
            )
}

/// Headers that list the same codings in any order, case, spacing or
/// repetition have the same canonical form.
pub proof fn law_order_case_and_repeats_do_not_matter(a: Seq<char>, b: Seq<char>)
    requires
        named_among(pieces(a, ','), pieces(b, ',')),
        named_among(pieces(b, ','), pieces(a, ',')),
    ensures
        canonical_codings(Some(a)) == canonical_codings(Some(b)),
{
    let x = pieces(a, ',');
    let y = pieces(b, ',');
    assert forall|t: Seq<char>| #[trigger] coding_names(x).contains(t) <==> coding_names(
        y,
    ).contains(t) by {
        if coding_names(x).contains(t) {
            lemma_named_among(x, y, t);
        }
        if coding_names(y).contains(t) {
            lemma_named_among(y, x, t);
        }
    }
    law_canonical_codings(Some(a), Some(b));
}

proof fn lemma_named_among(a: Seq<Seq<char>>, b: Seq<Seq<char>>, t: Seq<char>)
    requires
        named_among(a, b),
        named_among(b, a),
        coding_names(a).contains(t),
    ensures
        coding_names(b).contains(t),
{
    lemma_coding_names(a, t);
    lemma_coding_names(b, t);
    let i = choose|i: int|
        0 <= i < a.len() && t == coding_name(#[trigger] a[i]) && t.len() > 0 && !refuses_coding(
            a[i],
        );
    let j = choose|j: int|
        0 <= j < b.len() && same_ignoring_case(
            trimmed(head(a[i], ';')),
            trimmed(head(#[trigger] b[j], ';')),
        );
    assert(t == coding_name(b[j]));
    assert(!refuses_coding(b[j]));
}

/// A client that refuses a coding never shares the form of one that asks for
/// it: a header that lists a coding with a quality of zero and nothing else
/// asks for nothing, and one that names the coding asks for it.
pub proof fn law_refused_coding_is_not_asked_for(coding: Seq<char>, zero: Seq<char>)
    requires
        !coding.contains(','),
        !coding.contains(';'),
        trimmed(coding).len() > 0,
        zero_text(zero),
    ensures
        canonical_codings(Some(coding + ";q="@ + zero)) == Seq::<char>::empty(),
        canonical_codings(Some(coding)) == lowered(trimmed(coding)),
        canonical_codings(Some(coding + ";q="@ + zero)) != canonical_codings(Some(coding)),
{
    reveal_strlit(";q=");
    reveal_strlit("q=");
    let asked = coding;
    let refused = coding + ";q="@ + zero;
    let field = "q="@ + zero;
    assert(refused =~= coding.push(';') + field);
    assert(!field.contains(';') && !field.contains(',')) by {
        assert forall|k: int| 0 <= k < field.len() implies field[k] != ';' && field[k] != ',' by {
            if k >= 2 {
                assert(field[k] == zero[k - 2]);
            }
        }
    }
    lemma_one_piece(coding, ';');
    lemma_piece_added(coding, field, ';');
    assert(pieces(refused, ';') =~= seq![coding, field]);
    assert(pieces(refused, ';')[1] == field);
    assert(trimmed(field) == field) by {
        assert(trimmed_start(field) == field);
        assert(field.last() == zero.last());
        assert(zero.last() == '0' || zero.last() == '.') by {
            if zero.len() > 2 {
                assert(zero[zero.len() - 1] == '0');
            }
        }
    }
    assert(field.skip(2) =~= zero);
    assert(starts(field, "q="@)) by {
        assert(field.take(2) =~= "q="@);
    }
    assert(quality_text(field) == Some(zero));
    assert(refuses_coding(refused));
    assert(!refused.contains(',')) by {
        assert forall|k: int| 0 <= k < refused.len() implies refused[k] != ',' by {
            if k < coding.len() {
                assert(refused[k] == coding[k]);
            } else if k > coding.len() {
                assert(refused[k] == field[k - coding.len() - 1]);
            }
        }
    }
    lemma_one_piece(refused, ',');
    lemma_one_piece(asked, ',');
    let none = Seq::<Seq<char>>::empty();
    assert(coding_names(none) =~= none);
    assert(seq![refused].drop_last() =~= none);
    assert(coding_names(seq![refused]) =~= none);
    lemma_sorted_exists(none);
    let s0 = sorted_distinct(none);
    assert(s0.len() == 0) by {
        if s0.len() > 0 {
            assert(s0.contains(s0[0]));
            assert(none.contains(s0[0]));
        }
    }
    assert(!refuses_coding(asked)) by {
        assert(pieces(asked, ';').len() == 1);
    }
    lemma_head(asked, ';', asked.len() as int);
    assert(asked.take(asked.len() as int) =~= asked);
    let name = lowered(trimmed(coding));
    assert(coding_name(asked) == name);
    assert(seq![asked].drop_last() =~= none);
    assert(coding_names(seq![asked]) =~= seq![name]);
    lemma_sorted_distinct(seq![name], seq![name]);
    assert(joined(seq![name], ',') == name);
}

/// Only plainly safe responses are cached: status 200, no cookie, no directive
/// that forbids it, nothing varied on but `Accept-Encoding`, and a positive
/// lifetime that the origin gave.
pub proof fn law_only_safe_responses_are_cached(
    status: u16,
    cache_control: Option<Seq<char>>,
    has_set_cookie: bool,
    vary: Option<Seq<char>>,
)
    requires
        ttl(status, cache_control, has_set_cookie, vary) is Some,
    ensures
        status == 200,
        !has_set_cookie,
        vary_allows(vary),
        cache_control is Some,
        !lists_directive(cache_control, "private"@),
        !lists_directive(cache_control, "no-store"@),
        !lists_directive(cache_control, "no-cache"@),
        ttl(status, cache_control, has_set_cookie, vary)->0 > 0,
{
}

/// A stored response.
#[derive(Debug, Clone)]
pub struct CachedResponse {
    /// HTTP status code.
    pub status: u16,
    /// Response headers as name and value pairs.
    pub headers: Vec<(String, String)>,
    /// Response body bytes.
    pub body: Vec<u8>,
}

/// A stored response as text and bytes.
#[verifier::ext_equal]
pub struct ResponseText {
    pub status: u16,
    pub headers: Seq<HeaderText>,
    pub body: Seq<u8>,
}

impl View for CachedResponse {
    type V = ResponseText;

    open spec fn view(&self) -> ResponseText {
        ResponseText { status: self.status, headers: pairs(self.headers@), body: self.body@ }
    }
}

impl CachedResponse {
    /// The entry's `ETag`, if any, used to revalidate it with the origin.
    pub fn etag(&self) -> (r: Option<&str>)
        ensures
            maybe(r) == first_value(self@.headers, "etag"@),
    {
        find_value(&self.headers, "etag")
    }

    /// A copy of the response.
    pub fn copy(&self) -> (r: CachedResponse)
        ensures
            r@ == self@,
    {
        let body: Vec<u8> = self.body.clone();
        assert(body@ =~= self.body@);
        CachedResponse { status: self.status, headers: copy_pairs(&self.headers), body }
    }
}

} // verus!
