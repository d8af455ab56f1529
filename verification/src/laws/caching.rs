//! What the cache keeps, how long it is fresh, and what a client gets of it.
use crate::cache::{
    cacheable_request, directive_name, lists_directive, max_age_part, none_match_names, ttl,
    vary_allows, weak_stripped, ResponseText,
};
use crate::consult::{
    advice, capture_of, key_for, refreshed, settlement, ConsultedText, SettledText,
};
use crate::headers::{first_value, HeaderText};
use crate::http3;
use crate::laws::headers::{
    as_pair, end_to_end, last_of_name, law_end_to_end_headers_are_stored, law_response_head,
    law_setting, law_setting_one, lemma_filter_member, lemma_length_is_sendable, not_called,
    sendable, with_lower_name,
};
use crate::laws::texts::{law_head, law_splitting, law_trimming, tight};
use crate::message::{
    all_inserted, field_text, has_field, inserted, is_header_name, is_header_value, FieldText,
};
use crate::numeral::{decimal_text, lemma_decimal_round_trip};
use crate::order::joined;
use crate::proxy;
use crate::relay::{hit_marker, not_modified, own_ttl};
use crate::router::EndpointText;
use crate::store::LookupText;
use crate::text::{head, lowered, pieces, same_ignoring_case, starts, trimmed};
use crate::upstream::RevalidatedText;
use vstd::prelude::*;

verus! {

/// The mark of a response from the cache.
pub open spec fn hit_header() -> HeaderText {
    ("x-cache"@, "HIT"@)
}

/// The header that gives a body's length.
pub open spec fn length_header(body: Seq<u8>) -> HeaderText {
    ("content-length"@, decimal_text(body.len()))
}

proof fn lemma_marker()
    ensures
        hit_marker() == hit_header(),
        is_header_name("x-cache"@),
        is_header_value("HIT"@),
        !same_ignoring_case("x-cache"@, "content-length"@),
        !same_ignoring_case("content-length"@, "x-cache"@),
        lowered("x-cache"@) == "x-cache"@,
{
    reveal_strlit("x-cache");
    reveal_strlit("HIT");
    reveal_strlit("content-length");
    assert(lowered("x-cache"@).len() == 7);
    assert(lowered("content-length"@).len() == 14);
    assert(lowered("x-cache"@) =~= "x-cache"@);
}

/// A cache hit over HTTP/1 or HTTP/2 that is not answered 304 has the entry's
/// status and body, and carries every stored header that can be sent, for each
/// name the last one; besides them only the length and the mark of a hit.
pub proof fn law_hit_carries_the_entry(
    hit: ResponseText,
    if_none_match: Option<Seq<char>>,
    h: HeaderText,
)
    requires
        !not_modified(hit, if_none_match),
        100 <= hit.status && hit.status <= 999,
    ensures
        proxy::hit_reply_text(hit, if_none_match) matches Some(reply) && {
            &&& reply.head.status == hit.status
            &&& reply.body == Some(hit.body)
            &&& reply.head.headers.contains(h) <==> {
                ||| h == length_header(hit.body)
                ||| h == hit_header()
                ||| {
                    &&& exists|i: int| #[trigger] last_of_name(hit.headers, i) && hit.headers[i] == h
                    &&& !same_ignoring_case(h.0, "content-length"@)
                    &&& !same_ignoring_case(h.0, "x-cache"@)
                }
            }
        },
{
    lemma_marker();
    lemma_length_is_sendable(hit.body.len());
    let stored = all_inserted(Seq::empty(), hit.headers);
    let measured = inserted(stored, length_header(hit.body));
    let marked = inserted(measured, hit_header());
    law_setting(Seq::empty(), hit.headers, h);
    law_setting_one(stored, length_header(hit.body));
    law_setting_one(measured, hit_header());
    lemma_filter_member(stored, not_called("content-length"@), h);
    lemma_filter_member(measured, not_called("x-cache"@), h);
    lemma_pushed(stored.filter(not_called("content-length"@)), length_header(hit.body), h);
    lemma_pushed(measured.filter(not_called("x-cache"@)), hit_header(), h);
    assert(proxy::hit_reply_text(hit, if_none_match)->0.head.headers == marked);
}

proof fn lemma_pushed(s: Seq<HeaderText>, x: HeaderText, h: HeaderText)
    ensures
        s.push(x).contains(h) <==> s.contains(h) || x == h,
{
    if s.contains(h) {
        let k = choose|k: int| 0 <= k < s.len() && s[k] == h;
        assert(s.push(x)[k] == h);
    }
    if x == h {
        assert(s.push(x)[s.len() as int] == h);
    }
    if s.push(x).contains(h) {
        let k = choose|k: int| 0 <= k < s.push(x).len() && s.push(x)[k] == h;
        if k < s.len() {
            assert(s[k] == h);
        }
    }
}

/// An entry whose status cannot be sent has no reply over HTTP/1 or HTTP/2.
pub proof fn law_hit_of_no_status(hit: ResponseText, if_none_match: Option<Seq<char>>)
    requires
        !not_modified(hit, if_none_match),
        hit.status < 100 || hit.status > 999,
    ensures
        proxy::hit_reply_text(hit, if_none_match) is None,
{
}

/// A client that has the entry gets 304 without a body, with the entry's tag and
/// the mark of a hit and no other header.
pub proof fn law_client_with_the_entry_gets_its_tag(
    hit: ResponseText,
    if_none_match: Option<Seq<char>>,
    etag: Seq<char>,
)
    requires
        not_modified(hit, if_none_match),
        first_value(hit.headers, "etag"@) == Some(etag),
        is_header_value(etag),
    ensures
        proxy::hit_reply_text(hit, if_none_match) matches Some(reply) && {
            &&& reply.head.status == 304
            &&& reply.head.headers == seq![("etag"@, etag), hit_header()]
            &&& reply.body is None
        },
        http3::hit_reply_text(hit, if_none_match).head.status == 304,
        http3::hit_reply_text(hit, if_none_match).head.headers == seq![
            ("etag"@, etag),
            hit_header(),
        ],
        http3::hit_reply_text(hit, if_none_match).body is None,
{
    lemma_marker();
    reveal(Seq::filter);
    reveal_strlit("etag");
    assert(is_header_name("etag"@));
    assert(lowered("etag"@) =~= "etag"@);
    assert(lowered("etag"@).len() == 4 && lowered("x-cache"@).len() == 7) by {
        reveal_strlit("x-cache");
    }
    let list = seq![("etag"@, etag), hit_header()];
    let one = seq![("etag"@, etag)];
    let none = Seq::<HeaderText>::empty();
    assert(list.drop_last() =~= one);
    assert(one.drop_last() =~= none);
    assert(all_inserted(none, none) =~= none);
    law_setting_one(none, ("etag"@, etag));
    assert(none.filter(not_called("etag"@)) =~= none);
    assert(all_inserted(none, one) =~= one);
    law_setting_one(one, hit_header());
    assert(one.filter(not_called("x-cache"@)) =~= one) by {
        assert(none.filter(not_called("x-cache"@)) =~= none);
    }
    assert(all_inserted(none, list) =~= list);
    law_response_head(304, list, None);
    assert(none.filter(sendable()) =~= none);
    assert(one.filter(sendable()) =~= one);
    assert(list.filter(sendable()) =~= list);
    assert(list.map_values(with_lower_name()) =~= list);
}

/// A cache hit over HTTP/3 that is not answered 304 has the entry's status, or
/// 502 where that cannot be sent, and its body; every stored header that can be
/// sent, in order and with its name in lower case; the mark of a hit; and the
/// body's length in place of any stored one.
pub proof fn law_http3_hit_carries_the_entry(hit: ResponseText, if_none_match: Option<Seq<char>>)
    requires
        !not_modified(hit, if_none_match),
    ensures
        http3::hit_reply_text(hit, if_none_match).head.status == if 100 <= hit.status && hit.status
            <= 999 {
            hit.status
        } else {
            502
        },
        http3::hit_reply_text(hit, if_none_match).body == Some(hit.body),
        http3::hit_reply_text(hit, if_none_match).head.headers == hit.headers.filter(
            sendable(),
        ).filter(not_called("content-length"@)).map_values(with_lower_name()).push(
            hit_header(),
        ).push(length_header(hit.body)),
{
    lemma_marker();
    reveal(Seq::filter);
    let list = hit.headers.push(hit_header());
    law_response_head(hit.status, list, Some(hit.body.len()));
    assert(list.drop_last() =~= hit.headers);
    let kept = hit.headers.filter(sendable());
    assert(list.filter(sendable()) == kept.push(hit_header()));
    assert(kept.push(hit_header()).drop_last() =~= kept);
    let rest = kept.filter(not_called("content-length"@));
    assert(kept.push(hit_header()).filter(not_called("content-length"@)) == rest.push(
        hit_header(),
    ));
    assert(rest.push(hit_header()).map_values(with_lower_name()) =~= rest.map_values(
        with_lower_name(),
    ).push(hit_header()));
}

/// Whether a client that names these tags has the entry: it names any, or one
/// that is the entry's own but for the mark of weakness.
pub open spec fn names_tag(tags: Seq<Seq<char>>, etag: Seq<char>) -> bool {
    exists|i: int|
        0 <= i < tags.len() && same_tag(#[trigger] tags[i], etag)
}

/// Whether two tags are the same but for the mark of weakness.
pub open spec fn same_tag(a: Seq<char>, b: Seq<char>) -> bool {
    ||| a == b
    ||| a == "W/"@ + b
    ||| b == "W/"@ + a
}

/// A tag in the form that servers and clients write: quoted, and not marked
/// weak.
pub open spec fn strong_tag(t: Seq<char>) -> bool {
    t.len() > 0 && t[0] == '"' && t[t.len() - 1] == '"'
}

proof fn lemma_strong(t: Seq<char>)
    requires
        strong_tag(t),
    ensures
        weak_stripped(t) == t,
        weak_stripped("W/"@ + t) == t,
        tight(t),
        tight("W/"@ + t),
{
    reveal_strlit("W/");
    let none = Seq::<char>::empty();
    assert(tight(t));
    law_trimming(none, t, none);
    assert(none + t + none =~= t);
    let weak = "W/"@ + t;
    assert(weak[0] == 'W' && weak[weak.len() - 1] == '"');
    law_trimming(none, weak, none);
    assert(none + weak + none =~= weak);
    assert(weak.take(2) =~= "W/"@);
    assert(weak.skip(2) =~= t);
    assert(!starts(t, "W/"@)) by {
        if starts(t, "W/"@) {
            assert(t.take(2)[0] == t[0]);
        }
    }
}

/// A conditional request for a list of tags is answered without a body exactly
/// where one of them is the entry's, weak or strong.
pub proof fn law_tags_are_compared_weakly(tags: Seq<Seq<char>>, weak: Seq<bool>, etag: Seq<char>)
    requires
        tags.len() > 0,
        weak.len() == tags.len(),
        strong_tag(etag),
        !etag.contains(','),
        forall|i: int|
            0 <= i < tags.len() ==> strong_tag(#[trigger] tags[i]) && !tags[i].contains(','),
    ensures
        none_match_names(joined(marked(tags, weak), ','), etag) <==> tags.contains(etag),
        none_match_names(joined(marked(tags, weak), ','), "W/"@ + etag) <==> tags.contains(etag),
        none_match_names("*"@, etag),
{
    reveal_strlit("W/");
    reveal_strlit("*");
    let list = marked(tags, weak);
    assert forall|i: int| 0 <= i < list.len() implies !(#[trigger] list[i]).contains(',') && tight(
        list[i],
    ) && list[i].len() > 0 && weak_stripped(trimmed(list[i])) == tags[i] by {
        assert(strong_tag(tags[i]) && !tags[i].contains(','));
        lemma_strong(tags[i]);
        let none = Seq::<char>::empty();
        law_trimming(none, list[i], none);
        assert(none + list[i] + none =~= list[i]);
        if list[i].contains(',') {
            let k = choose|k: int| 0 <= k < list[i].len() && list[i][k] == ',';
            if weak[i] {
                assert(k >= 2);
                assert(tags[i][k - 2] == ',');
            } else {
                assert(tags[i][k] == ',');
            }
        }
    }
    law_splitting(list, ',');
    let whole = joined(list, ',');
    lemma_joined_tight(list);
    let none = Seq::<char>::empty();
    law_trimming(none, whole, none);
    assert(none + whole + none =~= whole);
    assert(whole != "*"@) by {
        if whole == "*"@ {
            assert(pieces(whole, ',') == list);
            assert(!"*"@.contains(','));
            crate::order::lemma_one_piece("*"@, ',');
            assert(list[0] == "*"@);
            assert(tags[0][0] == '"');
        }
    }
    lemma_strong(etag);
    if tags.contains(etag) {
        let i = choose|i: int| 0 <= i < tags.len() && tags[i] == etag;
        assert(weak_stripped(trimmed(list[i])) == etag);
    }
    assert(none + "*"@ + none =~= "*"@);
    law_trimming(none, "*"@, none);
}

/// The tags, some of them marked weak.
pub open spec fn marked(tags: Seq<Seq<char>>, weak: Seq<bool>) -> Seq<Seq<char>> {
    Seq::new(
        tags.len(),
        |i: int|
            if weak[i] {
                "W/"@ + tags[i]
            } else {
                tags[i]
            },
    )
}

proof fn lemma_joined_tight(list: Seq<Seq<char>>)
    requires
        list.len() > 0,
        forall|i: int| 0 <= i < list.len() ==> tight(#[trigger] list[i]) && list[i].len() > 0,
    ensures
        tight(joined(list, ',')),
        joined(list, ',').len() > 0,
        joined(list, ',')[0] == list[0][0],
    decreases list.len(),
{
    assert(tight(list[0]) && list[0].len() > 0);
    if list.len() > 1 {
        let front = list.drop_last();
        assert forall|i: int| 0 <= i < front.len() implies tight(#[trigger] front[i])
            && front[i].len() > 0 by {
            assert(front[i] == list[i]);
        }
        lemma_joined_tight(front);
        assert(tight(list[list.len() - 1]) && list[list.len() - 1].len() > 0);
        let whole = joined(list, ',');
        assert(whole[whole.len() - 1] == list.last()[list.last().len() - 1]);
        assert(whole[0] == joined(front, ',')[0]);
    }
}

/// A client without a conditional request, and an entry without a tag, are
/// answered in full.
pub proof fn law_unconditional_request_gets_the_body(
    hit: ResponseText,
    if_none_match: Option<Seq<char>>,
)
    ensures
        if_none_match is None ==> !not_modified(hit, if_none_match),
        first_value(hit.headers, "etag"@) is None ==> !not_modified(hit, if_none_match),
        if_none_match is Some && first_value(hit.headers, "etag"@) is Some ==> (not_modified(
            hit,
            if_none_match,
        ) <==> none_match_names(if_none_match->0, first_value(hit.headers, "etag"@)->0)),
{
}

/// A directive is known by its name, whether or not it has a value.
pub proof fn law_directive_is_known_by_its_name(name: Seq<char>, value: Seq<char>)
    requires
        tight(name),
        tight(value),
        name.len() > 0,
        value.len() > 0,
        !name.contains('='),
    ensures
        directive_name(name) == name,
        directive_name(name.push('=') + value) == name,
{
    let none = Seq::<char>::empty();
    law_trimming(none, name, none);
    assert(none + name + none =~= name);
    law_head(name, '=', value);
    let whole = name.push('=') + value;
    assert(whole[0] == name[0] && whole[whole.len() - 1] == value[value.len() - 1]);
    law_trimming(none, whole, none);
    assert(none + whole + none =~= whole);
}

/// A response lives as long as its `max-age` says, where nothing forbids to keep
/// it: its status is 200, it sets no cookie, it varies on nothing but the
/// encoding, and no directive is `no-store`, `no-cache` or `private`.
pub proof fn law_response_lives_as_it_says(
    parts: Seq<Seq<char>>,
    k: int,
    n: nat,
    vary: Option<Seq<char>>,
)
    requires
        0 <= k < parts.len(),
        forall|i: int| 0 <= i < parts.len() ==> !(#[trigger] parts[i]).contains(','),
        trimmed(parts[k]) == "max-age="@ + decimal_text(n),
        0 < n <= u64::MAX,
        forall|i: int| 0 <= i < k ==> !starts(trimmed(#[trigger] parts[i]), "max-age="@),
        forall|i: int|
            0 <= i < parts.len() ==> directive_name(#[trigger] parts[i]) != "no-store"@
                && directive_name(parts[i]) != "no-cache"@ && directive_name(parts[i])
                != "private"@,
        vary_allows(vary),
    ensures
        ttl(200, Some(joined(parts, ',')), false, vary) == Some(n),
{
    law_splitting(parts, ',');
    let cc = Some(joined(parts, ','));
    assert(!lists_directive(cc, "no-store"@));
    assert(!lists_directive(cc, "no-cache"@));
    assert(!lists_directive(cc, "private"@));
    lemma_first_age(parts, k, n);
}

proof fn lemma_first_age(parts: Seq<Seq<char>>, k: int, n: nat)
    requires
        0 <= k < parts.len(),
        trimmed(parts[k]) == "max-age="@ + decimal_text(n),
        0 < n <= u64::MAX,
        forall|i: int| 0 <= i < k ==> !starts(trimmed(#[trigger] parts[i]), "max-age="@),
    ensures
        crate::cache::first_max_age(parts) == Some(n),
    decreases k,
{
    if k > 0 {
        let rest = parts.skip(1);
        assert(!starts(trimmed(parts[0]), "max-age="@));
        assert forall|i: int| 0 <= i < k - 1 implies !starts(
            trimmed(#[trigger] rest[i]),
            "max-age="@,
        ) by {
            assert(!starts(trimmed(parts[i + 1]), "max-age="@));
        }
        assert(rest[k - 1] == parts[k]);
        lemma_first_age(rest, k - 1, n);
    } else {
        let t = "max-age="@ + decimal_text(n);
        let m = "max-age="@.len() as int;
        assert(t.take(m) =~= "max-age="@);
        assert(t.skip(m) =~= decimal_text(n));
        lemma_decimal_round_trip(n);
        let d = decimal_text(n);
        assert(crate::numeral::is_digit(d[0]) && crate::numeral::is_digit(d[d.len() - 1]));
        let none = Seq::<char>::empty();
        law_trimming(none, d, none);
        assert(none + d + none =~= d);
        assert(max_age_part(parts[0]) == Some(n));
    }
}

/// A response varies on nothing but the encoding exactly where each name that it
/// lists is `Accept-Encoding`, in any case and spacing.
pub proof fn law_vary_is_honoured(names: Seq<Seq<char>>)
    requires
        names.len() > 0,
        forall|i: int| 0 <= i < names.len() ==> !(#[trigger] names[i]).contains(','),
        tight(joined(names, ',')),
    ensures
        vary_allows(Some(joined(names, ','))) <==> forall|i: int|
            0 <= i < names.len() ==> same_ignoring_case(
                trimmed(#[trigger] names[i]),
                "accept-encoding"@,
            ),
        vary_allows(None),
{
    law_splitting(names, ',');
    let whole = joined(names, ',');
    let none = Seq::<char>::empty();
    law_trimming(none, whole, none);
    assert(none + whole + none =~= whole);
    if whole == "*"@ {
        reveal_strlit("*");
        reveal_strlit("accept-encoding");
        crate::order::lemma_one_piece("*"@, ',');
        assert(names[0] == "*"@);
        law_trimming(none, "*"@, none);
        assert(none + "*"@ + none =~= "*"@);
        assert(lowered("*"@).len() == 1);
        assert(lowered("accept-encoding"@).len() == 15);
    }
}

/// A request may be answered from the cache exactly where it is a `GET` without
/// credentials that neither forbids storing nor asks for a check.
pub proof fn law_requests_that_may_be_cached(
    method: Seq<char>,
    cache_control: Option<Seq<char>>,
    has_authorization: bool,
)
    ensures
        cacheable_request(method, cache_control, has_authorization) <==> method == "GET"@
            && !has_authorization && (cache_control matches Some(value) ==> forall|i: int|
            0 <= i < pieces(value, ',').len() ==> directive_name(#[trigger] pieces(value, ',')[i])
                != "no-store"@ && directive_name(pieces(value, ',')[i]) != "no-cache"@),
{
    if let Some(value) = cache_control {
        let ps = pieces(value, ',');
        if lists_directive(cache_control, "no-store"@) {
            let i = choose|i: int|
                0 <= i < ps.len() && directive_name(#[trigger] ps[i]) == "no-store"@;
            assert(directive_name(ps[i]) == "no-store"@);
        }
        if lists_directive(cache_control, "no-cache"@) {
            let i = choose|i: int|
                0 <= i < ps.len() && directive_name(#[trigger] ps[i]) == "no-cache"@;
            assert(directive_name(ps[i]) == "no-cache"@);
        }
    }
}

/// A request that may be cached is known in the cache by its host, its path and
/// query, and the codings that it asks for.
pub proof fn law_cache_key(
    method: Seq<char>,
    h: Seq<FieldText>,
    host: Seq<char>,
    target: Seq<char>,
)
    ensures
        key_for(method, h, host, target) is Some <==> cacheable_request(
            method,
            field_text(h, "cache-control"@),
            has_field(h, "authorization"@),
        ),
        key_for(method, h, host, target) matches Some(key) ==> key == host + target + seq![
            '\u{1f}',
        ] + crate::cache::canonical_codings(field_text(h, "accept-encoding"@)),
{
    if let Some(key) = key_for(method, h, host, target) {
        assert(key =~= host + target + seq!['\u{1f}'] + crate::cache::canonical_codings(
            field_text(h, "accept-encoding"@),
        ));
    }
}

/// What is kept of a response: its status and its end-to-end headers, under the
/// request's key, for as long as it says; nothing where the request has no key
/// or the response may not be kept.
pub proof fn law_what_is_kept_of_a_response(
    key: Option<Seq<char>>,
    status: u16,
    h: Seq<FieldText>,
)
    ensures
        capture_of(key, status, h) is Some <==> key is Some && ttl(
            status,
            field_text(h, "cache-control"@),
            has_field(h, "set-cookie"@),
            field_text(h, "vary"@),
        ) is Some,
        capture_of(key, status, h) matches Some(p) ==> {
            &&& Some(p.key) == key
            &&& Some(p.secs) == ttl(
                status,
                field_text(h, "cache-control"@),
                has_field(h, "set-cookie"@),
                field_text(h, "vary"@),
            )
            &&& p.response.status == status
            &&& p.response.headers == h.filter(end_to_end()).map_values(as_pair())
        },
{
    law_end_to_end_headers_are_stored(h);
}

/// A stored response is kept for as long as its own headers say, were it a
/// response of status 200 from the origin.
pub proof fn law_own_lifetime(response: ResponseText)
    ensures
        own_ttl(response) == ttl(
            200,
            first_value(response.headers, "cache-control"@),
            first_value(response.headers, "set-cookie"@) is Some,
            first_value(response.headers, "vary"@),
        ),
{
}

/// A fresh entry is served; a stale one is checked with the origin, by its tag,
/// where it has one, there is a target to ask and asking is possible; in every
/// other case the request goes upstream, and its answer may be kept.
pub proof fn law_what_the_cache_says(
    hit: ResponseText,
    key: Seq<char>,
    target: Option<EndpointText>,
    can_revalidate: bool,
)
    ensures
        advice(LookupText::Fresh(hit), key, target, can_revalidate) == ConsultedText::Serve(hit),
        advice(LookupText::Miss, key, target, can_revalidate) == ConsultedText::Fetch(Some(key)),
        match (first_value(hit.headers, "etag"@), target) {
            (Some(etag), Some(t)) => advice(LookupText::Stale(hit), key, target, can_revalidate)
                == if can_revalidate {
                ConsultedText::Revalidate { key, hit, target: t, etag }
            } else {
                ConsultedText::Fetch(Some(key))
            },
            _ => advice(LookupText::Stale(hit), key, target, can_revalidate)
                == ConsultedText::Fetch(Some(key)),
        },
{
}

/// What the origin says is done: a confirmed entry is served and kept for its
/// own lifetime, or a minute; a new response is served, and kept where it says
/// for how long; where the origin says nothing, the request goes upstream and
/// nothing is kept.
pub proof fn law_what_the_origin_says_is_done(
    key: Seq<char>,
    hit: ResponseText,
    fresh: ResponseText,
)
    ensures
        settlement(key, hit, RevalidatedText::NotModified) == (SettledText::Serve {
            response: hit,
            renewed: false,
        }),
        settlement(key, hit, RevalidatedText::Modified(fresh)) == (SettledText::Serve {
            response: fresh,
            renewed: true,
        }),
        settlement(key, hit, RevalidatedText::Failed) == SettledText::Fetch(key),
        refreshed(hit, RevalidatedText::NotModified) == Some(
            (
                match own_ttl(hit) {
                    Some(t) => t,
                    None => 60,
                },
                hit,
            ),
        ),
        refreshed(hit, RevalidatedText::Modified(fresh)) == match own_ttl(fresh) {
            Some(t) => Some((t, fresh)),
            None => None,
        },
        refreshed(hit, RevalidatedText::Failed) is None,
{
}

} // verus!
