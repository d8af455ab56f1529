//! What of an upstream's response reaches a client over HTTP/3.
use crate::encoding::Encoding;
use crate::headers::HeaderText;
use crate::http3::{
    chosen_coding, edited, encoded_fields, given, passed_on, relay_fields, unnamed, visible,
    with_all_given, RelayText, SourceText,
};
use crate::laws::headers::{last_of_name, lemma_filter_member, sendable};
use crate::message::{has_field, FieldText};
use crate::text::{lowered, same_ignoring_case};
use vstd::prelude::*;

verus! {

/// Fields that are not called `name`.
pub open spec fn not_named(name: Seq<char>) -> spec_fn(RelayText) -> bool {
    |f: RelayText| f.name != name
}

/// Dropping a name drops the fields of that name and no other; the rest keep
/// their order.
pub proof fn law_dropping_fields(v: Seq<RelayText>, name: Seq<char>)
    ensures
        unnamed(v, name) == v.filter(not_named(name)),
    decreases v.len(),
{
    reveal(Seq::filter);
    if v.len() > 0 {
        law_dropping_fields(v.drop_last(), name);
    } else {
        assert(unnamed(v, name) =~= v);
    }
}

/// The field that names a coding.
pub open spec fn coding_field(coding: Encoding) -> RelayText {
    let token = match coding {
        Encoding::Brotli => "br"@,
        Encoding::Zstd => "zstd"@,
        Encoding::Gzip => "gzip"@,
    };
    RelayText {
        name: "content-encoding"@,
        text: Some(token),
        source: SourceText::Given(token),
    }
}

/// Compressing a response changes no field but two: `content-length` is
/// dropped, and the coding is named behind all others, which keep their order.
/// A response that is not compressed keeps all its fields.
pub proof fn law_compressing_changes_two_fields(fields: Seq<RelayText>, coding: Encoding)
    ensures
        encoded_fields(fields, Some(coding)) == fields.filter(
            not_named("content-length"@),
        ).push(coding_field(coding)),
        encoded_fields(fields, None) == fields,
{
    reveal_strlit("br");
    reveal_strlit("zstd");
    reveal_strlit("gzip");
    reveal_strlit("content-encoding");
    reveal_strlit("content-length");
    assert("content-encoding"@.len() != "content-length"@.len());
    assert(visible(coding.token()));
    let list = fields.push(given("content-encoding"@, coding.token()));
    assert(list.drop_last() =~= fields);
    law_dropping_fields(fields, "content-length"@);
    assert(given("content-encoding"@, coding.token()) =~= coding_field(coding));
}

/// A response is compressed only where compression is on and the upstream has
/// not encoded it, and then as it was negotiated with the client.
pub proof fn law_compressing_where_wanted(
    fields: Seq<RelayText>,
    accept_encoding: Option<Seq<char>>,
    level: Option<u32>,
    zero: spec_fn(Seq<char>) -> bool,
)
    ensures
        level is None ==> chosen_coding(fields, accept_encoding, level, zero) is None,
        (exists|i: int| 0 <= i < fields.len() && (#[trigger] fields[i]).name == "content-encoding"@)
            ==> chosen_coding(fields, accept_encoding, level, zero) is None,
        level is Some && !(exists|i: int|
            0 <= i < fields.len() && (#[trigger] fields[i]).name == "content-encoding"@)
            ==> chosen_coding(fields, accept_encoding, level, zero)
            == crate::encoding::negotiated(accept_encoding, zero),
{
    let list = relay_fields(fields);
    if exists|i: int| 0 <= i < fields.len() && (#[trigger] fields[i]).name == "content-encoding"@ {
        let i = choose|i: int|
            0 <= i < fields.len() && (#[trigger] fields[i]).name == "content-encoding"@;
        assert(list[i].0 == "content-encoding"@);
    }
    if has_field(list, "content-encoding"@) {
        let i = choose|i: int| 0 <= i < list.len() && (#[trigger] list[i]).0
            == "content-encoding"@;
        assert(fields[i].name == "content-encoding"@);
    }
}

/// The upstream's field at a place, passed on as it is.
pub open spec fn original(h: Seq<FieldText>, i: int) -> RelayText {
    RelayText { name: h[i].0, text: h[i].1, source: SourceText::Copied(i) }
}

/// A field that the route sets: its name in lower case and its value.
pub open spec fn set_field(h: HeaderText) -> RelayText {
    RelayText {
        name: lowered(h.0),
        text: if visible(h.1) {
            Some(h.1)
        } else {
            None
        },
        source: SourceText::Given(h.1),
    }
}

/// Whether a field concerns the connection to the upstream alone.
pub open spec fn hop_by_hop(name: Seq<char>) -> bool {
    name == "connection"@ || name == "transfer-encoding"@ || name == "upgrade"@
}

/// Whether the route sets a field of this name.
pub open spec fn route_sets_name(sets: Seq<HeaderText>, name: Seq<char>) -> bool {
    exists|i: int| 0 <= i < sets.len() && sendable()(#[trigger] sets[i]) && lowered(sets[i].0) == name
}

/// The client gets every field of the upstream's that does not concern the
/// connection and that the route does not set, byte for byte; the last value
/// that the route sets for each name; and nothing else.
pub proof fn law_fields_reach_the_client(
    h: Seq<FieldText>,
    sets: Seq<HeaderText>,
    f: RelayText,
)
    ensures
        edited(h, sets).contains(f) <==> {
            ||| exists|i: int|
                0 <= i < h.len() && f == #[trigger] original(h, i) && !hop_by_hop(h[i].0)
                    && !route_sets_name(sets, h[i].0)
            ||| exists|i: int| #[trigger] last_of_name(sets, i) && f == set_field(sets[i])
        },
{
    let all = passed_on(h);
    let a = unnamed(all, "connection"@);
    let b = unnamed(a, "transfer-encoding"@);
    let c = unnamed(b, "upgrade"@);
    law_dropping_fields(all, "connection"@);
    law_dropping_fields(a, "transfer-encoding"@);
    law_dropping_fields(b, "upgrade"@);
    lemma_filter_member(all, not_named("connection"@), f);
    lemma_filter_member(a, not_named("transfer-encoding"@), f);
    lemma_filter_member(b, not_named("upgrade"@), f);
    lemma_given(c, sets, f);
    assert(c.contains(f) <==> all.contains(f) && !hop_by_hop(f.name));
    if all.contains(f) {
        let i = choose|i: int| 0 <= i < all.len() && all[i] == f;
        assert(f == original(h, i));
    }
    if exists|i: int|
        0 <= i < h.len() && f == #[trigger] original(h, i) && !hop_by_hop(h[i].0)
            && !route_sets_name(sets, h[i].0) {
        let i = choose|i: int|
            0 <= i < h.len() && f == #[trigger] original(h, i) && !hop_by_hop(h[i].0)
                && !route_sets_name(sets, h[i].0);
        assert(all[i] == f);
        assert(all.contains(f));
    }
    if c.contains(f) && !route_sets_name(sets, f.name) {
        let i = choose|i: int| 0 <= i < all.len() && all[i] == f;
        assert(f == original(h, i) && !hop_by_hop(h[i].0) && !route_sets_name(sets, h[i].0));
    }
}

proof fn lemma_given(v: Seq<RelayText>, sets: Seq<HeaderText>, f: RelayText)
    ensures
        with_all_given(v, sets).contains(f) <==> {
            ||| v.contains(f) && !route_sets_name(sets, f.name)
            ||| exists|i: int| #[trigger] last_of_name(sets, i) && f == set_field(sets[i])
        },
    decreases sets.len(),
{
    if sets.len() > 0 {
        let front = sets.drop_last();
        let last = sets.last();
        let n = front.len() as int;
        let before = with_all_given(v, front);
        lemma_given(v, front, f);
        lemma_sets(sets, f);
        if sendable()(last) {
            let kept = unnamed(before, lowered(last.0));
            law_dropping_fields(before, lowered(last.0));
            lemma_filter_member(before, not_named(lowered(last.0)), f);
            assert(given(lowered(last.0), last.1) =~= set_field(last));
            assert(with_all_given(v, sets) == kept.push(set_field(last)));
            lemma_push_field(kept, set_field(last), f);
        } else {
            assert(with_all_given(v, sets) == before);
        }
    } else {
        assert forall|i: int| !(#[trigger] last_of_name(sets, i)) by {}
    }
}

proof fn lemma_push_field(s: Seq<RelayText>, x: RelayText, f: RelayText)
    ensures
        s.push(x).contains(f) <==> s.contains(f) || x == f,
{
    if s.contains(f) {
        let k = choose|k: int| 0 <= k < s.len() && s[k] == f;
        assert(s.push(x)[k] == f);
    }
    if x == f {
        assert(s.push(x)[s.len() as int] == f);
    }
    if s.push(x).contains(f) {
        let k = choose|k: int| 0 <= k < s.push(x).len() && s.push(x)[k] == f;
        if k < s.len() {
            assert(s[k] == f);
        }
    }
}

/// The last headers of their names in a list are those of its front that the
/// last header does not replace, and the last header where it can be sent.
proof fn lemma_sets(sets: Seq<HeaderText>, f: RelayText)
    requires
        sets.len() > 0,
    ensures
        ({
            let front = sets.drop_last();
            let last = sets.last();
            &&& (exists|i: int| #[trigger] last_of_name(sets, i) && f == set_field(sets[i])) <==> {
                ||| (exists|i: int|
                    #[trigger] last_of_name(front, i) && f == set_field(front[i])) && !(
                sendable()(last) && lowered(last.0) == f.name)
                ||| sendable()(last) && f == set_field(last)
            }
            &&& route_sets_name(sets, f.name) <==> route_sets_name(front, f.name) || (sendable()(
                last,
            ) && lowered(last.0) == f.name)
        }),
{
    let front = sets.drop_last();
    let last = sets.last();
    let n = front.len() as int;
    if exists|i: int| #[trigger] last_of_name(sets, i) && f == set_field(sets[i]) {
        let i = choose|i: int| #[trigger] last_of_name(sets, i) && f == set_field(sets[i]);
        if i < n {
            assert(front[i] == sets[i]);
            assert forall|j: int|
                i < j < front.len() && sendable()(#[trigger] front[j]) implies !same_ignoring_case(
                front[j].0,
                front[i].0,
            ) by {
                assert(sets[j] == front[j]);
            }
            assert(last_of_name(front, i));
            assert(sets[n] == last);
        }
    }
    if exists|i: int| #[trigger] last_of_name(front, i) && f == set_field(front[i]) {
        if !(sendable()(last) && lowered(last.0) == f.name) {
            let i = choose|i: int| #[trigger] last_of_name(front, i) && f == set_field(front[i]);
            assert(sets[i] == front[i]);
            assert forall|j: int|
                i < j < sets.len() && sendable()(#[trigger] sets[j]) implies !same_ignoring_case(
                sets[j].0,
                sets[i].0,
            ) by {
                if j < n {
                    assert(front[j] == sets[j]);
                }
            }
            assert(last_of_name(sets, i));
        }
    }
    if sendable()(last) && f == set_field(last) {
        assert(last_of_name(sets, n));
    }
    if route_sets_name(sets, f.name) {
        let i = choose|i: int|
            0 <= i < sets.len() && sendable()(#[trigger] sets[i]) && lowered(sets[i].0) == f.name;
        if i < n {
            assert(front[i] == sets[i]);
        }
    }
    if route_sets_name(front, f.name) {
        let i = choose|i: int|
            0 <= i < front.len() && sendable()(#[trigger] front[i]) && lowered(front[i].0)
                == f.name;
        assert(sets[i] == front[i]);
    }
    if sendable()(last) && lowered(last.0) == f.name {
        assert(sets[n] == last);
    }
}

/// Whether the upstream's fields stand in the order they came in, each once.
pub open spec fn in_order(v: Seq<RelayText>) -> bool {
    forall|a: int, b: int|
        0 <= a < b < v.len() && (#[trigger] v[a]).source is Copied && (#[trigger] v[b]).source
            is Copied ==> v[a].source->Copied_0 < v[b].source->Copied_0
}

/// The upstream's fields reach the client in the order they came in.
pub proof fn law_fields_keep_their_order(h: Seq<FieldText>, sets: Seq<HeaderText>)
    ensures
        in_order(edited(h, sets)),
{
    let all = passed_on(h);
    assert(in_order(all));
    let a = unnamed(all, "connection"@);
    let b = unnamed(a, "transfer-encoding"@);
    let c = unnamed(b, "upgrade"@);
    lemma_unnamed_in_order(all, "connection"@);
    lemma_unnamed_in_order(a, "transfer-encoding"@);
    lemma_unnamed_in_order(b, "upgrade"@);
    lemma_given_in_order(c, sets);
}

proof fn lemma_unnamed_in_order(v: Seq<RelayText>, name: Seq<char>)
    requires
        in_order(v),
    ensures
        in_order(unnamed(v, name)),
        forall|i: int|
            0 <= i < unnamed(v, name).len() ==> v.contains(#[trigger] unnamed(v, name)[i]),
    decreases v.len(),
{
    if v.len() > 0 {
        let front = v.drop_last();
        assert(in_order(front)) by {
            assert forall|a: int, b: int|
                0 <= a < b < front.len() && (#[trigger] front[a]).source is Copied && (
                #[trigger] front[b]).source is Copied implies front[a].source->Copied_0
                < front[b].source->Copied_0 by {
                assert(v[a].source->Copied_0 < v[b].source->Copied_0);
            }
        }
        lemma_unnamed_in_order(front, name);
        let before = unnamed(front, name);
        let out = unnamed(v, name);
        assert forall|i: int| 0 <= i < out.len() implies v.contains(#[trigger] out[i]) by {
            if i < before.len() {
                assert(front.contains(before[i]));
                let k = choose|k: int| 0 <= k < front.len() && front[k] == before[i];
                assert(v[k] == out[i]);
            } else {
                assert(v[v.len() - 1] == out[i]);
            }
        }
        assert forall|a: int, b: int|
            0 <= a < b < out.len() && (#[trigger] out[a]).source is Copied && (
            #[trigger] out[b]).source is Copied implies out[a].source->Copied_0
            < out[b].source->Copied_0 by {
            if b < before.len() {
                assert(before[a].source->Copied_0 < before[b].source->Copied_0);
            } else {
                assert(front.contains(before[a]));
                let k = choose|k: int| 0 <= k < front.len() && front[k] == before[a];
                assert(v[k].source->Copied_0 < v[v.len() - 1].source->Copied_0);
            }
        }
    }
}

proof fn lemma_given_in_order(v: Seq<RelayText>, sets: Seq<HeaderText>)
    requires
        in_order(v),
    ensures
        in_order(with_all_given(v, sets)),
    decreases sets.len(),
{
    if sets.len() > 0 {
        let before = with_all_given(v, sets.drop_last());
        lemma_given_in_order(v, sets.drop_last());
        lemma_unnamed_in_order(before, lowered(sets.last().0));
    }
}

} // verus!
