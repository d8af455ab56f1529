//! What becomes of header lists: which headers are kept, dropped, added and
//! replaced, and in which order.
use crate::headers::{first_value, HeaderText};
use crate::message::{
    all_appended, all_inserted, appended, declared_length, field_text, has_field, inserted,
    is_header_name, is_header_value, safe_head, text_pairs, without, FieldText,
};
use crate::numeral::{decimal_text, is_digit, lemma_decimal_round_trip};
use crate::relay::storable;
use crate::text::{lowered, same_ignoring_case};
use vstd::prelude::*;

verus! {

/// Headers that are not called `name`, up to case.
pub open spec fn not_called(name: Seq<char>) -> spec_fn(HeaderText) -> bool {
    |h: HeaderText| !same_ignoring_case(h.0, name)
}

/// Headers that can be sent.
pub open spec fn sendable() -> spec_fn(HeaderText) -> bool {
    |h: HeaderText| is_header_name(h.0) && is_header_value(h.1)
}

/// Dropping a name drops every header of that name, up to case, and no other;
/// the rest keep their order.
pub proof fn law_dropping_a_name(list: Seq<HeaderText>, name: Seq<char>)
    ensures
        without(list, name) == list.filter(not_called(name)),
    decreases list.len(),
{
    reveal(Seq::filter);
    if list.len() > 0 {
        law_dropping_a_name(list.drop_last(), name);
    } else {
        assert(without(list, name) =~= list);
    }
}

/// Appending headers keeps what was there and adds those that can be sent, in
/// order, and no other.
pub proof fn law_appending(list: Seq<HeaderText>, more: Seq<HeaderText>)
    ensures
        all_appended(list, more) == list + more.filter(sendable()),
    decreases more.len(),
{
    reveal(Seq::filter);
    if more.len() > 0 {
        law_appending(list, more.drop_last());
        let front = more.drop_last().filter(sendable());
        if sendable()(more.last()) {
            assert((list + front).push(more.last()) =~= list + front.push(more.last()));
        }
    } else {
        assert(list + more =~= list);
    }
}

/// Whether the header at a place is the last that can be sent of its name.
pub open spec fn last_of_name(list: Seq<HeaderText>, i: int) -> bool {
    &&& 0 <= i < list.len()
    &&& sendable()(list[i])
    &&& forall|j: int|
        i < j < list.len() && sendable()(#[trigger] list[j]) ==> !same_ignoring_case(
            list[j].0,
            list[i].0,
        )
}

/// Whether one of the headers can be sent and is called `name`, up to case.
pub open spec fn sets_name(list: Seq<HeaderText>, name: Seq<char>) -> bool {
    exists|i: int|
        0 <= i < list.len() && sendable()(#[trigger] list[i]) && same_ignoring_case(
            list[i].0,
            name,
        )
}

/// Setting headers keeps every header of another name and puts, for each name
/// that is set, the last header of that name in place of all others; nothing
/// else is there.
pub proof fn law_setting(list: Seq<HeaderText>, more: Seq<HeaderText>, h: HeaderText)
    ensures
        all_inserted(list, more).contains(h) <==> {
            ||| list.contains(h) && !sets_name(more, h.0)
            ||| exists|i: int| #[trigger] last_of_name(more, i) && more[i] == h
        },
    decreases more.len(),
{
    if more.len() > 0 {
        let front = more.drop_last();
        let last = more.last();
        let before = all_inserted(list, front);
        let after = all_inserted(list, more);
        law_setting(list, front, h);
        law_dropping_a_name(before, last.0);
        lemma_filter_member(before, not_called(last.0), h);
        lemma_last_of_name(more, h);
        if sendable()(last) {
            let kept = without(before, last.0);
            lemma_push_member(kept, last, h);
            assert(after == kept.push(last));
            assert(kept.contains(h) <==> before.contains(h) && !same_ignoring_case(h.0, last.0));
            assert(sets_name(more, h.0) <==> sets_name(front, h.0) || same_ignoring_case(
                last.0,
                h.0,
            ));
        } else {
            assert(after == before);
            assert(sets_name(more, h.0) <==> sets_name(front, h.0));
        }
    } else {
        assert forall|i: int| !(#[trigger] last_of_name(more, i)) by {}
    }
}

proof fn lemma_push_member(s: Seq<HeaderText>, x: HeaderText, h: HeaderText)
    ensures
        s.push(x).contains(h) <==> s.contains(h) || x == h,
{
    if s.contains(h) {
        let k = choose|k: int| 0 <= k < s.len() && s[k] == h;
        assert(s.push(x)[k] == h);
    }
    if x == h {
        assert(s.push(x)[s.len() as int] == h);
    }
    if s.push(x).contains(h) {
        let k = choose|k: int| 0 <= k < s.push(x).len() && s.push(x)[k] == h;
        if k < s.len() {
            assert(s[k] == h);
        }
    }
}

/// What a filter keeps: the members that satisfy it.
pub proof fn lemma_filter_member<T>(s: Seq<T>, p: spec_fn(T) -> bool, x: T)
    ensures
        s.filter(p).contains(x) <==> s.contains(x) && p(x),
    decreases s.len(),
{
    reveal(Seq::filter);
    if s.len() > 0 {
        let front = s.drop_last();
        lemma_filter_member(front, p, x);
        if front.filter(p).contains(x) {
            let k = choose|k: int| 0 <= k < front.filter(p).len() && front.filter(p)[k] == x;
            assert(s.filter(p)[k] == x);
            let m = choose|m: int| 0 <= m < front.len() && front[m] == x;
            assert(s[m] == x);
        }
        if s.contains(x) && p(x) {
            let m = choose|m: int| 0 <= m < s.len() && s[m] == x;
            if m < front.len() {
                assert(front[m] == x);
            } else {
                assert(s.filter(p)[s.filter(p).len() - 1] == x);
            }
        }
        if s.filter(p).contains(x) {
            let k = choose|k: int| 0 <= k < s.filter(p).len() && s.filter(p)[k] == x;
            if k < front.filter(p).len() {
                assert(front.filter(p)[k] == x);
            } else {
                assert(s[s.len() - 1] == x);
            }
        }
    }
}

/// The last headers of their names in a list are those of its front that the
/// last header does not replace, and the last header where it can be sent.
proof fn lemma_last_of_name(more: Seq<HeaderText>, h: HeaderText)
    requires
        more.len() > 0,
    ensures
        ({
            let front = more.drop_last();
            let last = more.last();
            &&& (exists|i: int| #[trigger] last_of_name(more, i) && more[i] == h) <==> {
                ||| (exists|i: int| #[trigger] last_of_name(front, i) && front[i] == h) && !(
                sendable()(last) && same_ignoring_case(last.0, h.0))
                ||| sendable()(last) && last == h
            }
            &&& sets_name(more, h.0) <==> sets_name(front, h.0) || (sendable()(last)
                && same_ignoring_case(last.0, h.0))
        }),
{
    let front = more.drop_last();
    let last = more.last();
    let n = front.len() as int;
    if exists|i: int| #[trigger] last_of_name(more, i) && more[i] == h {
        let i = choose|i: int| #[trigger] last_of_name(more, i) && more[i] == h;
        if i < n {
            assert(front[i] == more[i]);
            assert forall|j: int|
                i < j < front.len() && sendable()(#[trigger] front[j]) implies !same_ignoring_case(
                front[j].0,
                front[i].0,
            ) by {
                assert(more[j] == front[j]);
            }
            assert(last_of_name(front, i));
            assert(more[n] == last);
        }
    }
    if exists|i: int| #[trigger] last_of_name(front, i) && front[i] == h {
        if !(sendable()(last) && same_ignoring_case(last.0, h.0)) {
            let i = choose|i: int| #[trigger] last_of_name(front, i) && front[i] == h;
            assert(more[i] == front[i]);
            assert forall|j: int|
                i < j < more.len() && sendable()(#[trigger] more[j]) implies !same_ignoring_case(
                more[j].0,
                more[i].0,
            ) by {
                if j < n {
                    assert(front[j] == more[j]);
                }
            }
            assert(last_of_name(more, i));
        }
    }
    if sendable()(last) && last == h {
        assert(last_of_name(more, n));
    }
    if sets_name(more, h.0) {
        let i = choose|i: int|
            0 <= i < more.len() && sendable()(#[trigger] more[i]) && same_ignoring_case(
                more[i].0,
                h.0,
            );
        if i < n {
            assert(front[i] == more[i]);
        }
    }
    if sets_name(front, h.0) {
        let i = choose|i: int|
            0 <= i < front.len() && sendable()(#[trigger] front[i]) && same_ignoring_case(
                front[i].0,
                h.0,
            );
        assert(more[i] == front[i]);
    }
    if sendable()(last) && same_ignoring_case(last.0, h.0) {
        assert(more[n] == last);
    }
}

/// A header that is set is the only one of its name, and stands last.
pub proof fn law_setting_one(list: Seq<HeaderText>, h: HeaderText)
    requires
        is_header_name(h.0) && is_header_value(h.1),
    ensures
        inserted(list, h) == list.filter(not_called(h.0)).push(h),
{
    law_dropping_a_name(list, h.0);
}

/// A header that cannot be sent changes nothing.
pub proof fn law_unsendable_header_changes_nothing(list: Seq<HeaderText>, h: HeaderText)
    requires
        !is_header_name(h.0) || !is_header_value(h.1),
    ensures
        inserted(list, h) == list,
        appended(list, h) == list,
{
}

/// Fields that have a text value.
pub open spec fn has_text() -> spec_fn(FieldText) -> bool {
    |f: FieldText| f.1 is Some
}

/// A field that has text, as a pair.
pub open spec fn as_pair() -> spec_fn(FieldText) -> HeaderText {
    |f: FieldText| (f.0, f.1->0)
}

/// The headers handed to plugins are the request's that have text, in order,
/// under their names and with their values.
pub proof fn law_text_fields_are_kept(h: Seq<FieldText>)
    ensures
        text_pairs(h) == h.filter(has_text()).map_values(as_pair()),
    decreases h.len(),
{
    reveal(Seq::filter);
    if h.len() > 0 {
        law_text_fields_are_kept(h.drop_last());
        let front = h.drop_last().filter(has_text());
        if h.last().1 is Some {
            assert(front.push(h.last()).map_values(as_pair()) =~= front.map_values(
                as_pair(),
            ).push((h.last().0, h.last().1->0)));
        }
    } else {
        assert(text_pairs(h) =~= h.filter(has_text()).map_values(as_pair()));
    }
}

/// Fields that have a text value and do not concern one connection or the
/// framing of a message.
pub open spec fn end_to_end() -> spec_fn(FieldText) -> bool {
    |f: FieldText|
        {
            let n = lowered(f.0);
            &&& f.1 is Some
            &&& n != "connection"@ && n != "keep-alive"@ && n != "proxy-connection"@
            &&& n != "transfer-encoding"@ && n != "upgrade"@ && n != "content-length"@
        }
}

/// What is stored of a response's headers, and handed to plugins: every one that
/// is end-to-end, in order, under its name and with its value, and no other.
pub proof fn law_end_to_end_headers_are_stored(h: Seq<FieldText>)
    ensures
        storable(h) == h.filter(end_to_end()).map_values(as_pair()),
    decreases h.len(),
{
    reveal(Seq::filter);
    if h.len() > 0 {
        law_end_to_end_headers_are_stored(h.drop_last());
        let front = h.drop_last().filter(end_to_end());
        if end_to_end()(h.last()) {
            assert(front.push(h.last()).map_values(as_pair()) =~= front.map_values(
                as_pair(),
            ).push((h.last().0, h.last().1->0)));
        }
    } else {
        assert(storable(h) =~= h.filter(end_to_end()).map_values(as_pair()));
    }
}

/// A field is read by its exact name; where several have it the first counts,
/// even where its value is no text.
pub proof fn law_first_field_counts(h: Seq<FieldText>, name: Seq<char>, i: int)
    requires
        0 <= i <= h.len(),
        forall|j: int| 0 <= j < i ==> (#[trigger] h[j]).0 != name,
        i < h.len() ==> h[i].0 == name,
    ensures
        i < h.len() ==> field_text(h, name) == h[i].1 && has_field(h, name),
        i == h.len() ==> field_text(h, name) is None && !has_field(h, name),
    decreases i,
{
    if i > 0 {
        let rest = h.skip(1);
        assert(h[0].0 != name);
        assert forall|j: int| 0 <= j < i - 1 implies (#[trigger] rest[j]).0 != name by {
            assert(h[j + 1].0 != name);
        }
        law_first_field_counts(rest, name, i - 1);
    }
}

/// A stored header is read by its name up to case; where several have it the
/// first counts.
pub proof fn law_first_value_counts(h: Seq<HeaderText>, name: Seq<char>, i: int)
    requires
        0 <= i <= h.len(),
        forall|j: int| 0 <= j < i ==> !same_ignoring_case((#[trigger] h[j]).0, name),
        i < h.len() ==> same_ignoring_case(h[i].0, name),
    ensures
        i < h.len() ==> first_value(h, name) == Some(h[i].1),
        i == h.len() ==> first_value(h, name) is None,
    decreases i,
{
    if i > 0 {
        let rest = h.skip(1);
        assert(!same_ignoring_case(h[0].0, name));
        assert forall|j: int| 0 <= j < i - 1 implies !same_ignoring_case(
            (#[trigger] rest[j]).0,
            name,
        ) by {
            assert(!same_ignoring_case(h[j + 1].0, name));
        }
        law_first_value_counts(rest, name, i - 1);
    }
}

/// The length that a request declares is the number that its first
/// `content-length` field gives in decimal.
pub proof fn law_declared_length(h: Seq<FieldText>, i: int, n: nat)
    requires
        0 <= i < h.len(),
        forall|j: int| 0 <= j < i ==> (#[trigger] h[j]).0 != "content-length"@,
        h[i] == ("content-length"@, Some(decimal_text(n))),
        n <= u64::MAX,
    ensures
        declared_length(h) == Some(n),
{
    law_first_field_counts(h, "content-length"@, i);
    lemma_decimal_round_trip(n);
}

/// The lower-case form of a header's name, with its value.
pub open spec fn with_lower_name() -> spec_fn(HeaderText) -> HeaderText {
    |h: HeaderText| (lowered(h.0), h.1)
}

/// A response head has the status that was given, or 502 where that has not
/// three digits; every header that can be sent, in order and with its name in
/// lower case; and the length, where there is one, in place of any other.
pub proof fn law_response_head(status: u16, headers: Seq<HeaderText>, length: Option<nat>)
    ensures
        safe_head(status, headers, length).status == if 100 <= status && status <= 999 {
            status
        } else {
            502
        },
        length is None ==> safe_head(status, headers, length).headers == headers.filter(
            sendable(),
        ).map_values(with_lower_name()),
        length matches Some(n) ==> safe_head(status, headers, length).headers == headers.filter(
            sendable(),
        ).filter(not_called("content-length"@)).map_values(with_lower_name()).push(
            ("content-length"@, decimal_text(n)),
        ),
{
    law_appending(Seq::empty(), headers);
    let kept = headers.filter(sendable());
    assert(Seq::<HeaderText>::empty() + kept =~= kept);
    if let Some(n) = length {
        lemma_length_is_sendable(n);
        law_setting_one(kept, ("content-length"@, decimal_text(n)));
        let rest = kept.filter(not_called("content-length"@));
        lemma_plain_length_name();
        assert(safe_head(status, headers, length).headers =~= rest.map_values(
            with_lower_name(),
        ).push(("content-length"@, decimal_text(n))));
    } else {
        assert(safe_head(status, headers, length).headers =~= kept.map_values(with_lower_name()));
    }
}

proof fn lemma_plain_length_name()
    ensures
        lowered("content-length"@) == "content-length"@,
{
    reveal_strlit("content-length");
    assert(lowered("content-length"@) =~= "content-length"@);
}

/// The header of a length can be sent.
pub proof fn lemma_length_is_sendable(n: nat)
    ensures
        is_header_name("content-length"@),
        is_header_value(decimal_text(n)),
{
    reveal_strlit("content-length");
    lemma_decimal_round_trip(n);
    let text = decimal_text(n);
    assert forall|i: int| 0 <= i < text.len() implies (#[trigger] text[i] == '\t' || (text[i] as u32
        >= 32 && text[i] as u32 != 127)) by {
        assert(is_digit(text[i]));
    }
}

} // verus!
