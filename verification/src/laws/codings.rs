//! Which codings a client accepts, and how strongly a response is compressed.
use crate::cache::{
    accepted_codings, coding_name, coding_names, refuses_coding, zero_text,
};
use crate::encoding::{
    coding_level, item_accepts, judges, negotiated, quality_text, BodyEncoder, Encoding,
};
use crate::laws::texts::{law_head, law_splitting, law_trimming, tight};
use crate::order::joined;
use crate::text::{lowered, pieces, same_ignoring_case, starts, trimmed};
use vstd::prelude::*;

verus! {

/// The tokens of the codings are those that HTTP knows them by.
pub proof fn law_tokens()
    ensures
        Encoding::Brotli.token() == seq!['b', 'r'],
        Encoding::Zstd.token() == seq!['z', 's', 't', 'd'],
        Encoding::Gzip.token() == seq!['g', 'z', 'i', 'p'],
{
    reveal_strlit("br");
    reveal_strlit("zstd");
    reveal_strlit("gzip");
    assert("br"@ =~= seq!['b', 'r']);
    assert("zstd"@ =~= seq!['z', 's', 't', 'd']);
    assert("gzip"@ =~= seq!['g', 'z', 'i', 'p']);
}

/// A field gives a quality where it starts with `q=`, in either case, and then
/// gives what follows.
pub proof fn law_quality_is_what_follows(field: Seq<char>, text: Seq<char>)
    ensures
        trimmed(field) == seq!['q', '='] + text ==> quality_text(field) == Some(text),
        trimmed(field) == seq!['Q', '='] + text ==> quality_text(field) == Some(text),
        quality_text(field) == Some(text) ==> trimmed(field) == seq!['q', '='] + text || trimmed(
            field,
        ) == seq!['Q', '='] + text,
{
    reveal_strlit("q=");
    reveal_strlit("Q=");
    assert("q="@ =~= seq!['q', '=']);
    assert("Q="@ =~= seq!['Q', '=']);
    let t = trimmed(field);
    let small = seq!['q', '='] + text;
    let large = seq!['Q', '='] + text;
    assert(small.take(2) =~= seq!['q', '='] && small.skip(2) =~= text);
    assert(large.take(2) =~= seq!['Q', '='] && large.skip(2) =~= text);
    if t == large {
        assert(t.take(2)[0] == 'Q');
        assert(seq!['q', '='][0] == 'q');
    }
    if t.len() >= 2 {
        assert(t =~= t.take(2) + t.skip(2));
    }
}

/// An item accepts a coding exactly where it is called so, up to case and
/// spacing, and none of its fields gives it a quality of zero.
pub proof fn law_item_names_its_coding(
    fields: Seq<Seq<char>>,
    coding: Seq<char>,
    zero: spec_fn(Seq<char>) -> bool,
)
    requires
        fields.len() > 0,
        forall|i: int| 0 <= i < fields.len() ==> !(#[trigger] fields[i]).contains(';'),
        tight(joined(fields, ';')),
    ensures
        item_accepts(joined(fields, ';'), coding, zero) <==> {
            &&& same_ignoring_case(trimmed(fields[0]), coding)
            &&& forall|i: int, text: Seq<char>|
                1 <= i < fields.len() && #[trigger] quality_text(fields[i]) == Some(text)
                    ==> !#[trigger] zero(text)
        },
{
    law_splitting(fields, ';');
    let whole = joined(fields, ';');
    let none = Seq::<char>::empty();
    law_trimming(none, whole, none);
    assert(none + whole + none =~= whole);
}

/// A client gets the best coding of those that an item of its list accepts:
/// Brotli before Zstd before gzip; none where it accepts none, or sends no list.
pub proof fn law_best_coding_is_negotiated(
    items: Seq<Seq<char>>,
    zero: spec_fn(Seq<char>) -> bool,
)
    requires
        items.len() > 0,
        forall|i: int| 0 <= i < items.len() ==> !(#[trigger] items[i]).contains(','),
    ensures
        negotiated(None, zero) is None,
        ({
            let br = exists|i: int|
                0 <= i < items.len() && item_accepts(#[trigger] items[i], seq!['b', 'r'], zero);
            let zstd = exists|i: int|
                0 <= i < items.len() && item_accepts(
                    #[trigger] items[i],
                    seq!['z', 's', 't', 'd'],
                    zero,
                );
            let gzip = exists|i: int|
                0 <= i < items.len() && item_accepts(
                    #[trigger] items[i],
                    seq!['g', 'z', 'i', 'p'],
                    zero,
                );
            &&& br ==> negotiated(Some(joined(items, ',')), zero) == Some(Encoding::Brotli)
            &&& !br && zstd ==> negotiated(Some(joined(items, ',')), zero) == Some(Encoding::Zstd)
            &&& !br && !zstd && gzip ==> negotiated(Some(joined(items, ',')), zero) == Some(
                Encoding::Gzip,
            )
            &&& !br && !zstd && !gzip ==> negotiated(Some(joined(items, ',')), zero) is None
        }),
{
    law_splitting(items, ',');
    law_tokens();
}

/// A configured level is used as it is within the coding's range, and otherwise
/// becomes the nearest end of it.
pub proof fn law_level_is_kept_in_range(level: u32)
    ensures
        level <= 9 ==> coding_level(Encoding::Gzip, level) == level,
        level > 9 ==> coding_level(Encoding::Gzip, level) == 9,
        level <= 11 ==> coding_level(Encoding::Brotli, level) == level,
        level > 11 ==> coding_level(Encoding::Brotli, level) == 11,
        1 <= level <= 21 ==> coding_level(Encoding::Zstd, level) == level,
        level == 0 ==> coding_level(Encoding::Zstd, level) == 1,
        level > 21 ==> coding_level(Encoding::Zstd, level) == 21,
{
}

/// A Brotli stream can always be finished; a stream that an error has ended
/// neither takes more nor can be finished.
pub proof fn law_end_of_a_stream(encoder: BodyEncoder, data: Seq<u8>)
    ensures
        encoder.coding() == Some(Encoding::Brotli) ==> encoder.ends(),
        encoder.coding() is None ==> !encoder.ends() && !encoder.takes(data),
{
}

/// A quality is zero where the judge of quality values says so, and not where it
/// does not.
pub proof fn law_judge_decides<F: Fn(&str) -> bool>(
    judge: F,
    zero: spec_fn(Seq<char>) -> bool,
    text: &str,
    verdict: bool,
)
    requires
        judges(judge, zero),
        call_ensures(judge, (text,), verdict),
    ensures
        verdict <==> zero(text@),
{
}

/// So many zeros.
pub open spec fn zeros(n: nat) -> Seq<char> {
    Seq::new(n, |i: int| '0')
}

/// A quality is zero exactly where it is `0`, or `0.` and zeros only.
pub proof fn law_zero_quality(s: Seq<char>)
    ensures
        zero_text(s) <==> s == seq!['0'] || exists|n: nat|
            s == seq!['0', '.'] + #[trigger] zeros(n),
{
    if zero_text(s) && s.len() > 1 {
        let n = (s.len() - 2) as nat;
        assert(s =~= seq!['0', '.'] + zeros(n));
    }
    if zero_text(s) && s.len() == 1 {
        assert(s =~= seq!['0']);
    }
}

/// The codings that a client asks for are those that its items name, in lower
/// case, but for items that name none or refuse it.
pub proof fn law_codings_asked_for(parts: Seq<Seq<char>>, name: Seq<char>)
    ensures
        coding_names(parts).contains(name) <==> name.len() > 0 && exists|i: int|
            0 <= i < parts.len() && coding_name(#[trigger] parts[i]) == name && !refuses_coding(
                parts[i],
            ),
        accepted_codings(None).len() == 0,
    decreases parts.len(),
{
    if parts.len() > 0 {
        let front = parts.drop_last();
        let last = parts.last();
        law_codings_asked_for(front, name);
        let names = coding_names(parts);
        let before = coding_names(front);
        if before.contains(name) {
            let i = choose|i: int|
                0 <= i < front.len() && coding_name(#[trigger] front[i]) == name
                    && !refuses_coding(front[i]);
            assert(parts[i] == front[i]);
            let k = choose|k: int| 0 <= k < before.len() && before[k] == name;
            assert(names[k] == name);
        }
        if names.contains(name) && !before.contains(name) {
            let k = choose|k: int| 0 <= k < names.len() && names[k] == name;
            if k < before.len() {
                assert(before[k] == name);
            }
            assert(parts[parts.len() - 1] == last);
        }
        if name.len() > 0 && exists|i: int|
            0 <= i < parts.len() && coding_name(#[trigger] parts[i]) == name && !refuses_coding(
                parts[i],
            ) {
            let i = choose|i: int|
                0 <= i < parts.len() && coding_name(#[trigger] parts[i]) == name
                    && !refuses_coding(parts[i]);
            if i < front.len() {
                assert(front[i] == parts[i]);
            } else {
                assert(names[names.len() - 1] == name);
            }
        }
    }
}

/// An item names the coding before its first semicolon, in lower case and
/// without spaces around it.
pub proof fn law_coding_of_an_item(name: Seq<char>, rest: Seq<char>)
    requires
        !name.contains(';'),
    ensures
        coding_name(name) == lowered(trimmed(name)),
        coding_name(name.push(';') + rest) == lowered(trimmed(name)),
{
    law_head(name, ';', rest);
}

/// An item refuses its coding exactly where one of its fields gives a quality of
/// zero.
pub proof fn law_item_refuses_its_coding(fields: Seq<Seq<char>>)
    requires
        fields.len() > 0,
        forall|i: int| 0 <= i < fields.len() ==> !(#[trigger] fields[i]).contains(';'),
    ensures
        refuses_coding(joined(fields, ';')) <==> exists|i: int, text: Seq<char>|
            1 <= i < fields.len() && #[trigger] quality_text(fields[i]) == Some(text)
                && #[trigger] zero_text(text),
{
    law_splitting(fields, ';');
    let ps = pieces(joined(fields, ';'), ';');
    if refuses_coding(joined(fields, ';')) {
        let i = choose|i: int|
            1 <= i < ps.len() && quality_text(#[trigger] ps[i]) is Some && zero_text(
                quality_text(ps[i])->0,
            );
        assert(quality_text(fields[i]) == Some(quality_text(ps[i])->0));
    }
}

} // verus!
