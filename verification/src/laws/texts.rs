//! How texts are taken apart: trimming, splitting at a separator, and reading
//! numbers.
use crate::numeral::{decimal_text, lemma_decimal_round_trip, numeral};
use crate::order::{joined, lemma_join_split};
use crate::text::{
    head, is_space, lemma_head, lemma_split_last, pieces, split_last, trimmed, trimmed_end,
    trimmed_start,
};
use vstd::prelude::*;

verus! {

/// Whether text is white space only.
pub open spec fn all_space(s: Seq<char>) -> bool {
    forall|i: int| 0 <= i < s.len() ==> is_space(#[trigger] s[i])
}

/// Whether text neither starts nor ends with white space.
pub open spec fn tight(s: Seq<char>) -> bool {
    s.len() > 0 ==> !is_space(s[0]) && !is_space(s[s.len() - 1])
}

/// Trimming takes the white space off both ends and nothing else.
pub proof fn law_trimming(before: Seq<char>, text: Seq<char>, behind: Seq<char>)
    requires
        all_space(before),
        all_space(behind),
        tight(text),
    ensures
        trimmed(before + text + behind) == text,
{
    let whole = before + text + behind;
    lemma_trim_start(before, text + behind);
    assert(whole =~= before + (text + behind));
    if text.len() > 0 {
        assert((text + behind)[0] == text[0]);
        lemma_trim_end(text, behind);
    } else {
        assert(text + behind =~= behind);
        lemma_trim_start(behind, text);
        assert(behind + text =~= behind);
        assert(trimmed_start(behind) =~= text);
        lemma_trim_start(before + behind, text);
        assert(whole =~= (before + behind) + text);
        assert forall|i: int| 0 <= i < (before + behind).len() implies is_space(
            #[trigger] (before + behind)[i],
        ) by {
            if i < before.len() {
                assert((before + behind)[i] == before[i]);
            } else {
                assert((before + behind)[i] == behind[i - before.len()]);
            }
        }
    }
}

proof fn lemma_trim_start(before: Seq<char>, rest: Seq<char>)
    ensures
        all_space(before) && (rest.len() > 0 ==> !is_space(rest[0])) ==> trimmed_start(
            before + rest,
        ) == rest,
    decreases before.len(),
{
    if all_space(before) && (rest.len() > 0 ==> !is_space(rest[0])) {
        let whole = before + rest;
        if before.len() > 0 {
            assert(is_space(before[0]));
            let more = before.skip(1);
            assert forall|i: int| 0 <= i < more.len() implies is_space(#[trigger] more[i]) by {
                assert(is_space(before[i + 1]));
            }
            lemma_trim_start(more, rest);
            assert(whole.skip(1) =~= more + rest);
        } else {
            assert(whole =~= rest);
        }
    }
}

proof fn lemma_trim_end(text: Seq<char>, behind: Seq<char>)
    requires
        all_space(behind),
        text.len() > 0 ==> !is_space(text[text.len() - 1]),
    ensures
        trimmed_end(text + behind) == text,
    decreases behind.len(),
{
    let whole = text + behind;
    if behind.len() > 0 {
        assert(is_space(behind[behind.len() - 1]));
        let less = behind.drop_last();
        assert forall|i: int| 0 <= i < less.len() implies is_space(#[trigger] less[i]) by {
            assert(is_space(behind[i]));
        }
        lemma_trim_end(text, less);
        assert(whole.drop_last() =~= text + less);
    } else {
        assert(whole =~= text);
    }
}

/// A text is nothing but white space exactly where nothing of it is left once
/// it is trimmed.
pub proof fn law_only_space(s: Seq<char>)
    ensures
        trimmed(s).len() == 0 <==> all_space(s),
{
    let none = Seq::<char>::empty();
    if all_space(s) {
        law_trimming(s, none, none);
        assert(s + none + none =~= s);
    }
    if trimmed(s).len() == 0 {
        lemma_all_trimmed_end(trimmed_start(s));
        lemma_all_trimmed_start(s);
    }
}

proof fn lemma_all_trimmed_start(s: Seq<char>)
    ensures
        trimmed_start(s).len() > 0 ==> !is_space(trimmed_start(s)[0]),
        trimmed_start(s).len() == 0 ==> all_space(s),
    decreases s.len(),
{
    if s.len() > 0 && is_space(s[0]) {
        let rest = s.skip(1);
        lemma_all_trimmed_start(rest);
        if trimmed_start(s).len() == 0 {
            assert forall|i: int| 0 <= i < s.len() implies is_space(#[trigger] s[i]) by {
                if i > 0 {
                    assert(is_space(rest[i - 1]));
                }
            }
        }
    }
}

proof fn lemma_all_trimmed_end(s: Seq<char>)
    ensures
        trimmed_end(s).len() == 0 ==> all_space(s),
    decreases s.len(),
{
    if s.len() > 0 && is_space(s.last()) {
        let front = s.drop_last();
        lemma_all_trimmed_end(front);
        if trimmed_end(s).len() == 0 {
            assert forall|i: int| 0 <= i < s.len() implies is_space(#[trigger] s[i]) by {
                if i < front.len() {
                    assert(is_space(front[i]));
                }
            }
        }
    }
}

/// Splitting a text that was joined from parts without the separator gives the
/// parts back, in order.
pub proof fn law_splitting(parts: Seq<Seq<char>>, sep: char)
    requires
        parts.len() > 0,
        forall|i: int| 0 <= i < parts.len() ==> !(#[trigger] parts[i]).contains(sep),
    ensures
        pieces(joined(parts, sep), sep) == parts,
{
    lemma_join_split(parts, sep);
}

/// What stands before the first separator is found, whether or not there is
/// one.
pub proof fn law_head(front: Seq<char>, sep: char, rest: Seq<char>)
    requires
        !front.contains(sep),
    ensures
        head(front, sep) == front,
        head(front.push(sep) + rest, sep) == front,
{
    let whole = front.push(sep) + rest;
    let n = front.len() as int;
    assert forall|j: int| 0 <= j < n implies front[j] != sep && whole[j] != sep by {
        assert(front.contains(front[j]));
    }
    lemma_head(front, sep, n);
    lemma_head(whole, sep, n);
    assert(front.take(n) =~= front);
    assert(whole.take(n) =~= front);
}

/// What stands on either side of the last separator is found.
pub proof fn law_split_at_the_last(front: Seq<char>, sep: char, back: Seq<char>)
    requires
        !back.contains(sep),
    ensures
        split_last(front.push(sep) + back, sep) == Some((front, back)),
{
    let whole = front.push(sep) + back;
    let n = front.len() as int;
    assert forall|j: int| n < j < whole.len() implies whole[j] != sep by {
        assert(whole[j] == back[j - n - 1]);
        assert(back.contains(back[j - n - 1]));
    }
    lemma_split_last(whole, sep, n);
    assert(whole.take(n) =~= front);
    assert(whole.skip(n + 1) =~= back);
}

/// A text without the separator is not split.
pub proof fn law_nothing_to_split_at(s: Seq<char>, sep: char)
    requires
        !s.contains(sep),
    ensures
        split_last(s, sep) is None,
    decreases s.len(),
{
    if s.len() > 0 {
        assert(s.contains(s[s.len() - 1]));
        let front = s.drop_last();
        assert(!front.contains(sep)) by {
            if front.contains(sep) {
                let k = choose|k: int| 0 <= k < front.len() && front[k] == sep;
                assert(s[k] == sep);
            }
        }
        law_nothing_to_split_at(front, sep);
    }
}

/// A number in decimal reads as itself, unless it is over the limit.
pub proof fn law_numbers_read_back(n: nat, max: nat)
    requires
        n <= max,
    ensures
        numeral(decimal_text(n), max) == Some(n),
{
    lemma_decimal_round_trip(n);
}

} // verus!
