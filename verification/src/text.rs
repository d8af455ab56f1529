//! Text as sequences of characters: trimming, splitting, matching and
//! comparing, each stated over `Seq<char>`.
use vstd::prelude::*;
use vstd::slice::slice_subrange;

verus! {

/// `String::push` appends the given character to the end of the string.
pub assume_specification[ String::push ](s: &mut String, c: char)
    ensures
        final(s)@ == old(s)@.push(c),
;

/// The characters with the Unicode property `White_Space`.
pub open spec fn is_space(c: char) -> bool {
    let n = c as u32;
    ||| 0x9 <= n <= 0xd
    ||| n == 0x20
    ||| n == 0x85
    ||| n == 0xa0
    ||| n == 0x1680
    ||| 0x2000 <= n <= 0x200a
    ||| n == 0x2028
    ||| n == 0x2029
    ||| n == 0x202f
    ||| n == 0x205f
    ||| n == 0x3000
}

/// Whether `c` is white space.
pub fn space(c: char) -> (r: bool)
    ensures
        r == is_space(c),
{
    let n: u32 = c as u32;
    (0x9 <= n && n <= 0xd) || n == 0x20 || n == 0x85 || n == 0xa0 || n == 0x1680 || (0x2000 <= n
        && n <= 0x200a) || n == 0x2028 || n == 0x2029 || n == 0x202f || n == 0x205f || n == 0x3000
}

/// The text without its leading white space.
pub open spec fn trimmed_start(s: Seq<char>) -> Seq<char>
    decreases s.len(),
{
    if s.len() > 0 && is_space(s[0]) {
        trimmed_start(s.skip(1))
    } else {
        s
    }
}

/// The text without its trailing white space.
pub open spec fn trimmed_end(s: Seq<char>) -> Seq<char>
    decreases s.len(),
{
    if s.len() > 0 && is_space(s.last()) {
        trimmed_end(s.drop_last())
    } else {
        s
    }
}

/// The text without white space at either end.
pub open spec fn trimmed(s: Seq<char>) -> Seq<char> {
    trimmed_end(trimmed_start(s))
}

/// The text without the trailing run of the character `c`.
pub open spec fn without_trailing(s: Seq<char>, c: char) -> Seq<char>
    decreases s.len(),
{
    if s.len() > 0 && s.last() == c {
        without_trailing(s.drop_last(), c)
    } else {
        s
    }
}

/// The pieces of `s` between occurrences of `sep`; one more than there are
/// separators.
pub open spec fn pieces(s: Seq<char>, sep: char) -> Seq<Seq<char>>
    decreases s.len(),
{
    if s.len() == 0 {
        seq![Seq::empty()]
    } else {
        let front = pieces(s.drop_last(), sep);
        if s.last() == sep {
            front.push(Seq::empty())
        } else {
            front.drop_last().push(front.last().push(s.last()))
        }
    }
}

/// The part of `s` before the first `sep`; all of it where there is none.
pub open spec fn head(s: Seq<char>, sep: char) -> Seq<char>
    decreases s.len(),
{
    if s.len() == 0 || s[0] == sep {
        Seq::empty()
    } else {
        seq![s[0]] + head(s.skip(1), sep)
    }
}

/// The parts of `s` before and behind its last `sep`; none where there is no
/// `sep`.
pub open spec fn split_last(s: Seq<char>, sep: char) -> Option<(Seq<char>, Seq<char>)>
    decreases s.len(),
{
    if s.len() == 0 {
        None
    } else if s.last() == sep {
        Some((s.drop_last(), Seq::empty()))
    } else {
        match split_last(s.drop_last(), sep) {
            Some((front, back)) => Some((front, back.push(s.last()))),
            None => None,
        }
    }
}

/// Whether `s` starts with `p`.
pub open spec fn starts(s: Seq<char>, p: Seq<char>) -> bool {
    p.len() <= s.len() && s.take(p.len() as int) == p
}

/// Whether `s` ends with `p`.
pub open spec fn ends(s: Seq<char>, p: Seq<char>) -> bool {
    p.len() <= s.len() && s.skip(s.len() - p.len()) == p
}

/// The ASCII lower-case form of a character; other characters are unchanged.
pub open spec fn lower_char(c: char) -> char {
    if 'A' <= c <= 'Z' {
        ((c as u32 + 32) as u32) as char
    } else {
        c
    }
}

/// The text with its ASCII letters in lower case.
pub open spec fn lowered(s: Seq<char>) -> Seq<char> {
    s.map_values(|c: char| lower_char(c))
}

/// Whether two texts are equal up to the case of ASCII letters.
pub open spec fn same_ignoring_case(a: Seq<char>, b: Seq<char>) -> bool {
    lowered(a) == lowered(b)
}

/// The characters of a string.
pub fn chars_of(s: &str) -> (r: Vec<char>)
    ensures
        r@ == s@,
{
    let mut out: Vec<char> = Vec::new();
    for c in it: s.chars()
        invariant
            out@ == it.seq().take(it.index()),
            it.seq() == s@,
    {
        out.push(c);
    }
    out
}

/// A string with the given characters.
pub fn string_of(s: &[char]) -> (r: String)
    ensures
        r@ == s@,
{
    let mut out = String::new();
    let mut i: usize = 0;
    while i < s.len()
        invariant
            i <= s.len(),
            out@ == s@.take(i as int),
        decreases s.len() - i,
    {
        out.push(s[i]);
        assert(s@.take(i + 1) == s@.take(i as int).push(s@[i as int]));
        i = i + 1;
    }
    assert(s@.take(i as int) == s@);
    out
}

/// The slice without white space at either end.
pub fn trim(s: &[char]) -> (r: &[char])
    ensures
        r@ == trimmed(s@),
{
    let mut start: usize = 0;
    assert(s@.skip(0) == s@);
    while start < s.len() && space(s[start])
        invariant
            start <= s.len(),
            trimmed_start(s@) == trimmed_start(s@.skip(start as int)),
        decreases s.len() - start,
    {
        assert(s@.skip(start as int).skip(1) == s@.skip(start + 1));
        start = start + 1;
    }
    assert(trimmed_start(s@) == s@.skip(start as int));
    let mut end: usize = s.len();
    while start < end && space(s[end - 1])
        invariant
            start <= end <= s.len(),
            trimmed(s@) == trimmed_end(s@.subrange(start as int, end as int)),
        decreases end,
    {
        assert(s@.subrange(start as int, end as int).drop_last() == s@.subrange(
            start as int,
            end - 1,
        ));
        end = end - 1;
    }
    slice_subrange(s, start, end)
}

/// The slice without its trailing run of `c`.
pub fn trim_end_char(s: &[char], c: char) -> (r: &[char])
    ensures
        r@ == without_trailing(s@, c),
{
    let mut end: usize = s.len();
    assert(s@.take(end as int) == s@);
    while 0 < end && s[end - 1] == c
        invariant
            end <= s.len(),
            without_trailing(s@, c) == without_trailing(s@.take(end as int), c),
        decreases end,
    {
        assert(s@.take(end as int).drop_last() == s@.take(end - 1));
        end = end - 1;
    }
    let r = slice_subrange(s, 0, end);
    assert(r@ == s@.take(end as int));
    r
}

/// The views of a list of character lists.
pub open spec fn views(v: Seq<Vec<char>>) -> Seq<Seq<char>> {
    v.map_values(|x: Vec<char>| x@)
}

/// The views of a list of strings.
pub open spec fn texts(v: Seq<String>) -> Seq<Seq<char>> {
    v.map_values(|x: String| x@)
}

/// The text of an optional string slice.
pub open spec fn maybe(o: Option<&str>) -> Option<Seq<char>> {
    match o {
        Some(s) => Some(s@),
        None => None,
    }
}

/// The text of an optional string.
pub open spec fn maybe_string(o: Option<String>) -> Option<Seq<char>> {
    match o {
        Some(s) => Some(s@),
        None => None,
    }
}

/// There is always at least one piece.
pub proof fn lemma_pieces_nonempty(s: Seq<char>, sep: char)
    ensures
        pieces(s, sep).len() > 0,
    decreases s.len(),
{
    if s.len() > 0 {
        lemma_pieces_nonempty(s.drop_last(), sep);
    }
}

/// Splits at every `sep`.
pub fn split(s: &[char], sep: char) -> (r: Vec<Vec<char>>)
    ensures
        views(r@) == pieces(s@, sep),
{
    let mut out: Vec<Vec<char>> = Vec::new();
    let mut cur: Vec<char> = Vec::new();
    let mut i: usize = 0;
    assert(views(out@).push(cur@) == pieces(s@.take(0), sep));
    while i < s.len()
        invariant
            i <= s.len(),
            views(out@).push(cur@) == pieces(s@.take(i as int), sep),
        decreases s.len() - i,
    {
        let c = s[i];
        let ghost front = pieces(s@.take(i as int), sep);
        assert(s@.take(i + 1).drop_last() == s@.take(i as int));
        assert(front.drop_last() == views(out@));
        assert(front.last() == cur@);
        if c == sep {
            let ghost before = out@;
            out.push(cur);
            cur = Vec::new();
            assert(views(out@) == front);
            assert(cur@ == Seq::<char>::empty());
        } else {
            cur.push(c);
        }
        i = i + 1;
    }
    let ghost before = out@;
    out.push(cur);
    assert(views(out@) == views(before).push(cur@));
    assert(s@.take(i as int) == s@);
    out
}

/// The head is everything before the first separator.
pub proof fn lemma_head(s: Seq<char>, sep: char, n: int)
    requires
        0 <= n <= s.len(),
        forall|j: int| 0 <= j < n ==> s[j] != sep,
        n < s.len() ==> s[n] == sep,
    ensures
        head(s, sep) == s.take(n),
    decreases n,
{
    if n > 0 {
        assert forall|j: int| 0 <= j < n - 1 implies s.skip(1)[j] != sep by {
            assert(s[j + 1] != sep);
        }
        lemma_head(s.skip(1), sep, n - 1);
        assert(seq![s[0]] + s.skip(1).take(n - 1) == s.take(n));
    } else {
        assert(s.take(0) == Seq::<char>::empty());
    }
}

/// The part before the first `sep`.
pub fn before(s: &[char], sep: char) -> (r: &[char])
    ensures
        r@ == head(s@, sep),
{
    let mut i: usize = 0;
    while i < s.len() && s[i] != sep
        invariant
            i <= s.len(),
            forall|j: int| 0 <= j < i ==> s@[j] != sep,
        decreases s.len() - i,
    {
        i = i + 1;
    }
    proof {
        lemma_head(s@, sep, i as int);
    }
    let r = slice_subrange(s, 0, i);
    assert(r@ == s@.take(i as int));
    r
}

/// Where the last `sep` is, the parts are what stands on either side of it.
pub proof fn lemma_split_last(s: Seq<char>, sep: char, n: int)
    requires
        0 <= n < s.len(),
        s[n] == sep,
        forall|j: int| n < j < s.len() ==> s[j] != sep,
    ensures
        split_last(s, sep) == Some((s.take(n), s.skip(n + 1))),
    decreases s.len(),
{
    if n == s.len() - 1 {
        assert(s.drop_last() =~= s.take(n));
        assert(s.skip(n + 1) =~= Seq::<char>::empty());
    } else {
        let front = s.drop_last();
        lemma_split_last(front, sep, n);
        assert(front.take(n) =~= s.take(n));
        assert(front.skip(n + 1).push(s.last()) =~= s.skip(n + 1));
    }
}

proof fn lemma_split_last_none(s: Seq<char>, sep: char)
    requires
        forall|j: int| 0 <= j < s.len() ==> s[j] != sep,
    ensures
        split_last(s, sep) is None,
    decreases s.len(),
{
    if s.len() > 0 {
        lemma_split_last_none(s.drop_last(), sep);
    }
}

/// The parts on either side of the last `sep`.
pub fn rsplit_once<'a>(s: &'a [char], sep: char) -> (r: Option<(&'a [char], &'a [char])>)
    ensures
        match r {
            Some((front, back)) => split_last(s@, sep) == Some((front@, back@)),
            None => split_last(s@, sep) is None,
        },
{
    let mut i: usize = s.len();
    while 0 < i
        invariant
            i <= s.len(),
            forall|j: int| i <= j < s.len() ==> s@[j] != sep,
        decreases i,
    {
        i = i - 1;
        if s[i] == sep {
            proof {
                lemma_split_last(s@, sep, i as int);
            }
            let front = slice_subrange(s, 0, i);
            let back = slice_subrange(s, i + 1, s.len());
            assert(front@ =~= s@.take(i as int));
            assert(back@ =~= s@.skip(i + 1));
            return Some((front, back));
        }
    }
    proof {
        lemma_split_last_none(s@, sep);
    }
    None
}

/// Whether a string is empty but for white space.
pub fn is_blank(s: &str) -> (r: bool)
    ensures
        r == (trimmed(s@).len() == 0),
{
    let chars = chars_of(s);
    trim(chars.as_slice()).len() == 0
}

/// Copies a list of strings.
pub fn copy_strings(v: &Vec<String>) -> (r: Vec<String>)
    ensures
        texts(r@) == texts(v@),
{
    let mut out: Vec<String> = Vec::new();
    let mut i: usize = 0;
    while i < v.len()
        invariant
            i <= v.len(),
            texts(out@) == texts(v@).take(i as int),
        decreases v.len() - i,
    {
        let ghost o = out@;
        let s = v[i].clone();
        out.push(s);
        assert(texts(out@) =~= texts(o).push(s@));
        assert(texts(v@).take(i + 1) =~= texts(v@).take(i as int).push(texts(v@)[i as int]));
        i = i + 1;
    }
    assert(texts(v@).take(i as int) =~= texts(v@));
    out
}

/// Copies an optional string.
pub fn copy_maybe(s: &Option<String>) -> (r: Option<String>)
    ensures
        maybe_string(r) == maybe_string(*s),
{
    match s {
        Some(t) => Some(t.clone()),
        None => None,
    }
}

/// Whether two slices hold the same characters.
pub fn eq(a: &[char], b: &[char]) -> (r: bool)
    ensures
        r == (a@ == b@),
{
    if a.len() != b.len() {
        return false;
    }
    let mut i: usize = 0;
    while i < a.len()
        invariant
            i <= a.len(),
            a.len() == b.len(),
            forall|j: int| 0 <= j < i ==> a@[j] == b@[j],
        decreases a.len() - i,
    {
        if a[i] != b[i] {
            return false;
        }
        i = i + 1;
    }
    assert(a@ =~= b@);
    true
}

/// Whether the slice holds the text of `t`.
pub fn is_text(s: &[char], t: &str) -> (r: bool)
    ensures
        r == (s@ == t@),
{
    let t_chars = chars_of(t);
    eq(s, t_chars.as_slice())
}

/// Whether two strings hold the same text.
pub fn same(a: &str, b: &str) -> (r: bool)
    ensures
        r == (a@ == b@),
{
    let a_chars = chars_of(a);
    is_text(a_chars.as_slice(), b)
}

/// Whether the slice starts with the text of `p`.
pub fn starts_with(s: &[char], p: &[char]) -> (r: bool)
    ensures
        r == starts(s@, p@),
{
    if p.len() > s.len() {
        return false;
    }
    let front = slice_subrange(s, 0, p.len());
    assert(front@ == s@.take(p.len() as int));
    eq(front, p)
}

/// Whether the slice ends with the text of `p`.
pub fn ends_with(s: &[char], p: &[char]) -> (r: bool)
    ensures
        r == ends(s@, p@),
{
    if p.len() > s.len() {
        return false;
    }
    let back = slice_subrange(s, s.len() - p.len(), s.len());
    assert(back@ == s@.skip(s.len() - p.len()));
    eq(back, p)
}

/// The rest of the slice behind `p`, if it starts with it.
pub fn strip_prefix<'a>(s: &'a [char], p: &[char]) -> (r: Option<&'a [char]>)
    ensures
        match r {
            Some(rest) => starts(s@, p@) && rest@ == s@.skip(p.len() as int),
            None => !starts(s@, p@),
        },
{
    if starts_with(s, p) {
        let rest = slice_subrange(s, p.len(), s.len());
        assert(rest@ == s@.skip(p.len() as int));
        Some(rest)
    } else {
        None
    }
}

/// The ASCII lower-case form of one character.
pub fn lower(c: char) -> (r: char)
    ensures
        r == lower_char(c),
{
    if 'A' <= c && c <= 'Z' {
        (c as u8 + 32u8) as char
    } else {
        c
    }
}

/// The text in ASCII lower case.
pub fn lowercase(s: &[char]) -> (r: Vec<char>)
    ensures
        r@ == lowered(s@),
{
    let mut out: Vec<char> = Vec::new();
    let mut i: usize = 0;
    while i < s.len()
        invariant
            i <= s.len(),
            out@ == lowered(s@.take(i as int)),
        decreases s.len() - i,
    {
        out.push(lower(s[i]));
        i = i + 1;
        assert(out@ == lowered(s@.take(i as int)));
    }
    assert(s@.take(i as int) == s@);
    out
}

/// Whether two slices are equal up to the case of ASCII letters.
pub fn eq_ignore_case(a: &[char], b: &[char]) -> (r: bool)
    ensures
        r == same_ignoring_case(a@, b@),
{
    let la = lowercase(a);
    let lb = lowercase(b);
    eq(la.as_slice(), lb.as_slice())
}

/// Whether two strings are equal up to the case of ASCII letters.
pub fn same_ignore_case(a: &str, b: &str) -> (r: bool)
    ensures
        r == same_ignoring_case(a@, b@),
{
    let ca = chars_of(a);
    let cb = chars_of(b);
    eq_ignore_case(ca.as_slice(), cb.as_slice())
}

/// Trimming adds no character.
pub proof fn lemma_trimmed_within(s: Seq<char>, c: char)
    requires
        trimmed(s).contains(c),
    ensures
        s.contains(c),
{
    lemma_trimmed_end_within(trimmed_start(s), c);
    lemma_trimmed_start_within(s, c);
}

proof fn lemma_trimmed_start_within(s: Seq<char>, c: char)
    requires
        trimmed_start(s).contains(c),
    ensures
        s.contains(c),
    decreases s.len(),
{
    if s.len() > 0 && is_space(s[0]) {
        let t = s.skip(1);
        lemma_trimmed_start_within(t, c);
        let k = choose|k: int| 0 <= k < t.len() && t[k] == c;
        assert(s[k + 1] == c);
    }
}

proof fn lemma_trimmed_end_within(s: Seq<char>, c: char)
    requires
        trimmed_end(s).contains(c),
    ensures
        s.contains(c),
    decreases s.len(),
{
    if s.len() > 0 && is_space(s.last()) {
        let t = s.drop_last();
        lemma_trimmed_end_within(t, c);
        let k = choose|k: int| 0 <= k < t.len() && t[k] == c;
        assert(s[k] == c);
    }
}

/// The head adds no character.
pub proof fn lemma_head_within(s: Seq<char>, sep: char, c: char)
    requires
        head(s, sep).contains(c),
    ensures
        s.contains(c),
    decreases s.len(),
{
    if s.len() > 0 && s[0] != sep {
        let h = head(s, sep);
        let k = choose|k: int| 0 <= k < h.len() && h[k] == c;
        if k == 0 {
            assert(s[0] == c);
        } else {
            let t = s.skip(1);
            assert(head(t, sep)[k - 1] == c);
            lemma_head_within(t, sep, c);
            let m = choose|m: int| 0 <= m < t.len() && t[m] == c;
            assert(s[m + 1] == c);
        }
    }
}

/// Lower case adds no character that is not a letter.
pub proof fn lemma_lowered_within(s: Seq<char>, c: char)
    requires
        lowered(s).contains(c),
        !('a' <= c <= 'z'),
    ensures
        s.contains(c),
{
    let k = choose|k: int| 0 <= k < lowered(s).len() && lowered(s)[k] == c;
    assert(lower_char(s[k]) == c);
    let n = (s[k] as u32 + 32) as u32;
    assert(s[k] == c);
}

} // verus!
