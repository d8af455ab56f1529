//! The lexicographic order of texts, and lists in that order without repeats.
use crate::text::{lemma_pieces_nonempty, pieces, views};
use vstd::prelude::*;

verus! {

/// The lexicographic order by code point. UTF-8 keeps the order of code
/// points, so this is also the order of the encoded bytes.
pub open spec fn precedes(a: Seq<char>, b: Seq<char>) -> bool
    decreases a.len(),
{
    if b.len() == 0 {
        false
    } else if a.len() == 0 {
        true
    } else {
        a[0] < b[0] || (a[0] == b[0] && precedes(a.skip(1), b.skip(1)))
    }
}

/// Any two different texts are in order one way or the other.
pub proof fn lemma_precedes_total(a: Seq<char>, b: Seq<char>)
    ensures
        a == b || precedes(a, b) || precedes(b, a),
    decreases a.len(),
{
    if a.len() == 0 {
        if b.len() == 0 {
            assert(a =~= b);
        }
    } else if b.len() > 0 {
        lemma_precedes_total(a.skip(1), b.skip(1));
        if a[0] == b[0] && a.skip(1) == b.skip(1) {
            assert(a =~= seq![a[0]] + a.skip(1));
            assert(b =~= seq![b[0]] + b.skip(1));
        }
    }
}

/// No text precedes itself.
pub proof fn lemma_precedes_irreflexive(a: Seq<char>)
    ensures
        !precedes(a, a),
    decreases a.len(),
{
    if a.len() > 0 {
        lemma_precedes_irreflexive(a.skip(1));
    }
}

/// The order is transitive.
pub proof fn lemma_precedes_transitive(a: Seq<char>, b: Seq<char>, c: Seq<char>)
    requires
        precedes(a, b),
        precedes(b, c),
    ensures
        precedes(a, c),
    decreases a.len(),
{
    if a.len() > 0 && a[0] == b[0] && b[0] == c[0] {
        lemma_precedes_transitive(a.skip(1), b.skip(1), c.skip(1));
    }
}

/// Whether each text of the list precedes all later ones.
pub open spec fn ascending(l: Seq<Seq<char>>) -> bool {
    forall|i: int, j: int| 0 <= i < j < l.len() ==> precedes(#[trigger] l[i], #[trigger] l[j])
}

/// Whether two lists hold the same texts.
pub open spec fn same_members(a: Seq<Seq<char>>, b: Seq<Seq<char>>) -> bool {
    forall|t: Seq<char>| #[trigger] a.contains(t) <==> b.contains(t)
}

/// The texts of the list in ascending order, each once.
pub open spec fn sorted_distinct(l: Seq<Seq<char>>) -> Seq<Seq<char>> {
    choose|s: Seq<Seq<char>>| ascending(s) && same_members(s, l)
}

/// An ascending list is determined by its members.
pub proof fn lemma_ascending_unique(a: Seq<Seq<char>>, b: Seq<Seq<char>>)
    requires
        ascending(a),
        ascending(b),
        same_members(a, b),
    ensures
        a == b,
    decreases a.len(),
{
    if a.len() == 0 {
        if b.len() > 0 {
            assert(b.contains(b[0]));
            assert(a.contains(b[0]));
        }
        assert(a =~= b);
    } else {
        assert(a.contains(a.last()));
        assert(b.contains(a.last()));
        assert(b.contains(b.last()));
        assert(a.contains(b.last()));
        let i = choose|i: int| 0 <= i < a.len() && a[i] == b.last();
        let j = choose|j: int| 0 <= j < b.len() && b[j] == a.last();
        if a.last() != b.last() {
            assert(precedes(a[i], a[a.len() - 1]));
            assert(precedes(b[j], b[b.len() - 1]));
            lemma_precedes_transitive(a.last(), b.last(), a.last());
            lemma_precedes_irreflexive(a.last());
        }
        let x = a.drop_last();
        let y = b.drop_last();
        assert forall|t: Seq<char>| #[trigger] x.contains(t) <==> y.contains(t) by {
            if x.contains(t) {
                let k = choose|k: int| 0 <= k < x.len() && x[k] == t;
                assert(a[k] == t);
                assert(a.contains(t));
                let m = choose|m: int| 0 <= m < b.len() && b[m] == t;
                if m == b.len() - 1 {
                    assert(precedes(a[k], a[a.len() - 1]));
                    lemma_precedes_irreflexive(t);
                }
                assert(y[m] == t);
            }
            if y.contains(t) {
                let k = choose|k: int| 0 <= k < y.len() && y[k] == t;
                assert(b[k] == t);
                assert(b.contains(t));
                assert(a.contains(t));
                let m = choose|m: int| 0 <= m < a.len() && a[m] == t;
                if m == a.len() - 1 {
                    assert(precedes(b[k], b[b.len() - 1]));
                    lemma_precedes_irreflexive(t);
                }
                assert(x[m] == t);
            }
        }
        lemma_ascending_unique(x, y);
        assert(a =~= x.push(a.last()));
        assert(b =~= y.push(b.last()));
    }
}

/// Adding a text to an ascending list gives an ascending list.
proof fn lemma_insertion(s: Seq<Seq<char>>, t: Seq<char>) -> (r: Seq<Seq<char>>)
    requires
        ascending(s),
    ensures
        ascending(r),
        forall|u: Seq<char>| #[trigger] r.contains(u) <==> (s.contains(u) || u == t),
    decreases s.len(),
{
    if s.len() == 0 {
        let r = seq![t];
        assert forall|u: Seq<char>| #[trigger] r.contains(u) <==> (s.contains(u) || u == t) by {
            if u == t {
                assert(r[0] == u);
            }
        }
        return r;
    }
    let last = s.last();
    let front = s.drop_last();
    if last == t {
        assert(s[s.len() - 1] == t);
        return s;
    }
    lemma_precedes_total(last, t);
    if precedes(last, t) {
        let r = s.push(t);
        assert forall|i: int, j: int| 0 <= i < j < r.len() implies precedes(
            #[trigger] r[i],
            #[trigger] r[j],
        ) by {
            if j == s.len() && i < s.len() - 1 {
                assert(precedes(s[i], s[s.len() - 1]));
                lemma_precedes_transitive(s[i], last, t);
            }
        }
        lemma_push_members(s, t);
        return r;
    }
    let inner = lemma_insertion(front, t);
    let r = inner.push(last);
    assert(s =~= front.push(last));
    lemma_push_members(inner, last);
    lemma_push_members(front, last);
    assert forall|i: int, j: int| 0 <= i < j < r.len() implies precedes(
        #[trigger] r[i],
        #[trigger] r[j],
    ) by {
        if j == inner.len() {
            assert(inner.contains(r[i]));
            if r[i] != t {
                let k = choose|k: int| 0 <= k < front.len() && front[k] == r[i];
                assert(precedes(s[k], s[s.len() - 1]));
            }
        }
    }
    r
}

proof fn lemma_push_members(s: Seq<Seq<char>>, t: Seq<char>)
    ensures
        forall|u: Seq<char>| #[trigger] s.push(t).contains(u) <==> (s.contains(u) || u == t),
{
    let r = s.push(t);
    assert forall|u: Seq<char>| #[trigger] r.contains(u) <==> (s.contains(u) || u == t) by {
        if r.contains(u) {
            let k = choose|k: int| 0 <= k < r.len() && r[k] == u;
            if k < s.len() {
                assert(s[k] == u);
            }
        }
        if s.contains(u) {
            let k = choose|k: int| 0 <= k < s.len() && s[k] == u;
            assert(r[k] == u);
        }
        if u == t {
            assert(r[s.len() as int] == u);
        }
    }
}

/// Every list can be sorted: the sorted list is ascending and has the same
/// members.
pub proof fn lemma_sorted_exists(l: Seq<Seq<char>>)
    ensures
        ascending(sorted_distinct(l)),
        same_members(sorted_distinct(l), l),
    decreases l.len(),
{
    if l.len() == 0 {
        let none: Seq<Seq<char>> = Seq::empty();
        assert(ascending(none) && same_members(none, l));
    } else {
        let front = l.drop_last();
        lemma_sorted_exists(front);
        let r = lemma_insertion(sorted_distinct(front), l.last());
        lemma_push_members(front, l.last());
        assert(l =~= front.push(l.last()));
        assert forall|u: Seq<char>| #[trigger] r.contains(u) <==> l.contains(u) by {
            assert(sorted_distinct(front).contains(u) <==> front.contains(u));
        }
        assert(ascending(r) && same_members(r, l));
    }
}

/// Lists with the same members sort alike.
pub proof fn lemma_sorted_same(a: Seq<Seq<char>>, b: Seq<Seq<char>>)
    requires
        same_members(a, b),
    ensures
        sorted_distinct(a) == sorted_distinct(b),
{
    lemma_sorted_exists(a);
    let s = sorted_distinct(a);
    assert forall|u: Seq<char>| #[trigger] s.contains(u) <==> b.contains(u) by {
        assert(a.contains(u) <==> b.contains(u));
    }
    lemma_sorted_distinct(s, b);
}

/// Any ascending list with the members of `l` is the sorted list of `l`.
pub proof fn lemma_sorted_distinct(s: Seq<Seq<char>>, l: Seq<Seq<char>>)
    requires
        ascending(s),
        same_members(s, l),
    ensures
        sorted_distinct(l) == s,
{
    let c = sorted_distinct(l);
    assert(ascending(c) && same_members(c, l));
    assert forall|t: Seq<char>| #[trigger] c.contains(t) <==> s.contains(t) by {
        assert(c.contains(t) <==> l.contains(t));
        assert(s.contains(t) <==> l.contains(t));
    }
    lemma_ascending_unique(c, s);
}

/// How two texts compare.
#[derive(Clone, Copy, PartialEq, Eq, Structural)]
pub enum Rank {
    Before,
    Same,
    After,
}

/// Compares two texts.
pub fn rank(a: &[char], b: &[char]) -> (r: Rank)
    ensures
        match r {
            Rank::Before => precedes(a@, b@),
            Rank::Same => a@ == b@,
            Rank::After => precedes(b@, a@),
        },
{
    let mut i: usize = 0;
    assert(a@.skip(0) == a@);
    assert(b@.skip(0) == b@);
    while i < a.len() && i < b.len() && a[i] == b[i]
        invariant
            i <= a.len(),
            i <= b.len(),
            forall|j: int| 0 <= j < i ==> a@[j] == b@[j],
            precedes(a@, b@) == precedes(a@.skip(i as int), b@.skip(i as int)),
            precedes(b@, a@) == precedes(b@.skip(i as int), a@.skip(i as int)),
        decreases a.len() - i,
    {
        assert(a@.skip(i as int).skip(1) == a@.skip(i + 1));
        assert(b@.skip(i as int).skip(1) == b@.skip(i + 1));
        i = i + 1;
    }
    if i == a.len() {
        if i == b.len() {
            assert(a@ =~= b@);
            Rank::Same
        } else {
            Rank::Before
        }
    } else if i == b.len() {
        Rank::After
    } else if a[i] < b[i] {
        Rank::Before
    } else {
        Rank::After
    }
}

/// Adds a text to an ascending list, keeping it ascending.
fn insert_distinct(list: &mut Vec<Vec<char>>, t: Vec<char>)
    requires
        ascending(views(old(list)@)),
    ensures
        ascending(views(final(list)@)),
        forall|u: Seq<char>|
            #[trigger] views(final(list)@).contains(u) <==> (views(old(list)@).contains(u) || u
                == t@),
{
    let ghost v0 = views(list@);
    let mut i: usize = 0;
    while i < list.len()
        invariant
            i <= list.len(),
            v0 == views(list@),
            ascending(v0),
            forall|j: int| 0 <= j < i ==> precedes(#[trigger] v0[j], t@),
        ensures
            i <= list.len(),
            v0 == views(list@),
            forall|j: int| 0 <= j < i ==> precedes(#[trigger] v0[j], t@),
            i < list.len() ==> precedes(t@, v0[i as int]),
        decreases list.len() - i,
    {
        assert(v0[i as int] == list@[i as int]@);
        match rank(list[i].as_slice(), t.as_slice()) {
            Rank::Before => {
                i = i + 1;
            },
            Rank::Same => {
                assert(v0.contains(t@));
                return;
            },
            Rank::After => {
                break;
            },
        }
    }
    let ghost tv = t@;
    list.insert(i, t);
    proof {
        let v1 = views(list@);
        assert(v1 =~= v0.insert(i as int, tv));
        assert forall|a: int, b: int| 0 <= a < b < v1.len() implies precedes(
            #[trigger] v1[a],
            #[trigger] v1[b],
        ) by {
            if b < i {
            } else if a < i && b > i {
                assert(v1[b] == v0[b - 1]);
            } else if a == i {
                assert(v1[b] == v0[b - 1]);
                if b - 1 > i {
                    lemma_precedes_transitive(tv, v0[i as int], v0[b - 1]);
                }
            } else if a > i {
                assert(v1[a] == v0[a - 1]);
                assert(v1[b] == v0[b - 1]);
            }
        }
        assert forall|u: Seq<char>| #[trigger] v1.contains(u) <==> (v0.contains(u) || u == tv) by {
            if v1.contains(u) {
                let k = choose|k: int| 0 <= k < v1.len() && v1[k] == u;
                if k < i {
                    assert(v0[k] == u);
                } else if k > i {
                    assert(v0[k - 1] == u);
                }
            }
            if v0.contains(u) {
                let k = choose|k: int| 0 <= k < v0.len() && v0[k] == u;
                if k < i {
                    assert(v1[k] == u);
                } else {
                    assert(v1[k + 1] == u);
                }
            }
            if u == tv {
                assert(v1[i as int] == u);
            }
        }
    }
}

/// Sorts the texts and drops repeats.
pub fn sort_distinct(l: Vec<Vec<char>>) -> (r: Vec<Vec<char>>)
    ensures
        views(r@) == sorted_distinct(views(l@)),
        ascending(views(r@)),
        same_members(views(r@), views(l@)),
{
    let mut out: Vec<Vec<char>> = Vec::new();
    let mut i: usize = 0;
    let ghost v = views(l@);
    while i < l.len()
        invariant
            i <= l.len(),
            v == views(l@),
            ascending(views(out@)),
            same_members(views(out@), v.take(i as int)),
        decreases l.len() - i,
    {
        let ghost v0 = views(out@);
        assert(v[i as int] == l@[i as int]@);
        let t: Vec<char> = l[i].clone();
        assert(t@ =~= v[i as int]);
        insert_distinct(&mut out, t);
        proof {
            let v1 = views(out@);
            assert(v.take(i + 1) =~= v.take(i as int).push(v[i as int]));
            assert forall|u: Seq<char>| #[trigger] v1.contains(u) <==> v.take(i + 1).contains(u) by {
                assert(v0.contains(u) <==> v.take(i as int).contains(u));
                if v.take(i as int).contains(u) {
                    let k = choose|k: int| 0 <= k < i && v.take(i as int)[k] == u;
                    assert(v.take(i + 1)[k] == u);
                }
                if v.take(i + 1).contains(u) {
                    let w = v.take(i + 1);
                    let k = choose|k: int| 0 <= k < w.len() && w[k] == u;
                    if k < i {
                        assert(v.take(i as int)[k] == u);
                    }
                }
                if u == v[i as int] {
                    assert(v.take(i + 1)[i as int] == u);
                }
            }
        }
        i = i + 1;
    }
    assert(v.take(i as int) =~= v);
    proof {
        lemma_sorted_distinct(views(out@), v);
    }
    out
}

/// The texts in order, with `sep` between each two.
pub open spec fn joined(l: Seq<Seq<char>>, sep: char) -> Seq<char>
    decreases l.len(),
{
    if l.len() == 0 {
        Seq::empty()
    } else if l.len() == 1 {
        l[0]
    } else {
        joined(l.drop_last(), sep).push(sep) + l.last()
    }
}

/// Joins the texts with `sep`.
pub fn join(l: &Vec<Vec<char>>, sep: char) -> (r: Vec<char>)
    ensures
        r@ == joined(views(l@), sep),
{
    let mut out: Vec<char> = Vec::new();
    let mut i: usize = 0;
    let ghost v = views(l@);
    while i < l.len()
        invariant
            i <= l.len(),
            v == views(l@),
            out@ == joined(v.take(i as int), sep),
        decreases l.len() - i,
    {
        assert(v[i as int] == l@[i as int]@);
        assert(v.take(i + 1).drop_last() =~= v.take(i as int));
        if i > 0 {
            out.push(sep);
        }
        let ghost o = out@;
        let mut part: Vec<char> = l[i].clone();
        assert(part@ =~= v[i as int]);
        out.append(&mut part);
        assert(out@ =~= o + v[i as int]);
        if i == 0 {
            assert(o + v[0] =~= v[0]);
        }
        i = i + 1;
    }
    assert(v.take(i as int) =~= v);
    out
}

/// A text without the separator is one piece.
pub proof fn lemma_one_piece(s: Seq<char>, sep: char)
    requires
        !s.contains(sep),
    ensures
        pieces(s, sep) =~= seq![s],
    decreases s.len(),
{
    if s.len() == 0 {
        assert(s =~= Seq::<char>::empty());
    } else {
        let front = s.drop_last();
        assert(s[s.len() - 1] != sep);
        assert(!front.contains(sep)) by {
            if front.contains(sep) {
                let k = choose|k: int| 0 <= k < front.len() && front[k] == sep;
                assert(s[k] == sep);
            }
        }
        lemma_one_piece(front, sep);
        assert(front.push(s.last()) =~= s);
    }
}

/// A separator and a text without one add one piece.
pub proof fn lemma_piece_added(a: Seq<char>, b: Seq<char>, sep: char)
    requires
        !b.contains(sep),
    ensures
        pieces(a.push(sep) + b, sep) == pieces(a, sep).push(b),
    decreases b.len(),
{
    let whole = a.push(sep) + b;
    if b.len() == 0 {
        assert(whole =~= a.push(sep));
        assert(whole.drop_last() =~= a);
        assert(b =~= Seq::<char>::empty());
    } else {
        let front = b.drop_last();
        assert(b[b.len() - 1] != sep);
        assert(!front.contains(sep)) by {
            if front.contains(sep) {
                let k = choose|k: int| 0 <= k < front.len() && front[k] == sep;
                assert(b[k] == sep);
            }
        }
        lemma_piece_added(a, front, sep);
        assert(whole.drop_last() =~= a.push(sep) + front);
        assert(pieces(a, sep).push(front).drop_last() =~= pieces(a, sep));
        assert(front.push(b.last()) =~= b);
    }
}

/// Splitting undoes joining, where no text holds the separator.
pub proof fn lemma_join_split(l: Seq<Seq<char>>, sep: char)
    requires
        l.len() > 0,
        forall|i: int| 0 <= i < l.len() ==> !(#[trigger] l[i]).contains(sep),
    ensures
        pieces(joined(l, sep), sep) == l,
    decreases l.len(),
{
    if l.len() == 1 {
        assert(!l[0].contains(sep));
        lemma_one_piece(l[0], sep);
        assert(l =~= seq![l[0]]);
    } else {
        let front = l.drop_last();
        assert forall|i: int| 0 <= i < front.len() implies !(#[trigger] front[i]).contains(sep) by {
            assert(front[i] == l[i]);
        }
        lemma_join_split(front, sep);
        assert(!l[l.len() - 1].contains(sep));
        lemma_piece_added(joined(front, sep), l.last(), sep);
        assert(front.push(l.last()) =~= l);
    }
}

/// The pieces of a text hold no separator.
pub proof fn lemma_pieces_hold_no_separator(s: Seq<char>, sep: char)
    ensures
        forall|i: int| 0 <= i < pieces(s, sep).len() ==> !(#[trigger] pieces(s, sep)[i]).contains(sep),
    decreases s.len(),
{
    if s.len() > 0 {
        let front = s.drop_last();
        lemma_pieces_hold_no_separator(front, sep);
        lemma_pieces_nonempty(front, sep);
        let f = pieces(front, sep);
        let p = pieces(s, sep);
        assert forall|i: int| 0 <= i < p.len() implies !(#[trigger] p[i]).contains(sep) by {
            if i < f.len() - 1 {
                assert(p[i] == f[i]);
            } else if s.last() == sep {
                if i == f.len() - 1 {
                    assert(p[i] == f[i]);
                }
            } else {
                let last = f[f.len() - 1];
                assert(p[i] == last.push(s.last()));
                if p[i].contains(sep) {
                    let k = choose|k: int| 0 <= k < p[i].len() && p[i][k] == sep;
                    assert(last[k] == sep);
                    assert(last.contains(sep));
                }
            }
        }
    }
}

} // verus!
