//! Header lists as name and value pairs.
use crate::text::{before, chars_of, head, same_ignore_case, same_ignoring_case, string_of};
use vstd::prelude::*;

verus! {

/// One header as text.
pub type HeaderText = (Seq<char>, Seq<char>);

/// The texts of a header list.
pub open spec fn pairs(h: Seq<(String, String)>) -> Seq<HeaderText> {
    h.map_values(|p: (String, String)| (p.0@, p.1@))
}

/// The value of the first header called `name`, up to letter case.
pub open spec fn first_value(h: Seq<HeaderText>, name: Seq<char>) -> Option<Seq<char>>
    decreases h.len(),
{
    if h.len() == 0 {
        None
    } else if same_ignoring_case(h[0].0, name) {
        Some(h[0].1)
    } else {
        first_value(h.skip(1), name)
    }
}

/// Copies one header.
pub fn copy_pair(p: &(String, String)) -> (r: (String, String))
    ensures
        r.0@ == p.0@,
        r.1@ == p.1@,
{
    (p.0.clone(), p.1.clone())
}

/// Copies a header list.
pub fn copy_pairs(h: &Vec<(String, String)>) -> (r: Vec<(String, String)>)
    ensures
        pairs(r@) == pairs(h@),
{
    let mut out: Vec<(String, String)> = Vec::new();
    let mut i: usize = 0;
    while i < h.len()
        invariant
            i <= h.len(),
            pairs(out@) == pairs(h@.take(i as int)),
        decreases h.len() - i,
    {
        let ghost o = out@;
        let p = copy_pair(&h[i]);
        out.push(p);
        assert(pairs(out@) =~= pairs(o).push((p.0@, p.1@)));
        assert(pairs(h@.take(i + 1)) =~= pairs(h@.take(i as int)).push((h@[i as int].0@, h@[i as int].1@)));
        i = i + 1;
    }
    assert(h@.take(i as int) =~= h@);
    out
}

/// The first header called `name`.
pub fn find_value<'a>(h: &'a Vec<(String, String)>, name: &str) -> (r: Option<&'a str>)
    ensures
        match r {
            Some(v) => first_value(pairs(h@), name@) == Some(v@),
            None => first_value(pairs(h@), name@) is None,
        },
{
    let mut i: usize = 0;
    assert(pairs(h@).skip(0) =~= pairs(h@));
    while i < h.len()
        invariant
            i <= h.len(),
            first_value(pairs(h@), name@) == first_value(pairs(h@).skip(i as int), name@),
        decreases h.len() - i,
    {
        let ghost rest = pairs(h@).skip(i as int);
        assert(rest[0] == (h@[i as int].0@, h@[i as int].1@));
        if same_ignore_case(h[i].0.as_str(), name) {
            return Some(h[i].1.as_str());
        }
        assert(rest.skip(1) =~= pairs(h@).skip(i + 1));
        i = i + 1;
    }
    None
}

/// The host that a `Host` header names, without the port: an IPv6 address in
/// brackets whole, and otherwise what stands before the first colon.
pub open spec fn host_name(text: Seq<char>) -> Seq<char> {
    if text.len() > 0 && text[0] == '[' && text.contains(']') {
        head(text, ']').push(']')
    } else {
        head(text, ':')
    }
}

/// The host that a `Host` header names, without the port.
pub fn host_without_port(text: &str) -> (r: String)
    ensures
        r@ == host_name(text@),
{
    let chars = chars_of(text);
    let whole = chars.as_slice();
    if whole.len() > 0 && whole[0] == '[' {
        let inner = before(whole, ']');
        proof {
            lemma_head_cut(text@, ']');
        }
        if inner.len() < whole.len() {
            let mut name = string_of(inner);
            name.push(']');
            return name;
        }
    }
    string_of(before(whole, ':'))
}

/// The head is shorter than the text exactly where the separator occurs.
proof fn lemma_head_cut(s: Seq<char>, sep: char)
    ensures
        head(s, sep).len() <= s.len(),
        head(s, sep).len() < s.len() <==> s.contains(sep),
    decreases s.len(),
{
    if s.len() > 0 {
        if s[0] == sep {
            assert(s.contains(sep));
        } else {
            let t = s.skip(1);
            lemma_head_cut(t, sep);
            if t.contains(sep) {
                let k = choose|k: int| 0 <= k < t.len() && t[k] == sep;
                assert(s[k + 1] == sep);
            }
            if s.contains(sep) {
                let k = choose|k: int| 0 <= k < s.len() && s[k] == sep;
                assert(t[k - 1] == sep);
            }
        }
    }
}

} // verus!
