//! Static file serving: safe resolution of a request path to a file.
//!
//! Leaving the root is prevented twice: a path with a `..` part is refused, and
//! the resolved path must lie below the resolved root, which also rules out an
//! escape through a symbolic link.
use crate::order::lemma_pieces_hold_no_separator;
use crate::paths::{join_path, path_below};
use crate::text::{chars_of, eq, is_text, maybe_string, pieces, split, string_of, views};
use vstd::prelude::*;
use vstd::utf8::{decode_utf8, encode_utf8, valid_utf8};

verus! {

/// The value of an ASCII hexadecimal digit, of either case.
pub open spec fn hex_digit(b: u8) -> Option<nat> {
    if 0x30 <= b <= 0x39 {
        Some((b - 0x30) as nat)
    } else if 0x41 <= b <= 0x46 {
        Some((b - 0x41 + 10) as nat)
    } else if 0x61 <= b <= 0x66 {
        Some((b - 0x61 + 10) as nat)
    } else {
        None
    }
}

/// Percent-decoding: `%` and two hexadecimal digits become one byte; every
/// other byte stays.
pub open spec fn percent_decoded(s: Seq<u8>) -> Seq<u8>
    decreases s.len(),
{
    if s.len() == 0 {
        Seq::empty()
    } else if s[0] == 0x25 && s.len() >= 3 && hex_digit(s[1]) is Some && hex_digit(s[2]) is Some {
        seq![(hex_digit(s[1])->0 * 16 + hex_digit(s[2])->0) as u8] + percent_decoded(s.skip(3))
    } else {
        seq![s[0]] + percent_decoded(s.skip(1))
    }
}

/// The text that a percent-encoded path stands for; none where the decoded
/// bytes are not UTF-8.
pub open spec fn decoded_path(path: Seq<char>) -> Option<Seq<char>> {
    let bytes = percent_decoded(encode_utf8(path));
    if valid_utf8(bytes) {
        Some(decode_utf8(bytes))
    } else {
        None
    }
}

/// `percent_encoding::percent_decode_str` replaces `%` and two hexadecimal
/// digits by the byte they denote and leaves every other byte; `decode_utf8`
/// on its result fails where the bytes are not UTF-8, and decodes them where
/// they are.
#[verifier::external_body]
fn percent_decode(path: &str) -> (r: Option<String>)
    ensures
        maybe_string(r) == decoded_path(path@),
{
    percent_encoding::percent_decode_str(path).decode_utf8().ok().map(|t| t.into_owned())
}

/// Whether a part of a path names a file or directory in its parent: it is
/// neither empty nor `.`.
pub open spec fn is_name(part: Seq<char>) -> bool {
    part.len() > 0 && part != "."@
}

/// The names among the parts of a path.
pub open spec fn names(parts: Seq<Seq<char>>) -> Seq<Seq<char>>
    decreases parts.len(),
{
    if parts.len() == 0 {
        Seq::empty()
    } else if is_name(parts.last()) {
        names(parts.drop_last()).push(parts.last())
    } else {
        names(parts.drop_last())
    }
}

/// The path of `names`, one below the other, below `root`.
pub open spec fn descended(root: Seq<char>, names: Seq<Seq<char>>) -> Seq<char>
    decreases names.len(),
{
    if names.len() == 0 {
        root
    } else {
        path_below(descended(root, names.drop_last()), names.last())
    }
}

/// The path that a request asks for below `root`; none where it cannot be
/// decoded or has a `..` part.
pub open spec fn candidate_path(root: Seq<char>, request_path: Seq<char>) -> Option<Seq<char>> {
    match decoded_path(request_path) {
        Some(text) => if pieces(text, '/').contains(".."@) {
            None
        } else {
            Some(descended(root, names(pieces(text, '/'))))
        },
        None => None,
    }
}

/// Whether the path is absolute.
pub open spec fn is_absolute(path: Seq<char>) -> bool {
    path.len() > 0 && path[0] == '/'
}

/// Whether `path` lies at or below `root`, part by part.
pub open spec fn lies_within(path: Seq<char>, root: Seq<char>) -> bool {
    &&& is_absolute(path) == is_absolute(root)
    &&& names(pieces(root, '/')).len() <= names(pieces(path, '/')).len()
    &&& names(pieces(path, '/')).take(names(pieces(root, '/')).len() as int) == names(
        pieces(root, '/'),
    )
}

/// The names among the parts.
fn keep_names(parts: &Vec<Vec<char>>) -> (r: Vec<Vec<char>>)
    ensures
        views(r@) == names(views(parts@)),
{
    let mut out: Vec<Vec<char>> = Vec::new();
    let ghost ps = views(parts@);
    let mut i: usize = 0;
    assert(views(out@) =~= Seq::<Seq<char>>::empty());
    while i < parts.len()
        invariant
            i <= parts.len(),
            ps == views(parts@),
            views(out@) == names(ps.take(i as int)),
        decreases parts.len() - i,
    {
        assert(ps[i as int] == parts@[i as int]@);
        assert(ps.take(i + 1).drop_last() =~= ps.take(i as int));
        if parts[i].len() > 0 && !is_text(parts[i].as_slice(), ".") {
            let ghost front = out@;
            let part: Vec<char> = parts[i].clone();
            assert(part@ =~= ps[i as int]);
            out.push(part);
            assert(views(out@) =~= views(front).push(ps[i as int]));
        }
        i = i + 1;
    }
    assert(ps.take(i as int) =~= ps);
    out
}

/// Whether one of the parts is `..`.
fn has_parent_part(parts: &Vec<Vec<char>>) -> (r: bool)
    ensures
        r == views(parts@).contains(".."@),
{
    let ghost ps = views(parts@);
    let mut i: usize = 0;
    while i < parts.len()
        invariant
            i <= parts.len(),
            ps == views(parts@),
            forall|j: int| 0 <= j < i ==> #[trigger] ps[j] != ".."@,
        decreases parts.len() - i,
    {
        assert(ps[i as int] == parts@[i as int]@);
        if is_text(parts[i].as_slice(), "..") {
            return true;
        }
        i = i + 1;
    }
    false
}

/// Whether `path` lies at or below `root`.
pub fn within(path: &str, root: &str) -> (r: bool)
    ensures
        r == lies_within(path@, root@),
{
    let p = chars_of(path);
    let q = chars_of(root);
    let p_absolute = p.len() > 0 && p[0] == '/';
    let q_absolute = q.len() > 0 && q[0] == '/';
    if p_absolute != q_absolute {
        return false;
    }
    let a = keep_names(&split(p.as_slice(), '/'));
    let b = keep_names(&split(q.as_slice(), '/'));
    let ghost av = names(pieces(path@, '/'));
    let ghost bv = names(pieces(root@, '/'));
    if b.len() > a.len() {
        return false;
    }
    let mut i: usize = 0;
    while i < b.len()
        invariant
            i <= b.len() <= a.len(),
            views(a@) == av,
            views(b@) == bv,
            av == names(pieces(path@, '/')),
            bv == names(pieces(root@, '/')),
            forall|j: int| 0 <= j < i ==> av[j] == bv[j],
        decreases b.len() - i,
    {
        assert(av[i as int] == a@[i as int]@);
        assert(bv[i as int] == b@[i as int]@);
        if !eq(a[i].as_slice(), b[i].as_slice()) {
            assert(av.take(bv.len() as int)[i as int] != bv[i as int]);
            return false;
        }
        i = i + 1;
    }
    assert(av.take(bv.len() as int) =~= bv);
    true
}

/// The path whose file is served for a candidate: a directory stands for its
/// `index.html`.
pub open spec fn served_for(candidate: Seq<char>, is_dir: bool) -> Seq<char> {
    if is_dir {
        path_below(candidate, "index.html"@)
    } else {
        candidate
    }
}

/// A directory that static files are served from.
#[derive(Debug, Clone)]
pub struct StaticDir {
    root: String,
}

impl View for StaticDir {
    type V = Seq<char>;

    closed spec fn view(&self) -> Seq<char> {
        self.root@
    }
}

impl StaticDir {
    /// A static-file root.
    pub fn new(root: String) -> (r: StaticDir)
        ensures
            r@ == root@,
    {
        StaticDir { root }
    }

    /// A copy of the root.
    pub fn copy(&self) -> (r: StaticDir)
        ensures
            r@ == self@,
    {
        StaticDir { root: self.root.clone() }
    }

    /// The path of the root.
    pub fn root(&self) -> (r: &str)
        ensures
            r@ == self@,
    {
        self.root.as_str()
    }

    /// The path that `request_path` asks for below the root, before the file
    /// system is asked; `None` where it would leave the root.
    pub fn candidate(&self, request_path: &str) -> (r: Option<String>)
        ensures
            maybe_string(r) == candidate_path(self@, request_path@),
    {
        // Decoding comes first, so that an encoded `..` is seen below.
        let decoded = match percent_decode(request_path) {
            Some(text) => text,
            None => return None,
        };
        let chars = chars_of(decoded.as_str());
        let parts = split(chars.as_slice(), '/');
        if has_parent_part(&parts) {
            return None;
        }
        let kept = keep_names(&parts);
        let ghost ns = names(pieces(decoded@, '/'));
        let mut path = self.root.clone();
        let mut i: usize = 0;
        while i < kept.len()
            invariant
                i <= kept.len(),
                views(kept@) == ns,
                path@ == descended(self@, ns.take(i as int)),
            decreases kept.len() - i,
        {
            assert(ns[i as int] == kept@[i as int]@);
            assert(ns.take(i + 1).drop_last() =~= ns.take(i as int));
            let part = string_of(kept[i].as_slice());
            path = join_path(path.as_str(), part.as_str());
            i = i + 1;
        }
        assert(ns.take(i as int) =~= ns);
        Some(path)
    }

    /// The path whose file is served for a candidate: a directory stands for
    /// its `index.html`.
    pub fn served_path(candidate: &str, is_dir: bool) -> (r: String)
        ensures
            r@ == served_for(candidate@, is_dir),
    {
        if is_dir {
            join_path(candidate, "index.html")
        } else {
            candidate.to_owned()
        }
    }

    /// Resolves `request_path` to a file below the root. `actual` and
    /// `actual_root` are the canonical paths of the served path and of the root,
    /// where they exist, and `is_file` tells whether the first is a file.
    pub fn resolve(
        &self,
        request_path: &str,
        actual: Option<String>,
        actual_root: Option<String>,
        is_file: bool,
    ) -> (r: Option<String>)
        ensures
            match r {
                Some(path) => resolves(
                    self@,
                    request_path@,
                    maybe_string(actual),
                    maybe_string(actual_root),
                    is_file,
                ) && actual == Some(path),
                None => !resolves(
                    self@,
                    request_path@,
                    maybe_string(actual),
                    maybe_string(actual_root),
                    is_file,
                ),
            },
    {
        if self.candidate(request_path).is_none() {
            return None;
        }
        match (actual, actual_root) {
            (Some(path), Some(root)) => if is_file && within(path.as_str(), root.as_str()) {
                Some(path)
            } else {
                None
            },
            _ => None,
        }
    }
}

/// Whether a request is answered with a file: its path does not leave the
/// root, and the canonical path is a file within the canonical root.
pub open spec fn resolves(
    root: Seq<char>,
    request_path: Seq<char>,
    actual: Option<Seq<char>>,
    actual_root: Option<Seq<char>>,
    is_file: bool,
) -> bool {
    &&& candidate_path(root, request_path) is Some
    &&& actual is Some
    &&& actual_root is Some
    &&& is_file
    &&& lies_within(actual->0, actual_root->0)
}

/// A candidate goes down from the root only: it is the root followed by plain
/// names, none of them empty, `.`, `..` or holding a `/`.
pub proof fn law_candidate_goes_down(root: Seq<char>, request_path: Seq<char>)
    requires
        candidate_path(root, request_path) is Some,
    ensures
        exists|ns: Seq<Seq<char>>|
            candidate_path(root, request_path) == Some(#[trigger] descended(root, ns)) && (forall|
                i: int,
            |
                0 <= i < ns.len() ==> (#[trigger] ns[i]).len() > 0 && ns[i] != "."@ && ns[i] != ".."@
                    && !ns[i].contains('/')),
{
    let text = decoded_path(request_path)->0;
    let parts = pieces(text, '/');
    lemma_pieces_hold_no_separator(text, '/');
    lemma_names_are_parts(parts);
    let ns = names(parts);
    assert forall|i: int| 0 <= i < ns.len() implies (#[trigger] ns[i]).len() > 0 && ns[i] != "."@
        && ns[i] != ".."@ && !ns[i].contains('/') by {
        assert(is_name(ns[i]) && parts.contains(ns[i]));
        let k = choose|k: int| 0 <= k < parts.len() && parts[k] == ns[i];
        assert(!parts[k].contains('/'));
    }
    assert(candidate_path(root, request_path) == Some(descended(root, ns)));
}

proof fn lemma_names_are_parts(parts: Seq<Seq<char>>)
    ensures
        forall|i: int|
            0 <= i < names(parts).len() ==> is_name(#[trigger] names(parts)[i]) && parts.contains(
                names(parts)[i],
            ),
    decreases parts.len(),
{
    if parts.len() > 0 {
        let front = parts.drop_last();
        lemma_names_are_parts(front);
        let ns = names(parts);
        assert forall|i: int| 0 <= i < ns.len() implies is_name(#[trigger] ns[i])
            && parts.contains(ns[i]) by {
            if i < names(front).len() {
                assert(ns[i] == names(front)[i]);
                let k = choose|k: int| 0 <= k < front.len() && front[k] == ns[i];
                assert(parts[k] == ns[i]);
            } else {
                assert(parts[parts.len() - 1] == ns[i]);
            }
        }
    }
}

} // verus!
