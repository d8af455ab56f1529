//! Which file a request for a static file gets.
use crate::laws::texts::law_splitting;
use crate::order::joined;
use crate::static_files::{
    candidate_path, decoded_path, descended, hex_digit, lies_within, names, percent_decoded,
    resolves, served_for,
};
use crate::text::pieces;
use vstd::prelude::*;

verus! {

/// Parts that name something: neither empty nor a dot.
pub open spec fn naming() -> spec_fn(Seq<char>) -> bool {
    |p: Seq<char>| p.len() > 0 && p != seq!['.']
}

/// The names of a path are its parts that name something, in order.
pub proof fn law_names_of_a_path(parts: Seq<Seq<char>>)
    ensures
        names(parts) == parts.filter(naming()),
    decreases parts.len(),
{
    reveal(Seq::filter);
    reveal_strlit(".");
    assert("."@ =~= seq!['.']);
    if parts.len() > 0 {
        law_names_of_a_path(parts.drop_last());
    } else {
        assert(names(parts) =~= parts);
    }
}

/// The names go below the root one after the other, with a slash between them.
pub proof fn law_path_below_the_root(root: Seq<char>, list: Seq<Seq<char>>)
    requires
        root.len() > 0,
        root.last() != '/',
        forall|i: int| 0 <= i < list.len() ==> naming()(#[trigger] list[i]) && !list[i].contains('/'),
    ensures
        descended(root, list) == joined(seq![root] + list, '/'),
        descended(root, list).len() > 0,
        descended(root, list).last() != '/',
    decreases list.len(),
{
    if list.len() > 0 {
        let front = list.drop_last();
        assert forall|i: int| 0 <= i < front.len() implies naming()(#[trigger] front[i])
            && !front[i].contains('/') by {
            assert(front[i] == list[i]);
        }
        law_path_below_the_root(root, front);
        let last = list[list.len() - 1];
        assert(naming()(last) && !last.contains('/'));
        assert(last.contains(last[0]) && last.contains(last[last.len() - 1]));
        let all = seq![root] + list;
        assert(all.drop_last() =~= seq![root] + front);
        assert(all.last() == last);
        assert(descended(root, list) =~= joined(all, '/'));
    } else {
        assert(seq![root] + list =~= seq![root]);
        reveal_with_fuel(joined, 2);
        assert(joined(seq![root], '/') =~= root);
    }
}

/// A request asks for the file of its decoded parts below the root; one that
/// cannot be decoded or has a part of two dots asks for none.
pub proof fn law_file_of_a_request(
    root: Seq<char>,
    request_path: Seq<char>,
    parts: Seq<Seq<char>>,
)
    requires
        parts.len() > 0,
        forall|i: int| 0 <= i < parts.len() ==> !(#[trigger] parts[i]).contains('/'),
        decoded_path(request_path) == Some(joined(parts, '/')),
        root.len() > 0,
        root.last() != '/',
    ensures
        candidate_path(root, request_path) is Some <==> !parts.contains(seq!['.', '.']),
        candidate_path(root, request_path) matches Some(path) ==> path == joined(
            seq![root] + parts.filter(naming()),
            '/',
        ),
{
    reveal_strlit("..");
    assert(".."@ =~= seq!['.', '.']);
    law_splitting(parts, '/');
    law_names_of_a_path(parts);
    let list = parts.filter(naming());
    assert forall|i: int| 0 <= i < list.len() implies naming()(#[trigger] list[i])
        && !list[i].contains('/') by {
        assert(list.contains(list[i]));
        crate::laws::headers::lemma_filter_member(parts, naming(), list[i]);
        let k = choose|k: int| 0 <= k < parts.len() && parts[k] == list[i];
        assert(!parts[k].contains('/'));
    }
    law_path_below_the_root(root, list);
}

/// A path that cannot be decoded asks for no file.
pub proof fn law_undecodable_path_has_no_file(root: Seq<char>, request_path: Seq<char>)
    requires
        decoded_path(request_path) is None,
    ensures
        candidate_path(root, request_path) is None,
{
}

/// A percent sign and two hexadecimal digits stand for one byte; bytes that are
/// no percent sign stand for themselves.
pub proof fn law_percent_decoding(plain: Seq<u8>, hi: u8, lo: u8, rest: Seq<u8>)
    requires
        forall|i: int| 0 <= i < plain.len() ==> #[trigger] plain[i] != 0x25,
        hex_digit(hi) is Some,
        hex_digit(lo) is Some,
    ensures
        percent_decoded(plain) == plain,
        percent_decoded(plain + seq![0x25u8, hi, lo] + rest) == plain.push(
            (hex_digit(hi)->0 * 16 + hex_digit(lo)->0) as u8,
        ) + percent_decoded(rest),
    decreases plain.len(),
{
    let code = seq![0x25u8, hi, lo];
    let whole = plain + code + rest;
    let byte = (hex_digit(hi)->0 * 16 + hex_digit(lo)->0) as u8;
    if plain.len() > 0 {
        let more = plain.skip(1);
        assert(plain[0] != 0x25);
        assert forall|i: int| 0 <= i < more.len() implies #[trigger] more[i] != 0x25 by {
            assert(plain[i + 1] == more[i]);
        }
        law_percent_decoding(more, hi, lo, rest);
        assert(whole.skip(1) =~= more + code + rest);
        assert(seq![plain[0]] + more =~= plain);
        assert(percent_decoded(whole) =~= plain.push(byte) + percent_decoded(rest));
    } else {
        assert(percent_decoded(plain) =~= plain);
        assert(whole[0] == 0x25 && whole[1] == hi && whole[2] == lo);
        assert(whole.skip(3) =~= rest);
        assert(seq![byte] =~= plain.push(byte));
    }
}

/// The hexadecimal digits are the decimal ones and six letters of either case,
/// in order of their values.
pub proof fn law_hex_digits(b: u8, d: u8)
    ensures
        d < 10 && b == '0' as u8 + d ==> hex_digit(b) == Some(d as nat),
        10 <= d < 16 && b == 'a' as u8 + (d - 10) ==> hex_digit(b) == Some(d as nat),
        10 <= d < 16 && b == 'A' as u8 + (d - 10) ==> hex_digit(b) == Some(d as nat),
        hex_digit(b) is Some ==> ('0' as u8 <= b <= '9' as u8) || ('a' as u8 <= b <= 'f' as u8) || (
        'A' as u8 <= b <= 'F' as u8),
{
}

/// A path lies within a root exactly where both are absolute or neither is, and
/// its names are those of the root with any others behind.
pub proof fn law_within_the_root(path: Seq<char>, root: Seq<char>)
    ensures
        lies_within(path, root) <==> {
            &&& (path.len() > 0 && path[0] == '/') == (root.len() > 0 && root[0] == '/')
            &&& exists|more: Seq<Seq<char>>|
                pieces(path, '/').filter(naming()) == #[trigger] (pieces(root, '/').filter(naming())
                    + more)
        },
{
    law_names_of_a_path(pieces(path, '/'));
    law_names_of_a_path(pieces(root, '/'));
    let p = pieces(path, '/').filter(naming());
    let q = pieces(root, '/').filter(naming());
    let n = q.len() as int;
    if lies_within(path, root) {
        assert(p =~= q + p.skip(n));
    }
    if exists|more: Seq<Seq<char>>| p == #[trigger] (q + more) {
        let more = choose|more: Seq<Seq<char>>| p == #[trigger] (q + more);
        assert(p.take(n) =~= q);
    }
}

/// A request is answered with a file exactly where it asks for one that exists,
/// is a file, and lies within the root once links are followed.
pub proof fn law_file_is_served(
    root: Seq<char>,
    request_path: Seq<char>,
    actual: Option<Seq<char>>,
    actual_root: Option<Seq<char>>,
    is_file: bool,
)
    ensures
        resolves(root, request_path, actual, actual_root, is_file) ==> is_file && actual is Some
            && actual_root is Some && lies_within(actual->0, actual_root->0) && candidate_path(
            root,
            request_path,
        ) is Some,
        is_file && actual is Some && actual_root is Some && lies_within(actual->0, actual_root->0)
            && candidate_path(root, request_path) is Some ==> resolves(
            root,
            request_path,
            actual,
            actual_root,
            is_file,
        ),
{
}

/// A directory stands for the `index.html` in it; a file for itself.
pub proof fn law_index_of_a_directory(dir: Seq<char>)
    ensures
        served_for(dir, false) == dir,
        dir.len() > 0 && dir.last() != '/' ==> served_for(dir, true) == dir + "/index.html"@,
        dir.len() > 0 && dir.last() == '/' ==> served_for(dir, true) == dir + "index.html"@,
{
    reveal_strlit("/index.html");
    reveal_strlit("index.html");
    assert("/index.html"@ =~= seq!['/'] + "index.html"@);
    if dir.len() > 0 && dir.last() != '/' {
        assert(served_for(dir, true) =~= dir + "/index.html"@);
    }
}

} // verus!
