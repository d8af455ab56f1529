//! The written forms: numerals, names, and the files of the cache.
use crate::cache::ResponseText;
use crate::codec::{block, entry_bytes, header_bytes, le_bytes};
use crate::headers::HeaderText;
use crate::message::{is_header_name, is_header_value, is_name_char};
use crate::numeral::{decimal_text, hex_char, hex_text, numeral};
use crate::store::file_name;
use crate::text::{is_space, lower_char};
use std::collections::hash_map::DefaultHasher;
use vstd::arithmetic::div_mod::lemma_div_denominator;
use vstd::arithmetic::power::{lemma_pow0, lemma_pow_positive, pow};
use vstd::prelude::*;
use vstd::std_specs::hash::DefaultHasherAdditionalSpecFns;
use vstd::utf8::encode_utf8;

verus! {

/// The digits in order of their values.
pub open spec fn digits() -> Seq<char> {
    seq!['0', '1', '2', '3', '4', '5', '6', '7', '8', '9']
}

/// A number below ten is written as its digit; any other as the number of its
/// tens with the digit of its ones behind.
pub proof fn law_decimal_numeral(n: nat, d: nat)
    requires
        d < 10,
    ensures
        decimal_text(d) == seq![digits()[d as int]],
        n > 0 ==> decimal_text(n * 10 + d) == decimal_text(n).push(digits()[d as int]),
{
    assert((n * 10 + d) / 10 == n && (n * 10 + d) % 10 == d);
    assert(crate::numeral::digit_char(d) == digits()[d as int]);
}

/// The hexadecimal digits in order of their values.
pub open spec fn hex_digits() -> Seq<char> {
    digits() + seq!['a', 'b', 'c', 'd', 'e', 'f']
}

/// A hexadecimal numeral of a given length ends in the digit of the number's
/// ones, behind the numeral of its sixteens.
pub proof fn law_hex_numeral(n: nat, d: nat, k: nat)
    requires
        d < 16,
    ensures
        hex_text(n, 0).len() == 0,
        hex_text(n * 16 + d, k + 1) == hex_text(n, k).push(hex_digits()[d as int]),
{
    assert((n * 16 + d) / 16 == n && (n * 16 + d) % 16 == d);
    assert(hex_char(d) == hex_digits()[d as int]);
}

/// The file of an entry is named with sixteen hexadecimal digits, so that it has
/// no extension and no separator.
pub proof fn law_name_of_a_cache_file(key: Seq<char>)
    ensures
        file_name(key).len() == 16,
        forall|i: int| 0 <= i < 16 ==> hex_digits().contains(#[trigger] file_name(key)[i]),
{
    let n = DefaultHasher::spec_finish(
        seq![encode_utf8(key), seq![0xffu8]],
    ) as nat;
    lemma_hex_digits(n, 16);
}

proof fn lemma_hex_digits(n: nat, k: nat)
    ensures
        hex_text(n, k).len() == k,
        forall|i: int| 0 <= i < k ==> hex_digits().contains(#[trigger] hex_text(n, k)[i]),
    decreases k,
{
    if k > 0 {
        let less = (k - 1) as nat;
        lemma_hex_digits(n / 16, less);
        let d = (n % 16) as int;
        assert(hex_char(n % 16) == hex_digits()[d]);
        assert forall|i: int| 0 <= i < k implies hex_digits().contains(
            #[trigger] hex_text(n, k)[i],
        ) by {
            if i < less {
                assert(hex_text(n, k)[i] == hex_text(n / 16, less)[i]);
            }
        }
    }
}

/// A number in bytes has its least significant byte first: the byte at a place
/// counts so many times 256.
pub proof fn law_bytes_of_a_number(n: nat, k: nat, i: int)
    requires
        0 <= i < k,
    ensures
        le_bytes(n, k).len() == k,
        le_bytes(n, k)[i] == (n as int / pow(256, i as nat)) % 256,
    decreases k,
{
    let less = (k - 1) as nat;
    lemma_bytes_len(n, k);
    if i > 0 {
        law_bytes_of_a_number(n / 256, less, i - 1);
        assert(le_bytes(n, k)[i] == le_bytes(n / 256, less)[i - 1]);
        let p = pow(256, (i - 1) as nat);
        lemma_pow_positive(256, (i - 1) as nat);
        assert(pow(256, i as nat) == 256 * p) by {
            reveal(pow);
        }
        lemma_div_denominator(n as int, 256, p);
    } else {
        lemma_pow0(256);
        assert(n as int / 1 == n);
    }
}

proof fn lemma_bytes_len(n: nat, k: nat)
    ensures
        le_bytes(n, k).len() == k,
    decreases k,
{
    if k > 0 {
        lemma_bytes_len(n / 256, (k - 1) as nat);
    }
}

/// A byte string stands behind its length in four bytes.
pub proof fn law_block_of_bytes(bytes: Seq<u8>)
    ensures
        block(bytes).len() == 4 + bytes.len(),
        block(bytes).take(4) == le_bytes(bytes.len(), 4),
        block(bytes).skip(4) == bytes,
{
    lemma_bytes_len(bytes.len(), 4);
    assert(block(bytes).take(4) =~= le_bytes(bytes.len(), 4));
    assert(block(bytes).skip(4) =~= bytes);
}

/// Headers stand one behind the other, each as its name and its value.
pub proof fn law_headers_in_a_file(a: Seq<HeaderText>, h: HeaderText, b: Seq<HeaderText>)
    ensures
        header_bytes(Seq::empty()).len() == 0,
        header_bytes(a.push(h) + b) == header_bytes(a) + block(encode_utf8(h.0)) + block(
            encode_utf8(h.1),
        ) + header_bytes(b),
    decreases a.len(),
{
    let all = a.push(h) + b;
    if a.len() > 0 {
        let rest = a.skip(1);
        law_headers_in_a_file(rest, h, b);
        assert(all.skip(1) =~= rest.push(h) + b);
        assert(all[0] == a[0]);
        assert(header_bytes(all) =~= header_bytes(a) + block(encode_utf8(h.0)) + block(
            encode_utf8(h.1),
        ) + header_bytes(b));
    } else {
        assert(all[0] == h);
        assert(all.skip(1) =~= b);
        assert(header_bytes(all) =~= header_bytes(a) + block(encode_utf8(h.0)) + block(
            encode_utf8(h.1),
        ) + header_bytes(b));
    }
}

/// A cache file holds the key, the expiry in eight bytes, the status in two, the
/// number of headers in four, the headers, the length of the body in eight, and
/// the body.
pub proof fn law_cache_file(key: Seq<char>, secs: nat, response: ResponseText)
    ensures
        ({
            let file = entry_bytes(key, secs, response);
            let k = 4 + encode_utf8(key).len() as int;
            let e = k + 14 + header_bytes(response.headers).len();
            &&& file.len() == e + 8 + response.body.len()
            &&& file.take(k) == block(encode_utf8(key))
            &&& file.subrange(k, k + 8) == le_bytes(secs, 8)
            &&& file.subrange(k + 8, k + 10) == le_bytes(response.status as nat, 2)
            &&& file.subrange(k + 10, k + 14) == le_bytes(response.headers.len(), 4)
            &&& file.subrange(k + 14, e) == header_bytes(response.headers)
            &&& file.subrange(e, e + 8) == le_bytes(response.body.len(), 8)
            &&& file.skip(e + 8) == response.body
        }),
{
    let file = entry_bytes(key, secs, response);
    let k = 4 + encode_utf8(key).len() as int;
    let e = k + 14 + header_bytes(response.headers).len();
    law_block_of_bytes(encode_utf8(key));
    lemma_bytes_len(secs, 8);
    lemma_bytes_len(response.status as nat, 2);
    lemma_bytes_len(response.headers.len(), 4);
    lemma_bytes_len(response.body.len(), 8);
    assert(file.take(k) =~= block(encode_utf8(key)));
    assert(file.subrange(k, k + 8) =~= le_bytes(secs, 8));
    assert(file.subrange(k + 8, k + 10) =~= le_bytes(response.status as nat, 2));
    assert(file.subrange(k + 10, k + 14) =~= le_bytes(response.headers.len(), 4));
    assert(file.subrange(k + 14, e) =~= header_bytes(response.headers));
    assert(file.subrange(e, e + 8) =~= le_bytes(response.body.len(), 8));
    assert(file.skip(e + 8) =~= response.body);
}

/// Blanks, tabs and line ends are white space; visible ASCII characters are not.
pub proof fn law_white_space(c: char)
    ensures
        c == ' ' || c == '\t' || c == '\n' || c == '\r' ==> is_space(c),
        0x21 <= c as u32 <= 0x7e ==> !is_space(c),
{
}

/// Upper-case ASCII letters have a lower case; every other character is its own.
pub proof fn law_lower_case(c: char, i: int)
    requires
        0 <= i < 26,
    ensures
        c as u32 == 'A' as u32 + i ==> lower_char(c) as u32 == 'a' as u32 + i,
        !('A' <= c <= 'Z') ==> lower_char(c) == c,
{
}

/// A header can be sent where its name is one or more letters, digits and marks,
/// and its value has no control character but the tab: no header ends a line.
pub proof fn law_what_can_be_sent(name: Seq<char>, value: Seq<char>, i: int)
    ensures
        is_header_name(name) ==> 0 < name.len() <= 65535,
        is_header_name(name) && 0 <= i < name.len() ==> name[i] != ':' && name[i] != ' ' && name[i]
            != '\n' && name[i] != '\r',
        is_header_value(value) && 0 <= i < value.len() ==> value[i] != '\n' && value[i] != '\r'
            && value[i] != '\0',
        0 < name.len() <= 65535 && (forall|j: int|
            0 <= j < name.len() ==> ('a' <= #[trigger] name[j] <= 'z') || name[j] == '-')
            ==> is_header_name(name),
        (forall|j: int| 0 <= j < value.len() ==> ' ' <= #[trigger] value[j] <= '~')
            ==> is_header_value(value),
{
    if is_header_name(name) && 0 <= i < name.len() {
        assert(is_name_char(name[i]));
    }
}

} // verus!
