//! The file form of a cache entry: key, expiry, status, headers and body, each
//! text behind its length, numbers in little-endian order.
use crate::cache::{CachedResponse, ResponseText};
use crate::clock::Timestamp;
use crate::headers::{pairs, HeaderText};
use vstd::prelude::*;
use vstd::slice::{slice_subrange, slice_to_vec};
use vstd::utf8::{decode_utf8, encode_utf8, encode_utf8_decode_utf8, encode_utf8_valid_utf8, valid_utf8};

verus! {

/// What `String::from_utf8_lossy` makes of bytes that are not UTF-8.
pub uninterp spec fn lossy_text(bytes: Seq<u8>) -> Seq<char>;

/// `String::from_utf8_lossy` replaces ill-formed parts of the bytes; bytes
/// that are well-formed UTF-8 it decodes. How ill-formed parts are replaced is
/// left to the name `lossy_text`.
#[verifier::external_body]
fn from_utf8_lossy(bytes: &[u8]) -> (r: String)
    ensures
        valid_utf8(bytes@) ==> r@ == decode_utf8(bytes@),
        !valid_utf8(bytes@) ==> r@ == lossy_text(bytes@),
{
    String::from_utf8_lossy(bytes).into_owned()
}

/// The text of bytes: decoded where they are well-formed UTF-8, and with its
/// ill-formed parts replaced where they are not.
pub open spec fn text_of(bytes: Seq<u8>) -> Seq<char> {
    if valid_utf8(bytes) {
        decode_utf8(bytes)
    } else {
        lossy_text(bytes)
    }
}

/// The last `k` bytes of `n`, least significant first.
pub open spec fn le_bytes(n: nat, k: nat) -> Seq<u8>
    decreases k,
{
    if k == 0 {
        Seq::empty()
    } else {
        seq![(n % 256) as u8] + le_bytes(n / 256, (k - 1) as nat)
    }
}

/// The number that bytes denote, least significant first.
pub open spec fn le_value(s: Seq<u8>) -> nat
    decreases s.len(),
{
    if s.len() == 0 {
        0
    } else {
        s[0] as nat + 256 * le_value(s.skip(1))
    }
}

/// How many numbers `k` bytes can denote.
pub open spec fn byte_limit(k: nat) -> nat
    decreases k,
{
    if k == 0 {
        1
    } else {
        256 * byte_limit((k - 1) as nat)
    }
}

proof fn lemma_byte_limits()
    ensures
        byte_limit(2) == 0x1_0000,
        byte_limit(4) == 0x1_0000_0000,
        byte_limit(8) == 0x1_0000_0000_0000_0000,
{
    reveal_with_fuel(byte_limit, 9);
}

proof fn lemma_byte_limit_monotonic(a: nat, b: nat)
    requires
        a <= b,
    ensures
        byte_limit(a) <= byte_limit(b),
    decreases b,
{
    if a < b {
        lemma_byte_limit_monotonic(a, (b - 1) as nat);
    }
}

proof fn lemma_le_value_bound(s: Seq<u8>)
    ensures
        le_value(s) < byte_limit(s.len()),
    decreases s.len(),
{
    if s.len() > 0 {
        lemma_le_value_bound(s.skip(1));
    }
}

proof fn lemma_le_round_trip(n: nat, k: nat)
    requires
        n < byte_limit(k),
    ensures
        le_bytes(n, k).len() == k,
        le_value(le_bytes(n, k)) == n,
    decreases k,
{
    if k > 0 {
        lemma_le_round_trip(n / 256, (k - 1) as nat);
        assert(le_bytes(n, k).skip(1) =~= le_bytes(n / 256, (k - 1) as nat));
    }
}

/// Appends the last `k` bytes of `n`.
fn write_le(out: &mut Vec<u8>, n: u64, k: usize)
    ensures
        final(out)@ == old(out)@ + le_bytes(n as nat, k as nat),
{
    let mut m: u64 = n;
    let mut i: usize = 0;
    assert(out@ + le_bytes(n as nat, k as nat) =~= old(out)@ + le_bytes(n as nat, k as nat));
    while i < k
        invariant
            i <= k,
            out@ + le_bytes(m as nat, (k - i) as nat) == old(out)@ + le_bytes(n as nat, k as nat),
        decreases k - i,
    {
        let ghost o = out@;
        let ghost tail = le_bytes((m / 256) as nat, (k - i - 1) as nat);
        out.push((m % 256) as u8);
        assert(out@ + tail =~= o + (seq![(m % 256) as u8] + tail));
        m = m / 256;
        i = i + 1;
    }
    assert(out@ + Seq::<u8>::empty() =~= out@);
}

/// The number that at most eight bytes denote.
fn read_le(s: &[u8]) -> (r: u64)
    requires
        s.len() <= 8,
    ensures
        r == le_value(s@),
{
    let mut v: u64 = 0;
    let mut i: usize = s.len();
    assert(s@.skip(i as int) =~= Seq::<u8>::empty());
    while 0 < i
        invariant
            i <= s.len() <= 8,
            v == le_value(s@.skip(i as int)),
        decreases i,
    {
        proof {
            let t = s@.skip(i - 1);
            assert(t.skip(1) =~= s@.skip(i as int));
            lemma_le_value_bound(t);
            lemma_byte_limit_monotonic(t.len(), 8);
            lemma_byte_limits();
            assert(le_value(t) == t[0] as nat + 256 * le_value(t.skip(1)));
        }
        v = v * 256 + s[i - 1] as u64;
        i = i - 1;
    }
    assert(s@.skip(0) =~= s@);
    v
}

/// Bytes behind their length in four bytes.
pub open spec fn block(bytes: Seq<u8>) -> Seq<u8> {
    le_bytes(bytes.len(), 4) + bytes
}

/// The file form of a header list.
pub open spec fn header_bytes(h: Seq<HeaderText>) -> Seq<u8>
    decreases h.len(),
{
    if h.len() == 0 {
        Seq::empty()
    } else {
        block(encode_utf8(h[0].0)) + block(encode_utf8(h[0].1)) + header_bytes(h.skip(1))
    }
}

/// The file form of an entry.
pub open spec fn entry_bytes(key: Seq<char>, secs: nat, response: ResponseText) -> Seq<u8> {
    block(encode_utf8(key)) + le_bytes(secs, 8) + le_bytes(response.status as nat, 2) + le_bytes(
        response.headers.len(),
        4,
    ) + header_bytes(response.headers) + le_bytes(response.body.len(), 8) + response.body
}

/// Appends a byte string behind its length.
pub fn write_bytes(out: &mut Vec<u8>, bytes: &[u8])
    ensures
        final(out)@ == old(out)@ + block(bytes@),
{
    write_le(out, bytes.len() as u64, 4);
    out.extend_from_slice(bytes);
    assert(out@ =~= old(out)@ + block(bytes@));
}

/// Serializes a cache entry. The expiry is kept in whole seconds.
pub fn encode(key: &str, expiry: Timestamp, response: &CachedResponse) -> (r: Vec<u8>)
    ensures
        r@ == entry_bytes(key@, expiry.whole_secs() as nat, response@),
{
    let mut out: Vec<u8> = Vec::new();
    write_bytes(&mut out, key.as_bytes());
    write_le(&mut out, expiry.to_secs(), 8);
    write_le(&mut out, response.status as u64, 2);
    write_le(&mut out, response.headers.len() as u64, 4);
    let ghost front = out@;
    let ghost h = pairs(response.headers@);
    let mut i: usize = 0;
    assert(h.skip(0) =~= h);
    while i < response.headers.len()
        invariant
            i <= response.headers.len(),
            h == pairs(response.headers@),
            out@ + header_bytes(h.skip(i as int)) == front + header_bytes(h),
        decreases response.headers.len() - i,
    {
        let ghost o = out@;
        let ghost t = h.skip(i as int);
        assert(t[0] == (response.headers@[i as int].0@, response.headers@[i as int].1@));
        assert(t.skip(1) =~= h.skip(i + 1));
        write_bytes(&mut out, response.headers[i].0.as_str().as_bytes());
        write_bytes(&mut out, response.headers[i].1.as_str().as_bytes());
        assert(out@ + header_bytes(h.skip(i + 1)) =~= o + header_bytes(t));
        i = i + 1;
    }
    assert(out@ + header_bytes(h.skip(i as int)) =~= out@);
    write_le(&mut out, response.body.len() as u64, 8);
    out.extend_from_slice(response.body.as_slice());
    assert(out@ =~= entry_bytes(key@, expiry.whole_secs() as nat, response@));
    out
}

/// Reads a number of `k` bytes off the front: the number, and the rest.
pub open spec fn read_number(s: Seq<u8>, k: nat) -> Option<(nat, Seq<u8>)> {
    if k <= s.len() {
        Some((le_value(s.take(k as int)), s.skip(k as int)))
    } else {
        None
    }
}

/// Reads bytes behind their length off the front, as text.
pub open spec fn read_text(s: Seq<u8>) -> Option<(Seq<char>, Seq<u8>)> {
    match read_number(s, 4) {
        Some((n, rest)) => if n <= rest.len() {
            Some((text_of(rest.take(n as int)), rest.skip(n as int)))
        } else {
            None
        },
        None => None,
    }
}

/// Reads `count` headers off the front.
pub open spec fn read_headers(s: Seq<u8>, count: nat) -> Option<(Seq<HeaderText>, Seq<u8>)>
    decreases count,
{
    if count == 0 {
        Some((Seq::empty(), s))
    } else {
        match read_text(s) {
            Some((name, after_name)) => match read_text(after_name) {
                Some((value, after_value)) => match read_headers(after_value, (count - 1) as nat) {
                    Some((more, rest)) => Some((seq![(name, value)] + more, rest)),
                    None => None,
                },
                None => None,
            },
            None => None,
        }
    }
}

/// An entry as it is read from a file: key, expiry in seconds, response.
#[verifier::ext_equal]
pub struct EntryText {
    pub key: Seq<char>,
    pub secs: nat,
    pub response: ResponseText,
}

/// Reads a body behind its length off the front.
pub open spec fn read_body(s: Seq<u8>) -> Option<(Seq<u8>, Seq<u8>)> {
    match read_number(s, 8) {
        Some((n, rest)) => if n <= rest.len() {
            Some((rest.take(n as int), rest.skip(n as int)))
        } else {
            None
        },
        None => None,
    }
}

/// Reads what follows an entry's key, expiry and status.
pub open spec fn read_response(s: Seq<u8>, status: u16) -> Option<(ResponseText, Seq<u8>)> {
    match read_number(s, 4) {
        Some((count, s1)) => match read_headers(s1, count) {
            Some((headers, s2)) => match read_body(s2) {
                Some((body, rest)) => Some((ResponseText { status, headers, body }, rest)),
                None => None,
            },
            None => None,
        },
        None => None,
    }
}

/// Reads an entry off the front: the entry, and the rest. There is none where
/// the bytes end too early.
pub open spec fn read_entry(s: Seq<u8>) -> Option<(EntryText, Seq<u8>)> {
    match read_text(s) {
        Some((key, s1)) => match read_number(s1, 8) {
            Some((secs, s2)) => match read_number(s2, 2) {
                Some((status, s3)) => match read_response(s3, status as u16) {
                    Some((response, rest)) => Some((EntryText { key, secs, response }, rest)),
                    None => None,
                },
                None => None,
            },
            None => None,
        },
        None => None,
    }
}

/// A bounds-checked little-endian reader over a byte slice.
struct Reader<'a> {
    buf: &'a [u8],
    pos: usize,
}

impl<'a> Reader<'a> {
    spec fn wf(&self) -> bool {
        self.pos <= self.buf@.len()
    }

    /// The bytes not yet consumed.
    spec fn rest(&self) -> Seq<u8> {
        self.buf@.skip(self.pos as int)
    }

    /// How many bytes are not yet consumed.
    fn remaining(&self) -> (r: usize)
        requires
            self.wf(),
        ensures
            r == self.rest().len(),
    {
        self.buf.len() - self.pos
    }

    /// Takes `n` bytes.
    fn take(&mut self, n: usize) -> (r: Option<&'a [u8]>)
        requires
            old(self).wf(),
        ensures
            final(self).wf(),
            match r {
                Some(s) => n <= old(self).rest().len() && s@ == old(self).rest().take(n as int)
                    && final(self).rest() == old(self).rest().skip(n as int),
                None => n > old(self).rest().len(),
            },
    {
        if n > self.remaining() {
            return None;
        }
        assert(self.pos + n <= self.buf.len());
        let end: usize = self.pos + n;
        let s = slice_subrange(self.buf, self.pos, end);
        assert(s@ =~= self.rest().take(n as int));
        self.pos = end;
        assert(self.rest() =~= old(self).rest().skip(n as int));
        Some(s)
    }

    /// Takes a number of `k` bytes.
    fn number(&mut self, k: usize) -> (r: Option<u64>)
        requires
            old(self).wf(),
            k <= 8,
        ensures
            final(self).wf(),
            match r {
                Some(n) => n < byte_limit(k as nat) && read_number(old(self).rest(), k as nat)
                    == Some((n as nat, final(self).rest())),
                None => read_number(old(self).rest(), k as nat) is None,
            },
    {
        match self.take(k) {
            Some(s) => {
                proof {
                    lemma_le_value_bound(s@);
                }
                Some(read_le(s))
            },
            None => None,
        }
    }

    /// Takes bytes behind their length, as text.
    fn string(&mut self) -> (r: Option<String>)
        requires
            old(self).wf(),
        ensures
            final(self).wf(),
            match r {
                Some(t) => read_text(old(self).rest()) == Some((t@, final(self).rest())),
                None => read_text(old(self).rest()) is None,
            },
    {
        match self.number(4) {
            Some(n) => {
                proof {
                    lemma_byte_limits();
                }
                match self.take(n as usize) {
                    Some(s) => Some(from_utf8_lossy(s)),
                    None => None,
                }
            },
            None => None,
        }
    }
}

/// Deserializes a cache entry written by [`encode`]; `None` where it is
/// truncated. Bytes behind the entry are ignored.
pub fn decode(buf: &[u8]) -> (r: Option<(String, Timestamp, CachedResponse)>)
    ensures
        match r {
            Some((key, expiry, response)) => read_entry(buf@) matches Some((entry, _)) && entry.key
                == key@ && expiry == Timestamp::at_secs(entry.secs as int) && entry.response
                == response@,
            None => read_entry(buf@) is None,
        },
{
    let mut reader = Reader { buf, pos: 0 };
    assert(reader.rest() =~= buf@);
    proof {
        lemma_byte_limits();
    }
    let key = match reader.string() {
        Some(t) => t,
        None => return None,
    };
    let secs: u64 = match reader.number(8) {
        Some(n) => n,
        None => return None,
    };
    let status: u16 = match reader.number(2) {
        Some(n) => n as u16,
        None => return None,
    };
    let count: usize = match reader.number(4) {
        Some(n) => n as usize,
        None => return None,
    };
    // The room set aside is bounded by what the remaining bytes could hold: a
    // header takes at least eight.
    let room: usize = reader.remaining() / 8;
    let mut headers: Vec<(String, String)> = Vec::with_capacity(
        if count < room {
            count
        } else {
            room
        },
    );
    let ghost start = reader.rest();
    let mut i: usize = 0;
    assert(pairs(headers@) =~= Seq::<HeaderText>::empty());
    proof {
        match read_headers(start, count as nat) {
            Some((more, rest)) => {
                assert(pairs(headers@) + more =~= more);
            },
            None => {},
        }
    }
    while i < count
        invariant
            i <= count,
            reader.wf(),
            read_headers(start, count as nat) == (match read_headers(
                reader.rest(),
                (count - i) as nat,
            ) {
                Some((more, rest)) => Some((pairs(headers@) + more, rest)),
                None => None,
            }),
            read_entry(buf@) is None <== read_headers(start, count as nat) is None,
        decreases count - i,
    {
        let ghost so_far = pairs(headers@);
        let name = match reader.string() {
            Some(t) => t,
            None => return None,
        };
        let value = match reader.string() {
            Some(t) => t,
            None => return None,
        };
        let ghost header = (name@, value@);
        let ghost before = headers@;
        headers.push((name, value));
        assert(pairs(headers@) =~= so_far.push(header));
        proof {
            match read_headers(reader.rest(), (count - i - 1) as nat) {
                Some((more, rest)) => {
                    assert(so_far + (seq![header] + more) =~= pairs(headers@) + more);
                },
                None => {},
            }
        }
        i = i + 1;
    }
    assert(pairs(headers@) + Seq::<HeaderText>::empty() =~= pairs(headers@));
    let body_len: u64 = match reader.number(8) {
        Some(n) => n,
        None => return None,
    };
    if body_len > reader.remaining() as u64 {
        return None;
    }
    let body = match reader.take(body_len as usize) {
        Some(s) => slice_to_vec(s),
        None => return None,
    };
    Some((key, Timestamp::from_secs(secs), CachedResponse { status, headers, body }))
}

proof fn lemma_number_extends(s: Seq<u8>, k: nat, t: Seq<u8>)
    requires
        read_number(s, k) is Some,
    ensures
        read_number(s + t, k) == Some(((read_number(s, k)->0).0, (read_number(s, k)->0).1 + t)),
{
    assert((s + t).take(k as int) =~= s.take(k as int));
    assert((s + t).skip(k as int) =~= s.skip(k as int) + t);
}

proof fn lemma_text_extends(s: Seq<u8>, t: Seq<u8>)
    requires
        read_text(s) is Some,
    ensures
        read_text(s + t) == Some(((read_text(s)->0).0, (read_text(s)->0).1 + t)),
{
    lemma_number_extends(s, 4, t);
    let (n, rest) = read_number(s, 4)->0;
    assert((rest + t).take(n as int) =~= rest.take(n as int));
    assert((rest + t).skip(n as int) =~= rest.skip(n as int) + t);
}

proof fn lemma_headers_extend(s: Seq<u8>, count: nat, t: Seq<u8>)
    requires
        read_headers(s, count) is Some,
    ensures
        read_headers(s + t, count) == Some(
            ((read_headers(s, count)->0).0, (read_headers(s, count)->0).1 + t),
        ),
    decreases count,
{
    if count > 0 {
        lemma_text_extends(s, t);
        let s1 = (read_text(s)->0).1;
        lemma_text_extends(s1, t);
        let s2 = (read_text(s1)->0).1;
        lemma_headers_extend(s2, (count - 1) as nat, t);
    }
}

proof fn lemma_body_extends(s: Seq<u8>, t: Seq<u8>)
    requires
        read_body(s) is Some,
    ensures
        read_body(s + t) == Some(((read_body(s)->0).0, (read_body(s)->0).1 + t)),
{
    lemma_number_extends(s, 8, t);
    let (n, rest) = read_number(s, 8)->0;
    assert((rest + t).take(n as int) =~= rest.take(n as int));
    assert((rest + t).skip(n as int) =~= rest.skip(n as int) + t);
}

/// Bytes behind a complete entry change nothing of what is read, and are what
/// remains.
pub proof fn law_entry_extends(s: Seq<u8>, t: Seq<u8>)
    requires
        read_entry(s) is Some,
    ensures
        read_entry(s + t) == Some(((read_entry(s)->0).0, (read_entry(s)->0).1 + t)),
{
    lemma_text_extends(s, t);
    let s1 = (read_text(s)->0).1;
    lemma_number_extends(s1, 8, t);
    let s2 = (read_number(s1, 8)->0).1;
    lemma_number_extends(s2, 2, t);
    let s3 = (read_number(s2, 2)->0).1;
    lemma_number_extends(s3, 4, t);
    let (count, s4) = read_number(s3, 4)->0;
    lemma_headers_extend(s4, count, t);
    let s5 = (read_headers(s4, count)->0).1;
    lemma_body_extends(s5, t);
}

/// Whether every length in the entry fits the field that holds it.
pub open spec fn lengths_fit(key: Seq<char>, response: ResponseText) -> bool {
    &&& encode_utf8(key).len() < 0x1_0000_0000
    &&& response.headers.len() < 0x1_0000_0000
    &&& response.body.len() < 0x1_0000_0000_0000_0000
    &&& headers_fit(response.headers)
}

/// Whether every name and value has a length that fits its field.
pub open spec fn headers_fit(h: Seq<HeaderText>) -> bool {
    forall|i: int|
        0 <= i < h.len() ==> encode_utf8((#[trigger] h[i]).0).len() < 0x1_0000_0000 && encode_utf8(
            h[i].1,
        ).len() < 0x1_0000_0000
}

proof fn lemma_number_reads_back(n: nat, k: nat, t: Seq<u8>)
    requires
        n < byte_limit(k),
    ensures
        read_number(le_bytes(n, k) + t, k) == Some((n, t)),
{
    lemma_le_round_trip(n, k);
    let s = le_bytes(n, k) + t;
    assert(s.take(k as int) =~= le_bytes(n, k));
    assert(s.skip(k as int) =~= t);
}

proof fn lemma_text_reads_back(text: Seq<char>, t: Seq<u8>)
    requires
        encode_utf8(text).len() < 0x1_0000_0000,
    ensures
        read_text(block(encode_utf8(text)) + t) == Some((text, t)),
{
    let b = encode_utf8(text);
    lemma_byte_limits();
    assert(block(b) + t =~= le_bytes(b.len(), 4) + (b + t));
    lemma_number_reads_back(b.len(), 4, b + t);
    assert((b + t).take(b.len() as int) =~= b);
    assert((b + t).skip(b.len() as int) =~= t);
    encode_utf8_valid_utf8(text);
    encode_utf8_decode_utf8(text);
}

proof fn lemma_headers_read_back(h: Seq<HeaderText>, t: Seq<u8>)
    requires
        headers_fit(h),
    ensures
        read_headers(header_bytes(h) + t, h.len()) == Some((h, t)),
    decreases h.len(),
{
    if h.len() == 0 {
        assert(header_bytes(h) + t =~= t);
        assert(h =~= Seq::<HeaderText>::empty());
    } else {
        let name = block(encode_utf8(h[0].0));
        let value = block(encode_utf8(h[0].1));
        let more = header_bytes(h.skip(1));
        assert(header_bytes(h) + t =~= name + (value + (more + t)));
        assert(encode_utf8(h[0].0).len() < 0x1_0000_0000);
        lemma_text_reads_back(h[0].0, value + (more + t));
        lemma_text_reads_back(h[0].1, more + t);
        assert forall|i: int| 0 <= i < h.skip(1).len() implies encode_utf8(
            (#[trigger] h.skip(1)[i]).0,
        ).len() < 0x1_0000_0000 && encode_utf8(h.skip(1)[i].1).len() < 0x1_0000_0000 by {
            assert(h.skip(1)[i] == h[i + 1]);
        }
        lemma_headers_read_back(h.skip(1), t);
        assert(seq![(h[0].0, h[0].1)] + h.skip(1) =~= h);
    }
}

/// Reading back what was written gives the entry, and nothing remains.
pub proof fn law_entry_round_trip(key: Seq<char>, secs: nat, response: ResponseText)
    requires
        lengths_fit(key, response),
        secs <= u64::MAX,
    ensures
        read_entry(entry_bytes(key, secs, response)) == Some(
            (EntryText { key, secs, response }, Seq::<u8>::empty()),
        ),
{
    lemma_byte_limits();
    let body = response.body;
    let s5 = le_bytes(body.len(), 8) + body;
    let s4 = header_bytes(response.headers) + s5;
    let s3 = le_bytes(response.headers.len(), 4) + s4;
    let s2 = le_bytes(response.status as nat, 2) + s3;
    let s1 = le_bytes(secs, 8) + s2;
    assert(entry_bytes(key, secs, response) =~= block(encode_utf8(key)) + s1);
    lemma_text_reads_back(key, s1);
    lemma_number_reads_back(secs, 8, s2);
    lemma_number_reads_back(response.status as nat, 2, s3);
    lemma_number_reads_back(response.headers.len(), 4, s4);
    lemma_headers_read_back(response.headers, s5);
    lemma_number_reads_back(body.len(), 8, body);
    assert(body.take(body.len() as int) =~= body);
    assert(body.skip(body.len() as int) =~= Seq::<u8>::empty());
}

/// No file that was cut short reads as an entry.
pub proof fn law_truncated_entry_is_refused(
    key: Seq<char>,
    secs: nat,
    response: ResponseText,
    n: int,
)
    requires
        lengths_fit(key, response),
        secs <= u64::MAX,
        0 <= n < entry_bytes(key, secs, response).len(),
    ensures
        read_entry(entry_bytes(key, secs, response).take(n)) is None,
{
    let whole = entry_bytes(key, secs, response);
    let cut = whole.take(n);
    let lost = whole.skip(n);
    assert(cut + lost =~= whole);
    law_entry_round_trip(key, secs, response);
    if read_entry(cut) is Some {
        law_entry_extends(cut, lost);
        assert(((read_entry(cut)->0).1 + lost).len() == 0);
    }
}

} // verus!
