//! Content codings: which one a client accepts, and compressing a body with it
//! piece by piece.
use crate::text::{
    chars_of, eq_ignore_case, lemma_pieces_nonempty, maybe, pieces, same_ignoring_case, split,
    starts, string_of, strip_prefix, trim, trimmed, views,
};
use std::io::Write;
use vstd::prelude::*;

verus! {

/// A content coding for a response body.
#[derive(Clone, Copy, PartialEq, Eq, Debug, Structural)]
pub enum Encoding {
    Brotli,
    Zstd,
    Gzip,
}

impl Encoding {
    /// The token of the coding in `Accept-Encoding` and `Content-Encoding`.
    pub open spec fn token(self) -> Seq<char> {
        match self {
            Encoding::Brotli => "br"@,
            Encoding::Zstd => "zstd"@,
            Encoding::Gzip => "gzip"@,
        }
    }

    /// The `Content-Encoding` token of the coding.
    pub fn header_value(self) -> (r: &'static str)
        ensures
            r@ == self.token(),
    {
        match self {
            Encoding::Brotli => "br",
            Encoding::Zstd => "zstd",
            Encoding::Gzip => "gzip",
        }
    }
}

/// The quality value that a field of an item gives as `q=` or `Q=`.
pub open spec fn quality_text(field: Seq<char>) -> Option<Seq<char>> {
    let q = trimmed(field);
    if starts(q, "q="@) {
        Some(q.skip("q="@.len() as int))
    } else if starts(q, "Q="@) {
        Some(q.skip("Q="@.len() as int))
    } else {
        None
    }
}

/// Whether one of the fields behind the first gives a quality of zero, as
/// `zero` judges its text.
pub open spec fn refuses(fields: Seq<Seq<char>>, zero: spec_fn(Seq<char>) -> bool) -> bool {
    exists|i: int|
        1 <= i < fields.len() && quality_text(#[trigger] fields[i]) is Some && zero(
            quality_text(fields[i])->0,
        )
}

/// Whether an item of `Accept-Encoding` names the coding and does not refuse
/// it.
pub open spec fn item_accepts(
    item: Seq<char>,
    coding: Seq<char>,
    zero: spec_fn(Seq<char>) -> bool,
) -> bool {
    let fields = pieces(trimmed(item), ';');
    same_ignoring_case(trimmed(fields[0]), coding) && !refuses(fields, zero)
}

/// Whether one of the items accepts the coding.
pub open spec fn some_item_accepts(
    items: Seq<Seq<char>>,
    coding: Seq<char>,
    zero: spec_fn(Seq<char>) -> bool,
) -> bool {
    exists|i: int| 0 <= i < items.len() && item_accepts(#[trigger] items[i], coding, zero)
}

/// The coding chosen for a client: the first that it accepts of Brotli, Zstd
/// and gzip.
pub open spec fn negotiated(
    accept_encoding: Option<Seq<char>>,
    zero: spec_fn(Seq<char>) -> bool,
) -> Option<Encoding> {
    match accept_encoding {
        None => None,
        Some(value) => {
            let items = pieces(value, ',');
            if some_item_accepts(items, Encoding::Brotli.token(), zero) {
                Some(Encoding::Brotli)
            } else if some_item_accepts(items, Encoding::Zstd.token(), zero) {
                Some(Encoding::Zstd)
            } else if some_item_accepts(items, Encoding::Gzip.token(), zero) {
                Some(Encoding::Gzip)
            } else {
                None
            }
        },
    }
}

/// Whether an executable judge of quality values is total and judges as the
/// predicate does.
pub open spec fn judges<F: Fn(&str) -> bool>(f: F, zero: spec_fn(Seq<char>) -> bool) -> bool {
    forall|t: &str, b: bool| #[trigger] call_ensures(f, (t,), b) ==> b == zero(t@)
}

/// Whether the judge can be called on every text.
pub open spec fn total<F: Fn(&str) -> bool>(f: F) -> bool {
    forall|t: &str| #[trigger] call_requires(f, (t,))
}

/// The quality value of a field.
pub(crate) fn quality(field: &[char]) -> (r: Option<String>)
    ensures
        match r {
            Some(t) => quality_text(field@) == Some(t@),
            None => quality_text(field@) is None,
        },
{
    let q = trim(field);
    let small = chars_of("q=");
    let large = chars_of("Q=");
    match strip_prefix(q, small.as_slice()) {
        Some(rest) => Some(string_of(rest)),
        None => match strip_prefix(q, large.as_slice()) {
            Some(rest) => Some(string_of(rest)),
            None => None,
        },
    }
}

/// Whether the fields behind the first refuse the coding.
fn fields_refuse<F: Fn(&str) -> bool>(fields: &Vec<Vec<char>>, zero_quality: &F) -> (r: bool)
    requires
        total(*zero_quality),
    ensures
        forall|zero: spec_fn(Seq<char>) -> bool| #[trigger]
            judges(*zero_quality, zero) ==> r == refuses(views(fields@), zero),
{
    let ghost fs = views(fields@);
    let mut i: usize = 1;
    while i < fields.len()
        invariant
            1 <= i,
            fs == views(fields@),
            total(*zero_quality),
            forall|zero: spec_fn(Seq<char>) -> bool, j: int|
                #![trigger judges(*zero_quality, zero), fs[j]]
                judges(*zero_quality, zero) && 1 <= j < i && j < fs.len() && quality_text(fs[j]) is Some
                    ==> !zero(quality_text(fs[j])->0),
        decreases fields.len() - i,
    {
        assert(fs[i as int] == fields@[i as int]@);
        match quality(fields[i].as_slice()) {
            Some(text) => {
                if zero_quality(text.as_str()) {
                    assert forall|zero: spec_fn(Seq<char>) -> bool| #[trigger]
                        judges(*zero_quality, zero) implies refuses(fs, zero) by {
                        assert(quality_text(fs[i as int]) is Some && zero(
                            quality_text(fs[i as int])->0,
                        ));
                    }
                    return true;
                }
            },
            None => {},
        }
        i = i + 1;
    }
    false
}

/// Whether an `Accept-Encoding` header accepts `coding`: it lists the coding,
/// and not with a quality that `zero_quality` judges to be zero.
pub fn accepts_coding<F: Fn(&str) -> bool>(header: &str, coding: &str, zero_quality: &F) -> (r:
    bool)
    requires
        total(*zero_quality),
    ensures
        forall|zero: spec_fn(Seq<char>) -> bool| #[trigger]
            judges(*zero_quality, zero) ==> r == some_item_accepts(
                pieces(header@, ','),
                coding@,
                zero,
            ),
{
    let chars = chars_of(header);
    let wanted = chars_of(coding);
    let parts = split(chars.as_slice(), ',');
    let ghost ps = pieces(header@, ',');
    let mut i: usize = 0;
    while i < parts.len()
        invariant
            i <= parts.len(),
            ps == views(parts@),
            ps == pieces(header@, ','),
            wanted@ == coding@,
            total(*zero_quality),
            forall|zero: spec_fn(Seq<char>) -> bool, j: int|
                #![trigger judges(*zero_quality, zero), ps[j]]
                judges(*zero_quality, zero) && 0 <= j < i ==> !item_accepts(ps[j], coding@, zero),
        decreases parts.len() - i,
    {
        assert(ps[i as int] == parts@[i as int]@);
        let item = trim(parts[i].as_slice());
        let fields = split(item, ';');
        proof {
            lemma_pieces_nonempty(item@, ';');
            assert(views(fields@)[0] == fields@[0]@);
        }
        if eq_ignore_case(trim(fields[0].as_slice()), wanted.as_slice()) && !fields_refuse(
            &fields,
            zero_quality,
        ) {
            assert forall|zero: spec_fn(Seq<char>) -> bool| #[trigger]
                judges(*zero_quality, zero) implies some_item_accepts(ps, coding@, zero) by {
                assert(item_accepts(ps[i as int], coding@, zero));
            }
            return true;
        }
        i = i + 1;
    }
    false
}

/// Picks the best coding that the client accepts, in the order Brotli, Zstd,
/// gzip.
pub fn negotiate_encoding<F: Fn(&str) -> bool>(
    accept_encoding: Option<&str>,
    zero_quality: &F,
) -> (r: Option<Encoding>)
    requires
        total(*zero_quality),
    ensures
        forall|zero: spec_fn(Seq<char>) -> bool| #[trigger]
            judges(*zero_quality, zero) ==> r == negotiated(maybe(accept_encoding), zero),
{
    match accept_encoding {
        None => None,
        Some(header) => if accepts_coding(header, "br", zero_quality) {
            Some(Encoding::Brotli)
        } else if accepts_coding(header, "zstd", zero_quality) {
            Some(Encoding::Zstd)
        } else if accepts_coding(header, "gzip", zero_quality) {
            Some(Encoding::Gzip)
        } else {
            None
        },
    }
}

/// A coding is chosen if and only if the client accepts one of the three; it
/// accepts the chosen one, and none that is preferred to it.
pub proof fn law_negotiated_coding_is_accepted(
    value: Seq<char>,
    zero: spec_fn(Seq<char>) -> bool,
)
    ensures
        match negotiated(Some(value), zero) {
            Some(coding) => {
                &&& some_item_accepts(pieces(value, ','), coding.token(), zero)
                &&& coding == Encoding::Zstd || coding == Encoding::Gzip ==> !some_item_accepts(
                    pieces(value, ','),
                    Encoding::Brotli.token(),
                    zero,
                )
                &&& coding == Encoding::Gzip ==> !some_item_accepts(
                    pieces(value, ','),
                    Encoding::Zstd.token(),
                    zero,
                )
            },
            None => forall|coding: Encoding|
                !some_item_accepts(pieces(value, ','), #[trigger] coding.token(), zero),
        },
{
}

/// A gzip stream under way.
#[verifier::external_body]
pub struct GzipStream {
    inner: flate2::write::GzEncoder<Vec<u8>>,
}

/// A Brotli stream under way.
#[verifier::external_body]
pub struct BrotliStream {
    inner: Box<brotli::CompressorWriter<Vec<u8>>>,
}

/// A Zstd stream under way.
#[verifier::external_body]
pub struct ZstdStream {
    inner: zstd::stream::write::Encoder<'static, Vec<u8>>,
}

/// What a gzip stream was made with and was given: its level, and the pieces
/// of data in order.
pub uninterp spec fn gzip_fed(s: GzipStream) -> (u32, Seq<Seq<u8>>);

/// What a Brotli stream was made with and was given: its quality, and the
/// pieces of data in order.
pub uninterp spec fn brotli_fed(s: BrotliStream) -> (u32, Seq<Seq<u8>>);

/// What a Zstd stream was made with and was given: its level, and the pieces
/// of data in order.
pub uninterp spec fn zstd_fed(s: ZstdStream) -> (i32, Seq<Seq<u8>>);

/// The bytes that flate2's gzip encoder has written for the pieces, each
/// flushed; `finished` where the stream was finished.
pub uninterp spec fn gzip_bytes(level: u32, pieces: Seq<Seq<u8>>, finished: bool) -> Seq<u8>;

/// The bytes that brotli's encoder has written for the pieces, each flushed;
/// `finished` where the stream was finished.
pub uninterp spec fn brotli_bytes(quality: u32, pieces: Seq<Seq<u8>>, finished: bool) -> Seq<u8>;

/// The bytes that zstd's encoder has written for the pieces, each flushed;
/// `finished` where the stream was finished.
pub uninterp spec fn zstd_bytes(level: i32, pieces: Seq<Seq<u8>>, finished: bool) -> Seq<u8>;

/// Whether flate2's gzip encoder takes a piece behind others: whether writing
/// and flushing it succeeds.
pub uninterp spec fn gzip_takes(level: u32, pieces: Seq<Seq<u8>>, data: Seq<u8>) -> bool;

/// Whether brotli's encoder takes a piece behind others: whether writing and
/// flushing it succeeds.
pub uninterp spec fn brotli_takes(quality: u32, pieces: Seq<Seq<u8>>, data: Seq<u8>) -> bool;

/// Whether zstd's encoder takes a piece behind others: whether writing and
/// flushing it succeeds.
pub uninterp spec fn zstd_takes(level: i32, pieces: Seq<Seq<u8>>, data: Seq<u8>) -> bool;

/// Whether finishing flate2's gzip encoder behind the pieces succeeds.
pub uninterp spec fn gzip_ends(level: u32, pieces: Seq<Seq<u8>>) -> bool;

/// Whether finishing zstd's encoder behind the pieces succeeds.
pub uninterp spec fn zstd_ends(level: i32, pieces: Seq<Seq<u8>>) -> bool;

/// Whether zstd starts an encoder of the level.
pub uninterp spec fn zstd_starts(level: i32) -> bool;

/// What `flate2::read::GzDecoder` reads in the bytes of a whole stream.
pub uninterp spec fn gunzipped(bytes: Seq<u8>) -> Option<Seq<u8>>;

/// What `brotli::Decompressor` reads in the bytes of a whole stream.
pub uninterp spec fn unbrotlied(bytes: Seq<u8>) -> Option<Seq<u8>>;

/// What `zstd::stream::read::Decoder` reads in the bytes of a whole stream.
pub uninterp spec fn unzstded(bytes: Seq<u8>) -> Option<Seq<u8>>;

/// `flate2::write::GzEncoder::new` starts a stream of the level; nothing has
/// been written yet.
#[verifier::external_body]
fn gzip_start(level: u32) -> (r: GzipStream)
    requires
        level <= 9,
    ensures
        gzip_fed(r) == (level, Seq::<Seq<u8>>::empty()),
        gzip_bytes(gzip_fed(r).0, gzip_fed(r).1, false) == Seq::<u8>::empty(),
{
    GzipStream {
        inner: flate2::write::GzEncoder::new(Vec::new(), flate2::Compression::new(level)),
    }
}

/// Writing and flushing a piece, with `write_all` and `flush` of
/// `flate2::write::GzEncoder`, adds the bytes handed back to those written before.
/// The sink is a vector, so whether it succeeds rests on the stream and the
/// piece alone; it is named `gzip_takes`. After an error the stream is gone.
#[verifier::external_body]
fn gzip_push(s: GzipStream, data: &[u8]) -> (r: Result<(GzipStream, Vec<u8>), String>)
    ensures
        r is Ok == gzip_takes(gzip_fed(s).0, gzip_fed(s).1, data@),
        r matches Ok((t, out)) ==> gzip_fed(t) == (gzip_fed(s).0, gzip_fed(s).1.push(data@))
            && gzip_bytes(gzip_fed(s).0, gzip_fed(s).1, false) + out@ == gzip_bytes(
            gzip_fed(t).0,
            gzip_fed(t).1,
            false,
        ),
{
    let mut inner = s.inner;
    inner.write_all(data).map_err(|e| e.to_string())?;
    inner.flush().map_err(|e| e.to_string())?;
    let out = std::mem::take(inner.get_mut());
    Ok((GzipStream { inner }, out))
}

/// `flate2::write::GzEncoder::finish` adds the bytes that complete the stream;
/// whether it succeeds is named `gzip_ends`.
/// `flate2::read::GzDecoder` reads in the whole stream the pieces that were
/// written.
#[verifier::external_body]
fn gzip_finish(s: GzipStream) -> (r: Result<Vec<u8>, String>)
    ensures
        r is Ok == gzip_ends(gzip_fed(s).0, gzip_fed(s).1),
        r matches Ok(out) ==> gzip_bytes(gzip_fed(s).0, gzip_fed(s).1, false) + out@ == gzip_bytes(
            gzip_fed(s).0,
            gzip_fed(s).1,
            true,
        ) && gunzipped(gzip_bytes(gzip_fed(s).0, gzip_fed(s).1, false) + out@) == Some(
            gzip_fed(s).1.flatten(),
        ),
{
    s.inner.finish().map_err(|e| e.to_string())
}

/// `brotli::CompressorWriter::new` starts a stream of the quality, with a
/// buffer of 4096 bytes and a window of 22 bits; nothing has been written yet.
#[verifier::external_body]
fn brotli_start(quality: u32) -> (r: BrotliStream)
    requires
        quality <= 11,
    ensures
        brotli_fed(r) == (quality, Seq::<Seq<u8>>::empty()),
        brotli_bytes(brotli_fed(r).0, brotli_fed(r).1, false) == Seq::<u8>::empty(),
{
    BrotliStream {
        inner: Box::new(brotli::CompressorWriter::new(Vec::new(), 4096, quality, 22)),
    }
}

/// Writing and flushing a piece, with `write_all` and `flush` of
/// `brotli::CompressorWriter`, adds the bytes handed back to those written before.
/// The sink is a vector, so whether it succeeds rests on the stream and the
/// piece alone; it is named `brotli_takes`. After an error the stream is gone.
#[verifier::external_body]
fn brotli_push(s: BrotliStream, data: &[u8]) -> (r: Result<(BrotliStream, Vec<u8>), String>)
    ensures
        r is Ok == brotli_takes(brotli_fed(s).0, brotli_fed(s).1, data@),
        r matches Ok((t, out)) ==> brotli_fed(t) == (brotli_fed(s).0, brotli_fed(s).1.push(data@))
            && brotli_bytes(brotli_fed(s).0, brotli_fed(s).1, false) + out@ == brotli_bytes(
            brotli_fed(t).0,
            brotli_fed(t).1,
            false,
        ),
{
    let mut inner = s.inner;
    inner.write_all(data).map_err(|e| e.to_string())?;
    inner.flush().map_err(|e| e.to_string())?;
    let out = std::mem::take(inner.get_mut());
    Ok((BrotliStream { inner }, out))
}

/// `brotli::CompressorWriter::into_inner` adds the bytes that complete the
/// stream. `brotli::Decompressor` reads in the whole stream the pieces that
/// were written.
#[verifier::external_body]
fn brotli_finish(s: BrotliStream) -> (r: Vec<u8>)
    ensures
        brotli_bytes(brotli_fed(s).0, brotli_fed(s).1, false) + r@ == brotli_bytes(
            brotli_fed(s).0,
            brotli_fed(s).1,
            true,
        ),
        unbrotlied(brotli_bytes(brotli_fed(s).0, brotli_fed(s).1, false) + r@) == Some(
            brotli_fed(s).1.flatten(),
        ),
{
    s.inner.into_inner()
}

/// `zstd::stream::write::Encoder::new` starts a stream of the level; nothing
/// has been written yet. Whether it succeeds is named `zstd_starts`.
#[verifier::external_body]
fn zstd_start(level: i32) -> (r: Result<ZstdStream, String>)
    requires
        1 <= level <= 21,
    ensures
        r is Ok == zstd_starts(level),
        r matches Ok(s) ==> zstd_fed(s) == (level, Seq::<Seq<u8>>::empty()) && zstd_bytes(
            zstd_fed(s).0,
            zstd_fed(s).1,
            false,
        ) == Seq::<u8>::empty(),
{
    let inner = zstd::stream::write::Encoder::new(Vec::new(), level).map_err(|e| e.to_string())?;
    Ok(ZstdStream { inner })
}

/// Writing and flushing a piece, with `write_all` and `flush` of
/// `zstd::stream::write::Encoder`, adds the bytes handed back to those written before.
/// The sink is a vector, so whether it succeeds rests on the stream and the
/// piece alone; it is named `zstd_takes`. After an error the stream is gone.
#[verifier::external_body]
fn zstd_push(s: ZstdStream, data: &[u8]) -> (r: Result<(ZstdStream, Vec<u8>), String>)
    ensures
        r is Ok == zstd_takes(zstd_fed(s).0, zstd_fed(s).1, data@),
        r matches Ok((t, out)) ==> zstd_fed(t) == (zstd_fed(s).0, zstd_fed(s).1.push(data@))
            && zstd_bytes(zstd_fed(s).0, zstd_fed(s).1, false) + out@ == zstd_bytes(
            zstd_fed(t).0,
            zstd_fed(t).1,
            false,
        ),
{
    let mut inner = s.inner;
    inner.write_all(data).map_err(|e| e.to_string())?;
    inner.flush().map_err(|e| e.to_string())?;
    let out = std::mem::take(inner.get_mut());
    Ok((ZstdStream { inner }, out))
}

/// `zstd::stream::write::Encoder::finish` adds the bytes that complete the
/// stream; whether it succeeds is named `zstd_ends`. `zstd::stream::read::Decoder` reads in the whole stream the pieces
/// that were written.
#[verifier::external_body]
fn zstd_finish(s: ZstdStream) -> (r: Result<Vec<u8>, String>)
    ensures
        r is Ok == zstd_ends(zstd_fed(s).0, zstd_fed(s).1),
        r matches Ok(out) ==> zstd_bytes(zstd_fed(s).0, zstd_fed(s).1, false) + out@ == zstd_bytes(
            zstd_fed(s).0,
            zstd_fed(s).1,
            true,
        ) && unzstded(zstd_bytes(zstd_fed(s).0, zstd_fed(s).1, false) + out@) == Some(
            zstd_fed(s).1.flatten(),
        ),
{
    s.inner.finish().map_err(|e| e.to_string())
}

/// A streaming compressor. Each push hands back the bytes that are ready; the
/// last bytes come when the stream is finished. An error ends the stream.
pub enum BodyEncoder {
    Gzip(GzipStream),
    Brotli(BrotliStream),
    Zstd(ZstdStream),
    Broken,
}

/// The level that a configured level comes to in a coding's own range.
pub open spec fn coding_level(coding: Encoding, level: u32) -> int {
    match coding {
        Encoding::Gzip => if level > 9 {
            9
        } else {
            level as int
        },
        Encoding::Brotli => if level > 11 {
            11
        } else {
            level as int
        },
        Encoding::Zstd => if level < 1 {
            1
        } else if level > 21 {
            21
        } else {
            level as int
        },
    }
}

/// What a decoder of the coding reads in the bytes of a whole stream.
pub open spec fn decoded(coding: Encoding, bytes: Seq<u8>) -> Option<Seq<u8>> {
    match coding {
        Encoding::Gzip => gunzipped(bytes),
        Encoding::Brotli => unbrotlied(bytes),
        Encoding::Zstd => unzstded(bytes),
    }
}

impl BodyEncoder {
    /// The coding of the stream; none once an error has ended it.
    pub open spec fn coding(self) -> Option<Encoding> {
        match self {
            BodyEncoder::Gzip(_) => Some(Encoding::Gzip),
            BodyEncoder::Brotli(_) => Some(Encoding::Brotli),
            BodyEncoder::Zstd(_) => Some(Encoding::Zstd),
            BodyEncoder::Broken => None,
        }
    }

    /// The level of the stream, in the coding's own range.
    pub open spec fn level(self) -> int {
        match self {
            BodyEncoder::Gzip(s) => gzip_fed(s).0 as int,
            BodyEncoder::Brotli(s) => brotli_fed(s).0 as int,
            BodyEncoder::Zstd(s) => zstd_fed(s).0 as int,
            BodyEncoder::Broken => 0,
        }
    }

    /// The pieces of data pushed so far.
    pub open spec fn pushed(self) -> Seq<Seq<u8>> {
        match self {
            BodyEncoder::Gzip(s) => gzip_fed(s).1,
            BodyEncoder::Brotli(s) => brotli_fed(s).1,
            BodyEncoder::Zstd(s) => zstd_fed(s).1,
            BodyEncoder::Broken => Seq::empty(),
        }
    }

    /// The bytes handed back so far.
    pub open spec fn emitted(self) -> Seq<u8> {
        match self {
            BodyEncoder::Gzip(s) => gzip_bytes(gzip_fed(s).0, gzip_fed(s).1, false),
            BodyEncoder::Brotli(s) => brotli_bytes(brotli_fed(s).0, brotli_fed(s).1, false),
            BodyEncoder::Zstd(s) => zstd_bytes(zstd_fed(s).0, zstd_fed(s).1, false),
            BodyEncoder::Broken => Seq::empty(),
        }
    }

    /// Whether the stream takes another piece; never once an error has ended
    /// it.
    pub open spec fn takes(self, data: Seq<u8>) -> bool {
        match self {
            BodyEncoder::Gzip(s) => gzip_takes(gzip_fed(s).0, gzip_fed(s).1, data),
            BodyEncoder::Brotli(s) => brotli_takes(brotli_fed(s).0, brotli_fed(s).1, data),
            BodyEncoder::Zstd(s) => zstd_takes(zstd_fed(s).0, zstd_fed(s).1, data),
            BodyEncoder::Broken => false,
        }
    }

    /// Whether the stream can be finished; not once an error has ended it.
    pub open spec fn ends(self) -> bool {
        match self {
            BodyEncoder::Gzip(s) => gzip_ends(gzip_fed(s).0, gzip_fed(s).1),
            BodyEncoder::Brotli(_) => true,
            BodyEncoder::Zstd(s) => zstd_ends(zstd_fed(s).0, zstd_fed(s).1),
            BodyEncoder::Broken => false,
        }
    }

    /// An encoder for `encoding`. The configured level is mapped into the
    /// coding's own range. Only starting a Zstd stream can fail.
    pub fn new(encoding: Encoding, level: u32) -> (r: Result<BodyEncoder, String>)
        ensures
            r is Ok == (encoding == Encoding::Zstd ==> zstd_starts(
                coding_level(encoding, level) as i32,
            )),
            r matches Ok(e) ==> e.coding() == Some(encoding) && e.level() == coding_level(encoding, level)
                && e.pushed() == Seq::<Seq<u8>>::empty() && e.emitted() == Seq::<u8>::empty(),
    {
        match encoding {
            Encoding::Gzip => Ok(
                BodyEncoder::Gzip(
                    gzip_start(
                        if level > 9 {
                            9
                        } else {
                            level
                        },
                    ),
                ),
            ),
            Encoding::Brotli => Ok(
                BodyEncoder::Brotli(
                    brotli_start(
                        if level > 11 {
                            11
                        } else {
                            level
                        },
                    ),
                ),
            ),
            Encoding::Zstd => {
                let mapped: i32 = if level < 1 {
                    1
                } else if level > 21 {
                    21
                } else {
                    level as i32
                };
                match zstd_start(mapped) {
                    Ok(s) => Ok(BodyEncoder::Zstd(s)),
                    Err(e) => Err(e),
                }
            },
        }
    }

    /// Compresses `data` and hands back the encoded bytes that are ready.
    pub fn push(&mut self, data: &[u8]) -> (r: Result<Vec<u8>, String>)
        ensures
            r is Ok == old(self).takes(data@),
            match r {
                Ok(out) => {
                    &&& final(self).coding() == old(self).coding()
                    &&& final(self).level() == old(self).level()
                    &&& final(self).pushed() == old(self).pushed().push(data@)
                    &&& final(self).emitted() == old(self).emitted() + out@
                },
                Err(_) => final(self).coding() is None,
            },
    {
        let mut taken = BodyEncoder::Broken;
        std::mem::swap(self, &mut taken);
        match taken {
            BodyEncoder::Gzip(s) => match gzip_push(s, data) {
                Ok((t, out)) => {
                    *self = BodyEncoder::Gzip(t);
                    Ok(out)
                },
                Err(e) => Err(e),
            },
            BodyEncoder::Brotli(s) => match brotli_push(s, data) {
                Ok((t, out)) => {
                    *self = BodyEncoder::Brotli(t);
                    Ok(out)
                },
                Err(e) => Err(e),
            },
            BodyEncoder::Zstd(s) => match zstd_push(s, data) {
                Ok((t, out)) => {
                    *self = BodyEncoder::Zstd(t);
                    Ok(out)
                },
                Err(e) => Err(e),
            },
            BodyEncoder::Broken => Err("the stream has ended".to_owned()),
        }
    }

    /// Finishes the stream and hands back the last bytes. A decoder of the
    /// coding reads in all the bytes handed back what was pushed.
    pub fn finish(self) -> (r: Result<Vec<u8>, String>)
        ensures
            r is Ok == self.ends(),
            r matches Ok(out) ==> decoded(self.coding()->0, self.emitted() + out@) == Some(
                self.pushed().flatten(),
            ),
    {
        match self {
            BodyEncoder::Gzip(s) => gzip_finish(s),
            BodyEncoder::Brotli(s) => Ok(brotli_finish(s)),
            BodyEncoder::Zstd(s) => zstd_finish(s),
            BodyEncoder::Broken => Err("the stream has ended".to_owned()),
        }
    }
}

} // verus!
