//! What both front ends do with responses: replies, cache hits, static files,
//! and what of an upstream response is kept.
use crate::cache::{
    if_none_match_satisfied, none_match_names, response_ttl, ttl, CachedResponse, ResponseText,
};
use crate::headers::{find_value, first_value, pairs, HeaderText};
use crate::message::{
    contains_field, field_text, fields, find_field, has_field, FieldText, HeadText, HeaderField,
    ResponseHead,
};
use crate::numeral::{decimal, decimal_text};
use crate::text::{chars_of, is_text, lowercase, lowered, maybe, maybe_string, same};
use vstd::prelude::*;

verus! {

/// A complete response: a head, and a body where there is one.
#[derive(Debug)]
pub struct Reply {
    pub head: ResponseHead,
    pub body: Option<Vec<u8>>,
}

/// A complete response as text.
#[verifier::ext_equal]
pub struct ReplyText {
    pub head: HeadText,
    pub body: Option<Seq<u8>>,
}

/// The bytes of an optional body.
pub open spec fn maybe_bytes(b: Option<Vec<u8>>) -> Option<Seq<u8>> {
    match b {
        Some(v) => Some(v@),
        None => None,
    }
}

impl View for Reply {
    type V = ReplyText;

    open spec fn view(&self) -> ReplyText {
        ReplyText { head: self.head@, body: maybe_bytes(self.body) }
    }
}

/// A response of nothing but a status.
pub open spec fn bare(status: u16) -> ReplyText {
    ReplyText { head: HeadText { status, headers: Seq::empty() }, body: None }
}

/// A response of nothing but a status.
pub fn bare_reply(status: u16) -> (r: Reply)
    ensures
        r@ == bare(status),
{
    let r = Reply { head: ResponseHead { status, headers: Vec::new() }, body: None };
    assert(r@.head.headers =~= Seq::<HeaderText>::empty());
    r
}

/// Whether a method is safe: repeating a request of it has no effect.
pub open spec fn safe_method(method: Seq<char>) -> bool {
    method == "GET"@ || method == "HEAD"@ || method == "OPTIONS"@ || method == "TRACE"@
}

/// Whether `method` may be processed as early data, which can be replayed.
/// Methods that are merely idempotent do not qualify: a replay still changes
/// state.
pub fn is_safe_method(method: &str) -> (r: bool)
    ensures
        r == safe_method(method@),
{
    same(method, "GET") || same(method, "HEAD") || same(method, "OPTIONS") || same(
        method,
        "TRACE",
    )
}

/// Whether a header concerns one connection or the framing of one message, so
/// that it is neither stored nor passed on with a stored response.
pub open spec fn connection_header(name: Seq<char>) -> bool {
    let n = lowered(name);
    ||| n == "connection"@
    ||| n == "keep-alive"@
    ||| n == "proxy-connection"@
    ||| n == "transfer-encoding"@
    ||| n == "upgrade"@
    ||| n == "content-length"@
}

/// Whether a header must not be stored and replayed from the cache.
pub fn is_uncacheable_header(name: &str) -> (r: bool)
    ensures
        r == connection_header(name@),
{
    let chars = chars_of(name);
    let n = lowercase(chars.as_slice());
    is_text(n.as_slice(), "connection") || is_text(n.as_slice(), "keep-alive") || is_text(
        n.as_slice(),
        "proxy-connection",
    ) || is_text(n.as_slice(), "transfer-encoding") || is_text(n.as_slice(), "upgrade") || is_text(
        n.as_slice(),
        "content-length",
    )
}

/// The headers of a response that may be stored: those with text that do not
/// concern one connection.
pub open spec fn storable(h: Seq<FieldText>) -> Seq<HeaderText>
    decreases h.len(),
{
    if h.len() == 0 {
        Seq::empty()
    } else {
        let front = storable(h.drop_last());
        match h.last().1 {
            Some(value) => if connection_header(h.last().0) {
                front
            } else {
                front.push((h.last().0, value))
            },
            None => front,
        }
    }
}

/// The headers of a response that may be stored.
pub fn storable_headers(h: &Vec<HeaderField>) -> (r: Vec<(String, String)>)
    ensures
        pairs(r@) == storable(fields(h@)),
{
    let ghost all = fields(h@);
    let mut out: Vec<(String, String)> = Vec::new();
    let mut i: usize = 0;
    assert(pairs(out@) =~= Seq::<HeaderText>::empty());
    while i < h.len()
        invariant
            i <= h.len(),
            all == fields(h@),
            pairs(out@) == storable(all.take(i as int)),
        decreases h.len() - i,
    {
        let ghost o = out@;
        assert(all[i as int] == (h@[i as int].name@, maybe_string(h@[i as int].value)));
        assert(all.take(i + 1).drop_last() =~= all.take(i as int));
        match &h[i].value {
            Some(text) => {
                if !is_uncacheable_header(h[i].name.as_str()) {
                    out.push((h[i].name.clone(), text.clone()));
                    assert(pairs(out@) =~= pairs(o).push((h@[i as int].name@, text@)));
                }
            },
            None => {},
        }
        i = i + 1;
    }
    assert(all.take(i as int) =~= all);
    out
}

/// No stored header concerns a connection or the framing of a message.
pub proof fn law_stored_headers_are_end_to_end(h: Seq<FieldText>, i: int)
    requires
        0 <= i < storable(h).len(),
    ensures
        !connection_header(storable(h)[i].0),
    decreases h.len(),
{
    if h.len() > 0 {
        let front = storable(h.drop_last());
        if i < front.len() {
            law_stored_headers_are_end_to_end(h.drop_last(), i);
        }
    }
}

/// The lifetime that a stored response gives itself, in seconds; none where it
/// sets a cookie.
pub open spec fn own_ttl(response: ResponseText) -> Option<nat> {
    ttl(
        200,
        first_value(response.headers, "cache-control"@),
        first_value(response.headers, "set-cookie"@) is Some,
        first_value(response.headers, "vary"@),
    )
}

/// The freshness lifetime of a stored response, from its own `Cache-Control`,
/// `Set-Cookie` and `Vary`, by which an entry is refreshed after revalidation.
pub fn stored_ttl(response: &CachedResponse) -> (r: Option<u64>)
    ensures
        match r {
            Some(n) => own_ttl(response@) == Some(n as nat),
            None => own_ttl(response@) is None,
        },
{
    let cache_control = find_value(&response.headers, "cache-control");
    let cookie = find_value(&response.headers, "set-cookie");
    let vary = find_value(&response.headers, "vary");
    response_ttl(200, cache_control, cookie.is_some(), vary)
}

/// The seconds that an upstream response may be cached for.
pub open spec fn upstream_ttl(status: u16, h: Seq<FieldText>) -> Option<nat> {
    ttl(
        status,
        field_text(h, "cache-control"@),
        has_field(h, "set-cookie"@),
        field_text(h, "vary"@),
    )
}

/// The seconds that an upstream response may be cached for.
pub fn response_lifetime(status: u16, h: &Vec<HeaderField>) -> (r: Option<u64>)
    ensures
        match r {
            Some(n) => upstream_ttl(status, fields(h@)) == Some(n as nat),
            None => upstream_ttl(status, fields(h@)) is None,
        },
{
    response_ttl(
        status,
        find_field(h, "cache-control"),
        contains_field(h, "set-cookie"),
        find_field(h, "vary"),
    )
}

/// A body being gathered for the cache: what came so far, or that it is too
/// large.
pub open spec fn gathered(
    buf: Seq<u8>,
    overflow: bool,
    active: bool,
    data: Seq<u8>,
    max: int,
) -> (Seq<u8>, bool) {
    if !active || overflow {
        (buf, overflow)
    } else if buf.len() + data.len() > max {
        (Seq::empty(), true)
    } else {
        (buf + data, false)
    }
}

/// Adds a piece of a response body to what is gathered for the cache, up to
/// `max` bytes.
pub fn accumulate_cache_body(
    active: bool,
    buf: &mut Vec<u8>,
    overflow: &mut bool,
    data: &[u8],
    max: u64,
)
    ensures
        (final(buf)@, *final(overflow)) == gathered(
            old(buf)@,
            *old(overflow),
            active,
            data@,
            max as int,
        ),
{
    if active && !*overflow {
        let room: u64 = if buf.len() as u64 <= max {
            max - buf.len() as u64
        } else {
            0
        };
        if buf.len() as u64 > max || data.len() as u64 > room {
            *overflow = true;
            buf.clear();
            assert(buf@ =~= Seq::<u8>::empty());
        } else {
            buf.extend_from_slice(data);
            assert(buf@ =~= old(buf)@ + data@);
        }
    }
}

/// What is gathered never exceeds the limit, and once it is too large nothing
/// is gathered any more.
pub proof fn law_gathered_body_is_bounded(
    buf: Seq<u8>,
    overflow: bool,
    active: bool,
    data: Seq<u8>,
    max: int,
)
    requires
        buf.len() <= max,
    ensures
        gathered(buf, overflow, active, data, max).0.len() <= max,
        overflow ==> gathered(buf, overflow, active, data, max).1,
        active && !overflow && !gathered(buf, overflow, active, data, max).1 ==> gathered(
            buf,
            overflow,
            active,
            data,
            max,
        ).0 == buf + data,
{
}

/// What is gathered for the cache of a body that comes in pieces.
pub open spec fn gathered_all(pieces: Seq<Seq<u8>>, max: int) -> (Seq<u8>, bool)
    decreases pieces.len(),
{
    if pieces.len() == 0 {
        (Seq::empty(), false)
    } else {
        let front = gathered_all(pieces.drop_last(), max);
        gathered(front.0, front.1, true, pieces.last(), max)
    }
}

/// A body is found too large exactly where its pieces together exceed the
/// limit; otherwise what is gathered is the whole body.
pub proof fn law_gathered_body_is_the_body(pieces: Seq<Seq<u8>>, max: int)
    requires
        max >= 0,
    ensures
        gathered_all(pieces, max).1 == (pieces.flatten().len() > max),
        !gathered_all(pieces, max).1 ==> gathered_all(pieces, max).0 == pieces.flatten(),
    decreases pieces.len(),
{
    if pieces.len() > 0 {
        let front = pieces.drop_last();
        law_gathered_body_is_the_body(front, max);
        front.lemma_flatten_push(pieces.last());
        assert(front.push(pieces.last()) =~= pieces);
    }
}

/// Whether a cache hit is answered without its body.
pub open spec fn not_modified(hit: ResponseText, if_none_match: Option<Seq<char>>) -> bool {
    match (if_none_match, first_value(hit.headers, "etag"@)) {
        (Some(inm), Some(etag)) => none_match_names(inm, etag),
        _ => false,
    }
}

/// Whether a cache hit is answered without its body.
pub fn hit_not_modified(hit: &CachedResponse, if_none_match: Option<&str>) -> (r: bool)
    ensures
        r == not_modified(hit@, maybe(if_none_match)),
{
    match (if_none_match, hit.etag()) {
        (Some(inm), Some(etag)) => if_none_match_satisfied(inm, etag),
        _ => false,
    }
}

/// The marker of a response from the cache.
pub open spec fn hit_marker() -> HeaderText {
    ("x-cache"@, "HIT"@)
}

/// Whether a body of so many bytes exceeds the limit, if there is one.
pub open spec fn over_limit(len: nat, max: Option<u64>) -> bool {
    max matches Some(m) && len > m
}

/// Whether a body of so many bytes exceeds the limit, if there is one.
pub fn exceeds(len: u64, max: Option<u64>) -> (r: bool)
    ensures
        r == over_limit(len as nat, max),
{
    match max {
        Some(m) => len > m,
        None => false,
    }
}

/// What becomes of a request body that is being buffered for plugins.
#[derive(Clone, Copy, Debug, PartialEq, Eq, Structural)]
pub enum Intake {
    /// It is buffered on.
    Buffer,
    /// It is larger than plugins can take: the request goes on without them.
    Bypass,
    /// It is larger than any request may be.
    Refuse,
}

/// What becomes of a request body once so many bytes of it have come. `cap` is
/// what plugins can take, `max` the limit of all requests.
pub open spec fn intake(len: nat, cap: u64, max: Option<u64>) -> Intake {
    if over_limit(len, max) {
        Intake::Refuse
    } else if len <= cap {
        Intake::Buffer
    } else {
        Intake::Bypass
    }
}

/// Adds a piece of a request body to what is buffered, and tells what becomes
/// of it.
pub fn take_in(buffered: &mut Vec<u8>, chunk: &[u8], cap: u64, max: Option<u64>) -> (r: Intake)
    ensures
        final(buffered)@ == old(buffered)@ + chunk@,
        r == intake((old(buffered)@.len() + chunk@.len()) as nat, cap, max),
{
    buffered.extend_from_slice(chunk);
    assert(buffered@ =~= old(buffered)@ + chunk@);
    let len: u64 = buffered.len() as u64;
    if exceeds(len, max) {
        Intake::Refuse
    } else if len <= cap {
        Intake::Buffer
    } else {
        Intake::Bypass
    }
}

/// The count of body bytes seen, after one more piece.
pub open spec fn seen_after(seen: u64, len: nat) -> int {
    if seen + len > u64::MAX {
        u64::MAX as int
    } else {
        seen + len
    }
}

/// Counts a piece of a streamed request body; `false` once more than `max`
/// bytes have been seen. Without a limit nothing is counted.
pub fn count_chunk(seen: &mut u64, len: usize, max: Option<u64>) -> (r: bool)
    ensures
        match max {
            Some(m) => *final(seen) == seen_after(*old(seen), len as nat) && r == (*final(seen) <= m),
            None => r && *final(seen) == *old(seen),
        },
{
    match max {
        Some(m) => {
            let before: u64 = *seen;
            let n: u64 = len as u64;
            *seen = if n > u64::MAX - before {
                u64::MAX
            } else {
                before + n
            };
            *seen <= m
        },
        None => true,
    }
}

/// What `mime_guess` makes of a path's extension.
pub uninterp spec fn mime_for(path: Seq<char>) -> Seq<char>;

/// `mime_guess::from_path` guesses a media type by the extension of the path;
/// `first_or_octet_stream` takes the first guess, or
/// `application/octet-stream`. The type's text is named `mime_for`.
#[verifier::external_body]
fn mime_of(path: &str) -> (r: String)
    ensures
        r@ == mime_for(path@),
{
    mime_guess::from_path(path).first_or_octet_stream().to_string()
}

/// The response to a request for a static file of a known media type.
pub open spec fn file_reply(mime: Seq<char>, body: Seq<u8>) -> ReplyText {
    ReplyText {
        head: HeadText {
            status: 200,
            headers: seq![
                ("content-type"@, mime),
                ("content-length"@, decimal_text(body.len())),
            ],
        },
        body: Some(body),
    }
}

/// The response to a request for a static file of a known media type.
pub fn reply_with_file(mime: String, body: Vec<u8>) -> (r: Reply)
    ensures
        r@ == file_reply(mime@, body@),
{
    let mut headers: Vec<(String, String)> = Vec::new();
    headers.push(("content-type".to_owned(), mime));
    headers.push(("content-length".to_owned(), decimal(body.len() as u64)));
    let r = Reply { head: ResponseHead { status: 200, headers }, body: Some(body) };
    assert(r@.head.headers =~= file_reply(mime@, body@).head.headers);
    r
}

/// The response to a request that a static directory answers: the file at its
/// path with its contents, or 404 where there is none.
pub fn static_reply(file: Option<(String, Vec<u8>)>) -> (r: Reply)
    ensures
        r@ == match file {
            Some((path, body)) => file_reply(mime_for(path@), body@),
            None => bare(404),
        },
{
    match file {
        Some((path, body)) => {
            let mime = mime_of(path.as_str());
            reply_with_file(mime, body)
        },
        None => bare_reply(404),
    }
}

} // verus!
