//! A request's conversation with the cache: serve an entry, revalidate it with
//! the origin, or fetch and store the answer.
use crate::cache::{cacheable_request, request_cacheable, CachedResponse, ResponseText};
use crate::clock::Timestamp;
use crate::headers::{first_value, pairs};
use crate::message::{contains_field, field_text, fields, find_field, has_field, FieldText, HeaderField};
use crate::relay::{own_ttl, response_lifetime, storable, storable_headers, stored_ttl, upstream_ttl};
use crate::router::{after_pick, pick_target, place, Endpoint, EndpointText, RouteText, Router};
use crate::store::{
    cache_key, file_for, lookup_outcome, looked_up, maybe_slice, maybe_write, stored, DiskWrite,
    Lookup, LookupText, ResponseCache,
};
use crate::text::maybe_string;
use crate::upstream::{Revalidated, RevalidatedText};
use vstd::prelude::*;

verus! {

/// The cache key of a request, where it may be served from the cache.
pub open spec fn key_for(
    method: Seq<char>,
    h: Seq<FieldText>,
    host: Seq<char>,
    target: Seq<char>,
) -> Option<Seq<char>> {
    if cacheable_request(method, field_text(h, "cache-control"@), has_field(h, "authorization"@)) {
        Some(cache_key(host, target, field_text(h, "accept-encoding"@)))
    } else {
        None
    }
}

/// The cache key of a request, where it may be served from the cache.
pub fn request_key(method: &str, headers: &Vec<HeaderField>, host: &str, target: &str) -> (r: Option<
    String,
>)
    ensures
        maybe_string(r) == key_for(method@, fields(headers@), host@, target@),
{
    if request_cacheable(
        method,
        find_field(headers, "cache-control"),
        contains_field(headers, "authorization"),
    ) {
        Some(ResponseCache::key(host, target, find_field(headers, "accept-encoding")))
    } else {
        None
    }
}

/// What the cache says of a request.
#[derive(Debug)]
pub enum Consulted {
    /// Serve this entry.
    Serve(CachedResponse),
    /// Ask the origin whether the entry with this tag is still valid.
    Revalidate { key: String, hit: CachedResponse, target: Endpoint, etag: String },
    /// Fetch from the upstream, and store the answer under the key if there is
    /// one.
    Fetch(Option<String>),
}

/// What the cache says of a request, as text.
pub enum ConsultedText {
    Serve(ResponseText),
    Revalidate { key: Seq<char>, hit: ResponseText, target: EndpointText, etag: Seq<char> },
    Fetch(Option<Seq<char>>),
}

impl View for Consulted {
    type V = ConsultedText;

    open spec fn view(&self) -> ConsultedText {
        match *self {
            Consulted::Serve(hit) => ConsultedText::Serve(hit@),
            Consulted::Revalidate { key, hit, target, etag } => ConsultedText::Revalidate {
                key: key@,
                hit: hit@,
                target: target@,
                etag: etag@,
            },
            Consulted::Fetch(key) => ConsultedText::Fetch(maybe_string(key)),
        }
    }
}

/// What follows from what a lookup found: a fresh entry is served; a stale one
/// is revalidated where it has a tag and there is a target to ask; otherwise
/// the request is fetched.
pub open spec fn advice(
    found: LookupText,
    key: Seq<char>,
    target: Option<EndpointText>,
    can_revalidate: bool,
) -> ConsultedText {
    match found {
        LookupText::Fresh(hit) => ConsultedText::Serve(hit),
        LookupText::Stale(hit) => match (first_value(hit.headers, "etag"@), target) {
            (Some(etag), Some(t)) => if can_revalidate {
                ConsultedText::Revalidate { key, hit, target: t, etag }
            } else {
                ConsultedText::Fetch(Some(key))
            },
            _ => ConsultedText::Fetch(Some(key)),
        },
        LookupText::Miss => ConsultedText::Fetch(Some(key)),
    }
}

/// Whether two states of an optional cache differ in their contents alone.
pub open spec fn same_cache(a: Option<ResponseCache>, b: Option<ResponseCache>) -> bool {
    match (a, b) {
        (None, None) => true,
        (Some(x), Some(y)) => x.wf() && y.wf() && x.limit() == y.limit() && x.disk_tier()
            == y.disk_tier(),
        _ => false,
    }
}

/// Whether an optional cache is well formed.
pub open spec fn cache_wf(c: Option<ResponseCache>) -> bool {
    c matches Some(cache) ==> cache.wf()
}

/// What a lookup for a request finds; a miss without a cache or a key.
pub open spec fn sought(
    cache: Option<ResponseCache>,
    key: Option<Seq<char>>,
    now: Timestamp,
    file: Option<Seq<u8>>,
) -> LookupText {
    match (cache, key) {
        (Some(c), Some(k)) => lookup_outcome(c@, c.disk_tier() is Some, k, now, file),
        _ => LookupText::Miss,
    }
}

/// What the cache says of a request.
pub open spec fn heard(
    cache: Option<ResponseCache>,
    key: Option<Seq<char>>,
    routes: Seq<RouteText>,
    route: Option<int>,
    can_revalidate: bool,
    now: Timestamp,
    file: Option<Seq<u8>>,
) -> ConsultedText {
    match (cache, key) {
        (Some(_), Some(k)) => advice(
            sought(cache, key, now, file),
            k,
            pick_target(routes, route),
            can_revalidate,
        ),
        _ => ConsultedText::Fetch(None),
    }
}

/// The routes once the cache was consulted: a stale entry takes a turn of its
/// route's targets.
pub open spec fn routes_after(
    cache: Option<ResponseCache>,
    key: Option<Seq<char>>,
    routes: Seq<RouteText>,
    route: Option<int>,
    now: Timestamp,
    file: Option<Seq<u8>>,
) -> Seq<RouteText> {
    if sought(cache, key, now, file) is Stale {
        after_pick(routes, route)
    } else {
        routes
    }
}

/// How consulting the cache changes it: an entry found on disk is put into
/// memory.
pub open spec fn looked_into(
    cache: Option<ResponseCache>,
    cache_after: Option<ResponseCache>,
    key: Option<Seq<char>>,
    now: Timestamp,
    file: Option<Seq<u8>>,
) -> bool {
    match (cache, key) {
        (Some(c), Some(k)) => cache_after matches Some(d) && looked_up(
            c@,
            d@,
            c.limit(),
            c.disk_tier() is Some,
            k,
            now,
            file,
            sought(cache, key, now, file),
        ),
        _ => cache_after == cache,
    }
}

/// Consults the cache for a request with this key. `file` holds the bytes of
/// the disk tier's file, where it was to be read and could be.
pub fn consult(
    cache: &mut Option<ResponseCache>,
    router: &mut Router,
    key: Option<String>,
    route: Option<usize>,
    can_revalidate: bool,
    now: Timestamp,
    file: Option<&[u8]>,
) -> (r: Consulted)
    requires
        cache_wf(*old(cache)),
        route matches Some(i) ==> i < old(router)@.len(),
    ensures
        same_cache(*old(cache), *final(cache)),
        looked_into(*old(cache), *final(cache), maybe_string(key), now, maybe_slice(file)),
        r@ == heard(
            *old(cache),
            maybe_string(key),
            old(router)@,
            place(route),
            can_revalidate,
            now,
            maybe_slice(file),
        ),
        final(router)@ == routes_after(
            *old(cache),
            maybe_string(key),
            old(router)@,
            place(route),
            now,
            maybe_slice(file),
        ),
{
    let k = match key {
        Some(k) => k,
        None => return Consulted::Fetch(None),
    };
    let found = match cache {
        Some(c) => c.lookup(k.as_str(), now, file),
        None => return Consulted::Fetch(None),
    };
    match found {
        Lookup::Fresh(hit) => Consulted::Serve(hit),
        Lookup::Stale(hit) => {
            let etag = match hit.etag() {
                Some(text) => Some(text.to_owned()),
                None => None,
            };
            let target = router.pick_at(route);
            match (etag, target) {
                (Some(etag), Some(target)) => if can_revalidate {
                    Consulted::Revalidate { key: k, hit, target, etag }
                } else {
                    Consulted::Fetch(Some(k))
                },
                _ => Consulted::Fetch(Some(k)),
            }
        },
        Lookup::Miss => Consulted::Fetch(Some(k)),
    }
}

/// What follows a revalidation.
#[derive(Debug)]
pub enum Settled {
    /// Serve this response; `renewed` where the origin sent it anew.
    Serve { response: CachedResponse, renewed: bool },
    /// Fetch from the upstream, and store the answer under the key.
    Fetch(String),
}

/// What follows a revalidation, as text.
pub enum SettledText {
    Serve { response: ResponseText, renewed: bool },
    Fetch(Seq<char>),
}

impl View for Settled {
    type V = SettledText;

    open spec fn view(&self) -> SettledText {
        match *self {
            Settled::Serve { response, renewed } => SettledText::Serve {
                response: response@,
                renewed,
            },
            Settled::Fetch(key) => SettledText::Fetch(key@),
        }
    }
}

/// What follows a revalidation: the entry is served where it is confirmed, the
/// new response where there is one; otherwise the request is fetched.
pub open spec fn settlement(
    key: Seq<char>,
    hit: ResponseText,
    outcome: RevalidatedText,
) -> SettledText {
    match outcome {
        RevalidatedText::NotModified => SettledText::Serve { response: hit, renewed: false },
        RevalidatedText::Modified(fresh) => SettledText::Serve { response: fresh, renewed: true },
        RevalidatedText::Failed => SettledText::Fetch(key),
    }
}

/// What a revalidation stores: the confirmed entry for its own lifetime, or a
/// minute where it gives none; a new response where it gives a lifetime and
/// sets no cookie.
pub open spec fn refreshed(hit: ResponseText, outcome: RevalidatedText) -> Option<
    (nat, ResponseText),
> {
    match outcome {
        RevalidatedText::NotModified => match own_ttl(hit) {
            Some(t) => Some((t, hit)),
            None => Some((60, hit)),
        },
        RevalidatedText::Modified(fresh) => match own_ttl(fresh) {
            Some(t) => Some((t, fresh)),
            None => None,
        },
        RevalidatedText::Failed => None,
    }
}

/// How storing a response for some seconds, or none, changes an optional
/// cache, and which file is to be written.
pub open spec fn kept(
    cache: Option<ResponseCache>,
    cache_after: Option<ResponseCache>,
    key: Seq<char>,
    entry: Option<(nat, ResponseText)>,
    now: Timestamp,
    write: Option<DiskWrite>,
) -> bool {
    match (cache, entry) {
        (Some(c), Some((secs, response))) => {
            let e = (now.later(secs as int), response);
            &&& cache_after matches Some(d)
            &&& stored(c@, d@, c.limit(), key, e)
            &&& maybe_write(write) == file_for(c.disk_tier(), key, e)
        },
        _ => cache_after == cache && write is None,
    }
}

/// Stores a response for some seconds from now.
fn keep(
    cache: &mut Option<ResponseCache>,
    key: String,
    secs: u64,
    response: CachedResponse,
    now: Timestamp,
) -> (r: Option<DiskWrite>)
    requires
        cache_wf(*old(cache)),
    ensures
        same_cache(*old(cache), *final(cache)),
        kept(*old(cache), *final(cache), key@, Some((secs as nat, response@)), now, r),
{
    let expiry = now.plus_secs(secs);
    match cache {
        Some(c) => c.put(key, expiry, response),
        None => None,
    }
}

/// Takes the outcome of a revalidation into account. The file to write is
/// handed back, where there is one.
pub fn settle(
    cache: &mut Option<ResponseCache>,
    key: String,
    hit: CachedResponse,
    outcome: Revalidated,
    now: Timestamp,
) -> (r: (Settled, Option<DiskWrite>))
    requires
        cache_wf(*old(cache)),
    ensures
        same_cache(*old(cache), *final(cache)),
        r.0@ == settlement(key@, hit@, outcome@),
        kept(*old(cache), *final(cache), key@, refreshed(hit@, outcome@), now, r.1),
{
    match outcome {
        Revalidated::NotModified => {
            let secs: u64 = match stored_ttl(&hit) {
                Some(t) => t,
                None => 60,
            };
            let write = keep(cache, key, secs, hit.copy(), now);
            (Settled::Serve { response: hit, renewed: false }, write)
        },
        Revalidated::Modified { status, headers, body } => {
            let fresh = CachedResponse { status, headers, body };
            let write = match stored_ttl(&fresh) {
                Some(t) => keep(cache, key, t, fresh.copy(), now),
                None => None,
            };
            (Settled::Serve { response: fresh, renewed: true }, write)
        },
        Revalidated::Failed => (Settled::Fetch(key), None),
    }
}

/// A response on its way to the client that is to be stored once its body is
/// complete.
#[derive(Debug)]
pub struct Pending {
    pub key: String,
    pub secs: u64,
    pub status: u16,
    pub headers: Vec<(String, String)>,
}

/// A response to be stored, as text.
#[verifier::ext_equal]
pub struct PendingText {
    pub key: Seq<char>,
    pub secs: nat,
    pub response: ResponseText,
}

/// A response to be stored with the body that it turns out to have.
pub open spec fn pending_text(p: Pending, body: Seq<u8>) -> PendingText {
    PendingText {
        key: p.key@,
        secs: p.secs as nat,
        response: ResponseText { status: p.status, headers: pairs(p.headers@), body },
    }
}

/// What of an upstream response is to be stored, but for its body: its status
/// and the headers that may be, where it may be cached.
pub open spec fn capture_of(key: Option<Seq<char>>, status: u16, h: Seq<FieldText>) -> Option<
    PendingText,
> {
    match (key, upstream_ttl(status, h)) {
        (Some(k), Some(secs)) => Some(
            PendingText {
                key: k,
                secs,
                response: ResponseText { status, headers: storable(h), body: Seq::empty() },
            },
        ),
        _ => None,
    }
}

/// The view of an optional response to be stored, with no body yet.
pub open spec fn maybe_pending(p: Option<Pending>) -> Option<PendingText> {
    match p {
        Some(p) => Some(pending_text(p, Seq::empty())),
        None => None,
    }
}

/// What of an upstream response is to be stored once its body is complete.
pub fn capture(key: Option<String>, status: u16, headers: &Vec<HeaderField>) -> (r: Option<Pending>)
    ensures
        maybe_pending(r) == capture_of(maybe_string(key), status, fields(headers@)),
{
    match key {
        Some(k) => match response_lifetime(status, headers) {
            Some(secs) => Some(
                Pending { key: k, secs, status, headers: storable_headers(headers) },
            ),
            None => None,
        },
        None => None,
    }
}

/// What is stored at the end of a response: nothing where it is not to be, or
/// its body was too large.
pub open spec fn completed(p: Option<Pending>, body: Seq<u8>, overflow: bool) -> Option<
    PendingText,
> {
    match p {
        Some(p) => if overflow {
            None
        } else {
            Some(pending_text(p, body))
        },
        None => None,
    }
}

/// Stores a response whose body is complete. The file to write is handed back,
/// where there is one.
pub fn complete(
    cache: &mut Option<ResponseCache>,
    pending: Option<Pending>,
    body: Vec<u8>,
    overflow: bool,
    now: Timestamp,
) -> (r: Option<DiskWrite>)
    requires
        cache_wf(*old(cache)),
    ensures
        same_cache(*old(cache), *final(cache)),
        match completed(pending, body@, overflow) {
            Some(p) => kept(
                *old(cache),
                *final(cache),
                p.key,
                Some((p.secs, p.response)),
                now,
                r,
            ),
            None => *final(cache) == *old(cache) && r is None,
        },
{
    match pending {
        Some(p) => {
            if overflow {
                return None;
            }
            let response = CachedResponse { status: p.status, headers: p.headers, body };
            keep(cache, p.key, p.secs, response, now)
        },
        None => None,
    }
}

/// A stale entry is never served without a word from the origin: what the
/// cache says to serve at once was fresh.
pub proof fn law_only_fresh_entries_are_served_at_once(
    found: LookupText,
    key: Seq<char>,
    target: Option<EndpointText>,
    can_revalidate: bool,
)
    ensures
        advice(found, key, target, can_revalidate) is Serve ==> found == LookupText::Fresh(
            advice(found, key, target, can_revalidate)->Serve_0,
        ),
        found is Stale ==> advice(found, key, target, can_revalidate) is Revalidate || advice(
            found,
            key,
            target,
            can_revalidate,
        ) == ConsultedText::Fetch(Some(key)),
{
}

/// A request that may not be cached leaves no trace in the cache and is not
/// served from it.
pub proof fn law_uncacheable_request_bypasses_the_cache(
    cache: Option<ResponseCache>,
    cache_after: Option<ResponseCache>,
    routes: Seq<RouteText>,
    method: Seq<char>,
    h: Seq<FieldText>,
    host: Seq<char>,
    target: Seq<char>,
    route: Option<int>,
    can_revalidate: bool,
    now: Timestamp,
    file: Option<Seq<u8>>,
)
    requires
        !cacheable_request(
            method,
            field_text(h, "cache-control"@),
            has_field(h, "authorization"@),
        ),
        looked_into(cache, cache_after, key_for(method, h, host, target), now, file),
    ensures
        heard(cache, key_for(method, h, host, target), routes, route, can_revalidate, now, file)
            == ConsultedText::Fetch(None),
        routes_after(cache, key_for(method, h, host, target), routes, route, now, file) == routes,
        cache_after == cache,
{
}

/// A response that was stored is served to every request with its key until
/// it expires, whatever the disk holds, and takes no turn of a target.
pub proof fn law_stored_response_is_served(
    cache: ResponseCache,
    cache_after: Option<ResponseCache>,
    key: Seq<char>,
    secs: nat,
    response: ResponseText,
    stored_at: Timestamp,
    write: Option<DiskWrite>,
    routes: Seq<RouteText>,
    route: Option<int>,
    can_revalidate: bool,
    now: Timestamp,
    file: Option<Seq<u8>>,
)
    requires
        kept(Some(cache), cache_after, key, Some((secs, response)), stored_at, write),
        now.nanos < stored_at.later(secs as int).nanos,
    ensures
        heard(cache_after, Some(key), routes, route, can_revalidate, now, file)
            == ConsultedText::Serve(response),
        routes_after(cache_after, Some(key), routes, route, now, file) == routes,
{
}

/// An entry that the origin confirmed is served, and served again without
/// asking the origin for at least a second.
pub proof fn law_confirmed_entry_is_fresh_again(
    cache: ResponseCache,
    cache_after: Option<ResponseCache>,
    key: Seq<char>,
    hit: ResponseText,
    confirmed_at: Timestamp,
    write: Option<DiskWrite>,
    routes: Seq<RouteText>,
    route: Option<int>,
    can_revalidate: bool,
    now: Timestamp,
    file: Option<Seq<u8>>,
)
    requires
        kept(
            Some(cache),
            cache_after,
            key,
            refreshed(hit, RevalidatedText::NotModified),
            confirmed_at,
            write,
        ),
        now.nanos < confirmed_at.later(1).nanos,
    ensures
        settlement(key, hit, RevalidatedText::NotModified) == (SettledText::Serve {
            response: hit,
            renewed: false,
        }),
        heard(cache_after, Some(key), routes, route, can_revalidate, now, file)
            == ConsultedText::Serve(hit),
{
    let secs = (refreshed(hit, RevalidatedText::NotModified)->0).0;
    assert(secs >= 1);
    assert(confirmed_at.later(1).nanos <= confirmed_at.later(secs as int).nanos);
    law_stored_response_is_served(
        cache,
        cache_after,
        key,
        secs,
        hit,
        confirmed_at,
        write,
        routes,
        route,
        can_revalidate,
        now,
        file,
    );
}

/// An answer to a revalidation that sets a cookie is served to the client that
/// asked, and not stored.
pub proof fn law_cookies_are_not_stored(
    cache: Option<ResponseCache>,
    cache_after: Option<ResponseCache>,
    key: Seq<char>,
    hit: ResponseText,
    fresh: ResponseText,
    now: Timestamp,
    write: Option<DiskWrite>,
)
    requires
        first_value(fresh.headers, "set-cookie"@) is Some,
        kept(
            cache,
            cache_after,
            key,
            refreshed(hit, RevalidatedText::Modified(fresh)),
            now,
            write,
        ),
    ensures
        settlement(key, hit, RevalidatedText::Modified(fresh)) == (SettledText::Serve {
            response: fresh,
            renewed: true,
        }),
        cache_after == cache,
        write is None,
{
}

} // verus!
