//! What the cache stores, in memory and on disk, and what it finds again.
use crate::cache::ResponseText;
use crate::clock::Timestamp;
use crate::consult::{
    completed, heard, kept, looked_into, routes_after, same_cache, sought, ConsultedText, Pending,
};
use crate::exchange::file_wanted;
use crate::headers::pairs;
use crate::router::{after_pick, probes, HealthHandle, RouteText};
use crate::store::{
    entry_count, entry_in_file, file_name, found, has_extension, is_entry, judged, looked_up,
    lookup_outcome, oldest_entry, stored, Contents, DiskFile, DiskWrite, LookupText, ResponseCache,
};
use vstd::prelude::*;

verus! {

/// An entry is fresh until its expiry and stale from then on.
pub proof fn law_entry_is_fresh_until_its_expiry(
    expiry: Timestamp,
    response: ResponseText,
    now: Timestamp,
)
    ensures
        now.nanos < expiry.nanos ==> judged((expiry, response), now) == LookupText::Fresh(response),
        now.nanos >= expiry.nanos ==> judged((expiry, response), now) == LookupText::Stale(
            response,
        ),
{
}

/// A lookup finds the entry in memory where there is one; otherwise that of the
/// file, where there is a disk tier and the file holds one for the key; and
/// otherwise nothing.
pub proof fn law_where_an_entry_is_found(
    contents: Contents,
    on_disk: bool,
    key: Seq<char>,
    now: Timestamp,
    file: Option<Seq<u8>>,
)
    ensures
        contents.contains_key(key) ==> lookup_outcome(contents, on_disk, key, now, file) == judged(
            contents[key],
            now,
        ) && found(contents, key, now) == judged(contents[key], now),
        !contents.contains_key(key) ==> found(contents, key, now) == LookupText::Miss,
        !contents.contains_key(key) && (!on_disk || file is None) ==> lookup_outcome(
            contents,
            on_disk,
            key,
            now,
            file,
        ) == LookupText::Miss,
        !contents.contains_key(key) && on_disk && file is Some ==> (match entry_in_file(
            key,
            file->0,
        ) {
            Some(entry) => lookup_outcome(contents, on_disk, key, now, file) == judged(entry, now),
            None => lookup_outcome(contents, on_disk, key, now, file) == LookupText::Miss,
        }),
{
}

/// A lookup puts what it found on disk into memory, under its key, and changes
/// nothing otherwise.
pub proof fn law_entry_from_disk_is_put_into_memory(
    before: Contents,
    after: Contents,
    limit: nat,
    on_disk: bool,
    key: Seq<char>,
    now: Timestamp,
    file: Option<Seq<u8>>,
    outcome: LookupText,
)
    requires
        looked_up(before, after, limit, on_disk, key, now, file, outcome),
    ensures
        before.contains_key(key) || !on_disk || file is None ==> after == before,
        !before.contains_key(key) && on_disk && file is Some && entry_in_file(
            key,
            file->0,
        ) is None ==> after == before,
        !before.contains_key(key) && on_disk && file is Some && entry_in_file(
            key,
            file->0,
        ) is Some ==> after.contains_key(key) && Some(after[key]) == entry_in_file(key, file->0),
{
}

/// Whatever a request does to the cache, it stays a cache with the same room and
/// the same disk tier, and no cache stays none.
pub proof fn law_cache_stays(before: Option<ResponseCache>, after: Option<ResponseCache>)
    requires
        same_cache(before, after),
    ensures
        before is None <==> after is None,
        before matches Some(b) ==> b.wf() && after->0.wf() && after->0.limit() == b.limit()
            && after->0.disk_tier() == b.disk_tier(),
{
}

/// A file holds an entry for its own key alone.
pub proof fn law_file_is_of_one_key(a: Seq<char>, b: Seq<char>, bytes: Seq<u8>)
    requires
        entry_in_file(a, bytes) is Some,
        entry_in_file(b, bytes) is Some,
    ensures
        a == b,
{
}

/// A response that is kept for some seconds is in memory under its key and fresh
/// for that long; with a disk tier it is also written, to the file of its key,
/// by way of a file that is not an entry. Without a cache, or where nothing is
/// to be kept, nothing changes.
pub proof fn law_response_is_kept(
    cache: Option<ResponseCache>,
    cache_after: Option<ResponseCache>,
    key: Seq<char>,
    entry: Option<(nat, ResponseText)>,
    now: Timestamp,
    write: Option<DiskWrite>,
)
    requires
        kept(cache, cache_after, key, entry, now, write),
    ensures
        cache is None || entry is None ==> cache_after == cache && write is None,
        cache is Some && entry is Some ==> {
            let secs = (entry->0).0;
            let response = (entry->0).1;
            &&& cache_after is Some
            &&& cache_after->0@.contains_key(key)
            &&& cache_after->0@[key].1 == response
            &&& now.nanos + secs * 1_000_000_000 <= i128::MAX ==> cache_after->0@[key].0.nanos
                == now.nanos + secs * 1_000_000_000
            &&& cache->0.disk_tier() is None ==> write is None
            &&& cache->0.disk_tier() matches Some(disk) ==> {
                &&& write is Some
                &&& write->0.path@ == crate::paths::path_below(disk.directory(), file_name(key))
                &&& write->0.tmp@ == write->0.path@ + seq!['.', 't', 'm', 'p']
                &&& write->0.bytes@ == crate::codec::entry_bytes(
                    key,
                    now.later(secs as int).whole_secs() as nat,
                    response,
                )
            }
        },
{
    reveal_strlit(".tmp");
    assert(".tmp"@ =~= seq!['.', 't', 'm', 'p']);
}

/// Without a cache or a key the cache says nothing and nothing is stored; the
/// routes take a turn only where an entry is stale.
pub proof fn law_request_without_a_key(
    cache: Option<ResponseCache>,
    cache_after: Option<ResponseCache>,
    key: Option<Seq<char>>,
    routes: Seq<RouteText>,
    route: Option<int>,
    can_revalidate: bool,
    now: Timestamp,
    file: Option<Seq<u8>>,
)
    ensures
        cache is None || key is None ==> {
            &&& sought(cache, key, now, file) == LookupText::Miss
            &&& heard(cache, key, routes, route, can_revalidate, now, file) == ConsultedText::Fetch(
                None,
            )
            &&& looked_into(cache, cache_after, key, now, file) ==> cache_after == cache
        },
        sought(cache, key, now, file) is Stale ==> routes_after(
            cache,
            key,
            routes,
            route,
            now,
            file,
        ) == after_pick(routes, route),
        !(sought(cache, key, now, file) is Stale) ==> routes_after(
            cache,
            key,
            routes,
            route,
            now,
            file,
        ) == routes,
{
}

/// What is stored of a response that is complete: what was to be, with its whole
/// body; nothing where the body was too large.
pub proof fn law_complete_response_is_stored(p: Pending, body: Seq<u8>)
    ensures
        completed(None, body, false) is None,
        completed(None, body, true) is None,
        completed(Some(p), body, true) is None,
        completed(Some(p), body, false) matches Some(text) && {
            &&& text.key == p.key@
            &&& text.secs == p.secs
            &&& text.response.status == p.status
            &&& text.response.headers == pairs(p.headers@)
            &&& text.response.body == body
        },
{
}

/// A cache file is read exactly where the request has a key that memory does not
/// hold and the cache has a disk tier; it is the file of that key.
pub proof fn law_file_to_read(cache: ResponseCache, key: Seq<char>)
    ensures
        file_wanted(None, Some(key)) is None,
        file_wanted(Some(cache), None) is None,
        file_wanted(Some(cache), Some(key)) is Some <==> cache.disk_tier() is Some
            && !cache@.contains_key(key),
        file_wanted(Some(cache), Some(key)) matches Some(path) ==> path
            == crate::paths::path_below(cache.disk_tier()->0.directory(), file_name(key)),
{
}

/// Files that are entries.
pub open spec fn being_entries() -> spec_fn(DiskFile) -> bool {
    |f: DiskFile| f.modified is Some && !has_extension(f.name@)
}

/// The entries of a directory are counted: every file of a known age without an
/// extension.
pub proof fn law_entries_are_counted(files: Seq<DiskFile>)
    ensures
        entry_count(files) == files.filter(being_entries()).len(),
    decreases files.len(),
{
    reveal(Seq::filter);
    if files.len() > 0 {
        law_entries_are_counted(files.drop_last());
    }
}

/// A name with a dot behind its first character has an extension; one without
/// such a dot has none.
pub proof fn law_extension(stem: Seq<char>, rest: Seq<char>)
    requires
        stem.len() > 0,
        stem != seq!['.'] || rest.len() > 0,
    ensures
        has_extension(stem.push('.') + rest),
        !stem.skip(1).contains('.') ==> !has_extension(stem),
{
    reveal_strlit("..");
    let whole = stem.push('.') + rest;
    assert(whole[stem.len() as int] == '.');
    if whole == ".."@ {
        assert(".."@.len() == 2 && ".."@[0] == '.');
        assert(whole.len() == stem.len() + 1 + rest.len());
        assert(whole[0] == stem[0]);
        assert(stem =~= seq!['.']);
    }
    if !stem.skip(1).contains('.') {
        if has_extension(stem) {
            let i = choose|i: int| 1 <= i < stem.len() && #[trigger] stem[i] == '.';
            assert(stem.skip(1)[i - 1] == '.');
        }
    }
}

/// The entry that makes room is one that no entry is older than.
pub proof fn law_oldest_entry_makes_room(files: Seq<DiskFile>, i: int, j: int)
    requires
        oldest_entry(files, i),
        0 <= j < files.len(),
        being_entries()(files[j]),
    ensures
        being_entries()(files[i]),
        files[i].modified->0.nanos <= files[j].modified->0.nanos,
        oldest_entry(files, j) ==> i == j,
{
    assert(is_entry(files[j]));
}

/// Every target of every route is probed at its address.
pub proof fn law_every_target_is_probed(routes: Seq<RouteText>, i: int, j: int, a: Seq<char>)
    requires
        routes.len() <= usize::MAX,
        0 <= i < routes.len(),
        0 <= j < routes[i].targets.len(),
        routes[i].targets.len() <= usize::MAX,
    ensures
        routes[i].targets[j].address == a ==> probes(routes).contains(
            (a, HealthHandle { route: i as usize, target: j as usize }),
        ),
    decreases routes.len(),
{
    if routes[i].targets[j].address == a {
        let front = routes.drop_last();
        let at = (routes.len() - 1) as usize;
        let own = Seq::new(
            routes.last().targets.len(),
            |j: int|
                (
                    routes.last().targets[j].address,
                    HealthHandle { route: at, target: j as usize },
                ),
        );
        let wanted = (a, HealthHandle { route: i as usize, target: j as usize });
        if i < routes.len() - 1 {
            law_every_target_is_probed(front, i, j, a);
            let k = choose|k: int| 0 <= k < probes(front).len() && probes(front)[k] == wanted;
            assert(probes(routes)[k] == wanted);
        } else {
            assert(own[j] == wanted);
            assert(probes(routes)[probes(front).len() + j] == wanted);
        }
    }
}

/// Whatever is probed is a target of a route, at its address.
pub proof fn law_only_targets_are_probed(routes: Seq<RouteText>, k: int)
    requires
        routes.len() <= usize::MAX,
        forall|i: int| 0 <= i < routes.len() ==> (#[trigger] routes[i]).targets.len() <= usize::MAX,
        0 <= k < probes(routes).len(),
    ensures
        ({
            let (address, handle) = probes(routes)[k];
            &&& handle.route < routes.len()
            &&& handle.target < routes[handle.route as int].targets.len()
            &&& routes[handle.route as int].targets[handle.target as int].address == address
        }),
    decreases routes.len(),
{
    if routes.len() > 0 {
        let front = routes.drop_last();
        assert forall|i: int| 0 <= i < front.len() implies (#[trigger] front[i]).targets.len()
            <= usize::MAX by {
            assert(routes[i] == front[i]);
        }
        assert(routes[routes.len() - 1].targets.len() <= usize::MAX);
        if k < probes(front).len() {
            law_only_targets_are_probed(front, k);
            assert(probes(routes)[k] == probes(front)[k]);
        }
    }
}

} // verus!
