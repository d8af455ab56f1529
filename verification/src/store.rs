//! The store of cached responses: a bounded map in memory, and files that let
//! entries survive a restart.
use crate::cache::{
    accepted_codings, canonical_codings, law_canonical_codings, normalize_accept_encoding,
    CachedResponse, ResponseText,
};
use crate::clock::Timestamp;
use crate::codec::{
    decode, encode, entry_bytes, law_entry_round_trip, law_truncated_entry_is_refused,
    lengths_fit, read_entry,
};
use crate::numeral::{hex, hex_text};
use crate::order::same_members;
use crate::paths::{join_path, path_below};
use crate::text::{maybe, same, texts};
use std::collections::hash_map::DefaultHasher;
use std::hash::Hasher;
use vstd::hash_map::StringHashMap;
use vstd::prelude::*;
use vstd::std_specs::hash::DefaultHasherAdditionalSpecFns;
use vstd::string::StringExecFns;
use vstd::utf8::encode_utf8;

verus! {

/// The outcome of a cache lookup.
#[derive(Debug)]
pub enum Lookup {
    /// No entry for the key.
    Miss,
    /// A fresh entry that may be served directly.
    Fresh(CachedResponse),
    /// An expired entry that may be revalidated with the origin.
    Stale(CachedResponse),
}

/// The outcome of a cache lookup, as text.
pub enum LookupText {
    Miss,
    Fresh(ResponseText),
    Stale(ResponseText),
}

impl View for Lookup {
    type V = LookupText;

    open spec fn view(&self) -> LookupText {
        match *self {
            Lookup::Miss => LookupText::Miss,
            Lookup::Fresh(response) => LookupText::Fresh(response@),
            Lookup::Stale(response) => LookupText::Stale(response@),
        }
    }
}

/// A response in memory, with the time until which it is fresh.
#[derive(Debug)]
struct Entry {
    expiry: Timestamp,
    response: CachedResponse,
}

/// What a cache holds: for each key an expiry and a response.
pub type Contents = Map<Seq<char>, (Timestamp, ResponseText)>;

/// What an entry is worth at a point in time.
pub open spec fn judged(entry: (Timestamp, ResponseText), now: Timestamp) -> LookupText {
    if entry.0.nanos > now.nanos {
        LookupText::Fresh(entry.1)
    } else {
        LookupText::Stale(entry.1)
    }
}

/// What a lookup in memory finds.
pub open spec fn found(contents: Contents, key: Seq<char>, now: Timestamp) -> LookupText {
    if contents.contains_key(key) {
        judged(contents[key], now)
    } else {
        LookupText::Miss
    }
}

/// Whether no entry expires before that of `key`.
pub open spec fn soonest(contents: Contents, key: Seq<char>) -> bool {
    &&& contents.contains_key(key)
    &&& forall|k: Seq<char>| #[trigger]
        contents.contains_key(k) ==> contents[key].0.nanos <= contents[k].0.nanos
}

/// How storing an entry changes the contents: it takes the place of an entry
/// of the same key; where the cache is full and has none, an entry that
/// expires soonest makes room.
pub open spec fn stored(
    before: Contents,
    after: Contents,
    limit: nat,
    key: Seq<char>,
    entry: (Timestamp, ResponseText),
) -> bool {
    if before.contains_key(key) || before.len() < limit {
        after == before.insert(key, entry)
    } else {
        exists|victim: Seq<char>| #[trigger]
            soonest(before, victim) && after == before.remove(victim).insert(key, entry)
    }
}

/// The name of the file that holds the entry of `key`: its hash in sixteen
/// hexadecimal digits.
pub open spec fn file_name(key: Seq<char>) -> Seq<char> {
    hex_text(DefaultHasher::spec_finish(seq![encode_utf8(key), seq![0xffu8]]) as nat, 16)
}

/// The name of the file that holds the entry of `key`.
fn name_of(key: &str) -> (r: String)
    ensures
        r@ == file_name(key@),
{
    let mut hasher = DefaultHasher::new();
    hasher.write(key.as_bytes());
    let end: [u8; 1] = [0xff];
    hasher.write(end.as_slice());
    assert(hasher@ =~= seq![encode_utf8(key@), seq![0xffu8]]) by {
        assert(end@ =~= seq![0xffu8]);
    }
    hex(hasher.finish(), 16)
}

/// A file to be written: its bytes go to `tmp`, which is then renamed to
/// `path`, so that a reader never sees a half-written file.
#[derive(Debug)]
pub struct DiskWrite {
    pub path: String,
    pub tmp: String,
    pub bytes: Vec<u8>,
}

/// A file to be written, as text and bytes.
#[verifier::ext_equal]
pub struct DiskWriteText {
    pub path: Seq<char>,
    pub tmp: Seq<char>,
    pub bytes: Seq<u8>,
}

impl View for DiskWrite {
    type V = DiskWriteText;

    open spec fn view(&self) -> DiskWriteText {
        DiskWriteText { path: self.path@, tmp: self.tmp@, bytes: self.bytes@ }
    }
}

/// The view of an optional write.
pub open spec fn maybe_write(w: Option<DiskWrite>) -> Option<DiskWriteText> {
    match w {
        Some(w) => Some(w@),
        None => None,
    }
}

/// The file that holds an entry below a directory.
pub open spec fn entry_file(
    dir: Seq<char>,
    key: Seq<char>,
    entry: (Timestamp, ResponseText),
) -> DiskWriteText {
    let path = path_below(dir, file_name(key));
    DiskWriteText {
        path,
        tmp: path + ".tmp"@,
        bytes: entry_bytes(key, entry.0.whole_secs() as nat, entry.1),
    }
}

/// The file to write for an entry, where there is a disk tier.
pub open spec fn file_for(
    disk: Option<DiskStore>,
    key: Seq<char>,
    entry: (Timestamp, ResponseText),
) -> Option<DiskWriteText> {
    match disk {
        Some(d) => Some(entry_file(d.directory(), key, entry)),
        None => None,
    }
}

/// A file of the disk tier's directory; `modified` is absent where it could
/// not be told.
#[derive(Debug)]
pub struct DiskFile {
    pub name: String,
    pub modified: Option<Timestamp>,
}

/// The disk tier of a cache: one file for each entry.
#[derive(Debug)]
pub struct DiskStore {
    dir: String,
    max_entries: usize,
}

/// Whether a file name has an extension: a dot behind its first character.
pub open spec fn has_extension(name: Seq<char>) -> bool {
    name != ".."@ && exists|i: int| 1 <= i < name.len() && #[trigger] name[i] == '.'
}

/// Whether a file counts as an entry: its age is known and it has no
/// extension. Files still being written have one.
pub open spec fn is_entry(file: DiskFile) -> bool {
    file.modified is Some && !has_extension(file.name@)
}

/// How many of the files are entries.
pub open spec fn entry_count(files: Seq<DiskFile>) -> nat
    decreases files.len(),
{
    if files.len() == 0 {
        0
    } else {
        entry_count(files.drop_last()) + if is_entry(files.last()) {
            1nat
        } else {
            0nat
        }
    }
}

/// Whether the file at `i` is the first of the oldest entries.
pub open spec fn oldest_entry(files: Seq<DiskFile>, i: int) -> bool {
    &&& 0 <= i < files.len()
    &&& is_entry(files[i])
    &&& forall|j: int|
        0 <= j < files.len() && is_entry(#[trigger] files[j]) ==> files[i].modified->0.nanos
            <= files[j].modified->0.nanos
    &&& forall|j: int|
        0 <= j < i && is_entry(#[trigger] files[j]) ==> files[i].modified->0.nanos
            < files[j].modified->0.nanos
}

/// Whether a file name has an extension.
fn extension(name: &str) -> (r: bool)
    ensures
        r == has_extension(name@),
{
    if same(name, "..") {
        return false;
    }
    let n: usize = name.unicode_len();
    let mut i: usize = 1;
    while i < n
        invariant
            1 <= i,
            n == name@.len(),
            name@ != ".."@,
            forall|j: int| 1 <= j < i && j < n ==> #[trigger] name@[j] != '.',
        decreases n - i,
    {
        if name.get_char(i) == '.' {
            return true;
        }
        i = i + 1;
    }
    false
}

impl DiskStore {
    /// The directory of the files.
    pub closed spec fn directory(&self) -> Seq<char> {
        self.dir@
    }

    /// How many entries the directory holds at most.
    pub closed spec fn limit(&self) -> nat {
        self.max_entries as nat
    }

    /// A disk tier below `dir` for `max_entries` entries, at least one.
    pub fn new(dir: String, max_entries: usize) -> (r: DiskStore)
        ensures
            r.directory() == dir@,
            r.limit() == if max_entries == 0 {
                1
            } else {
                max_entries as nat
            },
    {
        DiskStore {
            dir,
            max_entries: if max_entries == 0 {
                1
            } else {
                max_entries
            },
        }
    }

    /// The path of the file that holds the entry of `key`.
    pub fn path(&self, key: &str) -> (r: String)
        ensures
            r@ == path_below(self.directory(), file_name(key@)),
    {
        let name = name_of(key);
        join_path(self.dir.as_str(), name.as_str())
    }

    /// What to write for an entry.
    pub fn put(&self, key: &str, expiry: Timestamp, response: &CachedResponse) -> (r: DiskWrite)
        ensures
            r@ == entry_file(self.directory(), key@, (expiry, response@)),
    {
        let path = self.path(key);
        let mut tmp = path.clone();
        tmp.append(".tmp");
        DiskWrite { path, tmp, bytes: encode(key, expiry, response) }
    }

    /// The entry that the bytes of a file hold for `key`. A file of another
    /// key, whose hash is the same, holds none.
    pub fn get(&self, key: &str, bytes: &[u8]) -> (r: Option<(Timestamp, CachedResponse)>)
        ensures
            match r {
                Some((expiry, response)) => entry_in_file(key@, bytes@) == Some(
                    (expiry, response@),
                ),
                None => entry_in_file(key@, bytes@) is None,
            },
    {
        match decode(bytes) {
            Some((stored_key, expiry, response)) => if same(stored_key.as_str(), key) {
                Some((expiry, response))
            } else {
                None
            },
            None => None,
        }
    }

    /// The file to remove before an entry is added: the oldest entry, once
    /// there are as many as the directory may hold.
    pub fn evict(&self, files: &Vec<DiskFile>) -> (r: Option<usize>)
        ensures
            match r {
                Some(i) => entry_count(files@) >= self.limit() && oldest_entry(files@, i as int),
                None => entry_count(files@) < self.limit() || entry_count(files@) == 0,
            },
    {
        let mut count: usize = 0;
        let mut oldest: Option<usize> = None;
        let mut oldest_nanos: i128 = 0;
        let mut i: usize = 0;
        while i < files.len()
            invariant
                i <= files.len(),
                count <= i,
                count == entry_count(files@.take(i as int)),
                match oldest {
                    Some(k) => oldest_entry(files@.take(i as int), k as int) && oldest_nanos
                        == files@[k as int].modified->0.nanos && count > 0,
                    None => count == 0 && forall|j: int|
                        0 <= j < i ==> !is_entry(#[trigger] files@[j]),
                },
            decreases files.len() - i,
        {
            let ghost front = files@.take(i as int);
            let ghost next = files@.take(i + 1);
            assert(next.drop_last() =~= front);
            assert(forall|j: int| 0 <= j < i ==> #[trigger] next[j] == front[j]);
            assert(next[i as int] == files@[i as int]);
            match files[i].modified {
                Some(t) => {
                    if !extension(files[i].name.as_str()) {
                        assert(is_entry(files@[i as int]));
                        count = count + 1;
                        if oldest.is_none() || t.nanos < oldest_nanos {
                            oldest = Some(i);
                            oldest_nanos = t.nanos;
                        }
                    }
                },
                None => {},
            }
            i = i + 1;
        }
        assert(files@.take(i as int) =~= files@);
        if count >= self.max_entries {
            oldest
        } else {
            None
        }
    }
}

/// The entry that a file holds for `key`.
pub open spec fn entry_in_file(key: Seq<char>, bytes: Seq<u8>) -> Option<
    (Timestamp, ResponseText),
> {
    match read_entry(bytes) {
        Some((entry, _)) => if entry.key == key {
            Some((Timestamp::at_secs(entry.secs as int), entry.response))
        } else {
            None
        },
        None => None,
    }
}

/// A bounded response cache: a map in memory keyed by request, optionally
/// backed by a disk tier.
pub struct ResponseCache {
    max_entries: usize,
    entries: StringHashMap<Entry>,
    keys: Vec<String>,
    disk: Option<DiskStore>,
}

impl View for ResponseCache {
    type V = Contents;

    closed spec fn view(&self) -> Contents {
        self.entries@.map_values(|e: Entry| (e.expiry, e.response@))
    }
}

impl ResponseCache {
    /// The most entries that memory holds.
    pub closed spec fn limit(&self) -> nat {
        self.max_entries as nat
    }

    /// The disk tier, if there is one.
    pub closed spec fn disk_tier(&self) -> Option<DiskStore> {
        self.disk
    }

    /// The list of keys names each key of the map once, and there are no more
    /// of them than the limit allows.
    pub closed spec fn wf(&self) -> bool {
        &&& 1 <= self.max_entries
        &&& self.keys@.len() <= self.max_entries
        &&& texts(self.keys@).no_duplicates()
        &&& forall|k: Seq<char>| #[trigger]
            self.entries@.contains_key(k) <==> texts(self.keys@).contains(k)
    }

    proof fn lemma_len(&self)
        requires
            self.wf(),
        ensures
            self@.dom().finite(),
            self@.len() == self.keys@.len(),
    {
        let names = texts(self.keys@);
        names.unique_seq_to_set();
        assert(self@.dom() =~= names.to_set());
    }

    /// The cache never holds more entries than its limit.
    pub proof fn law_bounded(&self)
        requires
            self.wf(),
        ensures
            self@.dom().finite(),
            self@.len() <= self.limit(),
            self.limit() >= 1,
    {
        self.lemma_len();
    }

    /// Creates a cache in memory for at most `max_entries` responses.
    pub fn new(max_entries: usize) -> (r: ResponseCache)
        ensures
            r.wf(),
            r@ == Contents::empty(),
            r.limit() == if max_entries == 0 {
                1
            } else {
                max_entries as nat
            },
            r.disk_tier() is None,
    {
        let r = ResponseCache {
            max_entries: if max_entries == 0 {
                1
            } else {
                max_entries
            },
            entries: StringHashMap::new(),
            keys: Vec::new(),
            disk: None,
        };
        assert(r@ =~= Contents::empty());
        r
    }

    /// Creates a cache that also keeps its entries in files below `dir`.
    pub fn with_disk(max_entries: usize, dir: String) -> (r: ResponseCache)
        ensures
            r.wf(),
            r@ == Contents::empty(),
            r.limit() == if max_entries == 0 {
                1
            } else {
                max_entries as nat
            },
            r.disk_tier() matches Some(disk) && disk.directory() == dir@ && disk.limit()
                == r.limit(),
    {
        let cache = ResponseCache::new(max_entries);
        let r = ResponseCache { disk: Some(DiskStore::new(dir, max_entries)), ..cache };
        assert(r@ =~= Contents::empty());
        r
    }

    /// The cache key of a request. It holds a canonical `Accept-Encoding`, so
    /// that different content codings are cached separately. The unit
    /// separator between its parts cannot occur in a host or a URL.
    pub fn key(host: &str, path_and_query: &str, accept_encoding: Option<&str>) -> (r: String)
        ensures
            r@ == cache_key(host@, path_and_query@, maybe(accept_encoding)),
    {
        let mut out = host.to_owned();
        out.append(path_and_query);
        out.push('\u{1f}');
        let codings = normalize_accept_encoding(accept_encoding);
        out.append(codings.as_str());
        out
    }

    /// A fresh response for `key`, or `None`. `file` holds the bytes of the disk
    /// tier's file where it could be read; see [`ResponseCache::lookup`].
    pub fn get(&mut self, key: &str, now: Timestamp, file: Option<&[u8]>) -> (r: Option<
        CachedResponse,
    >)
        requires
            old(self).wf(),
        ensures
            final(self).wf(),
            final(self).limit() == old(self).limit(),
            final(self).disk_tier() == old(self).disk_tier(),
            looked_up(
                old(self)@,
                final(self)@,
                old(self).limit(),
                old(self).disk_tier() is Some,
                key@,
                now,
                maybe_slice(file),
                lookup_outcome(
                    old(self)@,
                    old(self).disk_tier() is Some,
                    key@,
                    now,
                    maybe_slice(file),
                ),
            ),
            match r {
                Some(response) => Some(response@),
                None => None,
            } == served(
                lookup_outcome(
                    old(self)@,
                    old(self).disk_tier() is Some,
                    key@,
                    now,
                    maybe_slice(file),
                ),
            ),
    {
        match self.lookup(key, now, file) {
            Lookup::Fresh(response) => Some(response),
            _ => None,
        }
    }

    /// Looks `key` up in memory.
    fn recall(&self, key: &str, now: Timestamp) -> (r: Lookup)
        requires
            self.wf(),
        ensures
            r@ == found(self@, key@, now),
    {
        match self.entries.get(key) {
            Some(entry) => if entry.expiry.nanos > now.nanos {
                Lookup::Fresh(entry.response.copy())
            } else {
                Lookup::Stale(entry.response.copy())
            },
            None => Lookup::Miss,
        }
    }

    /// The file to read before a lookup of `key` is complete: that of the disk
    /// tier, where memory holds no entry.
    pub fn file_to_read(&self, key: &str) -> (r: Option<String>)
        requires
            self.wf(),
        ensures
            match r {
                Some(path) => {
                    &&& !self@.contains_key(key@)
                    &&& self.disk_tier() matches Some(disk)
                    &&& path@ == path_below(disk.directory(), file_name(key@))
                },
                None => self@.contains_key(key@) || self.disk_tier() is None,
            },
    {
        if self.entries.contains_key(key) {
            return None;
        }
        match &self.disk {
            Some(disk) => Some(disk.path(key)),
            None => None,
        }
    }

    /// Looks `key` up in memory and then in `file`, the bytes of the disk
    /// tier's file where it could be read, telling a fresh entry from a stale
    /// one, which may be revalidated. What the file holds is put into memory.
    pub fn lookup(&mut self, key: &str, now: Timestamp, file: Option<&[u8]>) -> (r: Lookup)
        requires
            old(self).wf(),
        ensures
            final(self).wf(),
            final(self).limit() == old(self).limit(),
            final(self).disk_tier() == old(self).disk_tier(),
            looked_up(
                old(self)@,
                final(self)@,
                old(self).limit(),
                old(self).disk_tier() is Some,
                key@,
                now,
                maybe_slice(file),
                r@,
            ),
    {
        if self.entries.contains_key(key) {
            return self.recall(key, now);
        }
        let held = match (&self.disk, file) {
            (Some(disk), Some(bytes)) => disk.get(key, bytes),
            _ => None,
        };
        match held {
            Some((expiry, response)) => {
                let copy = response.copy();
                self.insert_memory(key.to_owned(), expiry, copy);
                if expiry.nanos > now.nanos {
                    Lookup::Fresh(response)
                } else {
                    Lookup::Stale(response)
                }
            },
            None => Lookup::Miss,
        }
    }

    /// Stores `response` under `key` until `expiry`. Where there is a disk
    /// tier, the file to write is handed back.
    pub fn put(&mut self, key: String, expiry: Timestamp, response: CachedResponse) -> (r: Option<
        DiskWrite,
    >)
        requires
            old(self).wf(),
        ensures
            final(self).wf(),
            final(self).limit() == old(self).limit(),
            final(self).disk_tier() == old(self).disk_tier(),
            stored(old(self)@, final(self)@, old(self).limit(), key@, (expiry, response@)),
            maybe_write(r) == file_for(old(self).disk_tier(), key@, (expiry, response@)),
    {
        let write = match &self.disk {
            Some(disk) => Some(disk.put(key.as_str(), expiry, &response)),
            None => None,
        };
        self.insert_memory(key, expiry, response);
        write
    }

    /// The place in `keys` of an entry that expires soonest.
    fn soonest_to_expire(&self) -> (r: usize)
        requires
            self.wf(),
            self.keys@.len() > 0,
        ensures
            r < self.keys@.len(),
            soonest(self@, self.keys@[r as int]@),
    {
        let ghost names = texts(self.keys@);
        let mut best: usize = 0;
        let mut best_nanos: i128 = i128::MAX;
        let mut i: usize = 0;
        while i < self.keys.len()
            invariant
                i <= self.keys.len(),
                self.wf(),
                names == texts(self.keys@),
                best <= i,
                i > 0 ==> best < i && best_nanos == self@[names[best as int]].0.nanos,
                forall|j: int|
                    0 <= j < i ==> best_nanos <= self@[#[trigger] names[j]].0.nanos,
            decreases self.keys.len() - i,
        {
            assert(names[i as int] == self.keys@[i as int]@);
            assert(names.contains(names[i as int]));
            match self.entries.get(self.keys[i].as_str()) {
                Some(entry) => {
                    if i == 0 || entry.expiry.nanos < best_nanos {
                        best = i;
                        best_nanos = entry.expiry.nanos;
                    }
                },
                None => {},
            }
            i = i + 1;
        }
        proof {
            assert(names[best as int] == self.keys@[best as int]@);
            assert(names.contains(names[best as int]));
            assert forall|k: Seq<char>| #[trigger] self@.contains_key(k) implies best_nanos
                <= self@[k].0.nanos by {
                assert(self.entries@.contains_key(k));
                let j = choose|j: int| 0 <= j < names.len() && names[j] == k;
                assert(best_nanos <= self@[names[j]].0.nanos);
            }
        }
        best
    }

    /// Puts an entry into memory; where it is full, an entry that expires
    /// soonest makes room.
    fn insert_memory(&mut self, key: String, expiry: Timestamp, response: CachedResponse)
        requires
            old(self).wf(),
        ensures
            final(self).wf(),
            final(self).limit() == old(self).limit(),
            final(self).disk_tier() == old(self).disk_tier(),
            stored(old(self)@, final(self)@, old(self).limit(), key@, (expiry, response@)),
    {
        let ghost before = self@;
        let ghost names0 = texts(self.keys@);
        proof {
            self.lemma_len();
        }
        let present = self.entries.contains_key(key.as_str());
        if !present && self.keys.len() >= self.max_entries {
            let at = self.soonest_to_expire();
            let ghost victim = self.keys@[at as int]@;
            let name = self.keys.swap_remove(at);
            self.entries.remove(name.as_str());
            proof {
                let names1 = texts(self.keys@);
                assert(names0[at as int] == victim);
                assert(soonest(before, victim));
                assert forall|k: Seq<char>| #[trigger] self.entries@.contains_key(k)
                    <==> names1.contains(k) by {
                    if names1.contains(k) {
                        let j = choose|j: int| 0 <= j < names1.len() && names1[j] == k;
                        if j == at {
                            assert(names0[names0.len() - 1] == k);
                        } else {
                            assert(names0[j] == k);
                        }
                        assert(names0.contains(k));
                    }
                    if names0.contains(k) && k != victim {
                        let j = choose|j: int| 0 <= j < names0.len() && names0[j] == k;
                        if j == names0.len() - 1 {
                            assert(names1[at as int] == k);
                        } else {
                            assert(names1[j] == k);
                        }
                    }
                }
                assert forall|i: int, j: int|
                    0 <= i < names1.len() && 0 <= j < names1.len() && i != j implies names1[i]
                    != names1[j] by {
                    let a = if i == at {
                        names0.len() - 1
                    } else {
                        i
                    };
                    let b = if j == at {
                        names0.len() - 1
                    } else {
                        j
                    };
                    assert(names1[i] == names0[a] && names1[j] == names0[b]);
                }
                assert(self@ =~= before.remove(victim));
            }
        }
        let ghost middle = self@;
        let ghost names1 = texts(self.keys@);
        let ghost text = key@;
        if !present {
            self.keys.push(key.clone());
            proof {
                let names2 = texts(self.keys@);
                assert(names2 =~= names1.push(text));
                assert(!names1.contains(text));
                assert(names2.no_duplicates());
                assert forall|k: Seq<char>| #[trigger] names2.contains(k) <==> (names1.contains(k)
                    || k == text) by {
                    if names1.contains(k) {
                        let j = choose|j: int| 0 <= j < names1.len() && names1[j] == k;
                        assert(names2[j] == k);
                    }
                    if k == text {
                        assert(names2[names1.len() as int] == k);
                    }
                }
            }
        }
        self.entries.insert(key, Entry { expiry, response });
        assert(self@ =~= middle.insert(text, (expiry, response@)));
    }
}

/// The cache key of a request.
pub open spec fn cache_key(
    host: Seq<char>,
    path_and_query: Seq<char>,
    accept_encoding: Option<Seq<char>>,
) -> Seq<char> {
    (host + path_and_query).push('\u{1f}') + canonical_codings(accept_encoding)
}

/// The bytes of an optional slice.
pub open spec fn maybe_slice(b: Option<&[u8]>) -> Option<Seq<u8>> {
    match b {
        Some(s) => Some(s@),
        None => None,
    }
}

/// The entry of the disk tier's file, where there is one.
pub open spec fn held_on_disk(on_disk: bool, key: Seq<char>, file: Option<Seq<u8>>) -> Option<
    (Timestamp, ResponseText),
> {
    if on_disk && file is Some {
        entry_in_file(key, file->0)
    } else {
        None
    }
}

/// What a complete lookup finds: memory decides where it has an entry, and
/// otherwise the file of the disk tier.
pub open spec fn lookup_outcome(
    before: Contents,
    on_disk: bool,
    key: Seq<char>,
    now: Timestamp,
    file: Option<Seq<u8>>,
) -> LookupText {
    if before.contains_key(key) {
        judged(before[key], now)
    } else {
        match held_on_disk(on_disk, key, file) {
            Some(entry) => judged(entry, now),
            None => LookupText::Miss,
        }
    }
}

/// The response that a lookup gives to serve: a fresh one.
pub open spec fn served(found: LookupText) -> Option<ResponseText> {
    match found {
        LookupText::Fresh(response) => Some(response),
        _ => None,
    }
}

/// A complete lookup: what it finds, and that an entry found on disk is put
/// into memory.
pub open spec fn looked_up(
    before: Contents,
    after: Contents,
    limit: nat,
    on_disk: bool,
    key: Seq<char>,
    now: Timestamp,
    file: Option<Seq<u8>>,
    outcome: LookupText,
) -> bool {
    &&& outcome == lookup_outcome(before, on_disk, key, now, file)
    &&& match held_on_disk(on_disk, key, file) {
        Some(entry) => if before.contains_key(key) {
            after == before
        } else {
            stored(before, after, limit, key, entry)
        },
        None => after == before,
    }
}

/// Two requests share a cache key if and only if they ask for the same host
/// and target and name the same content codings. A host holds no `/`, a target
/// starts with one, and neither holds the unit separator.
pub proof fn law_key_separates(
    host_a: Seq<char>,
    target_a: Seq<char>,
    codings_a: Option<Seq<char>>,
    host_b: Seq<char>,
    target_b: Seq<char>,
    codings_b: Option<Seq<char>>,
)
    requires
        !host_a.contains('/') && !host_b.contains('/'),
        target_a.len() > 0 && target_a[0] == '/',
        target_b.len() > 0 && target_b[0] == '/',
        !(host_a + target_a).contains('\u{1f}'),
        !(host_b + target_b).contains('\u{1f}'),
    ensures
        cache_key(host_a, target_a, codings_a) == cache_key(host_b, target_b, codings_b) <==> {
            &&& host_a == host_b
            &&& target_a == target_b
            &&& same_members(accepted_codings(codings_a), accepted_codings(codings_b))
        },
{
    let x = host_a + target_a;
    let y = host_b + target_b;
    let k = cache_key(host_a, target_a, codings_a);
    law_canonical_codings(codings_a, codings_b);
    if k == cache_key(host_b, target_b, codings_b) {
        lemma_split_at_first(
            k,
            '\u{1f}',
            x,
            canonical_codings(codings_a),
            y,
            canonical_codings(codings_b),
        );
        assert(target_a =~= seq!['/'] + target_a.skip(1));
        assert(target_b =~= seq!['/'] + target_b.skip(1));
        assert(x =~= host_a.push('/') + target_a.skip(1));
        assert(x =~= host_b.push('/') + target_b.skip(1));
        lemma_split_at_first(x, '/', host_a, target_a.skip(1), host_b, target_b.skip(1));
    }
}

proof fn lemma_split_at_first(
    s: Seq<char>,
    sep: char,
    a: Seq<char>,
    a_rest: Seq<char>,
    b: Seq<char>,
    b_rest: Seq<char>,
)
    requires
        s == a.push(sep) + a_rest,
        s == b.push(sep) + b_rest,
        !a.contains(sep),
        !b.contains(sep),
    ensures
        a == b,
        a_rest == b_rest,
{
    if a.len() < b.len() {
        assert(s[a.len() as int] == sep);
        assert(b[a.len() as int] == sep);
    }
    if b.len() < a.len() {
        assert(s[b.len() as int] == sep);
        assert(a[b.len() as int] == sep);
    }
    assert forall|i: int| 0 <= i < a.len() implies a[i] == b[i] by {
        assert(s[i] == a[i]);
        assert(s[i] == b[i]);
    }
    assert(a =~= b);
    assert(a_rest =~= s.skip(a.len() as int + 1));
    assert(b_rest =~= s.skip(a.len() as int + 1));
}

/// A lookup after a store finds what was stored, fresh until it expires.
pub proof fn law_lookup_after_store(
    before: Contents,
    after: Contents,
    limit: nat,
    key: Seq<char>,
    entry: (Timestamp, ResponseText),
    now: Timestamp,
)
    requires
        stored(before, after, limit, key, entry),
    ensures
        found(after, key, now) == judged(entry, now),
        entry.0.nanos > now.nanos ==> found(after, key, now) == LookupText::Fresh(entry.1),
        entry.0.nanos <= now.nanos ==> found(after, key, now) == LookupText::Stale(entry.1),
{
}

/// Storing an entry changes no other: at most one other leaves, none while
/// there is room, and one that leaves expires no later than any that stays.
pub proof fn law_store_keeps_others(
    before: Contents,
    after: Contents,
    limit: nat,
    key: Seq<char>,
    entry: (Timestamp, ResponseText),
    a: Seq<char>,
    b: Seq<char>,
)
    requires
        stored(before, after, limit, key, entry),
        before.contains_key(a) && a != key,
        before.contains_key(b) && b != key,
    ensures
        after.contains_key(a) ==> after[a] == before[a],
        before.len() < limit || before.contains_key(key) ==> after.contains_key(a),
        !after.contains_key(a) && !after.contains_key(b) ==> a == b,
        !after.contains_key(a) && after.contains_key(b) ==> before[a].0.nanos
            <= before[b].0.nanos,
{
}

/// An entry that was written to disk is found by a cache that starts empty on
/// the same directory: it reads the file that was written, finds the same
/// response, and serves it until the last whole second before its expiry.
pub proof fn law_disk_entry_survives_a_restart(
    dir: Seq<char>,
    after: Contents,
    limit: nat,
    key: Seq<char>,
    expiry: Timestamp,
    response: ResponseText,
    now: Timestamp,
    outcome: LookupText,
)
    requires
        lengths_fit(key, response),
        looked_up(
            Contents::empty(),
            after,
            limit,
            true,
            key,
            now,
            Some(entry_file(dir, key, (expiry, response)).bytes),
            outcome,
        ),
    ensures
        entry_file(dir, key, (expiry, response)).path == path_below(dir, file_name(key)),
        outcome == judged((Timestamp::at_secs(expiry.whole_secs() as int), response), now),
        served(outcome) == if Timestamp::at_secs(expiry.whole_secs() as int).nanos > now.nanos {
            Some(response)
        } else {
            None
        },
        found(after, key, now) == outcome,
{
    law_entry_round_trip(key, expiry.whole_secs() as nat, response);
}

/// A file that was cut short is no entry: the lookup misses.
pub proof fn law_truncated_file_is_a_miss(
    before: Contents,
    after: Contents,
    limit: nat,
    key: Seq<char>,
    secs: u64,
    response: ResponseText,
    n: int,
    now: Timestamp,
    outcome: LookupText,
)
    requires
        lengths_fit(key, response),
        0 <= n < entry_bytes(key, secs as nat, response).len(),
        !before.contains_key(key),
        looked_up(
            before,
            after,
            limit,
            true,
            key,
            now,
            Some(entry_bytes(key, secs as nat, response).take(n)),
            outcome,
        ),
    ensures
        outcome == LookupText::Miss,
        after == before,
{
    law_truncated_entry_is_refused(key, secs as nat, response, n);
}

} // verus!
