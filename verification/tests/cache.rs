use std::hash::{Hash, Hasher};
use zaphyl::cache::{
    if_none_match_satisfied, normalize_accept_encoding, request_cacheable, response_ttl,
    CachedResponse,
};
use zaphyl::clock::Timestamp;
use zaphyl::codec::{decode, encode, write_bytes};
use zaphyl::store::{DiskFile, DiskStore, Lookup, ResponseCache};

fn now() -> Timestamp {
    let nanos = std::time::SystemTime::now()
        .duration_since(std::time::UNIX_EPOCH)
        .unwrap()
        .as_nanos();
    Timestamp { nanos: nanos as i128 }
}

fn response(body: &str) -> CachedResponse {
    CachedResponse {
        status: 200,
        headers: vec![],
        body: body.as_bytes().to_vec(),
    }
}

#[test]
fn decode_rejects_hostile_header_count_without_oom() {
    let mut buf = Vec::new();
    write_bytes(&mut buf, b"k");
    buf.extend_from_slice(&0u64.to_le_bytes());
    buf.extend_from_slice(&200u16.to_le_bytes());
    buf.extend_from_slice(&u32::MAX.to_le_bytes());
    assert!(decode(&buf).is_none());
}

#[test]
fn decode_round_trips_a_response() {
    let response = CachedResponse {
        status: 200,
        headers: vec![("content-type".to_owned(), "text/plain".to_owned())],
        body: b"hello".to_vec(),
    };
    let expiry = Timestamp::from_secs(1000);
    let encoded = encode("the-key", expiry, &response);
    let (key, decoded_expiry, decoded) = decode(&encoded).unwrap();
    assert_eq!(key, "the-key");
    assert_eq!(decoded_expiry, expiry);
    assert_eq!(decoded.status, 200);
    assert_eq!(decoded.headers, response.headers);
    assert_eq!(decoded.body, response.body);
}

#[test]
fn decode_rejects_truncated_buffers() {
    let response = CachedResponse {
        status: 204,
        headers: vec![("x".to_owned(), "y".to_owned())],
        body: b"body".to_vec(),
    };
    let encoded = encode("k", Timestamp { nanos: 0 }, &response);
    for len in 0..encoded.len() {
        assert!(
            decode(&encoded[..len]).is_none(),
            "prefix of length {len} should not decode"
        );
    }
    assert!(decode(&encoded).is_some());
}

#[test]
fn encoding_has_the_documented_layout() {
    let response = CachedResponse {
        status: 0x0102,
        headers: vec![("a".to_owned(), "bc".to_owned())],
        body: b"xyz".to_vec(),
    };
    let expiry = Timestamp { nanos: 5_999_999_999 };
    let expected: Vec<u8> = vec![
        1, 0, 0, 0, b'k', // key
        5, 0, 0, 0, 0, 0, 0, 0, // expiry in whole seconds
        2, 1, // status
        1, 0, 0, 0, // header count
        1, 0, 0, 0, b'a', 2, 0, 0, 0, b'b', b'c', // header
        3, 0, 0, 0, 0, 0, 0, 0, b'x', b'y', b'z', // body
    ];
    assert_eq!(encode("k", expiry, &response), expected);
    // A time before the epoch is kept as the epoch.
    let early = encode("k", Timestamp { nanos: -1 }, &response);
    assert_eq!(&early[5..13], &[0u8; 8]);
}

#[test]
fn ill_formed_text_is_replaced_when_decoding() {
    let mut buf = Vec::new();
    write_bytes(&mut buf, &[b'a', 0xff, b'b']);
    buf.extend_from_slice(&0u64.to_le_bytes());
    buf.extend_from_slice(&200u16.to_le_bytes());
    buf.extend_from_slice(&0u32.to_le_bytes());
    buf.extend_from_slice(&0u64.to_le_bytes());
    let (key, _, _) = decode(&buf).unwrap();
    assert_eq!(key, "a\u{fffd}b");
    // Bytes behind the entry are ignored.
    buf.extend_from_slice(b"more");
    assert_eq!(decode(&buf).unwrap().0, "a\u{fffd}b");
}

#[test]
fn only_get_without_auth_is_cacheable() {
    assert!(request_cacheable("GET", None, false));
    assert!(!request_cacheable("POST", None, false));
    assert!(!request_cacheable("GET", None, true));
    assert!(!request_cacheable("GET", Some("no-store"), false));
    assert!(!request_cacheable("GET", Some("no-cache"), false));
}

#[test]
fn response_ttl_requires_explicit_max_age() {
    assert_eq!(response_ttl(200, Some("max-age=60"), false, None), Some(60));
    assert_eq!(response_ttl(200, Some("public"), false, None), None);
    assert_eq!(response_ttl(200, None, false, None), None);
}

#[test]
fn uncacheable_responses_return_none() {
    assert_eq!(response_ttl(500, Some("max-age=60"), false, None), None);
    assert_eq!(response_ttl(200, Some("max-age=60"), true, None), None);
    assert_eq!(
        response_ttl(200, Some("private, max-age=60"), false, None),
        None
    );
    assert_eq!(
        response_ttl(200, Some("no-store, max-age=60"), false, None),
        None
    );
    assert_eq!(response_ttl(200, Some("max-age=0"), false, None), None);
}

#[test]
fn max_age_takes_the_first_number_that_reads() {
    assert_eq!(
        response_ttl(200, Some("max-age=x, max-age= +7 , max-age=9"), false, None),
        Some(7)
    );
    assert_eq!(
        response_ttl(200, Some("max-age=18446744073709551616"), false, None),
        None
    );
    assert_eq!(
        response_ttl(200, Some("max-age=18446744073709551615"), false, None),
        Some(u64::MAX)
    );
    assert_eq!(response_ttl(200, Some("max-age=60, no-cache=\"x\""), false, None), None);
}

#[test]
fn vary_other_than_accept_encoding_is_not_cached() {
    assert!(response_ttl(200, Some("max-age=60"), false, Some("Accept-Encoding")).is_some());
    assert_eq!(
        response_ttl(200, Some("max-age=60"), false, Some("Accept-Language")),
        None
    );
    assert_eq!(
        response_ttl(200, Some("max-age=60"), false, Some("*")),
        None
    );
    assert_eq!(
        response_ttl(
            200,
            Some("max-age=60"),
            false,
            Some("Accept-Encoding, Cookie")
        ),
        None
    );
}

#[test]
fn if_none_match_uses_weak_comparison() {
    assert!(if_none_match_satisfied("\"abc\"", "\"abc\""));
    assert!(if_none_match_satisfied("*", "\"abc\""));
    assert!(if_none_match_satisfied("\"x\", \"abc\"", "\"abc\""));
    assert!(if_none_match_satisfied("W/\"abc\"", "\"abc\""));
    assert!(!if_none_match_satisfied("\"other\"", "\"abc\""));
}

#[test]
fn key_separates_by_accept_encoding() {
    let plain = ResponseCache::key("h", "/p", None);
    let gzip = ResponseCache::key("h", "/p", Some("gzip"));
    assert_ne!(plain, gzip);
    assert_eq!(
        ResponseCache::key("h", "/p", Some("gzip, br")),
        ResponseCache::key("h", "/p", Some("BR,GZIP"))
    );
}

#[test]
fn accept_encoding_is_put_into_canonical_form() {
    assert_eq!(
        normalize_accept_encoding(Some(" GZIP;q=0.5, br ,, gzip , *;q=0")),
        "br,gzip"
    );
    assert_eq!(normalize_accept_encoding(Some("")), "");
    assert_eq!(normalize_accept_encoding(None), "");
    assert_eq!(ResponseCache::key("h", "/p", Some("gzip, br")), "h/p\u{1f}br,gzip");
}

#[test]
fn a_refused_coding_is_not_asked_for() {
    let normalize = |value: &str| normalize_accept_encoding(Some(value));
    assert_eq!(normalize("gzip;q=0"), "");
    assert_ne!(normalize("gzip;q=0"), normalize("gzip"));
    assert_eq!(normalize("br, gzip ; Q=0.000, zstd;q=0.5"), "br,zstd");
    assert_eq!(normalize("gzip;q=0.001, br;q=00"), "br,gzip");
    // The canonical form is its own canonical form.
    assert_eq!(normalize(&normalize("Gzip, BR,gzip ,, zstd")), "br,gzip,zstd");
}

#[test]
fn stores_and_serves_fresh_entries() {
    let mut cache = ResponseCache::new(8);
    let now = now();
    cache.put("k".to_owned(), now.plus_secs(60), response("hi"));
    assert_eq!(cache.get("k", now, None).unwrap().body, b"hi");
}

#[test]
fn expired_entries_are_dropped() {
    let mut cache = ResponseCache::new(8);
    let now = now();
    cache.put("k".to_owned(), now.plus_secs(1), response("hi"));
    assert!(cache.get("k", now.plus_secs(2), None).is_none());
}

#[test]
fn evicts_when_full() {
    let mut cache = ResponseCache::new(2);
    let now = now();
    cache.put("a".to_owned(), now.plus_secs(10), response("a"));
    cache.put("b".to_owned(), now.plus_secs(20), response("b"));
    cache.put("c".to_owned(), now.plus_secs(30), response("c"));
    assert!(cache.get("a", now, None).is_none());
    assert!(cache.get("b", now, None).is_some());
    assert!(cache.get("c", now, None).is_some());
    // An entry in place of one with the same key evicts nothing.
    cache.put("b".to_owned(), now.plus_secs(5), response("b2"));
    assert_eq!(cache.get("b", now, None).unwrap().body, b"b2");
    assert!(cache.get("c", now, None).is_some());
}

#[test]
fn a_cache_of_no_entries_holds_one() {
    let mut cache = ResponseCache::new(0);
    let now = now();
    cache.put("a".to_owned(), now.plus_secs(10), response("a"));
    assert!(cache.get("a", now, None).is_some());
    cache.put("b".to_owned(), now.plus_secs(5), response("b"));
    assert!(cache.get("a", now, None).is_none());
    assert!(cache.get("b", now, None).is_some());
}

#[test]
fn lookup_distinguishes_fresh_from_stale() {
    let mut cache = ResponseCache::new(8);
    let now = now();
    cache.put("k".to_owned(), now.plus_secs(60), response("hi"));
    assert!(matches!(cache.lookup("k", now, None), Lookup::Fresh(_)));
    assert!(matches!(
        cache.lookup("k", now.plus_secs(120), None),
        Lookup::Stale(_)
    ));
    assert!(matches!(cache.lookup("absent", now, None), Lookup::Miss));
    // The moment of expiry is past the entry's life.
    assert!(matches!(cache.lookup("k", now.plus_secs(60), None), Lookup::Stale(_)));
}

#[test]
fn cached_response_exposes_etag() {
    let entry = CachedResponse {
        status: 200,
        headers: vec![("ETag".to_owned(), "\"v1\"".to_owned())],
        body: vec![],
    };
    assert_eq!(entry.etag(), Some("\"v1\""));
}

#[test]
fn disk_tier_survives_a_new_cache() {
    let dir = "/var/cache/zaphyl".to_owned();
    let now = now();
    let entry = CachedResponse {
        status: 200,
        headers: vec![("content-type".to_owned(), "text/plain".to_owned())],
        body: b"persisted".to_vec(),
    };
    let write = ResponseCache::with_disk(8, dir.clone())
        .put("k".to_owned(), now.plus_secs(60), entry)
        .expect("a file to write");

    // A fresh cache asks for the same file and finds the entry in it.
    let mut reloaded = ResponseCache::with_disk(8, dir.clone());
    assert_eq!(reloaded.file_to_read("k").as_deref(), Some(write.path.as_str()));
    assert_eq!(write.tmp, format!("{}.tmp", write.path));
    match reloaded.lookup("k", now, Some(&write.bytes)) {
        Lookup::Fresh(found) => {
            assert_eq!(found.body, b"persisted");
            assert_eq!(
                found.headers,
                [("content-type".to_owned(), "text/plain".to_owned())]
            );
        }
        other => panic!("expected a fresh entry, got {other:?}"),
    }
    let mut another = ResponseCache::with_disk(8, dir.clone());
    assert_eq!(another.get("k", now, Some(&write.bytes)).unwrap().body, b"persisted");
    // It is in memory now, so the file is not asked for again.
    assert_eq!(reloaded.file_to_read("k"), None);
    assert!(reloaded.get("k", now, None).is_some());

    // An expired disk entry is not served, nor one of another key.
    let mut late = ResponseCache::with_disk(8, dir.clone());
    assert!(matches!(
        late.lookup("k", now.plus_secs(120), Some(&write.bytes)),
        Lookup::Stale(_)
    ));
    let mut later = ResponseCache::with_disk(8, dir.clone());
    assert!(later.get("k", now.plus_secs(120), Some(&write.bytes)).is_none());
    let mut other = ResponseCache::with_disk(8, dir);
    assert!(matches!(
        other.lookup("other", now, Some(&write.bytes)),
        Lookup::Miss
    ));
    // Without a disk tier no file is asked for or believed.
    let mut memory = ResponseCache::new(8);
    assert_eq!(memory.file_to_read("k"), None);
    assert!(matches!(
        memory.lookup("k", now, Some(&write.bytes)),
        Lookup::Miss
    ));
}

#[test]
fn entry_files_are_named_by_the_hash_of_their_key() {
    let mut hasher = std::collections::hash_map::DefaultHasher::new();
    "the-key".hash(&mut hasher);
    let store = DiskStore::new("/c".to_owned(), 4);
    assert_eq!(store.path("the-key"), format!("/c/{:016x}", hasher.finish()));
}

#[test]
fn oldest_entry_file_makes_room() {
    let file = |name: &str, secs: Option<u64>| DiskFile {
        name: name.to_owned(),
        modified: secs.map(Timestamp::from_secs),
    };
    let store = DiskStore::new("/c".to_owned(), 2);
    let few = vec![file("a", Some(3)), file("b.tmp", Some(1)), file("c", None)];
    assert_eq!(store.evict(&few), None);
    let full = vec![
        file("b.tmp", Some(1)),
        file("a", Some(3)),
        file("d", Some(2)),
        file("e", Some(2)),
        file(".hidden", Some(9)),
    ];
    assert_eq!(store.evict(&full), Some(2));
    // A store of no entries holds one.
    assert_eq!(
        DiskStore::new("/c".to_owned(), 0).evict(&vec![file("a", Some(3))]),
        Some(0)
    );
}
