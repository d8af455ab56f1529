use zaphyl::clock::Timestamp;
use zaphyl::relay::static_reply;
use zaphyl::static_files::{within, StaticDir};
use zaphyl::tls::ReloadCache;

/// What stands under `/srv/site`: each file, and the directories that hold them.
const FILES: [&str; 2] = ["/srv/site/index.html", "/srv/site/sub/page.txt"];
const DIRS: [&str; 2] = ["/srv/site", "/srv/site/sub"];

/// Resolves a request path against that tree.
fn resolve(request_path: &str) -> Option<String> {
    let dir = StaticDir::new("/srv/site".to_owned());
    let candidate = dir.candidate(request_path)?;
    let served = StaticDir::served_path(&candidate, DIRS.contains(&candidate.as_str()));
    let is_file = FILES.contains(&served.as_str());
    let actual = if is_file { Some(served) } else { None };
    dir.resolve(request_path, actual, Some("/srv/site".to_owned()), is_file)
}

#[test]
fn serves_index_for_directory() {
    assert_eq!(resolve("/").as_deref(), Some("/srv/site/index.html"));
}

#[test]
fn serves_nested_file() {
    assert_eq!(resolve("/sub/page.txt").as_deref(), Some("/srv/site/sub/page.txt"));
}

#[test]
fn decodes_percent_encoding() {
    assert!(resolve("/sub/pa%67e.txt").is_some());
    assert_eq!(resolve("/sub/pa%67e.txt").as_deref(), Some("/srv/site/sub/page.txt"));
}

#[test]
fn rejects_parent_traversal() {
    assert!(resolve("/../secret").is_none());
    assert!(resolve("/sub/../../secret").is_none());
    let dir = StaticDir::new("/srv/site".to_owned());
    assert!(dir.candidate("/../secret").is_none());
    assert!(dir.candidate("/sub/../../secret").is_none());
}

#[test]
fn rejects_encoded_traversal() {
    assert!(resolve("/%2e%2e/secret").is_none());
    assert!(StaticDir::new("/srv/site".to_owned()).candidate("/%2e%2e/secret").is_none());
}

#[test]
fn missing_file_is_none() {
    assert!(resolve("/nope.txt").is_none());
}

#[test]
fn a_link_that_leaves_the_root_is_refused() {
    let dir = StaticDir::new("/srv/site".to_owned());
    let root = || Some("/srv/site".to_owned());
    let out = Some("/etc/passwd".to_owned());
    assert_eq!(dir.resolve("/link", out, root(), true), None);
    let beside = Some("/srv/site2/x".to_owned());
    assert_eq!(dir.resolve("/x", beside, root(), true), None);
    let directory = Some("/srv/site/sub".to_owned());
    assert_eq!(dir.resolve("/sub", directory, root(), false), None);
    let inside = Some("/srv/site/a".to_owned());
    assert_eq!(dir.resolve("/a", inside, None, true), None);
}

#[test]
fn containment_is_by_whole_components() {
    assert!(within("/a/b/c", "/a/b"));
    assert!(within("/a/b", "/a/b"));
    assert!(!within("/a/bc", "/a/b"));
    assert!(within("/anything", "/"));
    assert!(!within("/a", "/a/b"));
}

#[test]
fn a_static_reply_names_the_type_of_its_file() {
    let value = |path: &str, name: &str| {
        let reply = static_reply(Some((path.to_owned(), b"home".to_vec())));
        assert_eq!(reply.head.status, 200);
        assert_eq!(reply.body.as_deref(), Some(&b"home"[..]));
        reply.head.headers.iter().find(|(n, _)| n == name).map(|(_, v)| v.clone())
    };
    assert_eq!(value("/srv/index.html", "content-type").as_deref(), Some("text/html"));
    assert_eq!(value("/srv/a.css", "content-type").as_deref(), Some("text/css"));
    assert_eq!(
        value("/srv/blob", "content-type").as_deref(),
        Some("application/octet-stream")
    );
    assert_eq!(value("/srv/index.html", "content-length").as_deref(), Some("4"));
    let missing = static_reply(None);
    assert_eq!(missing.head.status, 404);
    assert_eq!(missing.body, None);
}

#[test]
fn caches_then_reloads_on_change() {
    let at = |secs: u64| Some(Timestamp::from_secs(secs));
    let mut dynamic: ReloadCache<&str> = ReloadCache::new("/cert.pem".to_owned());
    assert_eq!(dynamic.path(), "/cert.pem");
    let first = dynamic.get(at(1), || Some("first.example")).expect("load cert");
    let again = dynamic.get(at(1), || Some("unused")).expect("load cached cert");
    assert!(
        std::sync::Arc::ptr_eq(&first, &again),
        "unchanged file should reuse the cached cert"
    );
    let reloaded = dynamic.get(at(2), || Some("second.example")).expect("reload cert");
    assert!(
        !std::sync::Arc::ptr_eq(&first, &reloaded),
        "changed file should be reloaded"
    );
    assert_eq!(*reloaded, "second.example");
}

#[test]
fn a_certificate_that_cannot_be_read_gives_none() {
    let mut dynamic: ReloadCache<&str> = ReloadCache::new("/cert.pem".to_owned());
    assert!(dynamic.get(None, || Some("x")).is_none());
    assert!(dynamic.get(Some(Timestamp::from_secs(1)), || None).is_none());
}
