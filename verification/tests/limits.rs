use zaphyl::access::{AccessControl, IpAddress};
use zaphyl::challenge::ChallengeStore;
use zaphyl::metrics::status_class;
use zaphyl::ratelimit::RateLimiter;

fn store() -> ChallengeStore {
    let mut store = ChallengeStore::new();
    store.insert("tok123", "tok123.keyauth");
    store
}

#[test]
fn serves_known_challenge() {
    assert_eq!(
        store()
            .response_for("/.well-known/acme-challenge/tok123")
            .as_deref(),
        Some("tok123.keyauth")
    );
}

#[test]
fn unknown_token_is_none() {
    assert_eq!(
        store().response_for("/.well-known/acme-challenge/other"),
        None
    );
}

#[test]
fn non_challenge_path_is_none() {
    assert_eq!(store().response_for("/index.html"), None);
    assert_eq!(store().response_for("/.well-known/acme-challenge/"), None);
}

#[test]
fn nested_token_is_none() {
    assert_eq!(
        store().response_for("/.well-known/acme-challenge/tok123/extra"),
        None
    );
}

#[test]
fn remove_deletes_challenge() {
    let mut store = store();
    store.remove("tok123");
    assert_eq!(
        store.response_for("/.well-known/acme-challenge/tok123"),
        None
    );
}

#[test]
fn allows_up_to_limit_then_blocks() {
    let mut limiter = RateLimiter::new(1000, 3);
    assert!(limiter.check("a", 0));
    assert!(limiter.check("a", 100));
    assert!(limiter.check("a", 200));
    assert!(!limiter.check("a", 300));
}

#[test]
fn resets_after_window() {
    let mut limiter = RateLimiter::new(1000, 1);
    assert!(limiter.check("a", 0));
    assert!(!limiter.check("a", 500));
    assert!(limiter.check("a", 1000));
}

#[test]
fn keys_are_independent() {
    let mut limiter = RateLimiter::new(1000, 1);
    assert!(limiter.check("a", 0));
    assert!(limiter.check("b", 0));
    assert!(!limiter.check("a", 0));
}

#[test]
fn a_window_allows_its_limit_however_events_are_spaced() {
    let mut limiter = RateLimiter::new(1000, 3);
    let results: Vec<bool> =
        [50, 51, 700, 701, 1049].iter().map(|t| limiter.check("a", *t)).collect();
    assert_eq!(results, [true, true, true, false, false]);
    assert!(limiter.check("a", 1050));
    // What comes for other keys in between changes nothing.
    let mut mixed = RateLimiter::new(1000, 1);
    assert!(mixed.check("a", 0) && mixed.check("b", 0) && !mixed.check("a", 0));
}

#[test]
fn a_clock_that_goes_back_does_not_reset_the_window() {
    let mut limiter = RateLimiter::new(1000, 1);
    assert!(limiter.check("a", 5000));
    assert!(!limiter.check("a", 4000));
    // A window of no length is always over.
    let mut open = RateLimiter::new(0, 1);
    assert!(open.check("a", 0));
    assert!(open.check("a", 0));
    // A limit of none allows nothing.
    assert!(!RateLimiter::new(1000, 0).check("a", 0));
}

fn ip(s: &str) -> IpAddress {
    let mut value: u32 = 0;
    for part in s.split('.') {
        value = value * 256 + part.parse::<u32>().unwrap();
    }
    IpAddress::V4(value)
}

#[test]
fn deny_list_blocks_matching_ip() {
    let ac = AccessControl::parse(&[], &["1.2.3.4".to_owned()]).unwrap();
    assert!(!ac.allows(ip("1.2.3.4")));
    assert!(ac.allows(ip("5.6.7.8")));
}

#[test]
fn deny_list_supports_cidr() {
    let ac = AccessControl::parse(&[], &["10.0.0.0/8".to_owned()]).unwrap();
    assert!(!ac.allows(ip("10.1.2.3")));
    assert!(ac.allows(ip("11.0.0.1")));
}

#[test]
fn allow_list_blocks_everything_else() {
    let ac = AccessControl::parse(&["192.168.0.0/16".to_owned()], &[]).unwrap();
    assert!(ac.allows(ip("192.168.5.5")));
    assert!(!ac.allows(ip("8.8.8.8")));
}

#[test]
fn deny_takes_precedence_over_allow() {
    let ac = AccessControl::parse(&["10.0.0.0/8".to_owned()], &["10.0.0.5".to_owned()]).unwrap();
    assert!(ac.allows(ip("10.0.0.6")));
    assert!(!ac.allows(ip("10.0.0.5")));
}

#[test]
fn no_rules_allows_all() {
    let ac = AccessControl::default();
    assert!(ac.is_empty());
    assert!(ac.allows(ip("1.2.3.4")));
}

#[test]
fn invalid_entry_is_rejected() {
    assert!(AccessControl::parse(&[], &["not-an-ip".to_owned()]).is_err());
}

#[test]
fn the_first_bad_entry_is_named() {
    let entries = |list: &[&str]| list.iter().map(|s| s.to_string()).collect::<Vec<String>>();
    assert_eq!(
        AccessControl::parse(&entries(&["10.0.0.1", "10.0.0.0/33", "x"]), &entries(&["y"]))
            .unwrap_err(),
        "10.0.0.0/33"
    );
    assert_eq!(
        AccessControl::parse(&entries(&["10.0.0.1"]), &entries(&["::1", "y"])).unwrap_err(),
        "y"
    );
}

#[test]
fn families_do_not_mix() {
    let ac = AccessControl::parse(
        &[],
        &["::/0".to_owned(), "fd00::/16".to_owned(), "2001:db8::7".to_owned()],
    )
    .unwrap();
    assert!(ac.allows(ip("1.2.3.4")));
    assert!(!ac.allows(IpAddress::V6(1)));
    let narrow =
        AccessControl::parse(&[], &["fd00::/16".to_owned(), "2001:db8::7".to_owned()]).unwrap();
    assert!(!narrow.allows(IpAddress::V6(0xfd00u128 << 112 | 5)));
    assert!(narrow.allows(IpAddress::V6(0xfd01u128 << 112)));
    assert!(!narrow.allows(IpAddress::V6(0x2001_0db8u128 << 96 | 7)));
    assert!(narrow.allows(IpAddress::V6(0x2001_0db8u128 << 96 | 8)));
    // A block need not be written with its first address.
    let odd = AccessControl::parse(&["10.1.2.3/15".to_owned()], &[]).unwrap();
    assert!(odd.allows(ip("10.0.0.0")));
    assert!(odd.allows(ip("10.1.255.255")));
    assert!(!odd.allows(ip("10.2.0.0")));
}

#[test]
fn name_is_zaphyl() {
    assert_eq!(zaphyl::name(), "Zaphyl");
}

#[test]
fn version_matches_cargo_metadata() {
    assert_eq!(zaphyl::version(), "1.0.2");
    assert!(!zaphyl::version().is_empty());
}

#[test]
fn status_classes_cover_every_code() {
    for (status, class) in [
        (0, "none"),
        (99, "other"),
        (100, "1xx"),
        (204, "2xx"),
        (308, "3xx"),
        (499, "4xx"),
        (504, "5xx"),
        (600, "other"),
    ] {
        assert_eq!(status_class(status), class);
    }
}
