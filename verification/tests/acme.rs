use zaphyl::access::IpAddress;
use zaphyl::acme::{
    account_contact, authorize, check_due, check_order_ready, needs_renewal, renewal_due,
    renewal_window, unix_seconds, AcmeRunner, AuthorizationStatus, Challenge,
};
use zaphyl::challenge::ChallengeStore;
use zaphyl::clock::Timestamp;
use zaphyl::config::{AcmeConfig, Config, HttpRedirectConfig, SocketAddress};
use zaphyl::front::{choose_front, probe_address, respond, NonChallenge};

fn test_cert() -> String {
    rcgen::generate_simple_self_signed(vec!["renew.example".to_owned()])
        .unwrap()
        .cert
        .pem()
}

fn not_after(pem: &str) -> i64 {
    let (_, block) = x509_parser::pem::parse_x509_pem(pem.as_bytes()).unwrap();
    block.parse_x509().unwrap().validity().not_after.timestamp()
}

fn acme() -> AcmeConfig {
    AcmeConfig {
        domains: vec!["example.com".to_owned()],
        email: "admin@example.com".to_owned(),
        directory: "https://acme.example/dir".to_owned(),
        cache_dir: "/var/acme".to_owned(),
        renew_before_days: 30,
        check_interval_seconds: 60,
    }
}

#[test]
fn renewal_decision_tracks_expiry() {
    let pem = test_cert();
    let not_after = not_after(&pem);
    let day = 86_400;

    // 5 days before expiry, renewing 30 days out -> renew.
    assert!(needs_renewal(&pem, not_after - 5 * day, 30 * day));
    // 60 days before expiry, renewing 30 days out -> not yet.
    assert!(!needs_renewal(&pem, not_after - 60 * day, 30 * day));
    // Already past expiry -> renew.
    assert!(needs_renewal(&pem, not_after + 100, 30 * day));
}

#[test]
fn unparseable_cert_renews() {
    assert!(needs_renewal("not a certificate", 0, 30 * 86_400));
}

#[test]
fn renewal_starts_exactly_at_the_window() {
    let pem = test_cert();
    let end = not_after(&pem);
    assert!(needs_renewal(&pem, end - 9, 10));
    assert!(!needs_renewal(&pem, end - 10, 10));
    assert!(renewal_due(None, i64::MIN, 0));
    assert!(renewal_due(Some(100), i64::MAX, 1));
    assert!(!renewal_due(Some(i64::MAX), i64::MIN, 1));
}

#[test]
fn cached_certificate_decides_the_check() {
    let pem = test_cert();
    let end = not_after(&pem);
    assert!(check_due(None, 0, &acme()));
    assert!(check_due(Some("junk"), 0, &acme()));
    assert!(check_due(Some(&pem), end - 30 * 86_400 + 1, &acme()));
    assert!(!check_due(Some(&pem), end - 30 * 86_400, &acme()));
}

#[test]
fn renewal_window_saturates() {
    assert_eq!(renewal_window(30), 2_592_000);
    assert_eq!(renewal_window(u64::MAX), i64::MAX);
    assert_eq!(renewal_window(i64::MAX as u64), i64::MAX);
}

#[test]
fn clock_readings_become_unix_seconds() {
    assert_eq!(unix_seconds(Timestamp { nanos: 1_999_999_999 }), 1);
    assert_eq!(unix_seconds(Timestamp { nanos: -1 }), 0);
}

#[test]
fn runner_keeps_both_files_in_the_cache_directory() {
    let runner = AcmeRunner::new(&acme());
    assert_eq!(
        runner.cert_paths(),
        ("/var/acme/cert.pem".to_owned(), "/var/acme/key.pem".to_owned())
    );
    assert!(!AcmeRunner::must_obtain(true, true));
    assert!(AcmeRunner::must_obtain(true, false));
    assert!(AcmeRunner::must_obtain(false, true));
    assert_eq!(account_contact(&acme()), "mailto:admin@example.com");
}

#[test]
fn pending_authorizations_publish_their_challenge() {
    let mut store = ChallengeStore::new();
    let challenge = Some(Challenge { token: "tok".to_owned(), key_authorization: "auth".to_owned() });
    assert_eq!(authorize(&mut store, &AuthorizationStatus::Valid, &challenge), Ok(false));
    assert_eq!(store.response_for("/.well-known/acme-challenge/tok"), None);
    assert_eq!(authorize(&mut store, &AuthorizationStatus::Pending, &challenge), Ok(true));
    assert_eq!(
        store.response_for("/.well-known/acme-challenge/tok").as_deref(),
        Some("auth")
    );
    assert_eq!(
        authorize(&mut store, &AuthorizationStatus::Pending, &None),
        Err("no http-01 challenge offered".to_owned())
    );
    assert_eq!(
        authorize(&mut store, &AuthorizationStatus::Other("Invalid".to_owned()), &challenge),
        Err("unexpected authorization status: Invalid".to_owned())
    );
}

#[test]
fn only_ready_orders_go_on() {
    assert_eq!(check_order_ready(true, "Ready"), Ok(()));
    assert_eq!(
        check_order_ready(false, "Invalid"),
        Err("order did not become ready: Invalid".to_owned())
    );
}

#[test]
fn redirects_http_to_https() {
    let mut store = ChallengeStore::new();
    store.insert("tok", "auth");
    let redirect = NonChallenge::RedirectToHttps(8443);
    let reply = respond(&store, redirect, "/foo", Some("127.0.0.1:8080"), Some("/foo?x=1"));
    assert_eq!(reply.status, 308);
    assert_eq!(reply.location.as_deref(), Some("https://127.0.0.1:8443/foo?x=1"));
    // The default port stays out of the location.
    let default = NonChallenge::RedirectToHttps(443);
    let bare = respond(&store, default, "/", Some("h:80"), None);
    assert_eq!(bare.location.as_deref(), Some("https://h/"));
    let at = |host: &str, behavior: NonChallenge| {
        respond(&store, behavior, "/a", Some(host), Some("/a")).location
    };
    assert_eq!(at("[::1]", default).as_deref(), Some("https://[::1]/a"));
    assert_eq!(at("[::1]:80", redirect).as_deref(), Some("https://[::1]:8443/a"));
    let lost = respond(&store, default, "/foo", None, Some("/foo"));
    assert_eq!(lost.status, 308);
    assert_eq!(lost.location.as_deref(), Some("https:///foo"));
    let served = respond(
        &store,
        redirect,
        "/.well-known/acme-challenge/tok",
        Some("h"),
        Some("/.well-known/acme-challenge/tok"),
    );
    assert_eq!(served.status, 200);
    assert_eq!(served.body, "auth");
    let unknown = respond(&store, NonChallenge::NotFound, "/foo", Some("h"), Some("/foo"));
    assert_eq!(unknown.status, 404);
}

#[test]
fn the_redirect_listener_also_answers_challenges() {
    let address = |port: u16| SocketAddress { ip: IpAddress::V4(0), port };
    let mut config = Config {
        listen: address(443),
        worker_threads: None,
        shutdown_grace_seconds: None,
        tls: None,
        acme: None,
        metrics: None,
        rate_limit: None,
        health_check: None,
        limits: None,
        access: None,
        compression: None,
        cache: None,
        plugins: None,
        http3: None,
        http: None,
        response_headers: vec![],
        routes: vec![],
    };
    assert!(choose_front(&config, Some(address(80))).is_none());
    config.acme = Some(acme());
    match choose_front(&config, Some(address(5002))) {
        Some((at, NonChallenge::NotFound)) => assert_eq!(at, address(5002)),
        other => panic!("expected a challenge listener, got {other:?}"),
    }
    config.http = Some(HttpRedirectConfig { listen: address(80) });
    match choose_front(&config, Some(address(5002))) {
        Some((at, NonChallenge::RedirectToHttps(port))) => {
            assert_eq!(at, address(80));
            assert_eq!(port, 443);
        }
        other => panic!("expected a redirect listener, got {other:?}"),
    }
}

#[test]
fn a_listener_on_every_address_is_found_at_the_loopback() {
    let at = |ip: IpAddress| probe_address(SocketAddress { ip, port: 80 }).ip;
    assert_eq!(at(IpAddress::V4(0)), IpAddress::V4(0x7f00_0001));
    assert_eq!(at(IpAddress::V4(0x0a00_0001)), IpAddress::V4(0x0a00_0001));
    assert_eq!(at(IpAddress::V6(0)), IpAddress::V6(0));
}
