use zaphyl::router::{Route, Router, Target};
use zaphyl::static_files::StaticDir;

fn target(address: &str) -> Target {
    Target::new(address.to_owned(), false, String::new())
}

fn router() -> Router {
    Router::new(vec![
        Route::new(
            Some("api.example.com".to_owned()),
            Some("/v1".to_owned()),
            vec![target("a:1")],
        ),
        Route::new(Some("example.com".to_owned()), None, vec![target("b:2")]),
        Route::new(None, Some("/static".to_owned()), vec![target("c:3")]),
    ])
}

fn matched(host: Option<&str>, path: &str) -> Option<String> {
    let mut router = router();
    let place = router.match_index(host, path);
    router.pick_at(place).map(|t| t.address)
}

#[test]
fn matches_host_and_path() {
    assert_eq!(
        matched(Some("api.example.com"), "/v1/users").as_deref(),
        Some("a:1")
    );
}

#[test]
fn host_match_is_case_insensitive() {
    assert_eq!(
        matched(Some("Example.COM"), "/anything").as_deref(),
        Some("b:2")
    );
}

#[test]
fn path_only_route_matches_any_host() {
    assert_eq!(
        matched(Some("whatever.com"), "/static/app.js").as_deref(),
        Some("c:3")
    );
}

#[test]
fn first_match_wins() {
    assert_eq!(
        matched(Some("api.example.com"), "/v1").as_deref(),
        Some("a:1")
    );
}

#[test]
fn path_prefix_respects_segment_boundary() {
    assert_eq!(matched(Some("api.example.com"), "/v10"), None);
}

#[test]
fn no_match_returns_none() {
    assert_eq!(matched(Some("nope.com"), "/x"), None);
    assert!(router().match_route(Some("nope.com"), "/x").is_none());
    assert!(router().match_route(None, "/static").is_some());
    assert!(Router::default().match_route(None, "/").is_none());
}

#[test]
fn strip_prefix_rewrites_path() {
    let route =
        Route::new(None, Some("/api".to_owned()), vec![target("a:1")]).with_strip_prefix(true);
    assert_eq!(route.rewrite_path("/api/users").as_deref(), Some("/users"));
    assert_eq!(route.rewrite_path("/api").as_deref(), Some("/"));
    assert_eq!(route.rewrite_path("/api/").as_deref(), Some("/"));
}

#[test]
fn without_strip_prefix_path_is_unchanged() {
    let route = Route::new(None, Some("/api".to_owned()), vec![target("a:1")]);
    assert_eq!(route.rewrite_path("/api/users"), None);
}

#[test]
fn a_prefix_of_slashes_accepts_every_path() {
    let route = Route::new(None, Some("/".to_owned()), vec![target("a:1")]).with_strip_prefix(true);
    assert_eq!(route.rewrite_path("/x/y").as_deref(), Some("/x/y"));
    let router = Router::new(vec![route]);
    assert!(router.match_route(None, "/anything").is_some());
}

#[test]
fn target_can_enable_http2() {
    assert!(!target("a:1").h2);
    assert!(target("a:1").with_h2(true).h2);
}

#[test]
fn route_carries_headers() {
    let route = Route::new(None, None, vec![target("a:1")]).with_headers(
        vec![("x-req".to_owned(), "1".to_owned())],
        vec![("x-resp".to_owned(), "2".to_owned())],
    );
    assert_eq!(
        route.request_headers(),
        &[("x-req".to_owned(), "1".to_owned())]
    );
    assert_eq!(
        route.response_headers(),
        &[("x-resp".to_owned(), "2".to_owned())]
    );
}

#[test]
fn route_carries_its_index_and_directory() {
    let route = Route::new(None, None, vec![])
        .with_id(7)
        .with_static(StaticDir::new("/srv".to_owned()));
    assert_eq!(route.id(), 7);
    assert_eq!(route.static_dir().unwrap().root(), "/srv");
    assert!(Route::new(None, None, vec![]).static_dir().is_none());
}

#[test]
fn round_robins_targets() {
    let mut route = Route::new(None, None, vec![target("a:1"), target("b:2")]);
    let mut pick = || route.next_target().unwrap().address.clone();
    assert_eq!(pick(), "a:1");
    assert_eq!(pick(), "b:2");
    assert_eq!(pick(), "a:1");
}

#[test]
fn a_route_without_targets_picks_none() {
    let mut route = Route::new(None, None, vec![]);
    assert!(route.next_target().is_none());
}

#[test]
fn skips_unhealthy_target() {
    let mut router = Router::new(vec![Route::new(
        None,
        None,
        vec![target("a:1"), target("b:2")],
    )]);
    for (address, handle) in router.health_probes() {
        if address == "a:1" {
            router.set_health(&handle, false);
        }
    }
    let place = router.match_index(None, "/").unwrap();
    assert_eq!(router.pick(place).unwrap().address, "b:2");
    assert_eq!(router.pick(place).unwrap().address, "b:2");
}

#[test]
fn traffic_flows_when_no_target_is_healthy() {
    let mut router = Router::new(vec![Route::new(
        None,
        None,
        vec![target("a:1"), target("b:2")],
    )]);
    for (_, handle) in router.health_probes() {
        router.set_health(&handle, false);
    }
    // Three tries each time: the two targets, and the one taken anyway.
    assert_eq!(router.pick(0).unwrap().address, "a:1");
    assert_eq!(router.pick(0).unwrap().address, "b:2");
    assert!(!router.route_mut(0).next_target().unwrap().is_healthy());
}

#[test]
fn probes_list_every_target_in_order() {
    let router = Router::new(vec![
        Route::new(None, Some("/a".to_owned()), vec![target("a:1"), target("a:2")]),
        Route::new(None, None, vec![target("b:1")]),
    ]);
    let probes = router.health_probes();
    let addresses: Vec<&str> = probes.iter().map(|(a, _)| a.as_str()).collect();
    assert_eq!(addresses, ["a:1", "a:2", "b:1"]);
    assert_eq!(probes[1].1.route, 0);
    assert_eq!(probes[1].1.target, 1);
    assert_eq!(probes[2].1.route, 1);
}

#[test]
fn healthy_targets_take_turns_past_an_unhealthy_one() {
    let targets = vec![target("a"), target("b"), target("c")];
    let mut router = Router::new(vec![Route::new(None, None, targets)]);
    let probes = router.health_probes();
    assert_eq!(probes[1].0, "b");
    router.set_health(&probes[1].1, false);
    let picks: Vec<String> = (0..4).map(|_| router.pick(0).unwrap().address).collect();
    assert_eq!(picks, ["a", "c", "a", "c"]);
}

#[test]
fn unhealthy_targets_take_turns_too() {
    let targets = vec![target("a"), target("b"), target("c")];
    let mut router = Router::new(vec![Route::new(None, None, targets)]);
    for (_, handle) in router.health_probes() {
        router.set_health(&handle, false);
    }
    let picks: Vec<String> = (0..6).map(|_| router.pick(0).unwrap().address).collect();
    assert_eq!(picks, ["a", "b", "c", "a", "b", "c"]);
}
