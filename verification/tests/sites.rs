use zaphyl::access::IpAddress;
use zaphyl::cli::{
    detect_kind, is_local, is_local_name, plan_site_add, root_for, set_enabled_toml, site_add,
    site_list_line, toml_escape, write_site_toml, SiteAddAction, SiteAddEvent, SiteAddOpts,
    SiteLayout,
};
use zaphyl::config::{AcmeConfig, Config, ConfigError, RouteConfig, SocketAddress};
use zaphyl::setup::build_router;
use zaphyl::sites::{site_files, with_sites, SiteConfig, SiteKind, SiteTls};

const BARE: SiteLayout =
    SiteLayout { has_composer_json: false, has_public_dir: false, has_index_php: false };

#[test]
fn detect_kind_returns_static_for_empty_dir() {
    assert_eq!(detect_kind(BARE), SiteKind::Static);
}

#[test]
fn detect_kind_returns_php_for_index_php() {
    assert_eq!(detect_kind(SiteLayout { has_index_php: true, ..BARE }), SiteKind::Php);
}

#[test]
fn detect_kind_returns_php_for_composer_and_public() {
    let layout = SiteLayout { has_composer_json: true, has_public_dir: true, ..BARE };
    assert_eq!(detect_kind(layout), SiteKind::Php);
}

#[test]
fn detect_kind_composer_without_public_is_static() {
    let layout = SiteLayout { has_composer_json: true, ..BARE };
    assert_eq!(detect_kind(layout), SiteKind::Static);
}

#[test]
fn detect_kind_non_existent_root_is_static() {
    let root = std::path::Path::new("/nonexistent/path/that/does/not/exist");
    let layout = SiteLayout {
        has_composer_json: root.join("composer.json").exists(),
        has_public_dir: root.join("public").is_dir(),
        has_index_php: root.join("index.php").exists(),
    };
    assert_eq!(detect_kind(layout), SiteKind::Static);
}

#[test]
fn is_local_localhost() {
    assert!(is_local("localhost"));
}

#[test]
fn is_local_dot_local() {
    assert!(is_local("mysite.local"));
}

#[test]
fn is_local_dot_test() {
    assert!(is_local("blog.test"));
}

#[test]
fn is_local_ipv4() {
    assert!(is_local("127.0.0.1"));
}

#[test]
fn is_local_ipv6() {
    assert!(is_local("::1"));
}

#[test]
fn is_local_public_domain_is_not_local() {
    assert!(!is_local("example.com"));
}

#[test]
fn is_local_subdomain_of_public_is_not_local() {
    assert!(!is_local("blog.example.com"));
    assert!(!is_local_name("127.0.0.1", false));
    assert!(is_local_name("anything", true));
}

#[test]
fn toml_escape_plain_string_unchanged() {
    assert_eq!(toml_escape("hello/world"), "hello/world");
}

#[test]
fn toml_escape_backslash_is_doubled() {
    assert_eq!(toml_escape(r"C:\path\to"), r"C:\\path\\to");
}

#[test]
fn toml_escape_double_quote_is_escaped() {
    assert_eq!(toml_escape(r#"say "hi""#), r#"say \"hi\""#);
}

#[test]
fn toml_escape_both_special_chars() {
    assert_eq!(toml_escape(r#"C:\say "hi""#), r#"C:\\say \"hi\""#);
}

/// Reads a site file.
fn parse(text: &str) -> SiteConfig {
    let t: toml::Table = toml::from_str(text).expect("TOML must round-trip");
    let get = |name: &str| t.get(name).map(|v| v.as_str().unwrap().to_owned());
    SiteConfig {
        domain: get("domain").unwrap(),
        root: get("root").unwrap(),
        kind: match get("type").unwrap().as_str() {
            "static" => SiteKind::Static,
            "php" => SiteKind::Php,
            "app" => SiteKind::App,
            other => panic!("unknown kind {other}"),
        },
        tls: match get("tls").as_deref() {
            None => SiteTls::default(),
            Some("auto") => SiteTls::Auto,
            Some("off") => SiteTls::Off,
            Some(other) => panic!("unknown tls {other}"),
        },
        app: get("app"),
        php_fpm: get("php_fpm"),
        enabled: t.get("enabled").map_or(true, |v| v.as_bool().unwrap()),
    }
}

#[test]
fn parses_a_static_site() {
    let site =
        parse("domain = \"blog.example.com\"\nroot = \"/var/www/blog\"\ntype = \"static\"\n");
    assert_eq!(site.domain, "blog.example.com");
    assert_eq!(site.root, "/var/www/blog");
    assert_eq!(site.kind, SiteKind::Static);
    assert_eq!(site.tls, SiteTls::Auto);
    assert!(site.enabled);
}

#[test]
fn static_site_toml_round_trips() {
    let root = "/tmp/zaphyl-toml-static/www/blog";
    let toml = write_site_toml("blog.test", root, SiteKind::Static, true, None, None);
    assert_eq!(
        toml,
        "domain = \"blog.test\"\nroot = \"/tmp/zaphyl-toml-static/www/blog\"\ntype = \"static\"\ntls = \"off\"\n"
    );
    let parsed = parse(&toml);
    assert_eq!(parsed.domain, "blog.test");
    assert_eq!(parsed.root, root);
    assert_eq!(parsed.kind, SiteKind::Static);
    assert_eq!(parsed.tls, SiteTls::Off);
    assert!(parsed.app.is_none());
    assert!(parsed.php_fpm.is_none());
}

#[test]
fn app_site_toml_round_trips() {
    let toml = write_site_toml(
        "myapp.example.com",
        "/var/www/myapp",
        SiteKind::App,
        false,
        Some("http://127.0.0.1:3000"),
        None,
    );
    let parsed = parse(&toml);
    assert_eq!(parsed.domain, "myapp.example.com");
    assert_eq!(parsed.kind, SiteKind::App);
    assert_eq!(parsed.tls, SiteTls::Auto);
    assert_eq!(parsed.app.as_deref(), Some("http://127.0.0.1:3000"));
}

#[test]
fn php_site_toml_round_trips() {
    let toml = write_site_toml(
        "phpsite.local",
        "/var/www/phpsite/public",
        SiteKind::Php,
        true,
        None,
        None,
    );
    let parsed = parse(&toml);
    assert_eq!(parsed.kind, SiteKind::Php);
    assert_eq!(parsed.tls, SiteTls::Off);
}

#[test]
fn toml_escape_in_root_with_backslash_and_quote_round_trips() {
    let tricky_root = "/var/www/say\"hello\\world";
    let toml = write_site_toml("escape.test", tricky_root, SiteKind::Static, true, None, None);
    let parsed = parse(&toml);
    assert_eq!(parsed.root, tricky_root);
    assert_eq!(parsed.domain, "escape.test");
}

#[test]
fn control_characters_round_trip() {
    assert_eq!(toml_escape("a\nb"), "a\\u000ab");
    assert_eq!(toml_escape("\t\u{7f}\u{80}"), "\t\\u007f\u{80}");
    let every: String = (0u8..0x80).map(char::from).collect();
    let toml =
        write_site_toml(&every, &every, SiteKind::App, false, Some(&every), Some(&every));
    let parsed = parse(&toml);
    assert_eq!(parsed.domain, every);
    assert_eq!(parsed.root, every);
    assert_eq!(parsed.app.as_deref(), Some(every.as_str()));
    assert_eq!(parsed.php_fpm.as_deref(), Some(every.as_str()));
}

#[test]
fn toml_escape_in_app_with_special_chars_round_trips() {
    let upstream = "http://127.0.0.1:3000/path?a=\"b\"";
    let toml = write_site_toml(
        "app.test",
        "/var/www/app",
        SiteKind::App,
        true,
        Some(upstream),
        None,
    );
    assert_eq!(parse(&toml).app.as_deref(), Some(upstream));
}

#[test]
fn php_fpm_survives_disable_enable_rewrite() {
    let original = "domain = \"phpsite.local\"\nroot = \"/var/www/php\"\ntype = \"php\"\ntls = \"off\"\nphp_fpm = \"127.0.0.1:9000\"\n";
    let site = parse(original);
    assert_eq!(site.php_fpm.as_deref(), Some("127.0.0.1:9000"));
    assert!(site.enabled);

    let disabled_toml = set_enabled_toml(&site, false);
    assert_eq!(disabled_toml, format!("{original}enabled = false\n"));
    let disabled = parse(&disabled_toml);
    assert!(!disabled.enabled);
    assert_eq!(disabled.php_fpm.as_deref(), Some("127.0.0.1:9000"));

    let enabled = parse(&set_enabled_toml(&disabled, true));
    assert!(enabled.enabled);
    assert_eq!(enabled.php_fpm.as_deref(), Some("127.0.0.1:9000"));
}

fn site(domain: &str, kind: SiteKind) -> SiteConfig {
    SiteConfig {
        domain: domain.to_owned(),
        root: "/var/www/blog".to_owned(),
        kind,
        tls: SiteTls::Auto,
        app: None,
        php_fpm: None,
        enabled: true,
    }
}

fn config(routes: Vec<RouteConfig>, acme: Option<AcmeConfig>) -> Config {
    Config {
        listen: SocketAddress { ip: IpAddress::V4(0), port: 80 },
        worker_threads: None,
        shutdown_grace_seconds: None,
        tls: None,
        acme,
        metrics: None,
        rate_limit: None,
        health_check: None,
        limits: None,
        access: None,
        compression: None,
        cache: None,
        plugins: None,
        http3: None,
        http: None,
        response_headers: vec![],
        routes,
    }
}

fn catch_all() -> RouteConfig {
    RouteConfig {
        host: None,
        path: None,
        upstream: vec![],
        root: Some("/usr/share/zaphyl/html".to_owned()),
        tls: false,
        strip_prefix: false,
        request_headers: vec![],
        response_headers: vec![],
        grpc: false,
        plugins: vec![],
    }
}

#[test]
fn loads_sites_dir_and_prepends_site_routes() {
    let cfg = with_sites(
        config(vec![catch_all()], None),
        &vec![site("blog.example.com", SiteKind::Static)],
    );
    assert_eq!(cfg.routes[0].host.as_deref(), Some("blog.example.com"));
    assert_eq!(cfg.routes[0].root.as_deref(), Some("/var/www/blog"));
    assert_eq!(cfg.routes.last().unwrap().host, None);
    assert!(cfg.acme.is_none());
    // The site's route wins over the catch-all.
    let router = build_router(&cfg);
    assert_eq!(router.match_index(Some("Blog.Example.com"), "/x"), Some(0));
    assert_eq!(router.match_index(Some("other"), "/x"), Some(1));
}

#[test]
fn site_domains_join_the_acme_domains() {
    let acme = AcmeConfig {
        domains: vec!["main.example".to_owned(), "a.example".to_owned()],
        email: "e".to_owned(),
        directory: "d".to_owned(),
        cache_dir: "c".to_owned(),
        renew_before_days: 1,
        check_interval_seconds: 1,
    };
    let mut off = site("off.example", SiteKind::Static);
    off.tls = SiteTls::Off;
    let mut disabled = site("gone.example", SiteKind::Static);
    disabled.enabled = false;
    let mut app = site("app.example", SiteKind::App);
    app.app = Some("127.0.0.1:3000".to_owned());
    let cfg = with_sites(
        config(vec![catch_all()], Some(acme)),
        &vec![
            site("a.example", SiteKind::Static),
            off,
            disabled,
            app,
            site("app.example", SiteKind::App),
        ],
    );
    assert_eq!(
        cfg.acme.unwrap().domains,
        ["main.example", "a.example", "app.example"]
    );
    let hosts: Vec<Option<&str>> = cfg.routes.iter().map(|r| r.host.as_deref()).collect();
    assert_eq!(
        hosts,
        [Some("a.example"), Some("off.example"), Some("app.example"), None]
    );
    assert_eq!(cfg.routes[2].upstream, ["127.0.0.1:3000"]);
}

#[test]
fn site_files_are_the_toml_files_in_order() {
    let names = ["b.toml", "a.toml", "notes.txt", ".toml", "c.toml.bak", "a.b.toml"];
    let list: Vec<String> = names.iter().map(|n| n.to_string()).collect();
    assert_eq!(site_files(&list), ["a.b.toml", "a.toml", "b.toml"]);
}

fn opts() -> SiteAddOpts {
    SiteAddOpts {
        root: None,
        app: None,
        force_php: false,
        force_static: false,
        no_tls: false,
        force: false,
    }
}

/// A file system that holds one directory of sites.
#[derive(Default)]
struct Disk {
    dirs: Vec<String>,
    files: Vec<(String, String)>,
}

impl Disk {
    fn read(&self, path: &str) -> Option<&str> {
        self.files.iter().find(|(p, _)| p == path).map(|(_, text)| text.as_str())
    }

    /// Adds a site; what went wrong, or the lines of the report.
    fn add(&mut self, domain: &str, opts: &SiteAddOpts) -> Result<Vec<String>, String> {
        let plan = site_add(domain, opts, "/base/sites", "/base/www", BARE);
        let mut event = SiteAddEvent::Start;
        loop {
            event = match plan.next_action(&event) {
                SiteAddAction::MakeSitesDir => {
                    self.dirs.push(plan.sites_dir.clone());
                    SiteAddEvent::SitesDirMade(None)
                }
                SiteAddAction::LookForFile => {
                    SiteAddEvent::FileLookedFor(self.read(&plan.site_file).is_some())
                }
                SiteAddAction::MakeRoot => {
                    self.dirs.push(plan.root.clone());
                    SiteAddEvent::RootMade(None)
                }
                SiteAddAction::WriteFile => {
                    self.files.retain(|(path, _)| *path != plan.site_file);
                    self.files.push((plan.site_file.clone(), plan.toml.clone()));
                    SiteAddEvent::FileWritten(None)
                }
                SiteAddAction::Fail(text) => return Err(text),
                SiteAddAction::Report(lines) => return Ok(lines),
            };
        }
    }
}

#[test]
fn site_add_creates_sites_dir_when_missing() {
    let mut disk = Disk::default();
    let opts = SiteAddOpts { no_tls: true, ..opts() };
    let report = disk.add("missing-dir.test", &opts);
    assert!(report.is_ok(), "site add must succeed even when sites dir does not yet exist");
    assert_eq!(disk.dirs, ["/base/sites", "/base/www/missing-dir.test"]);
    assert!(
        disk.read("/base/sites/missing-dir.test.toml").is_some(),
        "site file must be created inside the newly created sites dir"
    );
}

#[test]
fn site_add_reports_the_site() {
    let report = Disk::default().add("blog.test", &opts()).unwrap();
    assert_eq!(
        report,
        [
            "Site added: blog.test",
            "  Site file : /base/sites/blog.test.toml",
            "  Web root  : /base/www/blog.test",
            "  Kind      : Static",
            "  URL       : http://blog.test/",
        ]
    );
}

#[test]
fn site_add_refuses_overwrite_without_force() {
    let original =
        "domain = \"dup.test\"\nroot = \"/original\"\ntype = \"static\"\ntls = \"off\"\n";
    let path = "/base/sites/dup.test.toml";
    let mut disk = Disk::default();
    disk.files.push((path.to_owned(), original.to_owned()));

    // Without --force: must FAIL and leave the original file intact.
    let opts = SiteAddOpts { no_tls: true, ..opts() };
    assert_eq!(
        disk.add("dup.test", &opts),
        Err(format!("zaphyl: site dup.test already exists at {path} (use --force to overwrite)"))
    );
    assert_eq!(disk.read(path), Some(original));

    // With --force: must SUCCEED and overwrite.
    let forced = SiteAddOpts { force: true, ..opts };
    assert!(disk.add("dup.test", &forced).is_ok());
    assert!(!disk.read(path).unwrap().contains("/original"));
}

#[test]
fn site_add_without_force_leaves_original_file_intact() {
    let original =
        "domain = \"intact.test\"\nroot = \"/untouched\"\ntype = \"static\"\ntls = \"off\"\n";
    let path = "/base/sites/intact.test.toml";
    let mut disk = Disk::default();
    disk.files.push((path.to_owned(), original.to_owned()));
    let opts = SiteAddOpts { no_tls: true, ..opts() };
    assert!(disk.add("intact.test", &opts).is_err(), "must refuse without --force");
    assert_eq!(disk.read(path), Some(original));
}

#[test]
fn site_add_writes_a_static_site_file() {
    let mut disk = Disk::default();
    let opts = SiteAddOpts { root: Some("/base/www/blog".to_owned()), ..opts() };
    assert!(disk.add("blog.test", &opts).is_ok());
    let written = disk.read("/base/sites/blog.test.toml").unwrap();
    assert!(written.contains("domain = \"blog.test\""));
    assert!(written.contains("type = \"static\""));
    // ".test" is a local domain -> TLS off.
    assert!(written.contains("tls = \"off\""));
    assert!(disk.dirs.contains(&"/base/www/blog".to_owned()));
}

#[test]
fn site_add_reports_what_failed() {
    let plan = plan_site_add("b.test", &opts(), "/s", "/w", BARE, true);
    let failed = |event: SiteAddEvent| match plan.next_action(&event) {
        SiteAddAction::Fail(text) => text,
        other => panic!("expected a failure, got {other:?}"),
    };
    let e = || Some("denied".to_owned());
    assert_eq!(
        failed(SiteAddEvent::SitesDirMade(e())),
        "zaphyl: could not create sites directory /s: denied"
    );
    assert_eq!(
        failed(SiteAddEvent::RootMade(e())),
        "zaphyl: could not create web root /w/b.test: denied"
    );
    assert_eq!(
        failed(SiteAddEvent::FileWritten(e())),
        "zaphyl: could not write /s/b.test.toml: denied"
    );
}

#[test]
fn site_add_lets_flags_win_over_the_layout() {
    let php = SiteLayout { has_public_dir: true, has_index_php: true, ..BARE };
    let plan = plan_site_add("x.example", &opts(), "/s", "/w", php, false);
    assert_eq!(plan.kind, SiteKind::Php);
    assert_eq!(parse(&plan.toml).root, "/w/x.example/public");
    assert!(!plan.tls_off);
    match plan.next_action(&SiteAddEvent::FileWritten(None)) {
        SiteAddAction::Report(lines) => {
            assert_eq!(lines[4], "  URL       : https://x.example/");
            assert_eq!(lines.len(), 6);
        }
        other => panic!("expected a report, got {other:?}"),
    }
    let flags = SiteAddOpts { force_static: true, no_tls: true, ..opts() };
    let plan = plan_site_add("x.example", &flags, "/s", "/w", php, false);
    assert_eq!(plan.kind, SiteKind::Static);
    assert_eq!(parse(&plan.toml).root, "/w/x.example");
    assert!(plan.tls_off);
    let app = SiteAddOpts { app: Some("h:1".to_owned()), force_php: true, ..opts() };
    let plan = plan_site_add("x.example", &app, "/s", "/w", php, false);
    assert_eq!(plan.kind, SiteKind::App);
    assert_eq!(parse(&plan.toml).app.as_deref(), Some("h:1"));
    let rooted = SiteAddOpts { root: Some("/here".to_owned()), ..opts() };
    assert_eq!(root_for("x.example", &rooted, "/w"), "/here");
}

#[test]
fn site_disable_then_list_marks_it_disabled() {
    let site = parse(
        "domain = \"x.test\"\nroot = \"/var/www/x\"\ntype = \"static\"\ntls = \"off\"\n",
    );
    assert_eq!(site_list_line(&site), "x.test [static] (enabled)");
    let body = set_enabled_toml(&site, false);
    assert!(body.contains("enabled = false"));
    let line = site_list_line(&parse(&body));
    assert!(line.contains("x.test"));
    assert!(line.to_lowercase().contains("disabled"));
    assert_eq!(line, "x.test [static] (DISABLED)");
}

#[test]
fn an_app_site_must_name_its_application() {
    let mut app = site("app.test", SiteKind::App);
    match app.validate() {
        Err(ConfigError::Invalid(text)) => {
            assert_eq!(text, "site app.test: type `app` requires `app`");
        }
        other => panic!("expected an error, got {other:?}"),
    }
    app.app = Some("127.0.0.1:3000".to_owned());
    assert!(app.validate().is_ok());
    assert!(app.to_route().is_some());
    assert!(site("blog.test", SiteKind::Static).validate().is_ok());
    assert!(site("php.test", SiteKind::Php).validate().is_ok());
}

#[test]
fn site_add_asks_for_no_certificate_for_a_local_name() {
    let tls_off = |domain: &str| site_add(domain, &opts(), "/s", "/w", BARE).tls_off;
    assert!(tls_off("10.0.0.1"));
    assert!(tls_off("::1"));
    assert!(tls_off("blog.local"));
    assert!(!tls_off("example.com"));
    assert!(!tls_off("10.0.0.256"));
    assert_eq!(site_add("a.test", &opts(), "/s", "/w", BARE).site_file, "/s/a.test.toml");
}

#[test]
fn an_absolute_name_stands_for_itself() {
    assert_eq!(root_for("/srv/x", &opts(), "/w"), "/srv/x");
    assert_eq!(root_for("x", &opts(), "/w/"), "/w/x");
}
