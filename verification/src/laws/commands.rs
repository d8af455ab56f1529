//! What the commands that manage sites do.
use crate::cli::{
    after_event, chosen_kind, kind_name, list_line, local_name, plans, reads_as, report,
    served_root, site_file_path, suggested_kind, SiteAddActionText, SiteAddEvent, SiteAddOpts,
    SiteAddPlan, SiteLayout, SiteText,
};
use crate::sites::{SiteConfig, SiteKind, SiteTls};
use crate::text::{ends, maybe_string};
use vstd::prelude::*;

verus! {

/// A layout suggests PHP exactly where there is an `index.php`, or a
/// `composer.json` beside a `public` directory.
pub proof fn law_suggested_kind(layout: SiteLayout)
    ensures
        layout.has_index_php ==> suggested_kind(layout) == SiteKind::Php,
        layout.has_composer_json && layout.has_public_dir ==> suggested_kind(layout)
            == SiteKind::Php,
        !layout.has_index_php && !(layout.has_composer_json && layout.has_public_dir)
            ==> suggested_kind(layout) == SiteKind::Static,
{
}

/// What the options say of the kind counts before the layout, and an application
/// before the rest.
pub proof fn law_options_choose_the_kind(opts: SiteAddOpts, layout: SiteLayout)
    ensures
        opts.app is Some ==> chosen_kind(opts, layout) == SiteKind::App,
        opts.app is None && opts.force_php ==> chosen_kind(opts, layout) == SiteKind::Php,
        opts.app is None && !opts.force_php && opts.force_static ==> chosen_kind(opts, layout)
            == SiteKind::Static,
        opts.app is None && !opts.force_php && !opts.force_static ==> chosen_kind(opts, layout)
            == suggested_kind(layout),
{
}

/// A domain is local exactly where it is an address, `localhost`, or a name
/// below `.local` or `.test`.
pub proof fn law_local_names(stem: Seq<char>, domain: Seq<char>)
    ensures
        local_name(domain, true),
        local_name("localhost"@, false),
        local_name(stem + ".local"@, false),
        local_name(stem + ".test"@, false),
        local_name(domain, false) ==> domain == "localhost"@ || exists|front: Seq<char>|
            domain == #[trigger] (front + ".local"@) || domain == front + ".test"@,
{
    let a = stem + ".local"@;
    let b = stem + ".test"@;
    assert(a.skip(a.len() - ".local"@.len()) =~= ".local"@);
    assert(b.skip(b.len() - ".test"@.len()) =~= ".test"@);
    if ends(domain, ".local"@) {
        let front = domain.take(domain.len() - ".local"@.len());
        assert(domain =~= front + ".local"@);
    }
    if ends(domain, ".test"@) {
        let front = domain.take(domain.len() - ".test"@.len());
        assert(domain =~= front + ".test"@);
        assert(front + ".local"@ == front + ".local"@);
    }
}

/// What is planned for a site: its file lies in the directory of site files
/// under its domain, and reads as an enabled site of the domain, of the chosen
/// kind, with the application that was given; a certificate is wanted unless the
/// options or the domain rule it out; a PHP site with a `public` directory is
/// served from there, and any other from its root.
pub proof fn law_plan_of_a_site(
    plan: SiteAddPlan,
    domain: Seq<char>,
    opts: SiteAddOpts,
    sites_dir: Seq<char>,
    webroot_base: Seq<char>,
    layout: SiteLayout,
    local: bool,
)
    requires
        plans(plan, domain, opts, sites_dir, webroot_base, layout, local),
    ensures
        plan.domain@ == domain,
        plan.sites_dir@ == sites_dir,
        plan.force == opts.force,
        plan.tls_off <==> opts.no_tls || local,
        plan.kind == chosen_kind(opts, layout),
        opts.root matches Some(root) ==> plan.root@ == root@,
        opts.root is None ==> plan.root@ == crate::paths::path_below(webroot_base, domain),
        reads_as(
            plan.toml@,
            (SiteText {
                domain,
                root: if plan.kind == SiteKind::Php && layout.has_public_dir {
                    crate::paths::path_below(plan.root@, "public"@)
                } else {
                    plan.root@
                },
                kind: plan.kind,
                tls: if opts.no_tls || local {
                    SiteTls::Off
                } else {
                    SiteTls::Auto
                },
                app: maybe_string(opts.app),
                php_fpm: None,
                enabled: true,
            }),
        ),
{
    crate::cli::law_site_file_reads_back(
        domain,
        served_root(plan.root@, plan.kind, layout),
        plan.kind,
        plan.tls_off,
        maybe_string(opts.app),
        None,
    );
}

/// The file of a site is called by its domain, in the directory of site files.
pub proof fn law_file_of_a_site(dir: Seq<char>, domain: Seq<char>)
    requires
        dir.len() > 0,
        dir.last() != '/',
        domain.len() > 0,
        domain[0] != '/',
    ensures
        site_file_path(dir, domain) == dir + seq!['/'] + domain + ".toml"@,
        crate::sites::is_site_file(domain + ".toml"@),
{
    let name = domain + ".toml"@;
    assert(name[0] == domain[0]);
    assert(site_file_path(dir, domain) =~= dir + seq!['/'] + domain + ".toml"@);
    reveal_strlit(".toml");
    reveal_strlit("toml");
    assert(name =~= domain.push('.') + seq!['t', 'o', 'm', 'l']);
    crate::laws::sites::law_site_file_name(domain, seq!['t', 'o', 'm', 'l']);
}

/// A path goes below a directory with one slash between them; an absolute path
/// stands for itself.
pub proof fn law_path_below(dir: Seq<char>, name: Seq<char>)
    requires
        dir.len() > 0,
    ensures
        name.len() > 0 && name[0] == '/' ==> crate::paths::path_below(dir, name) == name,
        !(name.len() > 0 && name[0] == '/') && dir.last() == '/' ==> crate::paths::path_below(
            dir,
            name,
        ) == dir + name,
        !(name.len() > 0 && name[0] == '/') && dir.last() != '/' ==> crate::paths::path_below(
            dir,
            name,
        ) == dir + seq!['/'] + name,
{
    if !(name.len() > 0 && name[0] == '/') && dir.last() != '/' {
        assert(crate::paths::path_below(dir, name) =~= dir + seq!['/'] + name);
    }
}

/// Adding a site goes step by step: the directory, the file looked for, the
/// root, the file written, the report. An existing file is written over only
/// where that is forced.
pub proof fn law_steps_of_adding_a_site(plan: SiteAddPlan)
    ensures
        after_event(plan, SiteAddEvent::Start) == SiteAddActionText::MakeSitesDir,
        after_event(plan, SiteAddEvent::SitesDirMade(None)) == SiteAddActionText::LookForFile,
        after_event(plan, SiteAddEvent::FileLookedFor(false)) == SiteAddActionText::MakeRoot,
        plan.force ==> after_event(plan, SiteAddEvent::FileLookedFor(true))
            == SiteAddActionText::MakeRoot,
        !plan.force ==> after_event(plan, SiteAddEvent::FileLookedFor(true))
            == SiteAddActionText::Fail(
            "zaphyl: site "@ + plan.domain@ + " already exists at "@ + plan.site_file@
                + " (use --force to overwrite)"@,
        ),
        after_event(plan, SiteAddEvent::RootMade(None)) == SiteAddActionText::WriteFile,
        after_event(plan, SiteAddEvent::FileWritten(None)) == SiteAddActionText::Report(
            report(plan),
        ),
{
}

/// What goes wrong while a site is added ends it, and is told with the path and
/// the error.
pub proof fn law_errors_of_adding_a_site(plan: SiteAddPlan, e: String)
    ensures
        after_event(plan, SiteAddEvent::SitesDirMade(Some(e))) == SiteAddActionText::Fail(
            "zaphyl: could not create sites directory "@ + plan.sites_dir@ + ": "@ + e@,
        ),
        after_event(plan, SiteAddEvent::RootMade(Some(e))) == SiteAddActionText::Fail(
            "zaphyl: could not create web root "@ + plan.root@ + ": "@ + e@,
        ),
        after_event(plan, SiteAddEvent::FileWritten(Some(e))) == SiteAddActionText::Fail(
            "zaphyl: could not write "@ + plan.site_file@ + ": "@ + e@,
        ),
{
}

/// The report of an added site names its domain, file, root, kind and URL, in
/// this order; where a certificate is wanted it says what that needs.
pub proof fn law_report_of_a_site(plan: SiteAddPlan)
    ensures
        report(plan).len() == if plan.tls_off {
            5int
        } else {
            6int
        },
        report(plan)[0] == "Site added: "@ + plan.domain@,
        report(plan)[1] == "  Site file : "@ + plan.site_file@,
        report(plan)[2] == "  Web root  : "@ + plan.root@,
        plan.kind == SiteKind::Static ==> report(plan)[3] == "  Kind      : "@ + "Static"@,
        plan.kind == SiteKind::Php ==> report(plan)[3] == "  Kind      : "@ + "Php"@,
        plan.kind == SiteKind::App ==> report(plan)[3] == "  Kind      : "@ + "App"@,
        plan.tls_off ==> report(plan)[4] == "  URL       : "@ + "http"@ + "://"@ + plan.domain@
            + "/"@,
        !plan.tls_off ==> report(plan)[4] == "  URL       : "@ + "https"@ + "://"@ + plan.domain@
            + "/"@,
{
}

/// A site is listed by its domain, its kind, and whether it is enabled.
pub proof fn law_listed_site(site: SiteConfig)
    ensures
        site.enabled ==> list_line(site) == site.domain@ + " ["@ + kind_name(site.kind) + "] ("@
            + "enabled"@ + ")"@,
        !site.enabled ==> list_line(site) == site.domain@ + " ["@ + kind_name(site.kind) + "] ("@
            + "DISABLED"@ + ")"@,
        kind_name(SiteKind::Static) == seq!['s', 't', 'a', 't', 'i', 'c'],
        kind_name(SiteKind::Php) == seq!['p', 'h', 'p'],
        kind_name(SiteKind::App) == seq!['a', 'p', 'p'],
{
    reveal_strlit("static");
    reveal_strlit("php");
    reveal_strlit("app");
    assert("static"@ =~= seq!['s', 't', 'a', 't', 'i', 'c']);
    assert("php"@ =~= seq!['p', 'h', 'p']);
    assert("app"@ =~= seq!['a', 'p', 'p']);
}

} // verus!
