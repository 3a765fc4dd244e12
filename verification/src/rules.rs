//! The patch rules applied to the extracted application: what to find,
//! what to put in its place, where, and how many hits are acceptable.
use vstd::prelude::*;

verus! {

/// One textual patch: every match of `find` (a literal, or a regular
/// expression when `is_regex`) in the files named by `target_globs` becomes
/// `replace`; the rule succeeds when the total number of matches lies
/// between `min_hits` and `max_hits`.
pub struct PatchRule {
    pub name: &'static str,
    pub find: &'static str,
    pub replace: &'static str,
    pub is_regex: bool,
    pub min_hits: usize,
    pub max_hits: usize,
    pub target_globs: Vec<&'static str>,
}

/// A rule as plain values: name, find, replace, is_regex, min_hits,
/// max_hits and target paths.
pub type RuleView = (Seq<char>, Seq<char>, Seq<char>, bool, usize, usize, Seq<Seq<char>>);

/// The plain values of a rule.
pub open spec fn rule_view(r: PatchRule) -> RuleView {
    (r.name@, r.find@, r.replace@, r.is_regex, r.min_hits, r.max_hits, r.target_globs@.map_values(|g: &str| g@))
}

/// The rule set, in the order in which it is applied.
pub open spec fn rule_table() -> Seq<RuleView> {
    seq![        (
            "kill_owadview_double"@,
            r#"document.createElement("owadview")"#@,
            r#"document.createElement("div")"#@,
            false,
            1,
            16,
            seq!["dist/desktop/desktop.js"@, "dist/game-dashboard/game-dashboard.js"@],
        ),
        (
            "kill_owadview_single"@,
            r#"document.createElement('owadview')"#@,
            r#"document.createElement('div')"#@,
            false,
            0,
            16,
            seq!["dist/desktop/desktop.js"@, "dist/game-dashboard/game-dashboard.js"@],
        ),
        (
            "kill_owadview_tagname"@,
            r#""owadview""#@,
            r#""ow-noop""#@,
            false,
            0,
            32,
            seq!["dist/desktop/desktop.js"@, "dist/game-dashboard/game-dashboard.js"@, "dist/preload/preload.js"@],
        ),
        (
            "neuter_client_overrides"@,
            r#""https://curseforge.overwolf.com/downloads/client-overrides-v2.json""#@,
            r#""about:blank""#@,
            false,
            1,
            4,
            seq!["dist/background/background.js"@],
        ),
        (
            "neuter_updater_endpoint_electron"@,
            r#""https://electron-updates.overwolf.com/electron-updates/electron/"#@,
            r#""about:blank?disabled=#"#@,
            false,
            1,
            4,
            seq!["dist/background/background.js"@],
        ),
        (
            "neuter_updater_endpoint_mac"@,
            r#""https://curseforge.overwolf.com/electron/mac""#@,
            r#""about:blank""#@,
            false,
            0,
            2,
            seq!["dist/background/background.js"@],
        ),
        (
            "kill_sentry_init_bundle"@,
            r#"Sentry\.init\("#@,
            r#"(function(){})("#@,
            true,
            0,
            8,
            seq!["dist/background/background.js"@, "dist/desktop/desktop.js"@, "dist/game-dashboard/game-dashboard.js"@, "dist/preload/preload.js"@],
        ),
        (
            "kill_sentry_dsn"@,
            r#"dsn:\s*"https://[^"]+sentry\.io/\d+""#@,
            r#"dsn:"""#@,
            true,
            0,
            8,
            seq!["dist/background/background.js"@, "dist/desktop/desktop.js"@, "dist/game-dashboard/game-dashboard.js"@, "dist/preload/preload.js"@],
        ),
        (
            "blank_sentry_ingest_url"@,
            r#"https://o\d+\.ingest\.sentry\.io"#@,
            r#"https://localhost.invalid"#@,
            true,
            0,
            8,
            seq!["dist/background/background.js"@, "dist/desktop/desktop.js"@, "dist/game-dashboard/game-dashboard.js"@, "dist/preload/preload.js"@],
        ),
        (
            "neuter_overwolf_analytics_host"@,
            r#"https://analyticsnew\.overwolf\.com"#@,
            r#"https://localhost.invalid"#@,
            true,
            0,
            16,
            seq!["dist/background/background.js"@, "dist/desktop/desktop.js"@, "dist/game-dashboard/game-dashboard.js"@, "dist/preload/preload.js"@],
        ),
        (
            "neuter_overwolf_analytics_alt"@,
            r#"https://(?:analytics|events|telemetry|ow-events)\.overwolf\.com"#@,
            r#"https://localhost.invalid"#@,
            true,
            0,
            16,
            seq!["dist/background/background.js"@, "dist/desktop/desktop.js"@, "dist/game-dashboard/game-dashboard.js"@, "dist/preload/preload.js"@],
        ),
        (
            "kill_analytics_send"@,
            r#"AnalyticsService\] Executing"#@,
            r#"AnalyticsService] Skipping"#@,
            true,
            0,
            4,
            seq!["dist/background/background.js"@],
        ),
        (
            "fake_premium_stub"@,
            "getActiveSubscriptionTypes(){return Promise.resolve([])}"@,
            "getActiveSubscriptionTypes(){return Promise.resolve([1])}"@,
            false,
            1,
            16,
            seq!["dist/background/background.js"@, "dist/desktop/desktop.js"@, "dist/game-dashboard/game-dashboard.js"@, "dist/preload/preload.js"@],
        ),
        (
            "fake_premium_facade"@,
            "getActiveSubscriptionTypes(){return this.subscriptionService.getActiveSubscriptionTypes()}"@,
            "getActiveSubscriptionTypes(){return Promise.resolve([1])}"@,
            false,
            0,
            8,
            seq!["dist/background/background.js"@, "dist/desktop/desktop.js"@, "dist/game-dashboard/game-dashboard.js"@, "dist/preload/preload.js"@],
        ),
        (
            "fake_premium_tebex_chain"@,
            "async getActiveSubscriptionTypes(){let e=await this.legacySubscriptionService.getActiveSubscriptionTypes();return e?.length||(e=await this.tebexApiSubscriptionServiceImpl.getActiveSubscriptionTypes()),e}"@,
            "async getActiveSubscriptionTypes(){return [1]}"@,
            false,
            0,
            4,
            seq!["dist/background/background.js"@],
        ),
        (
            "unlock_premium_theme_cards"@,
            "isPremium:!0"@,
            "isPremium:!0,forceUnlock:!0"@,
            false,
            8,
            24,
            seq!["dist/desktop/desktop.js"@, "dist/game-dashboard/game-dashboard.js"@],
        ),
        (
            "rename_desktop_window_title"@,
            "<title>CurseForge</title>"@,
            "<title>OpenForge</title>"@,
            false,
            1,
            1,
            seq!["dist/desktop/desktop.html"@],
        ),
        (
            "rename_background_window_title"@,
            "<title>CurseForge - Background</title>"@,
            "<title>OpenForge - Background</title>"@,
            false,
            1,
            1,
            seq!["dist/background/background.html"@],
        ),
        (
            "rename_startup_error_title"@,
            r#"showErrorBox("CurseForge App""#@,
            r#"showErrorBox("OpenForge App""#@,
            false,
            1,
            2,
            seq!["dist/background/background.js"@],
        ),
        (
            "rename_tray_open_label"@,
            r#"label:"Open CurseForge""#@,
            r#"label:"Open OpenForge""#@,
            false,
            1,
            2,
            seq!["dist/background/background.js"@],
        ),
        (
            "rename_desktop_crash_text"@,
            "Seems like CurseForge has crashed unexpectedly"@,
            "Seems like OpenForge has crashed unexpectedly"@,
            false,
            0,
            2,
            seq!["dist/desktop/desktop.js"@],
        ),
        (
            "rename_desktop_website_label"@,
            r#""CurseForge Website""#@,
            r#""OpenForge Website""#@,
            false,
            1,
            4,
            seq!["dist/desktop/desktop.js"@],
        ),
        (
            "rename_desktop_gallery_label"@,
            r#"text:"CurseForge Gallery""#@,
            r#"text:"OpenForge Gallery""#@,
            false,
            1,
            4,
            seq!["dist/desktop/desktop.js"@],
        ),
        (
            "rename_desktop_titlebar_logo"@,
            r#"(0,a.jsxs)("div",{className:"curseforge-logo",children:[(0,a.jsx)(d.GO,{iconName:"logo-type"}),C?.title&&(0,a.jsx)("span",{className:"alpha-tag",children:C?.title})]})"#@,
            r#"(0,a.jsxs)("div",{className:"curseforge-logo",children:[(0,a.jsx)("span",{className:"window-title",children:"OpenForge"}),C?.title&&(0,a.jsx)("span",{className:"alpha-tag",children:C?.title})]})"#@,
            false,
            1,
            1,
            seq!["dist/desktop/desktop.js"@],
        ),
        (
            "rename_dashboard_titlebar_logo"@,
            r#"(0,i.jsxs)("div",{className:"curseforge-logo",children:[(0,i.jsx)(u.GO,{iconName:"logo-type"}),E?.title&&(0,i.jsx)("span",{className:"alpha-tag",children:E?.title})]})"#@,
            r#"(0,i.jsxs)("div",{className:"curseforge-logo",children:[(0,i.jsx)("span",{className:"window-title",children:"OpenForge"}),E?.title&&(0,i.jsx)("span",{className:"alpha-tag",children:E?.title})]})"#@,
            false,
            0,
            1,
            seq!["dist/game-dashboard/game-dashboard.js"@],
        ),
        (
            "rename_discord_presence_text"@,
            r#"defaultCurseForgeImageText="CurseForge""#@,
            r#"defaultCurseForgeImageText="OpenForge""#@,
            false,
            0,
            2,
            seq!["dist/background/background.js"@],
        ),
        (
            "replace_intro_splash_video"@,
            r#"src:`\$\{[^}]+\}video/intro\.webm`,autoPlay:!0,muted:!0,onEnded:([A-Za-z_$][A-Za-z0-9_$]*)"#@,
            r#"src:"https://filedrop.malice.nz/p/BetterIntro.mp4",autoPlay:!0,muted:!1,onEnded:$1"#@,
            true,
            1,
            2,
            seq!["dist/desktop/desktop.js"@],
        ),
        (
            "rename_app_metadata"@,
            "\"name\": \"CurseForge\""@,
            "\"name\": \"OpenForge\""@,
            false,
            1,
            2,
            seq!["package.json"@],
        ),
        (
            "rename_app_description"@,
            "\"description\": \"The CurseForge Electron App\""@,
            "\"description\": \"The OpenForge Electron App\""@,
            false,
            1,
            2,
            seq!["package.json"@],
        ),
        (
            "rename_app_homepage"@,
            "\"homepage\": \"https://curseforge.overwolf.com\""@,
            "\"homepage\": \"https://openforge.local\""@,
            false,
            1,
            2,
            seq!["package.json"@],
        ),
        (
            "rename_app_repository"@,
            "\"repository\": \"https://github.com/overwolf/curseforge-app.git\""@,
            "\"repository\": \"https://github.com/malice-nz/OpenForge.git\""@,
            false,
            1,
            2,
            seq!["package.json"@],
        ),
    ]
}

/// A rule that can be applied: its find text is not empty, it names at
/// least one target, and its bounds are ordered.
pub open spec fn rule_well_formed(r: RuleView) -> bool {
    &&& r.1.len() > 0
    &&& r.6.len() > 0
    &&& r.4 <= r.5
}

/// Law: every rule of the set is well formed.
pub proof fn law_rules_well_formed()
    ensures
        forall|i: int| 0 <= i < rule_table().len() ==> rule_well_formed(#[trigger] rule_table()[i]),
{
    reveal_strlit(r#"document.createElement("owadview")"#);
    reveal_strlit(r#"document.createElement('owadview')"#);
    reveal_strlit(r#""owadview""#);
    reveal_strlit(r#""https://curseforge.overwolf.com/downloads/client-overrides-v2.json""#);
    reveal_strlit(r#""https://electron-updates.overwolf.com/electron-updates/electron/"#);
    reveal_strlit(r#""https://curseforge.overwolf.com/electron/mac""#);
    reveal_strlit(r#"Sentry\.init\("#);
    reveal_strlit(r#"dsn:\s*"https://[^"]+sentry\.io/\d+""#);
    reveal_strlit(r#"https://o\d+\.ingest\.sentry\.io"#);
    reveal_strlit(r#"https://analyticsnew\.overwolf\.com"#);
    reveal_strlit(r#"https://(?:analytics|events|telemetry|ow-events)\.overwolf\.com"#);
    reveal_strlit(r#"AnalyticsService\] Executing"#);
    reveal_strlit("getActiveSubscriptionTypes(){return Promise.resolve([])}");
    reveal_strlit("getActiveSubscriptionTypes(){return this.subscriptionService.getActiveSubscriptionTypes()}");
    reveal_strlit("async getActiveSubscriptionTypes(){let e=await this.legacySubscriptionService.getActiveSubscriptionTypes();return e?.length||(e=await this.tebexApiSubscriptionServiceImpl.getActiveSubscriptionTypes()),e}");
    reveal_strlit("isPremium:!0");
    reveal_strlit("<title>CurseForge</title>");
    reveal_strlit("<title>CurseForge - Background</title>");
    reveal_strlit(r#"showErrorBox("CurseForge App""#);
    reveal_strlit(r#"label:"Open CurseForge""#);
    reveal_strlit("Seems like CurseForge has crashed unexpectedly");
    reveal_strlit(r#""CurseForge Website""#);
    reveal_strlit(r#"text:"CurseForge Gallery""#);
    reveal_strlit(r#"(0,a.jsxs)("div",{className:"curseforge-logo",children:[(0,a.jsx)(d.GO,{iconName:"logo-type"}),C?.title&&(0,a.jsx)("span",{className:"alpha-tag",children:C?.title})]})"#);
    reveal_strlit(r#"(0,i.jsxs)("div",{className:"curseforge-logo",children:[(0,i.jsx)(u.GO,{iconName:"logo-type"}),E?.title&&(0,i.jsx)("span",{className:"alpha-tag",children:E?.title})]})"#);
    reveal_strlit(r#"defaultCurseForgeImageText="CurseForge""#);
    reveal_strlit(r#"src:`\$\{[^}]+\}video/intro\.webm`,autoPlay:!0,muted:!0,onEnded:([A-Za-z_$][A-Za-z0-9_$]*)"#);
    reveal_strlit("\"name\": \"CurseForge\"");
    reveal_strlit("\"description\": \"The CurseForge Electron App\"");
    reveal_strlit("\"homepage\": \"https://curseforge.overwolf.com\"");
    reveal_strlit("\"repository\": \"https://github.com/overwolf/curseforge-app.git\"");
    let t = rule_table();
    assert forall|i: int| 0 <= i < t.len() implies rule_well_formed(#[trigger] t[i]) by {
    }
}

/// The rule set: ad and telemetry removal, neutered update and analytics
/// endpoints, premium stubs and OpenForge branding.
pub fn rules() -> (r: Vec<PatchRule>)
    ensures
        r@.map_values(|x: PatchRule| rule_view(x)) == rule_table(),
{
    let v: Vec<PatchRule> = vec![
        PatchRule {
            name: "kill_owadview_double",
            find: r#"document.createElement("owadview")"#,
            replace: r#"document.createElement("div")"#,
            is_regex: false,
            min_hits: 1,
            max_hits: 16,
            target_globs: vec!["dist/desktop/desktop.js", "dist/game-dashboard/game-dashboard.js"],
        },
        PatchRule {
            name: "kill_owadview_single",
            find: r#"document.createElement('owadview')"#,
            replace: r#"document.createElement('div')"#,
            is_regex: false,
            min_hits: 0,
            max_hits: 16,
            target_globs: vec!["dist/desktop/desktop.js", "dist/game-dashboard/game-dashboard.js"],
        },
        PatchRule {
            name: "kill_owadview_tagname",
            find: r#""owadview""#,
            replace: r#""ow-noop""#,
            is_regex: false,
            min_hits: 0,
            max_hits: 32,
            target_globs: vec!["dist/desktop/desktop.js", "dist/game-dashboard/game-dashboard.js", "dist/preload/preload.js"],
        },
        PatchRule {
            name: "neuter_client_overrides",
            find: r#""https://curseforge.overwolf.com/downloads/client-overrides-v2.json""#,
            replace: r#""about:blank""#,
            is_regex: false,
            min_hits: 1,
            max_hits: 4,
            target_globs: vec!["dist/background/background.js"],
        },
        PatchRule {
            name: "neuter_updater_endpoint_electron",
            find: r#""https://electron-updates.overwolf.com/electron-updates/electron/"#,
            replace: r#""about:blank?disabled=#"#,
            is_regex: false,
            min_hits: 1,
            max_hits: 4,
            target_globs: vec!["dist/background/background.js"],
        },
        PatchRule {
            name: "neuter_updater_endpoint_mac",
            find: r#""https://curseforge.overwolf.com/electron/mac""#,
            replace: r#""about:blank""#,
            is_regex: false,
            min_hits: 0,
            max_hits: 2,
            target_globs: vec!["dist/background/background.js"],
        },
        PatchRule {
            name: "kill_sentry_init_bundle",
            find: r#"Sentry\.init\("#,
            replace: r#"(function(){})("#,
            is_regex: true,
            min_hits: 0,
            max_hits: 8,
            target_globs: vec!["dist/background/background.js", "dist/desktop/desktop.js", "dist/game-dashboard/game-dashboard.js", "dist/preload/preload.js"],
        },
        PatchRule {
            name: "kill_sentry_dsn",
            find: r#"dsn:\s*"https://[^"]+sentry\.io/\d+""#,
            replace: r#"dsn:"""#,
            is_regex: true,
            min_hits: 0,
            max_hits: 8,
            target_globs: vec!["dist/background/background.js", "dist/desktop/desktop.js", "dist/game-dashboard/game-dashboard.js", "dist/preload/preload.js"],
        },
        PatchRule {
            name: "blank_sentry_ingest_url",
            find: r#"https://o\d+\.ingest\.sentry\.io"#,
            replace: r#"https://localhost.invalid"#,
            is_regex: true,
            min_hits: 0,
            max_hits: 8,
            target_globs: vec!["dist/background/background.js", "dist/desktop/desktop.js", "dist/game-dashboard/game-dashboard.js", "dist/preload/preload.js"],
        },
        PatchRule {
            name: "neuter_overwolf_analytics_host",
            find: r#"https://analyticsnew\.overwolf\.com"#,
            replace: r#"https://localhost.invalid"#,
            is_regex: true,
            min_hits: 0,
            max_hits: 16,
            target_globs: vec!["dist/background/background.js", "dist/desktop/desktop.js", "dist/game-dashboard/game-dashboard.js", "dist/preload/preload.js"],
        },
        PatchRule {
            name: "neuter_overwolf_analytics_alt",
            find: r#"https://(?:analytics|events|telemetry|ow-events)\.overwolf\.com"#,
            replace: r#"https://localhost.invalid"#,
            is_regex: true,
            min_hits: 0,
            max_hits: 16,
            target_globs: vec!["dist/background/background.js", "dist/desktop/desktop.js", "dist/game-dashboard/game-dashboard.js", "dist/preload/preload.js"],
        },
        PatchRule {
            name: "kill_analytics_send",
            find: r#"AnalyticsService\] Executing"#,
            replace: r#"AnalyticsService] Skipping"#,
            is_regex: true,
            min_hits: 0,
            max_hits: 4,
            target_globs: vec!["dist/background/background.js"],
        },
        PatchRule {
            name: "fake_premium_stub",
            find: "getActiveSubscriptionTypes(){return Promise.resolve([])}",
            replace: "getActiveSubscriptionTypes(){return Promise.resolve([1])}",
            is_regex: false,
            min_hits: 1,
            max_hits: 16,
            target_globs: vec!["dist/background/background.js", "dist/desktop/desktop.js", "dist/game-dashboard/game-dashboard.js", "dist/preload/preload.js"],
        },
        PatchRule {
            name: "fake_premium_facade",
            find: "getActiveSubscriptionTypes(){return this.subscriptionService.getActiveSubscriptionTypes()}",
            replace: "getActiveSubscriptionTypes(){return Promise.resolve([1])}",
            is_regex: false,
            min_hits: 0,
            max_hits: 8,
            target_globs: vec!["dist/background/background.js", "dist/desktop/desktop.js", "dist/game-dashboard/game-dashboard.js", "dist/preload/preload.js"],
        },
        PatchRule {
            name: "fake_premium_tebex_chain",
            find: "async getActiveSubscriptionTypes(){let e=await this.legacySubscriptionService.getActiveSubscriptionTypes();return e?.length||(e=await this.tebexApiSubscriptionServiceImpl.getActiveSubscriptionTypes()),e}",
            replace: "async getActiveSubscriptionTypes(){return [1]}",
            is_regex: false,
            min_hits: 0,
            max_hits: 4,
            target_globs: vec!["dist/background/background.js"],
        },
        PatchRule {
            name: "unlock_premium_theme_cards",
            find: "isPremium:!0",
            replace: "isPremium:!0,forceUnlock:!0",
            is_regex: false,
            min_hits: 8,
            max_hits: 24,
            target_globs: vec!["dist/desktop/desktop.js", "dist/game-dashboard/game-dashboard.js"],
        },
        PatchRule {
            name: "rename_desktop_window_title",
            find: "<title>CurseForge</title>",
            replace: "<title>OpenForge</title>",
            is_regex: false,
            min_hits: 1,
            max_hits: 1,
            target_globs: vec!["dist/desktop/desktop.html"],
        },
        PatchRule {
            name: "rename_background_window_title",
            find: "<title>CurseForge - Background</title>",
            replace: "<title>OpenForge - Background</title>",
            is_regex: false,
            min_hits: 1,
            max_hits: 1,
            target_globs: vec!["dist/background/background.html"],
        },
        PatchRule {
            name: "rename_startup_error_title",
            find: r#"showErrorBox("CurseForge App""#,
            replace: r#"showErrorBox("OpenForge App""#,
            is_regex: false,
            min_hits: 1,
            max_hits: 2,
            target_globs: vec!["dist/background/background.js"],
        },
        PatchRule {
            name: "rename_tray_open_label",
            find: r#"label:"Open CurseForge""#,
            replace: r#"label:"Open OpenForge""#,
            is_regex: false,
            min_hits: 1,
            max_hits: 2,
            target_globs: vec!["dist/background/background.js"],
        },
        PatchRule {
            name: "rename_desktop_crash_text",
            find: "Seems like CurseForge has crashed unexpectedly",
            replace: "Seems like OpenForge has crashed unexpectedly",
            is_regex: false,
            min_hits: 0,
            max_hits: 2,
            target_globs: vec!["dist/desktop/desktop.js"],
        },
        PatchRule {
            name: "rename_desktop_website_label",
            find: r#""CurseForge Website""#,
            replace: r#""OpenForge Website""#,
            is_regex: false,
            min_hits: 1,
            max_hits: 4,
            target_globs: vec!["dist/desktop/desktop.js"],
        },
        PatchRule {
            name: "rename_desktop_gallery_label",
            find: r#"text:"CurseForge Gallery""#,
            replace: r#"text:"OpenForge Gallery""#,
            is_regex: false,
            min_hits: 1,
            max_hits: 4,
            target_globs: vec!["dist/desktop/desktop.js"],
        },
        PatchRule {
            name: "rename_desktop_titlebar_logo",
            find: r#"(0,a.jsxs)("div",{className:"curseforge-logo",children:[(0,a.jsx)(d.GO,{iconName:"logo-type"}),C?.title&&(0,a.jsx)("span",{className:"alpha-tag",children:C?.title})]})"#,
            replace: r#"(0,a.jsxs)("div",{className:"curseforge-logo",children:[(0,a.jsx)("span",{className:"window-title",children:"OpenForge"}),C?.title&&(0,a.jsx)("span",{className:"alpha-tag",children:C?.title})]})"#,
            is_regex: false,
            min_hits: 1,
            max_hits: 1,
            target_globs: vec!["dist/desktop/desktop.js"],
        },
        PatchRule {
            name: "rename_dashboard_titlebar_logo",
            find: r#"(0,i.jsxs)("div",{className:"curseforge-logo",children:[(0,i.jsx)(u.GO,{iconName:"logo-type"}),E?.title&&(0,i.jsx)("span",{className:"alpha-tag",children:E?.title})]})"#,
            replace: r#"(0,i.jsxs)("div",{className:"curseforge-logo",children:[(0,i.jsx)("span",{className:"window-title",children:"OpenForge"}),E?.title&&(0,i.jsx)("span",{className:"alpha-tag",children:E?.title})]})"#,
            is_regex: false,
            min_hits: 0,
            max_hits: 1,
            target_globs: vec!["dist/game-dashboard/game-dashboard.js"],
        },
        PatchRule {
            name: "rename_discord_presence_text",
            find: r#"defaultCurseForgeImageText="CurseForge""#,
            replace: r#"defaultCurseForgeImageText="OpenForge""#,
            is_regex: false,
            min_hits: 0,
            max_hits: 2,
            target_globs: vec!["dist/background/background.js"],
        },
        PatchRule {
            name: "replace_intro_splash_video",
            find: r#"src:`\$\{[^}]+\}video/intro\.webm`,autoPlay:!0,muted:!0,onEnded:([A-Za-z_$][A-Za-z0-9_$]*)"#,
            replace: r#"src:"https://filedrop.malice.nz/p/BetterIntro.mp4",autoPlay:!0,muted:!1,onEnded:$1"#,
            is_regex: true,
            min_hits: 1,
            max_hits: 2,
            target_globs: vec!["dist/desktop/desktop.js"],
        },
        PatchRule {
            name: "rename_app_metadata",
            find: "\"name\": \"CurseForge\"",
            replace: "\"name\": \"OpenForge\"",
            is_regex: false,
            min_hits: 1,
            max_hits: 2,
            target_globs: vec!["package.json"],
        },
        PatchRule {
            name: "rename_app_description",
            find: "\"description\": \"The CurseForge Electron App\"",
            replace: "\"description\": \"The OpenForge Electron App\"",
            is_regex: false,
            min_hits: 1,
            max_hits: 2,
            target_globs: vec!["package.json"],
        },
        PatchRule {
            name: "rename_app_homepage",
            find: "\"homepage\": \"https://curseforge.overwolf.com\"",
            replace: "\"homepage\": \"https://openforge.local\"",
            is_regex: false,
            min_hits: 1,
            max_hits: 2,
            target_globs: vec!["package.json"],
        },
        PatchRule {
            name: "rename_app_repository",
            find: "\"repository\": \"https://github.com/overwolf/curseforge-app.git\"",
            replace: "\"repository\": \"https://github.com/malice-nz/OpenForge.git\"",
            is_regex: false,
            min_hits: 1,
            max_hits: 2,
            target_globs: vec!["package.json"],
        },
    ];
    proof {
        assert(rule_view(v@[0]) == rule_table()[0]);
        assert(rule_view(v@[1]) == rule_table()[1]);
        assert(rule_view(v@[2]) == rule_table()[2]);
        assert(rule_view(v@[3]) == rule_table()[3]);
        assert(rule_view(v@[4]) == rule_table()[4]);
        assert(rule_view(v@[5]) == rule_table()[5]);
        assert(rule_view(v@[6]) == rule_table()[6]);
        assert(rule_view(v@[7]) == rule_table()[7]);
        assert(rule_view(v@[8]) == rule_table()[8]);
        assert(rule_view(v@[9]) == rule_table()[9]);
        assert(rule_view(v@[10]) == rule_table()[10]);
        assert(rule_view(v@[11]) == rule_table()[11]);
        assert(rule_view(v@[12]) == rule_table()[12]);
        assert(rule_view(v@[13]) == rule_table()[13]);
        assert(rule_view(v@[14]) == rule_table()[14]);
        assert(rule_view(v@[15]) == rule_table()[15]);
        assert(rule_view(v@[16]) == rule_table()[16]);
        assert(rule_view(v@[17]) == rule_table()[17]);
        assert(rule_view(v@[18]) == rule_table()[18]);
        assert(rule_view(v@[19]) == rule_table()[19]);
        assert(rule_view(v@[20]) == rule_table()[20]);
        assert(rule_view(v@[21]) == rule_table()[21]);
        assert(rule_view(v@[22]) == rule_table()[22]);
        assert(rule_view(v@[23]) == rule_table()[23]);
        assert(rule_view(v@[24]) == rule_table()[24]);
        assert(rule_view(v@[25]) == rule_table()[25]);
        assert(rule_view(v@[26]) == rule_table()[26]);
        assert(rule_view(v@[27]) == rule_table()[27]);
        assert(rule_view(v@[28]) == rule_table()[28]);
        assert(rule_view(v@[29]) == rule_table()[29]);
        assert(rule_view(v@[30]) == rule_table()[30]);
        assert(v@.map_values(|x: PatchRule| rule_view(x)) =~= rule_table());
    }
    v
}

} // verus!
