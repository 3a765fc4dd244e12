use openforge::api::{
    check_download_length, decide_download_answer, default_user_agent, eternal_download_url_url,
    eternal_file_url, eternal_mod_url, eternal_search_url, find_file_in_page, mod_info_from_widget,
    urlencoding, web_download_redirect_url, web_list_files_url, widget_project_url, ApiError,
    DownloadAnswer, ForgeCdn, SearchQuery, WidgetProject, search_needs_key,
};
use openforge::error::Error;
use openforge::cli::{download_target, install_dir_for, InstallError};
use openforge::config::{config_or_default, config_path, Config};
use openforge::games::{ArkAdapter, Game, GameAdapter, MinecraftAdapter, Sims4Adapter, WowAdapter};
use openforge::installer::part_file_name;
use openforge::launcher::{launch, LaunchError, Profile};
use openforge::modpack::{default_required, ManifestFile, ModpackManifest};
use openforge::models::{FileDependency, ModFile};
use openforge::paths::{
    asar_path_in, cache_dir_in, data_dir_or_default, document_dir_or, downloads_dir_in, install_root_in, instances_dir_in,
    update_yml_path_in,
};
use openforge::resolver::{group_by_project, DependencyResolver};

fn path(v: &[&str]) -> Vec<String> {
    v.iter().map(|s| s.to_string()).collect()
}

fn mod_file(id: u64, project_id: u64, deps: Vec<(u64, u8)>) -> ModFile {
    ModFile {
        id,
        date_created: "2024-01-01T00:00:00Z".to_string(),
        date_modified: None,
        display_name: format!("file {}", id),
        file_length: 10,
        file_name: format!("f{}.jar", id),
        status: None,
        project_id,
        game_versions: Vec::new(),
        release_type: None,
        total_downloads: None,
        download_url: None,
        hashes: Vec::new(),
        dependencies: deps.into_iter().map(|(m, r)| FileDependency { mod_id: m, relation_type: r }).collect(),
    }
}

#[test]
fn url_encoding_keeps_unreserved_bytes() {
    assert_eq!(urlencoding("abc-_.~XYZ09"), "abc-_.~XYZ09");
    assert_eq!(urlencoding("a b&c"), "a%20b%26c");
    assert_eq!(urlencoding("é"), "%C3%A9");
}

#[test]
fn api_urls_are_built_from_ids() {
    assert_eq!(eternal_mod_url(238222), "https://api.curseforge.com/v1/mods/238222");
    assert_eq!(eternal_file_url(1, 2), "https://api.curseforge.com/v1/mods/1/files/2");
    assert_eq!(eternal_download_url_url(1, 2), "https://api.curseforge.com/v1/mods/1/files/2/download-url");
    assert_eq!(web_list_files_url(5, 0, 10), "https://www.curseforge.com/api/v1/mods/5/files?pageIndex=0&pageSize=10");
    assert_eq!(web_download_redirect_url(5, 6), "https://www.curseforge.com/api/v1/mods/5/files/6/download");
    assert_eq!(widget_project_url("jei"), "https://api.cfwidget.com/jei");
    assert_eq!(default_user_agent(), "OpenForge/0.1.0");
}

#[test]
fn search_urls_list_the_filters_that_are_set() {
    let q = SearchQuery {
        game_id: 432,
        category_id: Some(6),
        search: Some("just enough".to_string()),
        sort_field: Some(2),
        mod_loader: None,
        game_version: Some("1.20.1".to_string()),
        index: 0,
        page_size: 10,
    };
    assert_eq!(
        eternal_search_url(&q),
        "https://api.curseforge.com/v1/mods/search?gameId=432&index=0&pageSize=10&searchFilter=just%20enough&categoryId=6&sortField=2&gameVersion=1.20.1"
    );
    let plain = SearchQuery { game_id: 1, page_size: 5, ..Default::default() };
    assert_eq!(eternal_search_url(&plain), "https://api.curseforge.com/v1/mods/search?gameId=1&index=0&pageSize=5");
}

#[test]
fn cdn_urls_split_the_file_id() {
    assert_eq!(
        ForgeCdn::url_for(4567890, "jei.jar"),
        "https://edge.forgecdn.net/files/4567/890/jei.jar?api-key=267C6CA3"
    );
    assert_eq!(ForgeCdn::url_for(1005, "a b.jar"), "https://edge.forgecdn.net/files/1/005/a b.jar?api-key=267C6CA3");
}

#[test]
fn download_answers_follow_redirects_by_hand() {
    assert_eq!(
        decide_download_answer(302, Some(Ok("https://x/y".to_string()))),
        DownloadAnswer::Location("https://x/y".to_string())
    );
    assert_eq!(decide_download_answer(307, Some(Err("not text".to_string()))), DownloadAnswer::BadLocation("not text".to_string()));
    assert_eq!(decide_download_answer(301, None), DownloadAnswer::Failed(301));
    assert_eq!(decide_download_answer(200, None), DownloadAnswer::FinalUrl);
    assert_eq!(decide_download_answer(200, Some(Ok("ignored".to_string()))), DownloadAnswer::FinalUrl);
    assert_eq!(decide_download_answer(404, None), DownloadAnswer::Failed(404));
}

#[test]
fn download_length_must_match() {
    assert_eq!(check_download_length(Some(10), 10), Ok(10));
    assert_eq!(check_download_length(None, 7), Ok(7));
    assert_eq!(
        check_download_length(Some(10), 7),
        Err(ApiError::Rejected("length mismatch: expected 10, got 7".to_string()))
    );
}

#[test]
fn a_file_is_found_in_the_first_page_or_rejected() {
    let page = vec![mod_file(1, 9, vec![]), mod_file(2, 9, vec![]), mod_file(2, 8, vec![])];
    let f = find_file_in_page(page, 2).ok().unwrap();
    assert_eq!(f.project_id, 9);
    let page = vec![mod_file(1, 9, vec![])];
    assert_eq!(
        find_file_in_page(page, 3).err(),
        Some(ApiError::Rejected("file 3 not in first page; provide Eternal key for direct lookup".to_string()))
    );
}

#[test]
fn widget_projects_become_mod_info() {
    let w = WidgetProject {
        id: 42,
        title: "JEI".to_string(),
        summary: Some("items".to_string()),
        description: None,
        thumbnail: None,
        files: Vec::new(),
        categories: Vec::new(),
        game: None,
    };
    let m = mod_info_from_widget(w);
    assert_eq!(m.id, 42);
    assert_eq!(m.name, "JEI");
    assert_eq!(m.slug, "");
    assert_eq!(m.summary.as_deref(), Some("items"));
    assert_eq!(m.game_id, 0);
}

#[test]
fn games_have_ids_and_slugs() {
    assert_eq!(Game::Minecraft.id(), 432);
    assert_eq!(Game::WowClassic.id(), 1);
    assert_eq!(Game::Other(77).id(), 77);
    assert_eq!(Game::from_id(78), Game::Sims4);
    assert_eq!(Game::from_id(1), Game::WowRetail);
    assert_eq!(Game::from_id(5), Game::Other(5));
    assert_eq!(Game::from_slug("MC"), Some(Game::Minecraft));
    assert_eq!(Game::from_slug("The-Sims-4"), Some(Game::Sims4));
    assert_eq!(Game::from_slug("wow-classic"), Some(Game::WowClassic));
    assert_eq!(Game::from_slug("factorio"), None);
    for g in [Game::Minecraft, Game::WowRetail, Game::Sims4, Game::Other(5)] {
        assert_eq!(Game::from_id(g.id()), g);
    }
}

#[test]
fn adapters_route_mods_to_their_game() {
    let wow = WowAdapter { retail: false, wow_root: path(&["C:", "WoW"]) };
    assert_eq!(wow.game(), Game::WowClassic);
    assert_eq!(wow.install_dir("x"), path(&["C:", "WoW", "_classic_", "Interface", "AddOns"]));
    assert!(!wow.loader_required());
    let ark = ArkAdapter { ark_root: path(&["ark"]) };
    assert_eq!(ark.install_dir("x"), path(&["ark", "ShooterGame", "Content", "Mods"]));
    let mc = MinecraftAdapter;
    assert!(mc.loader_required());
    let dir = mc.install_dir("pack");
    assert!(dir.ends_with(&path(&["instances", "pack", "mods"])));
    let sims = Sims4Adapter.install_dir("x");
    assert!(sims.ends_with(&path(&["Electronic Arts", "The Sims 4", "Mods"])));
}

#[test]
fn install_routes_by_game_slug() {
    assert_eq!(
        install_dir_for("wow", "i", Some(path(&["W"])), None).ok().unwrap(),
        path(&["W", "_retail_", "Interface", "AddOns"])
    );
    assert_eq!(install_dir_for("wow", "i", None, None).err(), Some(InstallError::MissingWowRoot));
    assert_eq!(install_dir_for("ark", "i", None, None).err(), Some(InstallError::MissingArkRoot));
    assert_eq!(install_dir_for("ark", "i", None, Some(path(&["A"]))).err(), Some(InstallError::ArkNotImplemented));
    assert_eq!(
        install_dir_for("doom", "i", None, None).err(),
        Some(InstallError::UnsupportedGame("doom".to_string()))
    );
    let mc = install_dir_for("Minecraft", "pack", None, None).ok().unwrap();
    assert!(mc.ends_with(&path(&["instances", "pack", "mods"])));
}

#[test]
fn downloads_go_into_directories() {
    assert_eq!(download_target(path(&["d"]), true, true, "f.jar"), (path(&["d", "f.jar"]), false));
    assert_eq!(download_target(path(&["new"]), false, false, "f.jar"), (path(&["new", "f.jar"]), true));
    assert_eq!(download_target(path(&["x.jar"]), false, true, "f.jar"), (path(&["x.jar"]), false));
}

#[test]
fn data_directories_sit_under_the_data_dir() {
    let base = path(&["home", "data"]);
    assert_eq!(instances_dir_in(&base), path(&["home", "data", "instances"]));
    assert_eq!(cache_dir_in(&base), path(&["home", "data", "cache"]));
    assert_eq!(downloads_dir_in(&base), path(&["home", "data", "downloads"]));
    assert_eq!(config_path(&base), path(&["home", "data", "config.toml"]));
}

#[test]
fn the_data_dir_falls_back_to_a_local_directory() {
    assert_eq!(data_dir_or_default(None), path(&[".", "openforge-data"]));
    assert_eq!(data_dir_or_default(Some(path(&["home", "x"]))), path(&["home", "x"]));
    assert_eq!(document_dir_or(None), Vec::<String>::new());
    assert_eq!(document_dir_or(Some(path(&["docs"]))), path(&["docs"]));
}

#[test]
fn the_client_layout_is_fixed() {
    let local = path(&["C:\\", "Users", "u", "AppData", "Local"]);
    let root = install_root_in(&local);
    assert_eq!(root, path(&["C:\\", "Users", "u", "AppData", "Local", "Programs", "CurseForge Windows"]));
    assert_eq!(asar_path_in(&path(&["r"])), path(&["r", "resources", "app.asar"]));
    assert_eq!(update_yml_path_in(&path(&["r"])), path(&["r", "resources", "app-update.yml"]));
}

#[test]
fn settings_default_to_none() {
    let c = config_or_default(None);
    assert!(c.eternal_api_key.is_none() && c.instances_dir.is_none() && c.cache_dir.is_none());
    assert!(c.max_concurrent_downloads.is_none());
    let given = Config { eternal_api_key: Some("k".to_string()), ..Default::default() };
    assert_eq!(config_or_default(Some(given)).eternal_api_key.as_deref(), Some("k"));
}

#[test]
fn launching_is_not_available_yet() {
    let p = Profile {
        id: "1".to_string(),
        name: "p".to_string(),
        game_slug: "minecraft".to_string(),
        instance_dir: path(&["i"]),
        jvm_args: Vec::new(),
        mc_version: None,
        loader: None,
    };
    assert_eq!(launch(&p), Err(LaunchError::NotImplemented));
    assert_eq!(LaunchError::NotImplemented.message(), "launcher: not implemented in scaffold");
}

#[test]
fn modpack_files_are_required_by_default() {
    assert!(default_required());
    let m = ModpackManifest {
        minecraft: None,
        manifest_type: "minecraftModpack".to_string(),
        manifest_version: 1,
        name: "pack".to_string(),
        version: "1".to_string(),
        author: None,
        files: vec![ManifestFile { project_id: 1, file_id: 10, required: default_required() }],
        overrides: None,
    };
    assert!(m.files[0].required);
}

#[test]
fn part_files_replace_the_extension() {
    assert_eq!(part_file_name("mod.jar"), "mod.part");
    assert_eq!(part_file_name("a.tar.gz"), "a.tar.part");
    assert_eq!(part_file_name("README"), "README.part");
    assert_eq!(part_file_name(".hidden"), ".hidden.part");
    assert_eq!(part_file_name("a."), "a.part");
    assert_eq!(part_file_name(""), "");
    assert_eq!(part_file_name("."), ".");
    assert_eq!(part_file_name(".."), "..");
    assert_eq!(part_file_name("..."), "...part");
}

#[test]
fn required_dependencies_are_collected_in_order() {
    let f = mod_file(1, 100, vec![(200, 3), (300, 2), (400, 3)]);
    assert_eq!(DependencyResolver::collect_required(&f), vec![200, 400]);
}

#[test]
fn the_walk_visits_each_project_once() {
    let fetch = |p: u64| -> Option<ModFile> {
        match p {
            1 => Some(mod_file(11, 1, vec![(2, 3), (3, 2)])),
            2 => Some(mod_file(12, 2, vec![(1, 3)])),
            3 => Some(mod_file(13, 3, vec![])),
            _ => None,
        }
    };
    let out = DependencyResolver::walk(&[1, 9], fetch);
    let ids: Vec<u64> = out.iter().map(|n| n.project_id).collect();
    assert_eq!(ids, vec![1, 2, 3]);
    assert!(out[0].required);
    assert_eq!(out[0].file_id, 11);
    assert!(out[1].required);
    assert!(!out[2].required);
}

#[test]
fn errors_show_their_messages() {
    assert_eq!(ApiError::Status(404, "gone".to_string()).message(), "status 404: gone");
    assert_eq!(ApiError::NotImplemented.message(), "not implemented for this backend");
    assert_eq!(ApiError::Rejected("x".to_string()).message(), "backend rejected request: x");
    assert_eq!(
        search_needs_key(),
        ApiError::Rejected(
            "search requires Eternal API key (set eternal_api_key in config) or a cfwidget search route".to_string()
        )
    );
    let e = Error::Integrity { what: "a.jar".to_string(), expected: "1".to_string(), actual: "2".to_string() };
    assert_eq!(e.message(), "integrity check failed for a.jar: expected 1, got 2");
    assert_eq!(Error::NotFound("x".to_string()).message(), "not found: x");
    assert_eq!(Error::Other("plain".to_string()).message(), "plain");
}

#[test]
fn files_are_grouped_by_project_in_order() {
    let files = vec![mod_file(1, 10, vec![]), mod_file(2, 20, vec![]), mod_file(3, 10, vec![])];
    let groups = group_by_project(&files);
    assert_eq!(groups.len(), 2);
    let ten: Vec<u64> = groups[&10].iter().map(|f| f.id).collect();
    let twenty: Vec<u64> = groups[&20].iter().map(|f| f.id).collect();
    assert_eq!(ten, vec![1, 3]);
    assert_eq!(twenty, vec![2]);
    assert!(!groups.contains_key(&30));
}

#[test]
fn slugs_ignore_case() {
    for s in ["minecraft", "MC", "Wow-Classic", "the-SIMS-4", "ARK", "nope"] {
        assert_eq!(Game::from_slug(s), Game::from_slug(&s.to_ascii_lowercase()));
        assert_eq!(Game::from_slug(s), Game::from_slug(&s.to_ascii_uppercase()));
        assert!(!matches!(Game::from_slug(s), Some(Game::Other(_))));
    }
    assert_eq!(Game::from_slug("MineCraft"), Some(Game::Minecraft));
}

#[test]
fn the_walk_fetches_breadth_first_and_once_per_project() {
    let calls = std::cell::RefCell::new(Vec::new());
    let fetch = |p: u64| -> Option<ModFile> {
        calls.borrow_mut().push(p);
        match p {
            1 => Some(mod_file(11, 1, vec![(2, 2), (3, 3), (2, 3)])),
            2 => Some(mod_file(12, 2, vec![(4, 3), (1, 3)])),
            3 => Some(mod_file(13, 3, vec![(4, 2), (5, 1)])),
            4 => None,
            _ => Some(mod_file(99, p, vec![])),
        }
    };
    let out = DependencyResolver::walk(&[1, 1], fetch);
    assert_eq!(*calls.borrow(), vec![1, 2, 3, 4]);
    let got: Vec<(u64, u64, bool)> = out.iter().map(|n| (n.project_id, n.file_id, n.required)).collect();
    assert_eq!(got, vec![(1, 11, true), (2, 12, false), (3, 13, true)]);
}
