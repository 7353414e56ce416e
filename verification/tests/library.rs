use std::cmp::Ordering;

use rustlauncher::accounts::{AccountRec, AccountStore};
use rustlauncher::auth::AccountKind;
use rustlauncher::content::{
    categories_for, content_files, project_url, search_url, versions_url, ContentKind, ModrinthFile,
    ModrinthVersion, SearchQuery, SortIndex,
};
use rustlauncher::diagnostics::{http_check, platform_check, runtimes_check, HttpReply};
use rustlauncher::db::{hash_password_with_salt, verify_password, HashError};
use rustlauncher::fonts::select_cjk_fonts;
use rustlauncher::home::{accounts_file, config_file, logs_dir, profiles_dir, servers_file, skins_dir};
use rustlauncher::java_download::{
    arch_token, graal_sub_versions, latest_only, os_token, temurin_api_url, temurin_resolve,
    temurin_sub_versions, zulu_api_url, zulu_sub_versions, GraalRelease, TemurinBinary, TemurinRelease,
    VersionData, ZuluPackage,
};
use rustlauncher::instances::Instance;
use rustlauncher::jvm::JvmArgsError;
use rustlauncher::lang::Language;
use rustlauncher::launcher::{launch_check, LaunchBlock, LaunchRequest};
use rustlauncher::logs::{session_footer, session_header};
use rustlauncher::ui_text::{push_line, strip_markdown, CONSOLE_CAP};
use rustlauncher::versions::{cmp_version_desc, Screen, VersionSort};

fn strings(v: &[&str]) -> Vec<String> {
    v.iter().map(|s| s.to_string()).collect()
}

fn record(kind: AccountKind, name: &str) -> AccountRec {
    AccountRec {
        kind,
        username: name.to_string(),
        uuid: format!("uuid-{name}"),
        password_hash: String::new(),
        access_token: String::new(),
        refresh_token: String::new(),
    }
}

#[test]
fn saved_selection_applies_only_to_known_accounts() {
    let mut store = AccountStore::from_records(vec![
        record(AccountKind::Offline, "Alex"),
        record(AccountKind::ElyBy, "Steve"),
    ]);
    assert_eq!(store.current.as_deref(), Some("Alex"));
    assert!(store.accounts[0].is_offline());
    assert!(!store.accounts[1].is_offline());
    store.select_saved("Steve");
    assert_eq!(store.current.as_deref(), Some("Steve"));
    store.select_saved("Nobody");
    assert_eq!(store.current.as_deref(), Some("Steve"));
    store.select_saved("");
    assert_eq!(store.current.as_deref(), Some("Steve"));
}

#[test]
fn modrinth_urls_are_built_exactly() {
    let q = SearchQuery {
        kind: ContentKind::Mod,
        query: " sodium ".to_string(),
        mc: "1.21.4".to_string(),
        loader: Some("fabric".to_string()),
        categories: Vec::new(),
        license: None,
        sort: SortIndex::Downloads,
        limit: 20,
    };
    assert_eq!(
        search_url(&q),
        "https://api.modrinth.com/v2/search?limit=20&index=downloads&facets=%5B%5B%22project_type%3Amod%22%5D%2C%5B%22versions%3A1.21.4%22%5D%2C%5B%22categories%3Afabric%22%5D%5D&query=sodium"
    );
    assert_eq!(project_url("AANobbMI"), "https://api.modrinth.com/v2/project/AANobbMI");
    assert_eq!(
        versions_url("AANobbMI", "1.21.4", Some("fabric")),
        "https://api.modrinth.com/v2/project/AANobbMI/version?game_versions=[%221.21.4%22]&loaders=[%22fabric%22]"
    );
    assert_eq!(versions_url("AANobbMI", "", Some("fabric")), "https://api.modrinth.com/v2/project/AANobbMI/version");
    assert!(ContentKind::Mod.uses_loader());
    assert!(!ContentKind::Shader.uses_loader());
    assert_eq!(categories_for(ContentKind::DataPack), vec!["adventure", "gameplay", "technology", "utility", "worldgen"]);
}

fn file(url: &str, name: &str, primary: bool) -> ModrinthFile {
    ModrinthFile { url: url.to_string(), filename: name.to_string(), size: 7, primary }
}

#[test]
fn content_files_offer_the_primary_file_of_each_version() {
    let versions = vec![
        ModrinthVersion {
            name: String::new(),
            version_number: "0.6.0".to_string(),
            game_versions: strings(&["1.21.4"]),
            loaders: strings(&["fabric"]),
            files: vec![file("https://x/a.jar", "a.jar", false), file("https://x/b.jar", "b.jar", true)],
        },
        ModrinthVersion {
            name: "no files".to_string(),
            version_number: "0.5.0".to_string(),
            game_versions: Vec::new(),
            loaders: Vec::new(),
            files: Vec::new(),
        },
        ModrinthVersion {
            name: "Old".to_string(),
            version_number: "0.4.0".to_string(),
            game_versions: Vec::new(),
            loaders: Vec::new(),
            files: vec![file("https://x/c.jar", "c.jar", false)],
        },
    ];
    let files = content_files(&versions);
    assert_eq!(files.len(), 2);
    assert_eq!(files[0].name, "0.6.0");
    assert_eq!(files[0].url, "https://x/b.jar");
    assert_eq!(files[0].file_name, "b.jar");
    assert_eq!(files[0].loaders, strings(&["fabric"]));
    assert_eq!(files[1].name, "Old");
    assert_eq!(files[1].url, "https://x/c.jar");
}

#[test]
fn diagnostics_results_read_as_expected() {
    let p = platform_check(Language::English, "linux", "x86_64", 8, "1.2.3");
    assert!(p.ok);
    assert_eq!(p.detail, "linux / x86_64 / 8 cores / RustLauncher v1.2.3");
    let r = runtimes_check(Language::English, &vec![21, 8, 21, 17], false);
    assert!(r.ok);
    assert_eq!(r.detail, "4 found (Java 8, 17, 21)");
    let none = runtimes_check(Language::English, &Vec::new(), false);
    assert!(!none.ok);
    assert_eq!(none.detail, "none found");
    let bundled = runtimes_check(Language::English, &Vec::new(), true);
    assert!(bundled.ok);
    let ok = http_check(
        "https://example.com",
        Language::English,
        &Ok(HttpReply { status: 200, has_content_length: true, latency_ms: 42 }),
    );
    assert!(ok.ok);
    assert_eq!(ok.name, "HTTP https://example.com");
    assert_eq!(ok.detail, "HTTP 200 (42 ms)");
    let streamed = http_check(
        "https://example.com",
        Language::English,
        &Ok(HttpReply { status: 404, has_content_length: false, latency_ms: 5 }),
    );
    assert!(!streamed.ok);
    assert_eq!(streamed.detail, "HTTP 404 streamed (5 ms)");
    let failed = http_check("https://example.com", Language::English, &Err("timeout".to_string()));
    assert!(!failed.ok);
    assert_eq!(failed.detail, "timeout");
}

#[test]
fn at_most_three_readable_fonts_are_loaded() {
    let ttf = Some(vec![0u8, 1, 0, 0, 9]);
    let files = vec![
        None,
        Some(b"garbage".to_vec()),
        ttf.clone(),
        Some(b"OTTO....".to_vec()),
        ttf.clone(),
        ttf.clone(),
    ];
    assert_eq!(select_cjk_fonts(&files), vec![2, 3, 4]);
}

#[test]
fn launcher_home_layout() {
    assert_eq!(skins_dir("/h"), "/h/skins");
    assert_eq!(profiles_dir("/h"), "/h/profiles");
    assert_eq!(logs_dir("/h"), "/h/logs");
    assert_eq!(config_file("/h"), "/h/config.json");
    assert_eq!(accounts_file("/h"), "/h/accounts.json");
    assert_eq!(servers_file("/h"), "/h/servers.json");
}

fn release(minor: u64, link: Option<&str>) -> TemurinRelease {
    TemurinRelease {
        version_data: Some(VersionData { major: Some(21), minor: Some(0), security: Some(minor), build: Some(7) }),
        binaries: link.map(|l| {
            vec![TemurinBinary {
                os: Some("windows".to_string()),
                architecture: Some("x64".to_string()),
                image_type: Some("jdk".to_string()),
                link: Some(l.to_string()),
            }]
        }),
    }
}

#[test]
fn java_sub_versions_and_resolution() {
    let releases = vec![release(5, Some("https://x/5.zip")), release(4, None), release(3, Some("https://x/3.zip"))];
    let subs = temurin_sub_versions(&releases).unwrap();
    let ids: Vec<&str> = subs.iter().map(|s| s.id.as_str()).collect();
    assert_eq!(ids, vec!["21.0.5+7", "21.0.3+7"]);
    assert!(subs.iter().all(|s| s.id == s.label));
    assert_eq!(temurin_resolve(&releases, "21.0.3+7", "windows", "x64"), Some("https://x/3.zip".to_string()));
    assert_eq!(temurin_resolve(&releases, "latest", "windows", "x64"), Some("https://x/5.zip".to_string()));
    assert_eq!(temurin_resolve(&releases, "21.0.9+7", "windows", "x64"), None);
    assert!(temurin_sub_versions(&Vec::new()).is_err());

    let packages = vec![
        ZuluPackage { name: Some("zulu21.40.17-ca-jdk21.0.5-win_x64.zip".to_string()), url: None },
        ZuluPackage { name: Some("zulu21.40.19-ca-fx-jdk21.0.5-win_x64.zip".to_string()), url: None },
        ZuluPackage { name: Some("zulu21.38.21-ca-jdk21.0.4-win_x64.zip".to_string()), url: None },
    ];
    let ids: Vec<String> = zulu_sub_versions(&packages).unwrap().into_iter().map(|s| s.id).collect();
    assert_eq!(ids, strings(&["21.0.5", "21.0.4"]));

    let graal = vec![
        GraalRelease { tag_name: Some("jdk-21.0.2".to_string()), assets: Vec::new() },
        GraalRelease { tag_name: Some("jdk-17.0.9".to_string()), assets: Vec::new() },
        GraalRelease { tag_name: Some("jdk-21.0.1".to_string()), assets: Vec::new() },
    ];
    let ids: Vec<String> = graal_sub_versions(&graal, 21).unwrap().into_iter().map(|s| s.id).collect();
    assert_eq!(ids, strings(&["21.0.2", "21.0.1"]));
    assert!(graal_sub_versions(&graal, 11).is_err());

    let latest = latest_only();
    assert_eq!(latest.len(), 1);
    assert_eq!(latest[0].id, "latest");
    assert_eq!(os_token("windows"), "windows");
    assert_eq!(os_token("freebsd"), "linux");
    assert_eq!(arch_token("aarch64"), "aarch64");
    assert_eq!(arch_token("x86_64"), "x64");
    assert_eq!(
        temurin_api_url(21, "windows", "x64"),
        "https://api.adoptium.net/v3/assets/feature_releases/21/ga?architecture=x64&image_type=jdk&os=windows&page=0&page_size=25&sort_order=DESC"
    );
    assert_eq!(
        zulu_api_url(17, "linux", "aarch64"),
        "https://api.azul.com/metadata/v1/zulu/packages/?java_version=17&os=linux&arch=aarch64&hw_bitness=64&bundle_type=jdk&archive_type=zip&release_status=ga&availability_types=CA&page_size=100"
    );
}

#[test]
fn session_log_markers() {
    assert_eq!(
        session_header("launcher", 7, "2024-05-01 10:00:00"),
        "[Log] === launcher session #7 started at 2024-05-01 10:00:00 ==="
    );
    assert_eq!(session_footer("2024-05-01 11:00:00"), "[Log] === Log closed at 2024-05-01 11:00:00 ===");
}

#[test]
fn markdown_noise_is_stripped() {
    assert_eq!(strip_markdown("**Bold** and `code` with [a link](https://x.y) end"), "Bold and code with a link end");
    assert_eq!(strip_markdown("[unclosed](link"), "[unclosed](link");
}

#[test]
fn console_keeps_the_newest_lines() {
    let mut console: Vec<String> = (0..CONSOLE_CAP).map(|i| i.to_string()).collect();
    push_line(&mut console, "new".to_string());
    assert_eq!(console.len(), CONSOLE_CAP);
    assert_eq!(console[0], "1");
    assert_eq!(console[CONSOLE_CAP - 1], "new");
}

#[test]
fn descending_version_comparison() {
    assert_eq!(cmp_version_desc("1.21.10", "1.21.9"), Ordering::Less);
    assert_eq!(cmp_version_desc("1.20", "1.20"), Ordering::Equal);
    assert_eq!(cmp_version_desc("1.8", "1.20"), Ordering::Greater);
    assert_eq!(VersionSort::default_sort(), VersionSort::Newest);
}

#[test]
fn offline_removal_needs_the_password() {
    let mut store = AccountStore::from_records(Vec::new());
    store.add_offline("Alex", "pw").unwrap();
    assert!(store.confirms_removal("Alex", "  pw "));
    assert!(!store.confirms_removal("Alex", "   "));
    assert!(!store.confirms_removal("Alex", "other"));
    assert!(!store.confirms_removal("Nobody", "pw"));
}

fn request() -> LaunchRequest {
    LaunchRequest {
        instance: Some(Instance { name: "Pack".to_string(), game_dir: " /games/pack ".to_string() }),
        instance_running: false,
        game_dir_is_dir: true,
        java_args: "-Xms1G -Xmx4G".to_string(),
        use_custom_java: false,
        java_path: String::new(),
        has_account: true,
        has_version: true,
    }
}

#[test]
fn launch_checks_run_in_order() {
    assert_eq!(launch_check(&request()).unwrap(), "/games/pack");

    let mut r = request();
    r.instance = None;
    r.has_account = false;
    let e = launch_check(&r).unwrap_err();
    assert!(matches!(e, LaunchBlock::NoInstance));
    assert_eq!(e.screen(), Some(Screen::Instances));

    let mut r = request();
    r.instance_running = true;
    let e = launch_check(&r).unwrap_err();
    assert!(e.is_status());
    assert_eq!(e.message(), "Pack is already running");

    let mut r = request();
    r.game_dir_is_dir = false;
    assert_eq!(launch_check(&r).unwrap_err().message(), "Instance game directory does not exist: /games/pack");

    let mut r = request();
    r.java_args = "-Xmx4G".to_string();
    let e = launch_check(&r).unwrap_err();
    assert!(matches!(e, LaunchBlock::JvmArgs(JvmArgsError::MissingXms)));
    assert_eq!(e.screen(), Some(Screen::Settings));

    let mut r = request();
    r.use_custom_java = true;
    r.java_path = "  ".to_string();
    assert!(matches!(launch_check(&r).unwrap_err(), LaunchBlock::CustomJavaEmpty));

    let mut r = request();
    r.has_account = false;
    r.has_version = false;
    let e = launch_check(&r).unwrap_err();
    assert!(matches!(e, LaunchBlock::NoAccount));
    assert_eq!(e.screen(), None);

    let mut r = request();
    r.has_version = false;
    assert!(matches!(launch_check(&r).unwrap_err(), LaunchBlock::NoVersion));
}

#[test]
fn accounts_without_a_token_launch_with_their_uuid() {
    let offline = record(AccountKind::Offline, "Alex").to_account();
    assert_eq!(offline.access_token, "uuid-Alex");
    let mut online = record(AccountKind::Mojang, "Steve");
    online.access_token = "token".to_string();
    let account = online.to_account();
    assert_eq!(account.access_token, "token");
    assert_eq!(account.kind, AccountKind::Mojang);
    assert_eq!(account.username, "Steve");
}

#[test]
fn hashing_uses_the_salt_it_is_given() {
    assert_eq!(hash_password_with_salt("pw", None), Err(HashError::Failed));
    assert_eq!(hash_password_with_salt("pw", Some("!".to_string())), Err(HashError::Failed));
    let salt = "c2FsdHNhbHRzYWx0c2FsdA".to_string();
    let a = hash_password_with_salt("pw", Some(salt.clone())).unwrap();
    let b = hash_password_with_salt("pw", Some(salt)).unwrap();
    assert_eq!(a, b);
    assert!(a.starts_with("$argon2id$"));
    assert!(verify_password("pw", &a));
    assert!(!verify_password("other", &a));
}
