use std::cmp::Ordering;

use rustlauncher::accounts::{AccountError, AccountStore, LegacyAccount};
use rustlauncher::db::HashError;
use rustlauncher::auth::{
    elyby_account, elyby_failure, offline_uuid, poll_interval, poll_outcome, xsts_refusal, AccountKind,
    AuthError, ElyProfile, ElyReply, PollOutcome, TokenReply, UsernameError,
};
use rustlauncher::classpath::{
    build_classpath, collect_jars, compare_versions, deduplicate_artifacts, maven_coordinate_to_path,
    remove_conflicting_lwjgl, ClasspathError, VersionJson,
};
use rustlauncher::content::{plan_download, ContentFile, ContentKind, DownloadError};
use rustlauncher::home::{launcher_home, resolve_game_dir, HomeError};
use rustlauncher::instances::{InstanceError, InstanceStore};
use rustlauncher::java_locator::{selected_java_major, JavaError};
use rustlauncher::jvm::{validate_jvm_args, JvmArgsError};
use rustlauncher::lang::{tr, Language};
use rustlauncher::launcher::module_access_flags;
use rustlauncher::content::categories_for;
use rustlauncher::java_locator::{finish_inventory, select_java, InstalledJava, JavaCandidates};
use rustlauncher::diagnostics::{dns_check, selected_java_check};
use rustlauncher::logs::{log_file_name, next_number};
use rustlauncher::nbt::{parse, NbtError};
use rustlauncher::versions::{merge_versions, sort_version_rows, Manifest, ManifestVersion, Version, VersionRow, VersionSort};

use rustlauncher::classpath::uses_lwjgl3;
use rustlauncher::launcher::{cli_jvm_flags, is_native_library, is_natives_jar};
use rustlauncher::java_locator::{
    best_compatible, canonical_key, common_java_roots, executables_in, extra_java_roots, locate_runtime,
};

const LIBS: &str = "/g/libraries";

fn strings(v: &[&str]) -> Vec<String> {
    v.iter().map(|s| s.to_string()).collect()
}

// ---------------------------------------------------------------- classpath

#[test]
fn dedup_keeps_newest_version_with_all_its_files() {
    let mut jars = strings(&[
        "/g/libraries/org/ow2/asm/asm/9.6/asm-9.6.jar",
        "/g/libraries/org/ow2/asm/asm/9.7/asm-9.7.jar",
        "/g/libraries/org/ow2/asm/asm/9.7/asm-9.7-sources.jar",
        "/elsewhere/client.jar",
    ]);
    deduplicate_artifacts(&mut jars, LIBS);
    assert_eq!(
        jars,
        strings(&[
            "/g/libraries/org/ow2/asm/asm/9.7/asm-9.7.jar",
            "/g/libraries/org/ow2/asm/asm/9.7/asm-9.7-sources.jar",
            "/elsewhere/client.jar",
        ])
    );
}

#[test]
fn dedup_falls_back_from_a_too_new_gson() {
    let mut jars = strings(&[
        "/g/libraries/com/google/code/gson/gson/2.10/gson-2.10.jar",
        "/g/libraries/com/google/code/gson/gson/2.14.0/gson-2.14.0.jar",
        "/g/libraries/com/google/code/gson/gson/2.11.0/gson-2.11.0.jar",
    ]);
    deduplicate_artifacts(&mut jars, LIBS);
    assert_eq!(jars, strings(&["/g/libraries/com/google/code/gson/gson/2.11.0/gson-2.11.0.jar"]));
}

#[test]
fn dedup_keeps_newest_gson_when_every_version_is_too_new() {
    let mut jars = strings(&[
        "/g/libraries/com/google/code/gson/gson/2.15.1/gson-2.15.1.jar",
        "/g/libraries/com/google/code/gson/gson/2.14.0/gson-2.14.0.jar",
    ]);
    deduplicate_artifacts(&mut jars, LIBS);
    assert_eq!(jars, strings(&["/g/libraries/com/google/code/gson/gson/2.15.1/gson-2.15.1.jar"]));
}

#[test]
fn lwjgl_conflicts_drop_every_older_version() {
    let mut jars = strings(&[
        "/g/libraries/org/lwjgl/lwjgl/lwjgl/2.9.4/lwjgl-2.9.4.jar",
        "/g/libraries/org/lwjgl/lwjgl/3.3.3/lwjgl-3.3.3.jar",
        "/g/libraries/org/lwjgl/lwjgl-glfw/3.3.3/lwjgl-glfw-3.3.3.jar",
        "/g/libraries/net/java/jinput/jinput/2.0.5/jinput-2.0.5.jar",
    ]);
    remove_conflicting_lwjgl(&mut jars, LIBS);
    assert_eq!(
        jars,
        strings(&[
            "/g/libraries/org/lwjgl/lwjgl/3.3.3/lwjgl-3.3.3.jar",
            "/g/libraries/org/lwjgl/lwjgl-glfw/3.3.3/lwjgl-glfw-3.3.3.jar",
            "/g/libraries/net/java/jinput/jinput/2.0.5/jinput-2.0.5.jar",
        ])
    );
}

#[test]
fn a_single_lwjgl_jar_is_left_alone() {
    let mut jars = strings(&["/g/libraries/org/lwjgl/lwjgl/lwjgl/2.9.4/lwjgl-2.9.4.jar"]);
    remove_conflicting_lwjgl(&mut jars, LIBS);
    assert_eq!(jars, strings(&["/g/libraries/org/lwjgl/lwjgl/lwjgl/2.9.4/lwjgl-2.9.4.jar"]));
}

#[test]
fn version_comparison_exact_results() {
    assert_eq!(compare_versions("1.10", "1.9"), Ordering::Greater);
    assert_eq!(compare_versions("1.0", "1"), Ordering::Equal);
    assert_eq!(compare_versions("2-beta", "2"), Ordering::Equal);
    assert_eq!(compare_versions("3.2.1", "3.2.10"), Ordering::Less);
    assert_eq!(compare_versions("x.5", "0.5"), Ordering::Equal);
}

#[test]
fn jars_are_sorted_component_by_component() {
    let jars = collect_jars(strings(&["/a/b-c.jar", "/a/b/c.jar", "/a/a.jar"]));
    assert_eq!(jars, strings(&["/a/a.jar", "/a/b/c.jar", "/a/b-c.jar"]));
}

#[test]
fn only_jar_files_are_collected() {
    let jars = collect_jars(strings(&[
        "/l/b/B.JAR",
        "/l/readme.txt",
        "/l/.jar",
        "/l/x/.jar",
        "/l/a/a.Jar",
        "/l/c/c.jar.sha1",
        "/l/d/..jar",
    ]));
    assert_eq!(jars, strings(&["/l/a/a.Jar", "/l/b/B.JAR", "/l/d/..jar"]));
}

#[test]
fn maven_coordinates_map_to_the_repository_layout() {
    assert_eq!(
        maven_coordinate_to_path(LIBS, "net.fabricmc:fabric-loader:0.16.9"),
        Some("/g/libraries/net/fabricmc/fabric-loader/0.16.9/fabric-loader-0.16.9.jar".to_string())
    );
    assert_eq!(
        maven_coordinate_to_path(LIBS, "org.lwjgl:lwjgl:3.3.3:natives-linux"),
        Some("/g/libraries/org/lwjgl/lwjgl/3.3.3/lwjgl-3.3.3-natives-linux.jar".to_string())
    );
    assert_eq!(maven_coordinate_to_path(LIBS, "just:two"), None);
}

fn version_json(main_class: &str, libraries: &[&str], jar: Option<&str>, lwjgl3: bool) -> VersionJson {
    VersionJson {
        main_class: main_class.to_string(),
        libraries: strings(libraries),
        jar: jar.map(|s| s.to_string()),
        uses_lwjgl3: lwjgl3,
        asset_index: None,
        java_major: None,
    }
}

#[test]
fn fabric_classpath_is_the_version_jar_and_bootstrap_libraries() {
    let vj = version_json(
        "net.fabricmc.loader.impl.launch.knot.KnotClient",
        &["net.fabricmc:fabric-loader:0.16.9"],
        None,
        true,
    );
    let library_jars = strings(&["/g/libraries/org/ow2/asm/asm/9.7/asm-9.7.jar"]);
    let cp = build_classpath("/g", &vj, "/g/versions/fab/fab.jar", &library_jars, false, ":").unwrap();
    assert_eq!(
        cp,
        "/g/versions/fab/fab.jar:/g/libraries/net/fabricmc/fabric-loader/0.16.9/fabric-loader-0.16.9.jar"
    );
}

#[test]
fn vanilla_classpath_lists_libraries_then_referenced_then_version_jar() {
    let vj = version_json("net.minecraft.client.main.Main", &[], Some("1.20.1"), false);
    let library_jars = strings(&[
        "/g/libraries/org/ow2/asm/asm/9.6/asm-9.6.jar",
        "/g/libraries/org/ow2/asm/asm/9.7/asm-9.7.jar",
    ]);
    let cp = build_classpath("/g", &vj, "/g/versions/forge/forge.jar", &library_jars, true, ";").unwrap();
    assert_eq!(
        cp,
        "/g/libraries/org/ow2/asm/asm/9.7/asm-9.7.jar;/g/versions/1.20.1/1.20.1.jar;/g/versions/forge/forge.jar"
    );
    let cp = build_classpath("/g", &vj, "/g/versions/forge/forge.jar", &library_jars, false, ";").unwrap();
    assert_eq!(cp, "/g/libraries/org/ow2/asm/asm/9.7/asm-9.7.jar;/g/versions/forge/forge.jar");
    let never_empty: Result<String, ClasspathError> = Ok(cp);
    assert!(never_empty.is_ok());
}

// ---------------------------------------------------------------- accounts

#[test]
fn added_offline_account_verifies_its_password_only() {
    let mut store = AccountStore::from_records(Vec::new());
    let name = store.add_offline("  Steve_01 ", "secret").unwrap();
    assert_eq!(name, "Steve_01");
    assert!(store.verify_offline_password("Steve_01", "secret"));
    assert!(!store.verify_offline_password("Steve_01", "Secret"));
    let current = store.current().unwrap();
    assert_eq!(current.username, "Steve_01");
    assert_eq!(current.uuid, offline_uuid("Steve_01"));
    assert_eq!(store.kind_of("Steve_01"), Some(AccountKind::Offline));
}

#[test]
fn offline_accounts_are_refused_for_each_reason() {
    let mut store = AccountStore::from_records(Vec::new());
    assert_eq!(store.add_offline("ab", "pw"), Err(AccountError::Username(UsernameError::TooShort)));
    assert_eq!(store.add_offline("Alex", ""), Err(AccountError::PasswordRequired));
    store.add_offline("Alex", "pw").unwrap();
    assert_eq!(store.add_offline("ALEX", "pw2"), Err(AccountError::Duplicate));
    assert_eq!(store.accounts.len(), 1);
}

#[test]
fn removing_the_current_account_selects_another() {
    let mut store = AccountStore::from_records(Vec::new());
    store.add_elyby("ElyUser", "0123", "tok");
    store.add_mojang("MsUser", "4567", "acc", "ref");
    assert_eq!(store.current().unwrap().username, "MsUser");
    assert!(store.remove("MsUser"));
    assert!(!store.remove("MsUser"));
    assert_eq!(store.current().unwrap().username, "ElyUser");
    assert!(store.select("ElyUser"));
    assert!(!store.select("Nobody"));
}

#[test]
fn removal_keeps_an_account_of_another_kind_with_the_same_name() {
    let mut store = AccountStore::from_records(Vec::new());
    store.add_offline("Shared", "pw").unwrap();
    store.add_elyby("Shared", "0123", "tok");
    assert_eq!(store.accounts.len(), 2);
    assert_eq!(store.kind_of("Shared"), Some(AccountKind::Offline));
    assert!(store.remove("Shared"));
    assert_eq!(store.accounts.len(), 1);
    assert_eq!(store.accounts[0].kind, AccountKind::ElyBy);
    assert_eq!(store.kind_of("Shared"), Some(AccountKind::ElyBy));
    assert!(store.remove("Shared"));
    assert!(store.accounts.is_empty());
}

#[test]
fn online_removal_needs_the_same_username_back() {
    assert!(AccountStore::relogin_confirms_removal("MsUser", "MsUser"));
    assert!(!AccountStore::relogin_confirms_removal("MsUser", "msuser"));
    assert!(!AccountStore::relogin_confirms_removal("MsUser", "Other"));
}

#[test]
fn error_messages_follow_the_language() {
    assert_eq!(InstanceError::EmptyName.message_in(Language::English), InstanceError::EmptyName.message());
    assert_eq!(InstanceError::EmptyGameDir.message_in(Language::German), "instance game directory is empty");
    assert_eq!(AccountError::Duplicate.message_in(Language::English), AccountError::Duplicate.message());
    assert_eq!(AccountError::PasswordRequired.message_in(Language::Russian), "a password is required for an offline account");
}

#[test]
fn online_login_updates_the_existing_account() {
    let mut store = AccountStore::from_records(Vec::new());
    store.add_mojang("MsUser", "4567", "old", "r1");
    store.add_mojang("MsUser", "4567", "new", "r2");
    assert_eq!(store.accounts.len(), 1);
    assert_eq!(store.accounts[0].access_token, "new");
    store.update_token("MsUser", "newer", "r3");
    assert_eq!(store.accounts[0].access_token, "newer");
    assert_eq!(store.accounts[0].refresh_token, "r3");
}

#[test]
fn legacy_accounts_are_migrated_once() {
    let mut store = AccountStore::from_records(Vec::new());
    store.add_offline("Alex", "pw").unwrap();
    let legacy = vec![
        LegacyAccount { username: "Alex".to_string(), uuid: "u1".to_string() },
        LegacyAccount { username: "Steve".to_string(), uuid: "u2".to_string() },
    ];
    let added = store.merge_legacy(&legacy, Some("Steve".to_string()));
    assert_eq!(added.len(), 1);
    assert_eq!(added[0].username, "Steve");
    assert_eq!(store.accounts.len(), 2);
    assert_eq!(store.current().unwrap().username, "Alex");
    let again = store.merge_legacy(&legacy, None);
    assert!(again.is_empty());
}

// ---------------------------------------------------------------- auth

#[test]
fn offline_uuid_matches_the_known_value() {
    assert_eq!(offline_uuid("Notch"), "b50ad385-829d-3141-a216-7e7d7539ba7f");
}

#[test]
fn ely_failures_and_replies_are_classified() {
    assert!(matches!(elyby_failure(Some(401), None, String::new()), AuthError::ElyCredentials));
    match elyby_failure(Some(500), None, String::new()) {
        AuthError::ServiceMessage(m) => assert_eq!(m, "HTTP 500 from Ely.by"),
        other => panic!("{other:?}"),
    }
    match elyby_failure(None, None, "timed out".to_string()) {
        AuthError::RequestFailed(m) => assert_eq!(m, "timed out"),
        other => panic!("{other:?}"),
    }
    let no_profile = ElyReply { selected_profile: None, access_token: "t".to_string() };
    assert!(matches!(elyby_account(no_profile), Err(AuthError::NoProfile)));
    let profile = ElyProfile { id: "id".to_string(), name: "Name".to_string() };
    let no_token = ElyReply { selected_profile: Some(profile.clone()), access_token: String::new() };
    assert!(matches!(elyby_account(no_token), Err(AuthError::NoToken)));
    let ok = elyby_account(ElyReply { selected_profile: Some(profile), access_token: "t".to_string() }).unwrap();
    assert_eq!(ok.username, "Name");
    assert_eq!(ok.kind, AccountKind::ElyBy);
}

#[test]
fn device_code_polling_outcomes() {
    let pending = TokenReply::Error { error: "slow_down".to_string(), error_description: String::new() };
    assert!(matches!(poll_outcome(pending), PollOutcome::Pending));
    let denied = TokenReply::Error { error: "expired_token".to_string(), error_description: "late".to_string() };
    match poll_outcome(denied) {
        PollOutcome::Failed(AuthError::MicrosoftLogin(e, d)) => {
            assert_eq!(e, "expired_token");
            assert_eq!(d, "late");
        }
        other => panic!("{other:?}"),
    }
    assert_eq!(poll_interval(0), 1);
    assert_eq!(poll_interval(5), 5);
    match xsts_refusal(2148916238) {
        AuthError::Xsts(why, code) => {
            assert_eq!(why, "the account is a child account");
            assert_eq!(code, 2148916238);
        }
        other => panic!("{other:?}"),
    }
}

// ---------------------------------------------------------------- instances

#[test]
fn duplicate_instance_names_get_numbered() {
    let mut store = InstanceStore::new();
    assert_eq!(store.create("  Pack ", "/games/pack").unwrap(), "Pack");
    assert_eq!(store.create("Pack", "/games/pack2").unwrap(), "Pack (1)");
    assert_eq!(store.create("Pack", "/games/pack3").unwrap(), "Pack (2)");
    assert_eq!(store.get("Pack (1)").unwrap().game_dir, "/games/pack2");
    assert_eq!(store.create("x", " "), Err(InstanceError::EmptyGameDir));
    assert_eq!(store.create(" ", "/g"), Err(InstanceError::EmptyName));
}

// ---------------------------------------------------------------- versions

fn named_row(name: &str, kind: &str) -> VersionRow {
    VersionRow {
        name: name.to_string(),
        kind: kind.to_string(),
        installed: false,
        is_latest_release: false,
        remote: None,
        loader: None,
        release_rank: None,
    }
}

#[test]
fn alphabetical_sort_is_stable_and_ignores_unicode_case() {
    let mut rows = vec![named_row("élan", "first"), named_row("b", "x"), named_row("Élan", "second")];
    sort_version_rows(&mut rows, VersionSort::Alphabetical);
    let kinds: Vec<&str> = rows.iter().map(|r| r.kind.as_str()).collect();
    assert_eq!(kinds, vec!["x", "first", "second"]);
}

// ---------------------------------------------------------------- other errors

#[test]
fn nbt_reports_each_kind_of_malformed_input() {
    assert_eq!(parse(&[10]), Err(NbtError::UnexpectedEnd));
    assert_eq!(parse(&[3, 0, 0]), Err(NbtError::RootNotCompound(3)));
    assert_eq!(parse(&[10, 0, 0, 13, 0, 0]), Err(NbtError::UnknownTag(13)));
    assert_eq!(parse(&[10, 0, 0, 7, 0, 0, 0xFF, 0xFF, 0xFF, 0xFF]), Err(NbtError::NegativeLength));
    assert_eq!(
        parse(&[10, 0, 0, 7, 0, 0, 0x00, 0x40, 0x00, 0x01]),
        Err(NbtError::ByteArrayTooLarge(4194305))
    );
    assert_eq!(parse(&[10, 0, 0, 8, 0, 0, 0, 1, 0xFF, 0]), Err(NbtError::InvalidUtf8));
}

#[test]
fn downloads_need_a_url_and_worlds_get_a_folder() {
    let file = ContentFile {
        name: "World".to_string(),
        url: "https://cdn.example/files/My%20World.ZIP".to_string(),
        file_name: String::new(),
        size: 0,
        game_versions: Vec::new(),
        loaders: Vec::new(),
    };
    let plan = plan_download("/g", ContentKind::World, &file).unwrap();
    assert_eq!(plan.file_name, "My%20World.ZIP");
    assert_eq!(plan.world_dir, Some("/g/saves/My%20World".to_string()));
    let mut no_url = file.clone();
    no_url.url = String::new();
    assert!(matches!(plan_download("/g", ContentKind::World, &no_url), Err(DownloadError::NoUrl)));
}

#[test]
fn java_and_jvm_errors() {
    assert_eq!(selected_java_major("/jdk/bin/java", Some(21)).unwrap(), 21);
    assert!(matches!(
        selected_java_major("/jdk/bin/java", None),
        Err(JavaError::ProbeFailed(p)) if p == "/jdk/bin/java"
    ));
    assert_eq!(validate_jvm_args(&[]), Err(JvmArgsError::Empty));
    assert_eq!(validate_jvm_args(&strings(&["-Xmx2G"])), Err(JvmArgsError::MissingXms));
    assert_eq!(validate_jvm_args(&strings(&["-Xms1G"])), Err(JvmArgsError::MissingXmx));
    assert_eq!(validate_jvm_args(&strings(&["-XX:+UseG1GC"])), Err(JvmArgsError::MissingBoth));
}

#[test]
fn launcher_home_and_game_dir_resolution() {
    assert_eq!(launcher_home(Some("/custom"), Some("/data")).unwrap(), "/custom");
    assert_eq!(launcher_home(Some(""), Some("/data")).unwrap(), "/data/RustLauncher");
    assert_eq!(launcher_home(None, None), Err(HomeError::NoDataDir));
    assert_eq!(resolve_game_dir("  /mc  ", Some("/d")), "/mc");
    assert_eq!(resolve_game_dir("", Some("/d")), "/d");
    assert_eq!(resolve_game_dir(" ", None), ".");
}

#[test]
fn log_files_are_numbered_after_the_highest() {
    let names = strings(&["launcher-3_2024.log", "launcher-12_2024.log", "game-40_x.log", "notes.txt"]);
    assert_eq!(next_number(&names, "launcher"), 13);
    assert_eq!(next_number(&Vec::new(), "launcher"), 1);
    assert_eq!(log_file_name("launcher", 13, "2024-01-02_03-04-05"), "launcher-13_2024-01-02_03-04-05.log");
}

// ---------------------------------------------------------------- launching

#[test]
fn lwjgl3_is_recognized_from_library_coordinates() {
    assert!(uses_lwjgl3(&strings(&["com.mojang:brigadier:1.0.18", "org.lwjgl:lwjgl-glfw:3.3.3"])));
    assert!(!uses_lwjgl3(&strings(&["org.lwjgl.lwjgl:lwjgl:2.9.4-nightly"])));
    assert!(!uses_lwjgl3(&strings(&["net.java:lwjgl:3.0"])));
}

#[test]
fn natives_are_picked_by_name() {
    assert!(is_natives_jar("lwjgl-3.3.3-natives-windows.jar"));
    assert!(!is_natives_jar("lwjgl-3.3.3.jar"));
    assert!(is_native_library("lwjgl.dll", false));
    assert!(is_native_library("linux/x64/liblwjgl.so", false));
    assert!(is_native_library("liblwjgl.dylib", false));
    assert!(!is_native_library("natives.dll", true));
    assert!(!is_native_library("META-INF/MANIFEST.MF", false));
}

#[test]
fn ram_option_becomes_the_heap_flags() {
    assert_eq!(cli_jvm_flags("4g"), "-Xms1m -Xmx4g");
    assert_eq!(cli_jvm_flags(" 4096M "), "-Xms1m -Xmx4096M");
    assert_eq!(cli_jvm_flags("2048"), "-Xms1m -Xmx2048m");
}

#[test]
fn best_compatible_java_is_the_highest_not_above_the_limit() {
    let found = vec![
        (8, "/a/java".to_string()),
        (17, "/b/java".to_string()),
        (21, "/c/java".to_string()),
        (17, "/d/java".to_string()),
    ];
    assert_eq!(best_compatible(&found, 20), Some("/b/java".to_string()));
    assert_eq!(best_compatible(&found, 21), Some("/c/java".to_string()));
    assert_eq!(best_compatible(&found, 7), None);
}

#[test]
fn java_search_roots_and_executables() {
    let roots = common_java_roots(Some("C:/Users/me/AppData/Local"));
    assert_eq!(roots.len(), 8);
    assert_eq!(roots[0], "C:/Program Files/Java");
    assert_eq!(roots[7], "C:/Users/me/AppData/Local/Programs/Java");
    assert_eq!(common_java_roots(None).len(), 6);
    assert_eq!(extra_java_roots(Some("/rt"), Some("")), strings(&["/rt"]));
    assert_eq!(extra_java_roots(None, Some("/jdk")), strings(&["/jdk"]));
    assert_eq!(
        executables_in(&strings(&["/x/bin", "/y/bin"]), "windows"),
        strings(&["/x/bin/java.exe", "/x/bin/javaw.exe", "/y/bin/java.exe", "/y/bin/javaw.exe"])
    );
    assert_eq!(executables_in(&strings(&["/x/bin"]), "linux"), strings(&["/x/bin/java"]));
}

#[test]
fn runtime_locations_and_keys() {
    assert_eq!(
        locate_runtime("C:/Java/jdk-21/bin/java.exe"),
        ("C:\\Java\\jdk-21\\bin\\java.exe".to_string(), "C:\\Java\\jdk-21".to_string())
    );
    assert_eq!(locate_runtime("java"), ("java".to_string(), "java".to_string()));
    assert_eq!(canonical_key("C:/Program Files/ÉCLIPSE"), "c:\\program files\\éclipse");
}

#[test]
fn newest_first_follows_the_manifest_order() {
    let local = vec![
        Version { name: "fabric-loader-0.16.9-1.21".to_string(), dir: String::new(), jar: String::new(), json: String::new() },
        Version { name: "1.20".to_string(), dir: String::new(), jar: String::new(), json: String::new() },
        Version { name: "my-pack".to_string(), dir: String::new(), jar: String::new(), json: String::new() },
    ];
    let mv = |id: &str| ManifestVersion {
        id: id.to_string(),
        kind: "release".to_string(),
        url: String::new(),
        release_time: String::new(),
    };
    let manifest = Manifest { latest_release: Some("1.21".to_string()), versions: vec![mv("1.21"), mv("1.20.6"), mv("1.20")] };
    let mut rows = merge_versions(&local, Some(&manifest));
    assert_eq!(rows.iter().map(|r| r.release_rank).collect::<Vec<_>>(), vec![None, Some(2), None, Some(0), Some(1)]);
    sort_version_rows(&mut rows, VersionSort::Newest);
    let names: Vec<&str> = rows.iter().map(|r| r.name.as_str()).collect();
    assert_eq!(names, vec!["1.21", "1.20.6", "1.20", "my-pack", "fabric-loader-0.16.9-1.21"]);
}

#[test]
fn merged_rows_describe_each_version_once() {
    let local = vec![
        Version { name: "1.20".to_string(), dir: String::new(), jar: String::new(), json: String::new() },
        Version { name: "fabric-loader-0.16.9-1.21".to_string(), dir: String::new(), jar: String::new(), json: String::new() },
    ];
    let mv = |id: &str, kind: &str| ManifestVersion {
        id: id.to_string(),
        kind: kind.to_string(),
        url: String::new(),
        release_time: String::new(),
    };
    let manifest = Manifest {
        latest_release: Some("1.21".to_string()),
        versions: vec![mv("24w14a", "snapshot"), mv("1.21", "release"), mv("1.20", "release")],
    };
    let rows = merge_versions(&local, Some(&manifest));
    let names: Vec<&str> = rows.iter().map(|r| r.name.as_str()).collect();
    assert_eq!(names, vec!["1.20", "fabric-loader-0.16.9-1.21", "24w14a", "1.21"]);
    let kinds: Vec<&str> = rows.iter().map(|r| r.kind.as_str()).collect();
    assert_eq!(kinds, vec!["release", "loader", "snapshot", "release"]);
    let installed: Vec<bool> = rows.iter().map(|r| r.installed).collect();
    assert_eq!(installed, vec![true, true, false, false]);
    let latest: Vec<bool> = rows.iter().map(|r| r.is_latest_release).collect();
    assert_eq!(latest, vec![false, false, false, true]);
    assert!(rows[1].remote.is_none());
    assert_eq!(rows[0].remote.as_ref().unwrap().id, "1.20");
}

#[test]
fn module_flags_count_and_never_repeat() {
    assert_eq!(module_access_flags(8).len(), 0);
    assert_eq!(module_access_flags(17).len(), 8);
    assert_eq!(module_access_flags(22).len(), 9);
    assert_eq!(module_access_flags(26).len(), 10);
    let flags = module_access_flags(26);
    let distinct: std::collections::HashSet<&String> = flags.iter().collect();
    assert_eq!(distinct.len(), flags.len());
}

#[test]
fn category_chips_never_repeat_or_name_a_loader() {
    let kinds = [
        ContentKind::Mod,
        ContentKind::ResourcePack,
        ContentKind::DataPack,
        ContentKind::Shader,
        ContentKind::Plugin,
        ContentKind::Modpack,
        ContentKind::Server,
        ContentKind::World,
    ];
    for kind in kinds {
        let chips = categories_for(kind);
        let distinct: std::collections::HashSet<&&str> = chips.iter().collect();
        assert_eq!(distinct.len(), chips.len());
        for loader in ["fabric", "forge", "quilt", "neoforge"] {
            assert!(!chips.contains(&loader));
        }
    }
    assert!(categories_for(ContentKind::World).is_empty());
    assert!(categories_for(ContentKind::Server).is_empty());
}

#[test]
fn every_translated_key_differs_in_other_languages() {
    let keys = ["Save settings", "Cancel", "Confirm", "Launch", "Download", "Delete", "Refresh", "Settings", "Accounts", "Language"];
    for lang in Language::all() {
        for key in keys {
            let t = tr(lang, key);
            if lang == Language::English {
                assert_eq!(t, key);
            } else {
                assert!(!t.is_empty());
                assert_ne!(t, key);
            }
        }
    }
}

#[test]
fn configured_java_decides_alone() {
    let others = |is_file: bool| JavaCandidates {
        configured_is_file: is_file,
        bundled: Some("/bundled/java".to_string()),
        compatible: Some("/jdk21/bin/java".to_string()),
        on_path: Some("java".to_string()),
    };
    assert_eq!(select_java(Some("/my/java"), Some(21), others(true)).unwrap(), "/my/java");
    match select_java(Some("/my/java"), Some(21), others(false)) {
        Err(JavaError::ConfiguredMissing(p)) => assert_eq!(p, "/my/java"),
        _ => panic!("a missing configured path must be refused"),
    }
    assert_eq!(select_java(Some("   "), Some(21), others(false)).unwrap(), "/bundled/java");
}

#[test]
fn failed_checks_always_explain_themselves() {
    for lang in Language::all() {
        let missing: Result<String, JavaError> = Err(JavaError::ConfiguredMissing(String::new()));
        assert!(!selected_java_check(lang, &missing, &None).detail.is_empty());
        let unprobed: Result<String, JavaError> = Ok(String::new());
        assert!(!selected_java_check(lang, &unprobed, &None).detail.is_empty());
        let empty: Result<Vec<String>, String> = Ok(Vec::new());
        let r = dns_check("example.org", lang, &empty);
        assert!(!r.ok);
        assert!(!r.detail.is_empty());
        assert_eq!(r.name, "DNS example.org");
    }
}

#[test]
fn offline_account_takes_the_given_hash() {
    let mut store = AccountStore::from_records(Vec::new());
    let hash: Result<String, HashError> = Ok("$argon2id$stored".to_string());
    assert_eq!(store.add_offline_hashed("  Rizer001 ", "hunter2", hash), Ok("Rizer001".to_string()));
    assert_eq!(store.accounts.len(), 1);
    assert_eq!(store.accounts[0].password_hash, "$argon2id$stored");
    assert_eq!(store.accounts[0].uuid, offline_uuid("Rizer001"));
    assert_eq!(store.current().unwrap().username, "Rizer001");
    let again: Result<String, HashError> = Ok("x".to_string());
    assert_eq!(store.add_offline_hashed("rizer001", "pw", again), Err(AccountError::Duplicate));
    let failed: Result<String, HashError> = Err(HashError::Failed);
    assert_eq!(store.add_offline_hashed("Steve", "pw", failed), Err(AccountError::HashFailed));
    let unused: Result<String, HashError> = Ok("y".to_string());
    assert_eq!(store.add_offline_hashed("Steve", "", unused), Err(AccountError::PasswordRequired));
    assert_eq!(store.accounts.len(), 1);
}

fn runtime(path: &str, major: u32) -> InstalledJava {
    InstalledJava {
        path: path.to_string(),
        home: String::new(),
        major,
        version: major.to_string(),
        vendor: String::new(),
    }
}

#[test]
fn inventory_lists_each_home_once() {
    let found = vec![
        runtime("C:/jdk17/bin/java.exe", 17),
        runtime("C:/jdk21/bin/java.exe", 21),
        runtime("C:/jdk17/jre/bin/java.exe", 17),
        runtime("C:/JDK17/bin/java.exe", 17),
        runtime("D:/other/bin/java.exe", 8),
    ];
    let keys = vec![
        Some("c:\\jdk17".to_string()),
        Some("c:\\jdk21".to_string()),
        Some("c:\\jdk17\\jre".to_string()),
        Some("c:\\jdk17".to_string()),
        None,
    ];
    let inventory = finish_inventory(found, &keys);
    let paths: Vec<&str> = inventory.iter().map(|j| j.path.as_str()).collect();
    assert_eq!(paths, vec!["C:/jdk21/bin/java.exe", "C:/jdk17/bin/java.exe", "D:/other/bin/java.exe"]);
}
