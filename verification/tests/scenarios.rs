use std::path::Path;

use rustlauncher::accounts::{AccountStore, LegacyAccount};
use rustlauncher::classpath::{collect_jars, deduplicate_artifacts, remove_conflicting_lwjgl};
use rustlauncher::content::{content_files, ModrinthFile, ModrinthVersion};
use rustlauncher::diagnostics::{game_dir_check, platform_check, tcp_check, GameDirProbe, TcpOutcome};
use rustlauncher::lang::Language;
use rustlauncher::logs::{log_file_name, next_number, session_footer};

const LIBS: &str = "/tmp/rl-cp/libraries";

/// The library jars of a small game directory, in the order a directory
/// walk may list them.
fn library_jars() -> Vec<String> {
    [
        "org/lwjgl/lwjgl/lwjgl/2.9.1/lwjgl-2.9.1.jar",
        "com/google/gson/gson/2.11.0/gson-2.11.0.jar",
        "org/ow2/asm/asm/9.6/asm-9.6.jar",
        "com/google/gson/gson/2.10.1/gson-2.10.1.jar",
        "org/lwjgl/lwjgl/lwjgl/3.3.1/lwjgl-3.3.1.jar",
        "org/ow2/asm/asm/6.2/asm-6.2.jar",
    ]
    .iter()
    .map(|p| format!("{LIBS}/{p}"))
    .collect()
}

fn file_names(jars: &[String]) -> Vec<String> {
    jars.iter()
        .map(|p| Path::new(p).file_name().unwrap().to_string_lossy().to_string())
        .collect()
}

#[test]
fn collects_jars_recursively_and_sorted() {
    let jars = collect_jars(library_jars());
    assert_eq!(jars.len(), 6);
    let mut paths = jars.clone();
    paths.sort_by(|a, b| Path::new(a).cmp(Path::new(b)));
    assert_eq!(jars, paths, "collect_jars must return sorted paths");
}

#[test]
fn dedup_keeps_newest_artifact_version() {
    let mut jars = collect_jars(library_jars());
    deduplicate_artifacts(&mut jars, LIBS);
    let names = file_names(&jars);
    assert!(names.contains(&"gson-2.11.0.jar".to_string()));
    assert!(!names.contains(&"gson-2.10.1.jar".to_string()));
    assert!(names.contains(&"asm-9.6.jar".to_string()));
    assert!(!names.contains(&"asm-6.2.jar".to_string()));
}

#[test]
fn dedup_gson_skips_too_new() {
    let mut jars = collect_jars(vec![
        format!("{LIBS}/com/google/gson/gson/2.10.1/gson-2.10.1.jar"),
        format!("{LIBS}/com/google/gson/gson/2.14.0/gson-2.14.0.jar"),
    ]);
    deduplicate_artifacts(&mut jars, LIBS);
    let names = file_names(&jars);
    assert!(names.contains(&"gson-2.10.1.jar".to_string()));
    assert!(!names.contains(&"gson-2.14.0.jar".to_string()));
}

#[test]
fn lwjgl_conflicts_removed_keeping_newest() {
    let mut jars = collect_jars(library_jars());
    remove_conflicting_lwjgl(&mut jars, LIBS);
    let names = file_names(&jars);
    assert!(names.contains(&"lwjgl-3.3.1.jar".to_string()));
    assert!(!names.contains(&"lwjgl-2.9.1.jar".to_string()));
}

#[test]
fn offline_add_requires_password_and_validates_name() {
    let mut store = AccountStore::from_records(Vec::new());
    assert!(store.add_offline("Rizer001", "").is_err());
    assert!(store.add_offline("ab", "pw").is_err());
    let name = store.add_offline("Rizer001", "hunter2").unwrap();
    assert_eq!(name, "Rizer001");
    assert!(store.verify_offline_password("Rizer001", "hunter2"));
    assert!(!store.verify_offline_password("Rizer001", "wrong"));
    assert!(store.add_offline("rizer001", "x").is_err());
}

#[test]
fn remove_offline_after_password_and_fallback() {
    let mut store = AccountStore::from_records(Vec::new());
    store.add_offline("alpha", "pw1").unwrap();
    store.add_offline("beta", "pw2").unwrap();
    store.select("beta");
    assert!(!store.verify_offline_password("beta", "nope"));
    assert!(store.verify_offline_password("beta", "pw2"));
    assert!(store.remove("beta"));
    assert!(!store.remove("beta"));
    assert_eq!(store.current.as_deref(), Some("alpha"));
}

#[test]
fn online_upsert_refreshes_token() {
    let mut store = AccountStore::from_records(Vec::new());
    store.add_elyby("Steve", "uuid-1", "tok-1");
    store.add_elyby("Steve", "uuid-1", "tok-2");
    assert_eq!(store.accounts.len(), 1);
    assert_eq!(store.accounts[0].access_token, "tok-2");
    store.add_mojang("Alex", "uuid-2", "mt-1", "rt-1");
    store.update_token("Alex", "mt-2", "rt-2");
    let alex = store.accounts.iter().find(|a| a.username == "Alex").unwrap();
    assert_eq!(alex.access_token, "mt-2");
    assert_eq!(alex.refresh_token, "rt-2");
    assert_eq!(store.accounts.len(), 2);
}

#[test]
fn legacy_json_is_migrated() {
    let body = r#"{"accounts":[{"username":"OldGuy","uuid":"abc"},{"username":"Skip","uuid":"s"}],"current":"OldGuy"}"#;
    let json: serde_json::Value = serde_json::from_str(body).unwrap();
    let legacy: Vec<LegacyAccount> = json["accounts"]
        .as_array()
        .unwrap()
        .iter()
        .map(|a| LegacyAccount {
            username: a["username"].as_str().unwrap().to_string(),
            uuid: a["uuid"].as_str().unwrap().to_string(),
        })
        .collect();
    let current = json["current"].as_str().map(str::to_string);
    let mut store = AccountStore::from_records(Vec::new());
    let added = store.merge_legacy(&legacy, current);
    assert_eq!(added.len(), 2);
    assert!(store.accounts.iter().any(|a| a.username == "Skip" && a.password_hash.is_empty()));
    assert!(store.accounts.iter().any(|a| a.username == "OldGuy" && a.password_hash.is_empty()));
    assert_eq!(store.current.as_deref(), Some("OldGuy"));
}

#[test]
fn modrinth_versions_parse_and_prefer_primary_file() {
    let body = r#"[
        {"name":"JEI 1.21.4","version_number":"19.21.4","game_versions":["1.21.4"],
         "loaders":["fabric","quilt"],
         "files":[
            {"url":"https://cdn/x.jar","filename":"secondary.jar","size":1,"primary":false},
            {"url":"https://cdn/y.jar","filename":"primary.jar","size":2,"primary":true}
         ]}
    ]"#;
    let parsed: serde_json::Value = serde_json::from_str(body).unwrap();
    let strings = |v: &serde_json::Value| -> Vec<String> {
        v.as_array().unwrap().iter().map(|s| s.as_str().unwrap().to_string()).collect()
    };
    let versions: Vec<ModrinthVersion> = parsed
        .as_array()
        .unwrap()
        .iter()
        .map(|v| ModrinthVersion {
            name: v["name"].as_str().unwrap().to_string(),
            version_number: v["version_number"].as_str().unwrap().to_string(),
            game_versions: strings(&v["game_versions"]),
            loaders: strings(&v["loaders"]),
            files: v["files"]
                .as_array()
                .unwrap()
                .iter()
                .map(|f| ModrinthFile {
                    url: f["url"].as_str().unwrap().to_string(),
                    filename: f["filename"].as_str().unwrap().to_string(),
                    size: f["size"].as_u64().unwrap(),
                    primary: f["primary"].as_bool().unwrap(),
                })
                .collect(),
        })
        .collect();
    let files = content_files(&versions);
    assert_eq!(files.len(), 1);
    assert_eq!(files[0].file_name, "primary.jar");
    assert_eq!(files[0].loaders.len(), 2);
}

#[test]
fn numbers_increase_and_lines_are_written() {
    let first = next_number(&Vec::new(), "game");
    let name1 = log_file_name("game", first, "2024-01-01_10-00-00");
    let second = next_number(&vec![name1.clone()], "game");
    let name2 = log_file_name("game", second, "2024-01-01_10-00-05");
    assert!(name1.starts_with("game-1_"), "{name1}");
    assert!(name2.starts_with("game-2_"), "{name2}");
    assert_ne!(name1, name2);
    assert!(session_footer("2024-01-01 10:05:00").contains("Log closed"));
}

#[test]
fn prefixes_are_counted_independently() {
    let existing = vec![log_file_name("game", 1, "2024-01-01_10-00-00")];
    let launcher = log_file_name("launcher", next_number(&existing, "launcher"), "2024-01-01_10-00-01");
    assert!(existing[0].starts_with("game-1_"));
    assert!(launcher.starts_with("launcher-1_"));
}

#[test]
fn platform_check_reports_os_and_version() {
    let r = platform_check(Language::English, "windows", "x86_64", 8, "0.1.0");
    assert!(r.ok);
    assert!(r.detail.contains("windows"), "{}", r.detail);
    assert!(r.detail.contains("RustLauncher"), "{}", r.detail);
}

#[test]
fn game_dir_check_accepts_writable_dir() {
    let writable = GameDirProbe { is_dir: true, write_error: None };
    let r = game_dir_check("/tmp/rl-diag", Language::English, &writable);
    assert!(r.ok, "{}", r.detail);
}

#[test]
fn tcp_check_reports_latency_for_local_listener() {
    let outcome = TcpOutcome::Connected { address: "127.0.0.1:45678".to_string(), latency_ms: 0 };
    let r = tcp_check("127.0.0.1:45678", Language::English, &outcome);
    assert!(r.ok, "{}", r.detail);
    assert!(r.detail.contains("ms"), "{}", r.detail);
}
