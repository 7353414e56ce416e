use std::cmp::Ordering;

use rustlauncher::auth::{login_offline, offline_uuid, validate_username};
use rustlauncher::classpath::compare_versions;
use rustlauncher::content::{urlquery, ContentKind, SortIndex};
use rustlauncher::db::{hash_password, verify_password};
use rustlauncher::diagnostics::{
    dns_check, game_dir_check, report_text, selected_java_check, tcp_check, CheckResult,
    GameDirProbe, TcpOutcome,
};
use rustlauncher::fonts::{cjk_candidates, is_font_bytes};
use rustlauncher::icons::all_icons;
use rustlauncher::instances::InstanceStore;
use rustlauncher::java_download::{
    corretto_latest_url, editions, find_edition, graal_download_url, graal_version_from_tag,
    list_majors, microsoft_latest_url, runtime_dest, temurin_download_url, temurin_label,
    zulu_download_url, zulu_version_from_name, GraalAsset, GraalRelease, TemurinBinary,
    TemurinRelease, VersionData, ZuluPackage,
};
use rustlauncher::java_locator::{
    parse_java_full_version, parse_java_major_version, select_java, vendor_from_path,
    InstalledJava, JavaCandidates,
};
use rustlauncher::jvm::{find_preset, is_heap_flag, presets, validate_jvm_args, DEFAULT_JVM_ARGS};
use rustlauncher::lang::{tr, tr_fmt, Language};
use rustlauncher::launcher::{filter_custom_java_args, module_access_flags, split_server_address};

// ---------------------------------------------------------------- auth

#[test]
fn accepts_valid_usernames() {
    assert_eq!(validate_username("Rizer001").unwrap(), "Rizer001");
    assert_eq!(validate_username("  abc  ").unwrap(), "abc");
    assert_eq!(validate_username("a_b_123").unwrap(), "a_b_123");
}

#[test]
fn rejects_invalid_usernames() {
    assert!(validate_username("ab").is_err());
    assert!(validate_username("averyveryverylongname").is_err());
    assert!(validate_username("bad name").is_err());
    assert!(validate_username("bad-д name").is_err());
    assert!(validate_username("").is_err());
}

#[test]
fn offline_uuid_is_deterministic_and_well_formed() {
    let a = offline_uuid("Notch");
    let b = offline_uuid("Notch");
    assert_eq!(a, b);
    assert_eq!(a.len(), 36);
    assert_eq!(a.chars().filter(|c| *c == '-').count(), 4);
    let hex: String = a.chars().filter(|c| *c != '-').collect();
    assert!(hex.starts_with(|_| true));
    let version_nibble = hex.chars().nth(12).unwrap().to_digit(16).unwrap();
    assert_eq!(version_nibble, 3);
    assert_ne!(a, offline_uuid("Dinnerbone"));
}

#[test]
fn login_offline_roundtrip() {
    let account = login_offline("Rizer001").unwrap();
    assert_eq!(account.username, "Rizer001");
    assert_eq!(account.uuid, offline_uuid("Rizer001"));
    assert!(login_offline("x").is_err());
}

// ---------------------------------------------------------------- db

#[test]
fn hash_and_verify_roundtrip() {
    let hash = hash_password("hunter2").unwrap();
    assert!(hash.starts_with("$argon2id$"));
    assert!(verify_password("hunter2", &hash));
    assert!(!verify_password("hunter3", &hash));
}

#[test]
fn verify_rejects_garbage_hash() {
    assert!(!verify_password("x", ""));
    assert!(!verify_password("x", "not-a-hash"));
}

// ---------------------------------------------------------------- classpath

#[test]
fn version_compare_handles_numeric_and_legacy() {
    assert_eq!(compare_versions("2.10.1", "2.9.4"), Ordering::Greater);
    assert_eq!(compare_versions("1.7.10", "1.7.2"), Ordering::Greater);
    assert_eq!(compare_versions("3.3.1", "3.3.1"), Ordering::Equal);
    assert_eq!(compare_versions("2.8.9", "2.10.0"), Ordering::Less);
}

// ---------------------------------------------------------------- content

#[test]
fn urlquery_encodes_specials() {
    assert_eq!(urlquery("jei"), "jei");
    assert_eq!(urlquery("sodium extra"), "sodium%20extra");
    assert_eq!(urlquery("a+b&c"), "a%2Bb%26c");
    assert_eq!(urlquery("1.20.1"), "1.20.1");
}

#[test]
fn modrinth_search_url_shapes() {
    assert_eq!(ContentKind::Mod.modrinth_type(), "mod");
    assert_eq!(ContentKind::ResourcePack.modrinth_type(), "resourcepack");
    assert_eq!(ContentKind::Shader.modrinth_type(), "shader");
    assert_eq!(ContentKind::World.modrinth_type(), "world");
}

#[test]
fn dest_dirs_match_vanilla_layout() {
    assert_eq!(ContentKind::Mod.dest_dir(), "mods");
    assert_eq!(ContentKind::ResourcePack.dest_dir(), "resourcepacks");
    assert_eq!(ContentKind::World.dest_dir(), "saves");
    assert!(ContentKind::DataPack.goes_to_downloads());
    assert!(ContentKind::Shader.goes_to_downloads());
    assert!(ContentKind::Plugin.goes_to_downloads());
    assert!(ContentKind::Server.goes_to_downloads());
    assert!(!ContentKind::Mod.goes_to_downloads());
    assert!(!ContentKind::ResourcePack.goes_to_downloads());
}

#[test]
fn sort_index_covers_all_five_modrinth_orders() {
    assert_eq!(SortIndex::default(), SortIndex::Relevance);
    let params: Vec<&str> = [
        SortIndex::Relevance,
        SortIndex::Downloads,
        SortIndex::Follows,
        SortIndex::Newest,
        SortIndex::Updated,
    ]
    .iter()
    .map(|s| s.param())
    .collect();
    assert_eq!(params, vec!["relevance", "downloads", "follows", "newest", "updated"]);
}

// ---------------------------------------------------------------- diagnostics

#[test]
fn dns_check_reports_localhost() {
    // What resolving `localhost` gives.
    let resolved: Result<Vec<String>, String> = Ok(vec!["127.0.0.1".to_string(), "::1".to_string()]);
    let r = dns_check("localhost", Language::English, &resolved);
    assert!(r.ok, "{}: {}", r.name, r.detail);
}

#[test]
fn dns_check_reports_bad_host_gracefully() {
    // What resolving an `.invalid` host gives.
    let resolved: Result<Vec<String>, String> =
        Err("failed to lookup address information: Name or service not known".to_string());
    let r = dns_check("no.such.host.invalid", Language::English, &resolved);
    assert!(!r.ok);
    assert!(!r.detail.is_empty());
}

#[test]
fn tcp_check_reports_bad_host_gracefully() {
    // What resolving an `.invalid` host gives.
    let outcome = TcpOutcome::DnsFailed(
        "failed to lookup address information: Name or service not known".to_string(),
    );
    let r = tcp_check("no.such.host.invalid:12345", Language::English, &outcome);
    assert!(!r.ok);
    assert!(!r.detail.is_empty());
}

#[test]
fn game_dir_check_flags_unconfigured_and_missing() {
    let missing = GameDirProbe { is_dir: false, write_error: None };
    let r = game_dir_check("", Language::English, &missing);
    assert!(!r.ok);
    let r = game_dir_check("   ", Language::English, &missing);
    assert!(!r.ok);
    let r = game_dir_check("Z:/definitely/missing/dir", Language::English, &missing);
    assert!(!r.ok, "{}", r.detail);
    assert!(!r.detail.is_empty());
}

#[test]
fn selected_java_check_reports_bogus_path() {
    let candidates = JavaCandidates {
        configured_is_file: false,
        bundled: None,
        compatible: None,
        on_path: None,
    };
    let selection = select_java(Some("Z:/no/such/java.exe"), None, candidates);
    let r = selected_java_check(Language::English, &selection, &None);
    assert!(!r.ok);
    assert!(!r.detail.is_empty());
}

#[test]
fn report_text_summarizes_passes_and_failures() {
    let results = vec![
        CheckResult { name: "A".into(), ok: true, detail: "fine".into() },
        CheckResult { name: "B".into(), ok: false, detail: "boom".into() },
    ];
    let text = report_text(&results);
    assert!(text.contains("1/2 passed"), "{text}");
    assert!(text.contains("[ OK ] A"), "{text}");
    assert!(text.contains("[FAIL] B"), "{text}");
}

// ---------------------------------------------------------------- fonts / icons

#[test]
fn candidates_are_declared_for_every_platform() {
    for os in ["windows", "macos", "linux"] {
        assert!(!cjk_candidates(os).is_empty());
    }
}

#[test]
fn font_signature_detection() {
    assert!(is_font_bytes(&[0x00, 0x01, 0x00, 0x00, 0x00]));
    assert!(is_font_bytes(b"OTTO...."));
    assert!(is_font_bytes(b"ttcf...."));
    assert!(!is_font_bytes(b"not a font"));
    assert!(!is_font_bytes(&[]));
    assert!(!is_font_bytes(&[0x00, 0x01]));
}

#[test]
fn icon_constants_are_single_codepoints() {
    for icon in all_icons() {
        assert_eq!(icon.chars().count(), 1, "icon constant {icon:?}");
    }
}

// ---------------------------------------------------------------- instances

#[test]
fn create_get_delete_lifecycle() {
    let mut store = InstanceStore::new();
    let name = store.create("My Pack", "C:/Games/MyPack").unwrap();
    assert_eq!(name, "My Pack");
    assert_eq!(store.get("My Pack").map(|i| i.game_dir.as_str()), Some("C:/Games/MyPack"));
    let dup = store.create("My Pack", "C:/Games/Other").unwrap();
    assert_eq!(dup, "My Pack (1)");
    assert!(store.delete("My Pack"));
    assert!(!store.delete("My Pack"));
    assert!(store.get("My Pack (1)").is_some());
}

#[test]
fn rejects_empty_name_and_dir() {
    let mut store = InstanceStore::new();
    assert!(store.create("", "C:/x").is_err());
    assert!(store.create("X", "  ").is_err());
}

// ---------------------------------------------------------------- java_download

#[test]
fn editions_are_unique_and_labeled() {
    let all = editions();
    let mut ids: Vec<&str> = all.iter().map(|e| e.id).collect();
    ids.sort_unstable();
    ids.dedup();
    assert_eq!(ids.len(), all.len());
    assert!(all.iter().all(|e| !e.label.is_empty()));
    assert!(find_edition("temurin").is_some());
    assert!(find_edition("nope").is_none());
}

#[test]
fn majors_span_8_to_26_newest_first() {
    let majors = list_majors();
    assert_eq!(majors.len(), 19);
    assert_eq!(majors[0], 26);
    assert_eq!(*majors.last().unwrap(), 8);
}

#[test]
fn temurin_labels_match_version_data() {
    let v = VersionData { major: Some(21), minor: Some(0), security: Some(5), build: Some(11) };
    assert_eq!(temurin_label(&v).as_deref(), Some("21.0.5+11"));
    let legacy = VersionData { major: Some(8), minor: Some(0), security: Some(412), build: Some(8) };
    assert_eq!(temurin_label(&legacy).as_deref(), Some("8.0.412+8"));
    let null = VersionData { major: None, minor: None, security: None, build: None };
    assert_eq!(temurin_label(&null), None);
}

#[test]
fn zulu_names_yield_version_tokens() {
    assert_eq!(
        zulu_version_from_name("zulu21.40.17-ca-jdk21.0.5-win_x64.zip").as_deref(),
        Some("21.0.5")
    );
    assert_eq!(
        zulu_version_from_name("zulu17.54.21-ca-fx-jdk17.0.11-win_x64.zip").as_deref(),
        Some("17.0.11")
    );
    assert_eq!(
        zulu_version_from_name("zulu8.78.0.19-ca-jdk8.0.412-win_x64.zip").as_deref(),
        Some("8.0.412")
    );
    assert_eq!(zulu_version_from_name("readme.txt"), None);
}

#[test]
fn graal_tags_yield_version_tokens() {
    assert_eq!(graal_version_from_tag("jdk-21.0.2").as_deref(), Some("21.0.2"));
    assert_eq!(graal_version_from_tag("jdk-25").as_deref(), Some("25"));
    assert_eq!(graal_version_from_tag("vm-21.0.2"), None);
    assert_eq!(graal_version_from_tag("jdk-"), None);
}

#[test]
fn latest_urls_follow_vendor_patterns() {
    assert_eq!(
        corretto_latest_url(21, "windows", "x64").unwrap(),
        "https://corretto.aws/downloads/latest/amazon-corretto-21-windows-x64-jdk.zip"
    );
    assert_eq!(
        microsoft_latest_url(21, "windows", "x64").unwrap(),
        "https://aka.ms/download-jdk/microsoft-jdk-21-windows-x64.zip"
    );
    assert!(corretto_latest_url(21, "linux", "x64").is_err());
    assert!(microsoft_latest_url(21, "macos", "x64").is_err());
}

fn binary(os: &str, arch: &str, link: &str) -> TemurinBinary {
    TemurinBinary {
        os: Some(os.into()),
        architecture: Some(arch.into()),
        image_type: Some("jdk".into()),
        link: Some(link.into()),
    }
}

#[test]
fn temurin_download_url_picks_the_windows_package() {
    let release = TemurinRelease {
        version_data: Some(VersionData { major: Some(21), minor: Some(0), security: Some(5), build: Some(11) }),
        binaries: Some(vec![
            binary("linux", "x64", "https://example.com/linux.zip"),
            binary("windows", "x64", "https://example.com/win.zip"),
            binary("windows", "x86", "https://example.com/win32.zip"),
        ]),
    };
    assert_eq!(
        temurin_download_url(&release, "windows", "x64").as_deref(),
        Some("https://example.com/win.zip")
    );
}

#[test]
fn zulu_download_url_matches_the_version() {
    let packages = vec![
        ZuluPackage {
            name: Some("zulu21.40.17-ca-jdk21.0.5-win_x64.zip".into()),
            url: Some("https://cdn.azul.com/zulu/bin/zulu21.40.17-ca-jdk21.0.5-win_x64.zip".into()),
        },
        ZuluPackage {
            name: Some("zulu21.40.15-ca-jdk21.0.4-win_x64.zip".into()),
            url: Some("https://cdn.azul.com/zulu/bin/zulu21.40.15-ca-jdk21.0.4-win_x64.zip".into()),
        },
    ];
    assert_eq!(
        zulu_download_url(&packages, "21.0.4").as_deref(),
        Some("https://cdn.azul.com/zulu/bin/zulu21.40.15-ca-jdk21.0.4-win_x64.zip")
    );
    assert_eq!(zulu_download_url(&packages, "9.9.9"), None);
}

#[test]
fn graal_download_url_matches_os_and_arch() {
    let releases = vec![GraalRelease {
        tag_name: Some("jdk-21.0.2".into()),
        assets: vec![
            GraalAsset {
                name: Some("graalvm-jdk-21_linux-x64_bin.zip".into()),
                browser_download_url: Some("https://github.com/x/graalvm-jdk-21_linux-x64_bin.zip".into()),
            },
            GraalAsset {
                name: Some("graalvm-jdk-21_windows-x64_bin.zip".into()),
                browser_download_url: Some("https://github.com/x/graalvm-jdk-21_windows-x64_bin.zip".into()),
            },
        ],
    }];
    assert_eq!(
        graal_download_url(&releases, "21.0.2", "x64").as_deref(),
        Some("https://github.com/x/graalvm-jdk-21_windows-x64_bin.zip")
    );
    assert_eq!(graal_download_url(&releases, "20.0.0", "x64"), None);
}

#[test]
fn dest_names_are_filesystem_safe() {
    assert!(runtime_dest("runtimes", "temurin", "21.0.5+11").ends_with("/temurin-21.0.5+11"));
    assert!(runtime_dest("runtimes", "zulu", "a/b:c").ends_with("/zulu-a_b_c"));
}

// ---------------------------------------------------------------- java_locator

#[test]
fn parses_modern_java_version_output() {
    let out = "openjdk version \"26.0.1\" 2025-04-15\nOpenJDK Runtime Environment";
    assert_eq!(parse_java_major_version(out), Some(26));
}

#[test]
fn parses_legacy_1_8_format() {
    let out = "java version \"1.8.0_402\"\nJava(TM) SE Runtime Environment";
    assert_eq!(parse_java_major_version(out), Some(8));
}

#[test]
fn parses_graal_and_other_prefixes() {
    assert_eq!(parse_java_major_version("openjdk version \"21.0.2\" 2024-01-16"), Some(21));
    assert_eq!(parse_java_major_version("no version here"), None);
    assert_eq!(parse_java_major_version(""), None);
}

#[test]
fn select_java_fails_when_configured_path_missing() {
    let candidates = JavaCandidates {
        configured_is_file: false,
        bundled: None,
        compatible: None,
        on_path: None,
    };
    let err = select_java(Some("Z:/definitely/not/real/java.exe"), None, candidates).unwrap_err();
    assert!(err.message(Language::English).contains("does not exist"));
}

#[test]
fn parses_full_version_token() {
    let out = "openjdk version \"21.0.5\" 2024-10-15\nOpenJDK Runtime Environment";
    assert_eq!(parse_java_full_version(out).as_deref(), Some("21.0.5"));
    let out = "java version \"1.8.0_402\"\nJava(TM) SE Runtime Environment";
    assert_eq!(parse_java_full_version(out).as_deref(), Some("1.8.0_402"));
    assert_eq!(parse_java_full_version("garbage"), None);
}

#[test]
fn vendor_labels_from_paths() {
    let f = |p: &str| vendor_from_path(p);
    assert_eq!(f("C:/Program Files/Eclipse Adoptium/jdk-21.0.5+11-hotspot"), "Temurin");
    assert_eq!(f("C:/Program Files/Zulu/zulu-21"), "Zulu");
    assert_eq!(f("C:/Program Files/Amazon Corretto/jdk21.0.5_11"), "Corretto");
    assert_eq!(f("C:/Program Files/Microsoft/jdk-21.0.5+11"), "Microsoft");
    assert_eq!(f("C:/Program Files/Java/jdk-17"), "Oracle");
    assert_eq!(f("C:/Program Files/Java/jdk1.8.0_402"), "Oracle");
    assert_eq!(f("C:/home/runtimes/Temurin-21.0.5+11"), "Temurin");
    assert_eq!(f("C:/somewhere/plain-jdk"), "Java");
}

#[test]
fn labels_combine_vendor_and_version() {
    let j = InstalledJava {
        path: "C:/x/bin/java.exe".into(),
        home: "C:/x".into(),
        major: 21,
        version: "21.0.5".into(),
        vendor: "Temurin".into(),
    };
    assert_eq!(j.label(), "Temurin 21.0.5");
}

// ---------------------------------------------------------------- jvm

fn split(s: &str) -> Vec<String> {
    s.split_whitespace().map(String::from).collect()
}

#[test]
fn default_flags_are_valid_and_minimal() {
    let parsed = split(DEFAULT_JVM_ARGS);
    validate_jvm_args(&parsed).unwrap();
    assert_eq!(parsed.len(), 2);
}

#[test]
fn every_preset_has_both_heap_flags_and_is_sorted() {
    for preset in presets() {
        let parsed = split(preset.args);
        validate_jvm_args(&parsed)
            .unwrap_or_else(|e| panic!("preset {} invalid: {}", preset.id, e.message()));
        let heaps: Vec<&String> = parsed.iter().filter(|a| is_heap_flag(a)).collect();
        assert_eq!(heaps.len(), 2, "preset {} must have exactly -Xms and -Xmx", preset.id);
    }
    assert_eq!(find_preset("minimal").unwrap().args, DEFAULT_JVM_ARGS);
}

#[test]
fn gc_presets_use_their_collectors() {
    assert!(find_preset("g1gc").unwrap().args.contains("+UseG1GC"));
    assert!(find_preset("shenandoah").unwrap().args.contains("+UseShenandoahGC"));
    assert!(find_preset("zgc").unwrap().args.contains("+UseZGC"));
    assert!(find_preset("parallel").unwrap().args.contains("+UseParallelGC"));
}

#[test]
fn validation_rejects_missing_heap_flags() {
    assert!(validate_jvm_args(&split("")).is_err());
    assert!(validate_jvm_args(&split("-XX:+UseG1GC")).is_err());
    assert!(validate_jvm_args(&split("-Xmx4g")).is_err());
    assert!(validate_jvm_args(&split("-Xms1m")).is_err());
    assert!(validate_jvm_args(&split("-XMS1m -XMX4g")).is_ok());
    assert!(validate_jvm_args(&split("-Xms1m -Xmx4g -XX:+UseZGC")).is_ok());
}

// ---------------------------------------------------------------- lang

#[test]
fn english_is_identity_and_fallback() {
    assert_eq!(tr(Language::English, "Save settings"), "Save settings");
    for lang in Language::all() {
        assert_eq!(tr(lang, "some key that does not exist"), "some key that does not exist");
    }
}

#[test]
fn templates_substitute_in_order() {
    let s = tr_fmt(Language::English, "Stop {0}?", &["Survival"]);
    assert_eq!(s, "Stop Survival?");
    let s = tr_fmt(Language::English, "Install {0} {1} on {2}", &["Fabric", "0.16", "1.21"]);
    assert_eq!(s, "Install Fabric 0.16 on 1.21");
}

#[test]
fn every_language_translates_common_chrome() {
    let keys = [
        "Save settings",
        "Cancel",
        "Confirm",
        "Launch",
        "Download",
        "Delete",
        "Refresh",
        "Settings",
        "Accounts",
        "Language",
    ];
    for lang in Language::all() {
        if lang == Language::English {
            continue;
        }
        for key in keys {
            let t = tr(lang, key);
            assert_ne!(t, key, "{lang:?} did not translate {key:?}");
            assert!(!t.is_empty(), "{lang:?} has an empty translation for {key:?}");
        }
    }
}

// ---------------------------------------------------------------- launcher

#[test]
fn module_flags_are_complete_specifiers() {
    let flags = module_access_flags(25);
    let opens: Vec<&String> = flags.iter().filter(|f| f.starts_with("--add-opens")).collect();
    assert!(!opens.is_empty());
    for f in opens {
        let rest = f.trim_start_matches("--add-opens=");
        assert!(rest.ends_with("=ALL-UNNAMED"), "incomplete --add-opens specifier: {f}");
    }
    assert!(flags.contains(&"--enable-native-access=ALL-UNNAMED".to_string()));
    assert!(!flags.iter().any(|f| f.contains("final-field-mutation")));
}

#[test]
fn old_java_gets_no_module_flags_new_java_gets_final_field_mutation() {
    assert!(module_access_flags(8).is_empty());
    let modern = module_access_flags(26);
    assert!(modern.iter().any(|f| f.contains("--enable-final-field-mutation=ALL-UNNAMED")));
}

#[test]
fn filters_unsafe_args_but_keeps_heap_flags() {
    let kept = filter_custom_java_args("-XX:+UseG1GC -Xmx8G -DproxyHost=evil -javaagent:x.jar -Dfoo=bar");
    assert_eq!(
        kept,
        vec!["-XX:+UseG1GC".to_string(), "-Xmx8G".to_string(), "-Dfoo=bar".to_string()]
    );
}

#[test]
fn filters_are_case_insensitive() {
    let kept = filter_custom_java_args("-JAVAAGENT:x.jar -DPROXYHOST=evil");
    assert!(kept.is_empty(), "agent and proxy args must be dropped regardless of case");
}

#[test]
fn empty_custom_args_produce_nothing() {
    assert!(filter_custom_java_args("").is_empty());
    assert!(filter_custom_java_args("   ").is_empty());
}

#[test]
fn splits_server_addresses() {
    assert_eq!(
        split_server_address("mc.example.com:25566"),
        ("mc.example.com".into(), "25566".into())
    );
    assert_eq!(
        split_server_address("mc.example.com"),
        ("mc.example.com".into(), "25565".into())
    );
    assert_eq!(split_server_address("host:"), ("host:".into(), "25565".into()));
}
