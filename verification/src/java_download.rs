//! Downloading Java runtimes from popular distributions.
//!
//! Editions: Eclipse Adoptium (Temurin), Azul Zulu, Amazon Corretto,
//! Microsoft OpenJDK and Oracle GraalVM. Vendor replies arrive as plain
//! values; this module picks versions and download links from them and
//! names the directories runtimes are unpacked into.
use vstd::prelude::*;

use crate::text::{
    dec, ends_with, ends_with_exec, find_first, find_first_exec, push_dec, push_str_chars,
    slice_chars, starts_with, starts_with_exec, str_eq, string_of, to_chars,
};

verus! {

broadcast use vstd::std_specs::vec::group_vec_axioms, vstd::seq::group_seq_axioms;

// ---------------------------------------------------------------------------
// Editions
// ---------------------------------------------------------------------------

/// A downloadable Java distribution.
#[derive(Debug, Clone, Copy)]
pub struct Edition {
    /// Stable identifier stored in configs (`temurin`, `zulu`, …).
    pub id: &'static str,
    /// Human-readable label shown in the UI.
    pub label: &'static str,
}

pub open spec fn edition_ids() -> Seq<Seq<char>> {
    seq!["temurin"@, "zulu"@, "corretto"@, "microsoft"@, "graalvm"@]
}

pub open spec fn edition_labels() -> Seq<Seq<char>> {
    seq![
        "Eclipse Adoptium (Temurin)"@,
        "Azul Zulu"@,
        "Amazon Corretto"@,
        "Microsoft OpenJDK"@,
        "Oracle GraalVM"@,
    ]
}

pub open spec fn is_edition(e: Edition, i: int) -> bool {
    0 <= i < 5 && e.id@ == edition_ids()[i] && e.label@ == edition_labels()[i]
}

/// The editions the downloader supports, in display order.
pub fn editions() -> (r: Vec<Edition>)
    ensures
        r.len() == 5,
        forall|i: int| 0 <= i < 5 ==> is_edition(#[trigger] r@[i], i),
{
    vec![
        Edition { id: "temurin", label: "Eclipse Adoptium (Temurin)" },
        Edition { id: "zulu", label: "Azul Zulu" },
        Edition { id: "corretto", label: "Amazon Corretto" },
        Edition { id: "microsoft", label: "Microsoft OpenJDK" },
        Edition { id: "graalvm", label: "Oracle GraalVM" },
    ]
}

/// The position of the first edition with id `id`, looking from `from`.
pub open spec fn edition_index(id: Seq<char>, from: int) -> Option<int>
    decreases 5 - from,
{
    if from < 0 || from >= 5 {
        None
    } else if edition_ids()[from] == id {
        Some(from)
    } else {
        edition_index(id, from + 1)
    }
}

/// Look up an edition by id.
pub fn find_edition(id: &str) -> (r: Option<Edition>)
    ensures
        match r {
            Some(e) => edition_index(id@, 0) is Some && is_edition(e, edition_index(id@, 0)->0),
            None => edition_index(id@, 0) is None,
        },
{
    let all = editions();
    let mut i: usize = 0;
    while i < all.len()
        invariant
            all.len() == 5,
            i <= 5,
            forall|k: int| 0 <= k < 5 ==> is_edition(#[trigger] all@[k], k),
            edition_index(id@, 0) == edition_index(id@, i as int),
        decreases 5 - i,
    {
        assert(is_edition(all@[i as int], i as int));
        if str_eq(all[i].id, id) {
            return Some(all[i]);
        }
        i += 1;
    }
    None
}

/// Major versions offered for download (`8`–`26`, newest first).
pub fn list_majors() -> (r: Vec<u32>)
    ensures
        r.len() == 19,
        forall|i: int| 0 <= i < 19 ==> #[trigger] r@[i] == 26 - i,
{
    let mut r: Vec<u32> = Vec::new();
    let mut m: u32 = 26;
    while m >= 8
        invariant
            7 <= m <= 26,
            r.len() == 26 - m,
            forall|i: int| 0 <= i < r.len() ==> #[trigger] r@[i] == 26 - i,
        decreases m,
    {
        r.push(m);
        m -= 1;
    }
    r
}

/// The OS token of the vendor APIs for an operating system
/// (`std::env::consts::OS`): `windows`, `macos`, else `linux`.
pub fn os_token(os: &str) -> (r: &'static str)
    ensures
        r@ == if os@ == "windows"@ {
            "windows"@
        } else if os@ == "macos"@ {
            "macos"@
        } else {
            "linux"@
        },
{
    if str_eq(os, "windows") {
        "windows"
    } else if str_eq(os, "macos") {
        "macos"
    } else {
        "linux"
    }
}

/// The architecture token of the vendor APIs for a machine architecture
/// (`std::env::consts::ARCH`): `aarch64`, else `x64`.
pub fn arch_token(arch: &str) -> (r: &'static str)
    ensures
        r@ == if arch@ == "aarch64"@ {
            "aarch64"@
        } else {
            "x64"@
        },
{
    if str_eq(arch, "aarch64") {
        "aarch64"
    } else {
        "x64"
    }
}

// ---------------------------------------------------------------------------
// Version listings
// ---------------------------------------------------------------------------

/// One downloadable sub-version of a major version (`21.0.5+13`, or the
/// pseudo-entry `latest` for editions without a version API).
#[derive(Debug, Clone)]
pub struct SubVersion {
    /// Opaque id passed back to resolve a download URL.
    pub id: String,
    /// What the UI displays.
    pub label: String,
}

fn own(s: &str) -> (r: String)
    ensures
        r@ == s@,
{
    string_of(to_chars(s).as_slice())
}

impl SubVersion {
    /// A sub-version labelled by its id.
    pub fn new(id: String) -> (r: SubVersion)
        ensures
            r.id@ == id@,
            r.label@ == id@,
    {
        let label = own(id.as_str());
        SubVersion { id, label }
    }
}

/// The `version_data` of an Adoptium release, as numbers where the API gave
/// numbers.
#[derive(Debug, Clone, Copy)]
pub struct VersionData {
    pub major: Option<u64>,
    pub minor: Option<u64>,
    pub security: Option<u64>,
    pub build: Option<u64>,
}

/// `major.minor.security+build` (build 0 when absent), when the first three
/// are known.
pub open spec fn temurin_label_spec(v: VersionData) -> Option<Seq<char>> {
    match (v.major, v.minor, v.security) {
        (Some(a), Some(b), Some(c)) => Some(
            dec(a as nat) + "."@ + dec(b as nat) + "."@ + dec(c as nat) + "+"@ + dec(
                match v.build {
                    Some(x) => x,
                    None => 0u64,
                } as nat,
            ),
        ),
        _ => None,
    }
}

pub open spec fn opt_view(o: Option<String>) -> Option<Seq<char>> {
    match o {
        Some(s) => Some(s@),
        None => None,
    }
}

/// Build a `21.0.5+13`-style label from Adoptium `version_data`.
pub fn temurin_label(v: &VersionData) -> (r: Option<String>)
    ensures
        opt_view(r) == temurin_label_spec(*v),
{
    match (v.major, v.minor, v.security) {
        (Some(a), Some(b), Some(c)) => {
            let mut out: Vec<char> = Vec::new();
            push_dec(&mut out, a);
            push_str_chars(&mut out, ".");
            push_dec(&mut out, b);
            push_str_chars(&mut out, ".");
            push_dec(&mut out, c);
            push_str_chars(&mut out, "+");
            let build = match v.build {
                Some(x) => x,
                None => 0,
            };
            push_dec(&mut out, build);
            Some(string_of(out.as_slice()))
        },
        _ => None,
    }
}

/// The longest prefix of `s` made of ASCII digits and dots.
pub open spec fn version_run(s: Seq<char>) -> Seq<char>
    decreases s.len(),
{
    if s.len() > 0 && (('0' <= s[0] && s[0] <= '9') || s[0] == '.') {
        seq![s[0]] + version_run(s.drop_first())
    } else {
        Seq::empty()
    }
}

/// The `21.0.5` token after the first `jdk` of a Zulu package name.
pub open spec fn zulu_version_spec(name: Seq<char>) -> Option<Seq<char>> {
    match find_first(name, "jdk"@) {
        None => None,
        Some(i) => {
            let v = version_run(name.skip(i + 3));
            if v.len() == 0 {
                None
            } else {
                Some(v)
            }
        },
    }
}

fn version_run_exec(s: &[char]) -> (r: Vec<char>)
    ensures
        r@ == version_run(s@),
{
    let mut i: usize = 0;
    assert(s@.take(0) + s@.skip(0) =~= s@);
    assert(s@.skip(0) =~= s@);
    assert(s@.take(0) + version_run(s@) =~= version_run(s@));
    while i < s.len() && (('0' <= s[i] && s[i] <= '9') || s[i] == '.')
        invariant
            i <= s.len(),
            version_run(s@) == s@.take(i as int) + version_run(s@.skip(i as int)),
        decreases s.len() - i,
    {
        assert(s@.skip(i as int)[0] == s@[i as int]);
        assert(s@.skip(i as int).drop_first() =~= s@.skip(i + 1));
        assert(s@.take(i + 1) =~= s@.take(i as int) + seq![s@[i as int]]);
        i += 1;
    }
    let r = slice_chars(s, 0, i);
    assert(r@ =~= s@.take(i as int));
    assert(version_run(s@.skip(i as int)) =~= Seq::<char>::empty());
    r
}

/// Extract the `21.0.5` version token from a Zulu package name like
/// `zulu21.40.17-ca-jdk21.0.5-win_x64.zip`.
pub fn zulu_version_from_name(name: &str) -> (r: Option<String>)
    ensures
        opt_view(r) == zulu_version_spec(name@),
{
    let n = to_chars(name);
    let jdk = to_chars("jdk");
    proof {
        reveal_strlit("jdk");
    }
    let i = match find_first_exec(n.as_slice(), jdk.as_slice()) {
        Some(i) => i,
        None => return None,
    };
    let rest = slice_chars(n.as_slice(), i + 3, n.len());
    assert(rest@ =~= n@.skip(i + 3));
    let v = version_run_exec(rest.as_slice());
    if v.len() == 0 {
        None
    } else {
        Some(string_of(v.as_slice()))
    }
}

/// The version in a GraalVM release tag `jdk-<version>`, when the version
/// starts with a digit.
pub open spec fn graal_version_spec(tag: Seq<char>) -> Option<Seq<char>> {
    if starts_with(tag, "jdk-"@) {
        let rest = tag.skip(4);
        if rest.len() > 0 && '0' <= rest[0] <= '9' {
            Some(rest)
        } else {
            None
        }
    } else {
        None
    }
}

/// Extract a GraalVM version from a release tag like `jdk-21.0.2`.
pub fn graal_version_from_tag(tag: &str) -> (r: Option<String>)
    ensures
        opt_view(r) == graal_version_spec(tag@),
{
    let t = to_chars(tag);
    let p = to_chars("jdk-");
    proof {
        reveal_strlit("jdk-");
    }
    if !starts_with_exec(t.as_slice(), p.as_slice()) {
        return None;
    }
    let rest = slice_chars(t.as_slice(), 4, t.len());
    assert(rest@ =~= t@.skip(4));
    if rest.len() > 0 && '0' <= rest[0] && rest[0] <= '9' {
        Some(string_of(rest.as_slice()))
    } else {
        None
    }
}

// ---------------------------------------------------------------------------
// Vendor replies
// ---------------------------------------------------------------------------

/// A binary of an Adoptium release (fields absent or not strings are `None`).
#[derive(Debug, Clone)]
pub struct TemurinBinary {
    pub os: Option<String>,
    pub architecture: Option<String>,
    pub image_type: Option<String>,
    /// `package.link`.
    pub link: Option<String>,
}

/// An Adoptium release.
#[derive(Debug, Clone)]
pub struct TemurinRelease {
    pub version_data: Option<VersionData>,
    /// `binaries`, when it is an array.
    pub binaries: Option<Vec<TemurinBinary>>,
}

/// An Azul package.
#[derive(Debug, Clone)]
pub struct ZuluPackage {
    pub name: Option<String>,
    pub url: Option<String>,
}

/// An asset of a GraalVM GitHub release.
#[derive(Debug, Clone)]
pub struct GraalAsset {
    pub name: Option<String>,
    pub browser_download_url: Option<String>,
}

/// A GraalVM GitHub release (no assets when the reply lists none).
#[derive(Debug, Clone)]
pub struct GraalRelease {
    pub tag_name: Option<String>,
    pub assets: Vec<GraalAsset>,
}

pub open spec fn sub_ids(v: Seq<SubVersion>) -> Seq<Seq<char>> {
    v.map_values(|s: SubVersion| s.id@)
}

/// Every sub-version is labelled by its id.
pub open spec fn labelled_by_id(v: Seq<SubVersion>) -> bool {
    forall|i: int| 0 <= i < v.len() ==> (#[trigger] v[i]).label@ == v[i].id@
}

pub open spec fn temurin_label_of(r: TemurinRelease) -> Option<Seq<char>> {
    match r.version_data {
        Some(v) => temurin_label_spec(v),
        None => None,
    }
}

pub open spec fn has_binaries(r: TemurinRelease) -> bool {
    match r.binaries {
        Some(b) => b.len() > 0,
        None => false,
    }
}

/// The labels of the Adoptium releases that have binaries, in order.
pub open spec fn temurin_versions(rs: Seq<TemurinRelease>) -> Seq<Seq<char>>
    decreases rs.len(),
{
    if rs.len() == 0 {
        Seq::empty()
    } else {
        let rest = temurin_versions(rs.drop_last());
        if has_binaries(rs.last()) && temurin_label_of(rs.last()) is Some {
            rest.push(temurin_label_of(rs.last())->0)
        } else {
            rest
        }
    }
}

/// Nothing published for the requested major version and platform.
#[derive(Debug, Clone, Copy, PartialEq, Eq, Structural)]
pub enum NothingPublished {
    Nothing,
}

fn push_sub(out: &mut Vec<SubVersion>, id: String)
    ensures
        sub_ids(final(out)@) == sub_ids(old(out)@).push(id@),
        labelled_by_id(old(out)@) ==> labelled_by_id(final(out)@),
{
    let s = SubVersion::new(id);
    let ghost o0 = out@;
    out.push(s);
    assert(sub_ids(out@) =~= sub_ids(o0).push(s.id@));
}

/// The sub-versions Adoptium lists for a major version: the labels of its
/// releases that have binaries, newest first as listed; none is an error.
pub fn temurin_sub_versions(releases: &Vec<TemurinRelease>) -> (r: Result<Vec<SubVersion>, NothingPublished>)
    ensures
        match r {
            Ok(v) => sub_ids(v@) == temurin_versions(releases@) && v.len() > 0 && labelled_by_id(v@),
            Err(_) => temurin_versions(releases@).len() == 0,
        },
{
    let mut out: Vec<SubVersion> = Vec::new();
    let mut i: usize = 0;
    while i < releases.len()
        invariant
            i <= releases.len(),
            sub_ids(out@) == temurin_versions(releases@.take(i as int)),
            labelled_by_id(out@),
        decreases releases.len() - i,
    {
        assert(releases@.take(i + 1).drop_last() =~= releases@.take(i as int));
        let r = &releases[i];
        let has = match &r.binaries {
            Some(b) => b.len() > 0,
            None => false,
        };
        if has {
            match &r.version_data {
                Some(v) => match temurin_label(v) {
                    Some(l) => push_sub(&mut out, l),
                    None => {},
                },
                None => {},
            }
        }
        i += 1;
    }
    assert(releases@.take(releases.len() as int) =~= releases@);
    if out.len() == 0 {
        Err(NothingPublished::Nothing)
    } else {
        Ok(out)
    }
}

/// The name a Zulu package goes by: its name, else its URL, else empty.
pub open spec fn zulu_name(p: ZuluPackage) -> Seq<char> {
    match p.name {
        Some(n) => n@,
        None => match p.url {
            Some(u) => u@,
            None => Seq::empty(),
        },
    }
}

/// The distinct Zulu version tokens of the packages, first occurrence first.
pub open spec fn zulu_versions(ps: Seq<ZuluPackage>) -> Seq<Seq<char>>
    decreases ps.len(),
{
    if ps.len() == 0 {
        Seq::empty()
    } else {
        let rest = zulu_versions(ps.drop_last());
        match zulu_version_spec(zulu_name(ps.last())) {
            Some(v) => if rest.contains(v) {
                rest
            } else {
                rest.push(v)
            },
            None => rest,
        }
    }
}

fn zulu_name_exec(p: &ZuluPackage) -> (r: String)
    ensures
        r@ == zulu_name(*p),
{
    match &p.name {
        Some(n) => own(n.as_str()),
        None => match &p.url {
            Some(u) => own(u.as_str()),
            None => String::new(),
        },
    }
}

fn has_id(out: &Vec<SubVersion>, id: &str) -> (r: bool)
    ensures
        r == sub_ids(out@).contains(id@),
{
    let mut i: usize = 0;
    while i < out.len()
        invariant
            i <= out.len(),
            forall|k: int| 0 <= k < i ==> sub_ids(out@)[k] != id@,
        decreases out.len() - i,
    {
        if str_eq(out[i].id.as_str(), id) {
            assert(sub_ids(out@)[i as int] == id@);
            return true;
        }
        i += 1;
    }
    false
}

/// The sub-versions Azul lists for a major version: the distinct version
/// tokens of its package names; none is an error.
pub fn zulu_sub_versions(packages: &Vec<ZuluPackage>) -> (r: Result<Vec<SubVersion>, NothingPublished>)
    ensures
        match r {
            Ok(v) => sub_ids(v@) == zulu_versions(packages@) && v.len() > 0 && labelled_by_id(v@),
            Err(_) => zulu_versions(packages@).len() == 0,
        },
{
    let mut out: Vec<SubVersion> = Vec::new();
    let mut i: usize = 0;
    while i < packages.len()
        invariant
            i <= packages.len(),
            sub_ids(out@) == zulu_versions(packages@.take(i as int)),
            labelled_by_id(out@),
        decreases packages.len() - i,
    {
        assert(packages@.take(i + 1).drop_last() =~= packages@.take(i as int));
        let name = zulu_name_exec(&packages[i]);
        match zulu_version_from_name(name.as_str()) {
            Some(v) => {
                if !has_id(&out, v.as_str()) {
                    push_sub(&mut out, v);
                }
            },
            None => {},
        }
        i += 1;
    }
    assert(packages@.take(packages.len() as int) =~= packages@);
    if out.len() == 0 {
        Err(NothingPublished::Nothing)
    } else {
        Ok(out)
    }
}

pub open spec fn tag_of(r: GraalRelease) -> Seq<char> {
    match r.tag_name {
        Some(t) => t@,
        None => Seq::empty(),
    }
}

/// The distinct GraalVM versions of the releases for a major version (those
/// starting with `<major>.`), first occurrence first.
pub open spec fn graal_versions(rs: Seq<GraalRelease>, major: u32) -> Seq<Seq<char>>
    decreases rs.len(),
{
    if rs.len() == 0 {
        Seq::empty()
    } else {
        let rest = graal_versions(rs.drop_last(), major);
        match graal_version_spec(tag_of(rs.last())) {
            Some(v) => if starts_with(v, dec(major as nat) + "."@) && !rest.contains(v) {
                rest.push(v)
            } else {
                rest
            },
            None => rest,
        }
    }
}

/// The sub-versions GitHub lists for a GraalVM major version; none is an
/// error.
pub fn graal_sub_versions(releases: &Vec<GraalRelease>, major: u32) -> (r: Result<
    Vec<SubVersion>,
    NothingPublished,
>)
    ensures
        match r {
            Ok(v) => sub_ids(v@) == graal_versions(releases@, major) && v.len() > 0 && labelled_by_id(v@),
            Err(_) => graal_versions(releases@, major).len() == 0,
        },
{
    let mut prefix: Vec<char> = Vec::new();
    push_dec(&mut prefix, major as u64);
    push_str_chars(&mut prefix, ".");
    let mut out: Vec<SubVersion> = Vec::new();
    let mut i: usize = 0;
    while i < releases.len()
        invariant
            i <= releases.len(),
            prefix@ == dec(major as nat) + "."@,
            sub_ids(out@) == graal_versions(releases@.take(i as int), major),
            labelled_by_id(out@),
        decreases releases.len() - i,
    {
        assert(releases@.take(i + 1).drop_last() =~= releases@.take(i as int));
        let tag = match &releases[i].tag_name {
            Some(t) => own(t.as_str()),
            None => String::new(),
        };
        match graal_version_from_tag(tag.as_str()) {
            Some(v) => {
                if starts_with_exec(to_chars(v.as_str()).as_slice(), prefix.as_slice()) && !has_id(
                    &out,
                    v.as_str(),
                ) {
                    push_sub(&mut out, v);
                }
            },
            None => {},
        }
        i += 1;
    }
    assert(releases@.take(releases.len() as int) =~= releases@);
    if out.len() == 0 {
        Err(NothingPublished::Nothing)
    } else {
        Ok(out)
    }
}

/// The single pseudo-entry offered by editions without a version API
/// (Corretto, Microsoft).
pub fn latest_only() -> (r: Vec<SubVersion>)
    ensures
        r.len() == 1,
        r@[0].id@ == "latest"@,
        r@[0].label@ == "latest"@,
{
    vec![SubVersion::new(own("latest"))]
}

// ---------------------------------------------------------------------------
// Download URLs
// ---------------------------------------------------------------------------

/// The Adoptium API listing the general-availability releases of a major
/// version for a platform, newest first.
pub open spec fn temurin_api_url_spec(major: u32, os: Seq<char>, arch: Seq<char>) -> Seq<char> {
    "https://api.adoptium.net/v3/assets/feature_releases/"@ + dec(major as nat)
        + "/ga?architecture="@ + arch + "&image_type=jdk&os="@ + os
        + "&page=0&page_size=25&sort_order=DESC"@
}

pub fn temurin_api_url(major: u32, os: &str, arch: &str) -> (r: String)
    ensures
        r@ == temurin_api_url_spec(major, os@, arch@),
{
    let mut out: Vec<char> = Vec::new();
    push_str_chars(&mut out, "https://api.adoptium.net/v3/assets/feature_releases/");
    push_dec(&mut out, major as u64);
    push_str_chars(&mut out, "/ga?architecture=");
    push_str_chars(&mut out, arch);
    push_str_chars(&mut out, "&image_type=jdk&os=");
    push_str_chars(&mut out, os);
    push_str_chars(&mut out, "&page=0&page_size=25&sort_order=DESC");
    string_of(out.as_slice())
}

/// The Azul API listing the JDK zip packages of a major version.
pub open spec fn zulu_api_url_spec(major: u32, os: Seq<char>, arch: Seq<char>) -> Seq<char> {
    "https://api.azul.com/metadata/v1/zulu/packages/?java_version="@ + dec(major as nat) + "&os="@
        + os + "&arch="@ + arch
        + "&hw_bitness=64&bundle_type=jdk&archive_type=zip&release_status=ga&availability_types=CA&page_size=100"@
}

pub fn zulu_api_url(major: u32, os: &str, arch: &str) -> (r: String)
    ensures
        r@ == zulu_api_url_spec(major, os@, arch@),
{
    let mut out: Vec<char> = Vec::new();
    push_str_chars(&mut out, "https://api.azul.com/metadata/v1/zulu/packages/?java_version=");
    push_dec(&mut out, major as u64);
    push_str_chars(&mut out, "&os=");
    push_str_chars(&mut out, os);
    push_str_chars(&mut out, "&arch=");
    push_str_chars(&mut out, arch);
    push_str_chars(
        &mut out,
        "&hw_bitness=64&bundle_type=jdk&archive_type=zip&release_status=ga&availability_types=CA&page_size=100",
    );
    string_of(out.as_slice())
}

/// Why no download URL could be given.
#[derive(Debug, Clone, Copy, PartialEq, Eq, Structural)]
pub enum UrlError {
    /// The edition's "latest" download is only wired for another platform.
    UnsupportedPlatform,
}

/// The stable "latest per major" download URL for Corretto (Windows x64
/// only).
pub fn corretto_latest_url(major: u32, os: &str, arch: &str) -> (r: Result<String, UrlError>)
    ensures
        match r {
            Ok(u) => os@ == "windows"@ && arch@ == "x64"@ && u@
                == "https://corretto.aws/downloads/latest/amazon-corretto-"@ + dec(major as nat)
                + "-windows-x64-jdk.zip"@,
            Err(_) => !(os@ == "windows"@ && arch@ == "x64"@),
        },
{
    if !str_eq(os, "windows") || !str_eq(arch, "x64") {
        return Err(UrlError::UnsupportedPlatform);
    }
    let mut out: Vec<char> = Vec::new();
    push_str_chars(&mut out, "https://corretto.aws/downloads/latest/amazon-corretto-");
    push_dec(&mut out, major as u64);
    push_str_chars(&mut out, "-windows-x64-jdk.zip");
    Ok(string_of(out.as_slice()))
}

/// The stable "latest per major" download URL for Microsoft OpenJDK
/// (Windows only).
pub fn microsoft_latest_url(major: u32, os: &str, arch: &str) -> (r: Result<String, UrlError>)
    ensures
        match r {
            Ok(u) => os@ == "windows"@ && u@ == "https://aka.ms/download-jdk/microsoft-jdk-"@ + dec(
                major as nat,
            ) + "-windows-"@ + arch@ + ".zip"@,
            Err(_) => os@ != "windows"@,
        },
{
    if !str_eq(os, "windows") {
        return Err(UrlError::UnsupportedPlatform);
    }
    let mut out: Vec<char> = Vec::new();
    push_str_chars(&mut out, "https://aka.ms/download-jdk/microsoft-jdk-");
    push_dec(&mut out, major as u64);
    push_str_chars(&mut out, "-windows-");
    push_str_chars(&mut out, arch);
    push_str_chars(&mut out, ".zip");
    Ok(string_of(out.as_slice()))
}

pub open spec fn is_some_str(o: Option<String>, s: Seq<char>) -> bool {
    match o {
        Some(x) => x@ == s,
        None => false,
    }
}

/// The binary wanted from an Adoptium release: a JDK for the platform.
pub open spec fn wanted_binary(b: TemurinBinary, os: Seq<char>, arch: Seq<char>) -> bool {
    is_some_str(b.image_type, "jdk"@) && is_some_str(b.os, os) && is_some_str(b.architecture, arch)
}

/// The first wanted binary at or after `from`.
pub open spec fn first_wanted(bs: Seq<TemurinBinary>, os: Seq<char>, arch: Seq<char>, from: int) -> Option<int>
    decreases bs.len() - from,
{
    if from < 0 || from >= bs.len() {
        None
    } else if wanted_binary(bs[from], os, arch) {
        Some(from)
    } else {
        first_wanted(bs, os, arch, from + 1)
    }
}

/// The package link of a release's first JDK binary for the platform.
pub open spec fn temurin_link(r: TemurinRelease, os: Seq<char>, arch: Seq<char>) -> Option<Seq<char>> {
    match r.binaries {
        Some(bs) => match first_wanted(bs@, os, arch, 0) {
            Some(k) => opt_view(bs@[k].link),
            None => None,
        },
        None => None,
    }
}

fn opt_eq(o: &Option<String>, s: &str) -> (r: bool)
    ensures
        r == is_some_str(*o, s@),
{
    match o {
        Some(x) => str_eq(x.as_str(), s),
        None => false,
    }
}

fn clone_opt(o: &Option<String>) -> (r: Option<String>)
    ensures
        opt_view(r) == opt_view(*o),
{
    match o {
        Some(x) => Some(own(x.as_str())),
        None => None,
    }
}

/// Find the platform's JDK package link inside an Adoptium release entry.
pub fn temurin_download_url(release: &TemurinRelease, os: &str, arch: &str) -> (r: Option<String>)
    ensures
        opt_view(r) == temurin_link(*release, os@, arch@),
{
    match &release.binaries {
        None => None,
        Some(bs) => {
            let mut i: usize = 0;
            while i < bs.len()
                invariant
                    i <= bs.len(),
                    release.binaries matches Some(x) && x@ == bs@,
                    first_wanted(bs@, os@, arch@, 0) == first_wanted(bs@, os@, arch@, i as int),
                decreases bs.len() - i,
            {
                let b = &bs[i];
                if opt_eq(&b.image_type, "jdk") && opt_eq(&b.os, os) && opt_eq(&b.architecture, arch) {
                    return clone_opt(&b.link);
                }
                i += 1;
            }
            None
        },
    }
}

/// The first release at or after `from` labelled `sub` (any labelled
/// release when `sub` is `latest`).
pub open spec fn first_temurin_match(rs: Seq<TemurinRelease>, sub: Seq<char>, from: int) -> Option<int>
    decreases rs.len() - from,
{
    if from < 0 || from >= rs.len() {
        None
    } else if temurin_label_of(rs[from]) is Some && (temurin_label_of(rs[from])->0 == sub || sub
        == "latest"@) {
        Some(from)
    } else {
        first_temurin_match(rs, sub, from + 1)
    }
}

/// The download link of Adoptium sub-version `sub`: the platform package of
/// the first release with that label (the first labelled release for
/// `latest`).
pub fn temurin_resolve(releases: &Vec<TemurinRelease>, sub: &str, os: &str, arch: &str) -> (r: Option<String>)
    ensures
        opt_view(r) == match first_temurin_match(releases@, sub@, 0) {
            Some(k) => temurin_link(releases@[k], os@, arch@),
            None => None,
        },
{
    let mut i: usize = 0;
    while i < releases.len()
        invariant
            i <= releases.len(),
            first_temurin_match(releases@, sub@, 0) == first_temurin_match(releases@, sub@, i as int),
        decreases releases.len() - i,
    {
        let label = match &releases[i].version_data {
            Some(v) => temurin_label(v),
            None => None,
        };
        match label {
            Some(l) => {
                if str_eq(l.as_str(), sub) || str_eq(sub, "latest") {
                    return temurin_download_url(&releases[i], os, arch);
                }
            },
            None => {},
        }
        i += 1;
    }
    None
}

/// The first package at or after `from` whose name carries version `v`.
pub open spec fn first_zulu_match(ps: Seq<ZuluPackage>, v: Seq<char>, from: int) -> Option<int>
    decreases ps.len() - from,
{
    if from < 0 || from >= ps.len() {
        None
    } else if zulu_version_spec(zulu_name(ps[from])) == Some(v) {
        Some(from)
    } else {
        first_zulu_match(ps, v, from + 1)
    }
}

/// Find the Zulu package URL matching a `21.0.5` version token.
pub fn zulu_download_url(packages: &Vec<ZuluPackage>, version: &str) -> (r: Option<String>)
    ensures
        opt_view(r) == match first_zulu_match(packages@, version@, 0) {
            Some(k) => opt_view(packages@[k].url),
            None => None,
        },
{
    let mut i: usize = 0;
    while i < packages.len()
        invariant
            i <= packages.len(),
            first_zulu_match(packages@, version@, 0) == first_zulu_match(packages@, version@, i as int),
        decreases packages.len() - i,
    {
        let name = zulu_name_exec(&packages[i]);
        match zulu_version_from_name(name.as_str()) {
            Some(v) => {
                if str_eq(v.as_str(), version) {
                    return clone_opt(&packages[i].url);
                }
            },
            None => {},
        }
        i += 1;
    }
    None
}

pub open spec fn asset_name(a: GraalAsset) -> Seq<char> {
    match a.name {
        Some(n) => n@,
        None => Seq::empty(),
    }
}

/// The first asset at or after `from` that is the Windows zip for `arch`.
pub open spec fn first_graal_asset(assets: Seq<GraalAsset>, arch: Seq<char>, from: int) -> Option<int>
    decreases assets.len() - from,
{
    if from < 0 || from >= assets.len() {
        None
    } else if ends_with(asset_name(assets[from]), "windows-"@ + arch + "_bin.zip"@) {
        Some(from)
    } else {
        first_graal_asset(assets, arch, from + 1)
    }
}

/// The Windows asset URL of the first release tagged with `version` that has
/// one, looking from release `from`.
pub open spec fn graal_url_from(rs: Seq<GraalRelease>, version: Seq<char>, arch: Seq<char>, from: int) -> Option<
    Seq<char>,
>
    decreases rs.len() - from,
{
    if from < 0 || from >= rs.len() {
        None
    } else if graal_version_spec(tag_of(rs[from])) == Some(version) && first_graal_asset(
        rs[from].assets@,
        arch,
        0,
    ) is Some {
        opt_view(rs[from].assets@[first_graal_asset(rs[from].assets@, arch, 0)->0].browser_download_url)
    } else {
        graal_url_from(rs, version, arch, from + 1)
    }
}

fn first_graal_asset_exec(assets: &Vec<GraalAsset>, arch: &str) -> (r: Option<usize>)
    ensures
        match r {
            Some(k) => k < assets.len() && first_graal_asset(assets@, arch@, 0) == Some(k as int),
            None => first_graal_asset(assets@, arch@, 0) is None,
        },
{
    let mut wanted: Vec<char> = Vec::new();
    push_str_chars(&mut wanted, "windows-");
    push_str_chars(&mut wanted, arch);
    push_str_chars(&mut wanted, "_bin.zip");
    let mut i: usize = 0;
    while i < assets.len()
        invariant
            i <= assets.len(),
            wanted@ == "windows-"@ + arch@ + "_bin.zip"@,
            first_graal_asset(assets@, arch@, 0) == first_graal_asset(assets@, arch@, i as int),
        decreases assets.len() - i,
    {
        let name = match &assets[i].name {
            Some(n) => own(n.as_str()),
            None => String::new(),
        };
        if ends_with_exec(to_chars(name.as_str()).as_slice(), wanted.as_slice()) {
            return Some(i);
        }
        i += 1;
    }
    None
}

/// Find the GraalVM Windows asset for a release version: the first release
/// with that version that has a Windows zip for `arch`.
pub fn graal_download_url(releases: &Vec<GraalRelease>, version: &str, arch: &str) -> (r: Option<String>)
    ensures
        opt_view(r) == graal_url_from(releases@, version@, arch@, 0),
{
    let mut i: usize = 0;
    while i < releases.len()
        invariant
            i <= releases.len(),
            graal_url_from(releases@, version@, arch@, 0) == graal_url_from(releases@, version@, arch@, i as int),
        decreases releases.len() - i,
    {
        let r = &releases[i];
        let tag = match &r.tag_name {
            Some(t) => own(t.as_str()),
            None => String::new(),
        };
        let matches = match graal_version_from_tag(tag.as_str()) {
            Some(v) => str_eq(v.as_str(), version),
            None => false,
        };
        if matches {
            match first_graal_asset_exec(&r.assets, arch) {
                Some(k) => return clone_opt(&r.assets[k].browser_download_url),
                None => {},
            }
        }
        i += 1;
    }
    None
}

// ---------------------------------------------------------------------------
// Installation
// ---------------------------------------------------------------------------

pub open spec fn dir_safe_char(c: char) -> char {
    if ('a' <= c <= 'z') || ('A' <= c <= 'Z') || ('0' <= c <= '9') || c == '.' || c == '_' || c == '-'
        || c == '+' {
        c
    } else {
        '_'
    }
}

/// A filesystem-safe directory name: characters other than ASCII letters,
/// digits and `._-+` become `_`.
pub open spec fn sanitized(id: Seq<char>) -> Seq<char> {
    id.map_values(|c: char| dir_safe_char(c))
}

/// A character that is safe in a directory name on every platform.
pub open spec fn is_dir_safe(c: char) -> bool {
    ('a' <= c && c <= 'z') || ('A' <= c && c <= 'Z') || ('0' <= c && c <= '9') || c == '.' || c == '_'
        || c == '-' || c == '+'
}

/// Make a filesystem-safe directory name from a sub-version id.
pub fn sanitize_dir_name(id: &str) -> (r: String)
    ensures
        r@ == sanitized(id@),
        r@.len() == id@.len(),
        forall|i: int| 0 <= i < r@.len() ==> is_dir_safe(#[trigger] r@[i]),
{
    let c = to_chars(id);
    let mut out: Vec<char> = Vec::new();
    let mut i: usize = 0;
    while i < c.len()
        invariant
            i <= c.len(),
            out@ == sanitized(c@.take(i as int)),
        decreases c.len() - i,
    {
        let x = c[i];
        let y = if ('a' <= x && x <= 'z') || ('A' <= x && x <= 'Z') || ('0' <= x && x <= '9') || x == '.'
            || x == '_' || x == '-' || x == '+' {
            x
        } else {
            '_'
        };
        out.push(y);
        i += 1;
        assert(out@ =~= sanitized(c@.take(i as int)));
    }
    assert(c@.take(c.len() as int) =~= c@);
    string_of(out.as_slice())
}

/// The destination directory for a downloaded runtime:
/// `<runtimes>/<edition>-<sub>`, the sub-version made filesystem-safe.
pub fn runtime_dest(runtimes_dir: &str, edition_id: &str, sub: &str) -> (r: String)
    ensures
        r@ == crate::text::path_join(runtimes_dir@, edition_id@ + "-"@ + sanitized(sub@)),
{
    let mut name = to_chars(edition_id);
    push_str_chars(&mut name, "-");
    let s = sanitize_dir_name(sub);
    push_str_chars(&mut name, s.as_str());
    let base = to_chars(runtimes_dir);
    string_of(crate::text::join_chars(base.as_slice(), name.as_slice()).as_slice())
}

} // verus!
