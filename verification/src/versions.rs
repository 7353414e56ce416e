//! The merged version list: locally installed versions plus the versions of
//! the Mojang manifest, how mod-loader installs are recognised, and how the
//! list is filtered and ordered.
use vstd::prelude::*;

use crate::text::{
    contains, contains_exec, lower, str_eq, lower_str, starts_with, starts_with_exec, slice_chars, string_of,
    to_chars, split_on, split_exec, views, parse_u64, parse_u64_exec, lex_order, lex_order_exec,
    lemma_lex_order_antisymmetric, lemma_lex_order_transitive, str_order, unicode_lowercase, to_lowercase,
};

verus! {

broadcast use vstd::std_specs::vec::group_vec_axioms, vstd::seq::group_seq_axioms;

/// A mod loader.
#[derive(Clone, Copy, Debug, PartialEq, Eq, Structural)]
pub enum Loader {
    Fabric,
    Quilt,
    Forge,
    NeoForge,
}

impl Loader {
    pub open spec fn slug_spec(self) -> Seq<char> {
        match self {
            Loader::Fabric => seq!['f', 'a', 'b', 'r', 'i', 'c'],
            Loader::Quilt => seq!['q', 'u', 'i', 'l', 't'],
            Loader::Forge => seq!['f', 'o', 'r', 'g', 'e'],
            Loader::NeoForge => seq!['n', 'e', 'o', 'f', 'o', 'r', 'g', 'e'],
        }
    }

    /// The loader's short lowercase name.
    pub fn slug(self) -> (r: String)
        ensures
            r@ == self.slug_spec(),
    {
        match self {
            Loader::Fabric => string_of(&['f', 'a', 'b', 'r', 'i', 'c']),
            Loader::Quilt => string_of(&['q', 'u', 'i', 'l', 't']),
            Loader::Forge => string_of(&['f', 'o', 'r', 'g', 'e']),
            Loader::NeoForge => string_of(&['n', 'e', 'o', 'f', 'o', 'r', 'g', 'e']),
        }
    }
}

/// Which group of the list a version's id puts it in.
pub open spec fn loader_of_spec(name: Seq<char>) -> Option<Loader> {
    let n = lower(name);
    if starts_with(n, "fabric"@) || contains(n, "fabric-loader"@) {
        Some(Loader::Fabric)
    } else if starts_with(n, "quilt"@) || contains(n, "quilt-loader"@) {
        Some(Loader::Quilt)
    } else if starts_with(n, "neoforge"@) {
        Some(Loader::NeoForge)
    } else if starts_with(n, "forge"@) {
        Some(Loader::Forge)
    } else {
        None
    }
}

/// Detect a mod-loader version by its id (ASCII case ignored): the launcher
/// names loader installs `fabric-loader-<b>-<mc>`, `quilt-loader-…`,
/// `neoforge-<mc>-<b>`, `forge-<mc>-<b>`; other launchers use the same prefixes.
pub fn loader_of(version_name: &str) -> (r: Option<Loader>)
    ensures
        r == loader_of_spec(version_name@),
{
    let n = lower_str(version_name);
    let n = n.as_slice();
    if starts_with_exec(n, to_chars("fabric").as_slice()) || contains_exec(
        n,
        to_chars("fabric-loader").as_slice(),
    ) {
        Some(Loader::Fabric)
    } else if starts_with_exec(n, to_chars("quilt").as_slice()) || contains_exec(
        n,
        to_chars("quilt-loader").as_slice(),
    ) {
        Some(Loader::Quilt)
    } else if starts_with_exec(n, to_chars("neoforge").as_slice()) {
        Some(Loader::NeoForge)
    } else if starts_with_exec(n, to_chars("forge").as_slice()) {
        Some(Loader::Forge)
    } else {
        None
    }
}

// ---------------------------------------------------------------------------
// Base Minecraft version
// ---------------------------------------------------------------------------

/// A Minecraft version (`1.` …) starts at `i`: the `1` is the first character
/// or follows a dash, so that `0.21.0` does not match at its `1.0`.
pub open spec fn mc_segment_at(s: Seq<char>, i: int) -> bool {
    &&& 0 <= i
    &&& i + 1 < s.len()
    &&& s[i] == '1'
    &&& s[i + 1] == '.'
    &&& (i == 0 || s[i - 1] == '-')
}

/// The first position at or after `from` where a Minecraft version starts.
pub open spec fn find_mc_segment(s: Seq<char>, from: int) -> Option<int>
    decreases s.len() - from,
{
    if from < 0 || from >= s.len() {
        None
    } else if mc_segment_at(s, from) {
        Some(from)
    } else {
        find_mc_segment(s, from + 1)
    }
}

/// The first position at or after `from` holding `c`.
pub open spec fn index_of_char(s: Seq<char>, c: char, from: int) -> Option<int>
    decreases s.len() - from,
{
    if from < 0 || from >= s.len() {
        None
    } else if s[from] == c {
        Some(from)
    } else {
        index_of_char(s, c, from + 1)
    }
}

/// `t` up to its first dash.
pub open spec fn before_dash(t: Seq<char>) -> Seq<char> {
    match index_of_char(t, '-', 0) {
        Some(d) => t.take(d),
        None => t,
    }
}

/// The Minecraft version after a loader prefix, if one follows.
pub open spec fn mc_after(lowered: Seq<char>, prefix: Seq<char>) -> Option<Seq<char>> {
    if starts_with(lowered, prefix) {
        let rest = lowered.skip(prefix.len() as int);
        match find_mc_segment(rest, 0) {
            Some(pos) => Some(rest.skip(pos)),
            None => None,
        }
    } else {
        None
    }
}

/// The base Minecraft version of a (possibly loader-prefixed) version id:
/// `fabric-loader-0.19.5-1.21.4` → `1.21.4`, `neoforge-1.21.4-21.4.157` →
/// `1.21.4`, anything else unchanged. A version found after a prefix comes
/// back in ASCII lowercase.
pub open spec fn base_mc_spec(name: Seq<char>) -> Seq<char> {
    let l = lower(name);
    if mc_after(l, "fabric-loader-"@) is Some {
        mc_after(l, "fabric-loader-"@)->0
    } else if mc_after(l, "quilt-loader-"@) is Some {
        mc_after(l, "quilt-loader-"@)->0
    } else if mc_after(l, "neoforge-"@) is Some {
        before_dash(mc_after(l, "neoforge-"@)->0)
    } else if mc_after(l, "forge-"@) is Some {
        before_dash(mc_after(l, "forge-"@)->0)
    } else {
        name
    }
}

fn find_mc_segment_exec(s: &[char]) -> (r: Option<usize>)
    ensures
        match r {
            Some(p) => find_mc_segment(s@, 0) == Some(p as int) && p < s.len(),
            None => find_mc_segment(s@, 0) is None,
        },
{
    let mut i: usize = 0;
    while i < s.len()
        invariant
            i <= s.len(),
            find_mc_segment(s@, 0) == find_mc_segment(s@, i as int),
        decreases s.len() - i,
    {
        if s[i] == '1' && i + 1 < s.len() && s[i + 1] == '.' && (i == 0 || s[i - 1] == '-') {
            return Some(i);
        }
        i += 1;
    }
    None
}

fn index_of_char_exec(s: &[char], c: char) -> (r: Option<usize>)
    ensures
        match r {
            Some(p) => index_of_char(s@, c, 0) == Some(p as int) && p < s.len(),
            None => index_of_char(s@, c, 0) is None,
        },
{
    let mut i: usize = 0;
    while i < s.len()
        invariant
            i <= s.len(),
            index_of_char(s@, c, 0) == index_of_char(s@, c, i as int),
        decreases s.len() - i,
    {
        if s[i] == c {
            return Some(i);
        }
        i += 1;
    }
    None
}

fn mc_after_exec(lowered: &[char], prefix: &str) -> (r: Option<Vec<char>>)
    ensures
        match r {
            Some(v) => mc_after(lowered@, prefix@) == Some(v@),
            None => mc_after(lowered@, prefix@) is None,
        },
{
    let p = to_chars(prefix);
    if !starts_with_exec(lowered, p.as_slice()) {
        return None;
    }
    let rest = slice_chars(lowered, p.len(), lowered.len());
    assert(rest@ =~= lowered@.skip(p.len() as int));
    match find_mc_segment_exec(rest.as_slice()) {
        Some(pos) => {
            let t = slice_chars(rest.as_slice(), pos, rest.len());
            assert(t@ =~= rest@.skip(pos as int));
            Some(t)
        },
        None => None,
    }
}

fn before_dash_exec(t: Vec<char>) -> (r: Vec<char>)
    ensures
        r@ == before_dash(t@),
{
    match index_of_char_exec(t.as_slice(), '-') {
        Some(d) => {
            let r = slice_chars(t.as_slice(), 0, d);
            assert(r@ =~= t@.take(d as int));
            r
        },
        None => t,
    }
}

/// Extract the base Minecraft version from a (possibly loader-prefixed)
/// version id: `fabric-loader-0.19.5-1.21.4` -> `1.21.4`,
/// `neoforge-1.21.4-21.4.157` -> `1.21.4`, `1.20.1` -> `1.20.1`.
pub fn base_mc_of(version_name: &str) -> (r: String)
    ensures
        r@ == base_mc_spec(version_name@),
{
    let l = lower_str(version_name);
    if let Some(v) = mc_after_exec(l.as_slice(), "fabric-loader-") {
        return string_of(v.as_slice());
    }
    if let Some(v) = mc_after_exec(l.as_slice(), "quilt-loader-") {
        return string_of(v.as_slice());
    }
    if let Some(v) = mc_after_exec(l.as_slice(), "neoforge-") {
        let c = before_dash_exec(v);
        return string_of(c.as_slice());
    }
    if let Some(v) = mc_after_exec(l.as_slice(), "forge-") {
        let c = before_dash_exec(v);
        return string_of(c.as_slice());
    }
    let c = to_chars(version_name);
    string_of(c.as_slice())
}

// ---------------------------------------------------------------------------
// Versions, the manifest and rows of the list
// ---------------------------------------------------------------------------

/// A version listed in the Mojang manifest.
#[derive(Debug, Clone)]
pub struct ManifestVersion {
    pub id: String,
    /// `release`, `snapshot`, `old_alpha` or `old_beta`.
    pub kind: String,
    pub url: String,
    /// ISO-8601 release time.
    pub release_time: String,
}

pub struct ManifestVersionView {
    pub id: Seq<char>,
    pub kind: Seq<char>,
    pub url: Seq<char>,
    pub release_time: Seq<char>,
}

impl View for ManifestVersion {
    type V = ManifestVersionView;

    open spec fn view(&self) -> ManifestVersionView {
        ManifestVersionView {
            id: self.id@,
            kind: self.kind@,
            url: self.url@,
            release_time: self.release_time@,
        }
    }
}

/// The Mojang version manifest.
#[derive(Debug, Clone)]
pub struct Manifest {
    /// The id listed as the latest release, when the manifest names one.
    pub latest_release: Option<String>,
    pub versions: Vec<ManifestVersion>,
}

/// A version installed in the game directory.
#[derive(Debug, Clone)]
pub struct Version {
    pub name: String,
    pub dir: String,
    pub jar: String,
    pub json: String,
}

/// One row of the merged version list: locally installed versions (vanilla,
/// Fabric, whatever lives in the game directory) plus every version from the
/// Mojang manifest.
#[derive(Debug, Clone)]
pub struct VersionRow {
    pub name: String,
    /// `release` / `snapshot` / `old_alpha` / `old_beta` from the manifest,
    /// `loader` for mod-loader installs, or `local` when the version exists
    /// only on disk.
    pub kind: String,
    pub installed: bool,
    pub is_latest_release: bool,
    /// Present when the version can be (re-)installed from the manifest.
    pub remote: Option<ManifestVersion>,
    /// Set when the row is a mod-loader version.
    pub loader: Option<Loader>,
    /// The position of the version in the manifest's list, which is
    /// Mojang's release order (0 = newest), when the manifest lists it.
    pub release_rank: Option<usize>,
}

pub struct VersionRowView {
    pub name: Seq<char>,
    pub kind: Seq<char>,
    pub installed: bool,
    pub is_latest_release: bool,
    pub remote: Option<ManifestVersionView>,
    pub loader: Option<Loader>,
    pub release_rank: Option<usize>,
}

pub open spec fn remote_view(r: Option<ManifestVersion>) -> Option<ManifestVersionView> {
    match r {
        Some(m) => Some(m@),
        None => None,
    }
}

impl View for VersionRow {
    type V = VersionRowView;

    open spec fn view(&self) -> VersionRowView {
        VersionRowView {
            name: self.name@,
            kind: self.kind@,
            installed: self.installed,
            is_latest_release: self.is_latest_release,
            remote: remote_view(self.remote),
            loader: self.loader,
            release_rank: self.release_rank,
        }
    }
}

/// Which rows a filter chip shows.
#[derive(Debug, Clone, Copy, PartialEq, Eq, Structural)]
pub enum VersionFilter {
    All,
    Mojang,
    Loaders,
    Release,
    Snapshot,
    Old,
    Installed,
}

impl VersionFilter {
    pub open spec fn matches_spec(self, row: VersionRowView) -> bool {
        match self {
            VersionFilter::All => true,
            VersionFilter::Mojang => row.loader is None,
            VersionFilter::Loaders => row.loader is Some,
            VersionFilter::Release => row.loader is None && row.kind == "release"@,
            VersionFilter::Snapshot => row.loader is None && row.kind == "snapshot"@,
            VersionFilter::Old => row.loader is None && (row.kind == "old_alpha"@ || row.kind
                == "old_beta"@),
            VersionFilter::Installed => row.installed,
        }
    }

    /// Whether the filter shows `row`.
    pub fn matches(self, row: &VersionRow) -> (r: bool)
        ensures
            r == self.matches_spec(row@),
    {
        match self {
            VersionFilter::All => true,
            VersionFilter::Mojang => row.loader.is_none(),
            VersionFilter::Loaders => row.loader.is_some(),
            VersionFilter::Release => row.loader.is_none() && str_eq(row.kind.as_str(), "release"),
            VersionFilter::Snapshot => row.loader.is_none() && str_eq(row.kind.as_str(), "snapshot"),
            VersionFilter::Old => row.loader.is_none() && (str_eq(row.kind.as_str(), "old_alpha")
                || str_eq(row.kind.as_str(), "old_beta")),
            VersionFilter::Installed => row.installed,
        }
    }
}

/// The screens of the launcher window.
#[derive(Debug, Clone, Copy, PartialEq, Eq, Structural)]
pub enum Screen {
    General,
    Console,
    Instances,
    Versions,
    Servers,
    Accounts,
    Skins,
    Modrinth,
    News,
    Settings,
    Diagnostics,
}

// ---------------------------------------------------------------------------
// Merging local versions with the manifest
// ---------------------------------------------------------------------------

pub open spec fn rows_view(rows: Seq<VersionRow>) -> Seq<VersionRowView> {
    rows.map_values(|r: VersionRow| r@)
}

pub open spec fn names_of(local: Seq<Version>) -> Seq<Seq<char>> {
    local.map_values(|v: Version| v.name@)
}

pub open spec fn manifest_views(vs: Seq<ManifestVersion>) -> Seq<ManifestVersionView> {
    vs.map_values(|m: ManifestVersion| m@)
}

/// The id the manifest names as the latest release; empty without one.
pub open spec fn latest_release_of(manifest: Option<Manifest>) -> Seq<char> {
    match manifest {
        Some(m) => match m.latest_release {
            Some(l) => l@,
            None => Seq::empty(),
        },
        None => Seq::empty(),
    }
}

/// The row of a locally installed version.
pub open spec fn local_row(name: Seq<char>, latest: Seq<char>) -> VersionRowView {
    let loader = loader_of_spec(name);
    VersionRowView {
        name,
        kind: if loader is Some {
            "loader"@
        } else {
            "local"@
        },
        installed: true,
        is_latest_release: loader is None && name == latest,
        remote: None,
        loader,
        release_rank: None,
    }
}

/// The last row named `name`.
pub open spec fn last_named(rows: Seq<VersionRowView>, name: Seq<char>) -> Option<int>
    decreases rows.len(),
{
    if rows.len() == 0 {
        None
    } else if rows.last().name == name {
        Some(rows.len() - 1)
    } else {
        last_named(rows.drop_last(), name)
    }
}

/// Adds manifest version number `rank` of the list: a version already listed
/// (its last row) takes the manifest kind, unless it is a loader row, and
/// becomes installable; another one is appended as a not installed row.
/// Either way the row records `rank`.
pub open spec fn merge_step(
    rows: Seq<VersionRowView>,
    mv: ManifestVersionView,
    latest: Seq<char>,
    rank: usize,
) -> Seq<VersionRowView> {
    match last_named(rows, mv.id) {
        Some(i) => rows.update(
            i,
            VersionRowView {
                name: rows[i].name,
                kind: if rows[i].loader is None {
                    mv.kind
                } else {
                    rows[i].kind
                },
                installed: rows[i].installed,
                is_latest_release: rows[i].is_latest_release,
                remote: Some(mv),
                loader: rows[i].loader,
                release_rank: Some(rank),
            },
        ),
        None => rows.push(
            VersionRowView {
                name: mv.id,
                kind: mv.kind,
                installed: false,
                is_latest_release: mv.id == latest,
                remote: Some(mv),
                loader: None,
                release_rank: Some(rank),
            },
        ),
    }
}

/// The merged list: the local versions in game-directory order, then the
/// manifest versions added one by one.
pub open spec fn merged_rows(
    locals: Seq<Seq<char>>,
    mvs: Seq<ManifestVersionView>,
    latest: Seq<char>,
) -> Seq<VersionRowView>
    decreases mvs.len(),
{
    if mvs.len() == 0 {
        locals.map_values(|n: Seq<char>| local_row(n, latest))
    } else {
        merge_step(
            merged_rows(locals, mvs.drop_last(), latest),
            mvs.last(),
            latest,
            (mvs.len() - 1) as usize,
        )
    }
}

proof fn lemma_last_named(rows: Seq<VersionRowView>, name: Seq<char>)
    ensures
        last_named(rows, name) matches Some(i) ==> 0 <= i < rows.len() && rows[i].name == name,
        last_named(rows, name) is None ==> forall|k: int| 0 <= k < rows.len() ==> (#[trigger] rows[k]).name
            != name,
    decreases rows.len(),
{
    if rows.len() > 0 {
        lemma_last_named(rows.drop_last(), name);
        if last_named(rows, name) is None {
            let d = rows.drop_last();
            assert forall|k: int| 0 <= k < rows.len() implies (#[trigger] rows[k]).name != name by {
                if k < rows.len() - 1 {
                    assert(rows[k] == d[k]);
                    assert(d[k].name != name);
                }
            }
        }
    }
}

/// The merged version list keeps every installed version first, in
/// game-directory order and marked installed; after them come only
/// manifest versions that are not installed; and every manifest version is
/// listed. Every row is an installed version or a manifest version, and a
/// row carries a release rank exactly when it has a manifest entry: the
/// position of that entry in the manifest's list.
pub proof fn lemma_merged_rows_cover(locals: Seq<Seq<char>>, mvs: Seq<ManifestVersionView>, latest: Seq<char>)
    requires
        mvs.len() <= usize::MAX,
    ensures
        ({
            let rows = merged_rows(locals, mvs, latest);
            &&& rows.len() >= locals.len()
            &&& forall|i: int| 0 <= i < locals.len() ==> (#[trigger] rows[i]).name == locals[i] && rows[i].installed
            &&& forall|k: int| locals.len() <= k < rows.len() ==> !(#[trigger] rows[k]).installed
            &&& forall|j: int| 0 <= j < mvs.len() ==> exists|k: int| 0 <= k < rows.len() && (#[trigger] rows[k]).name
                == (#[trigger] mvs[j]).id
            &&& forall|k: int| 0 <= k < rows.len() ==> locals.contains((#[trigger] rows[k]).name) || exists|j: int|
                0 <= j < mvs.len() && (#[trigger] mvs[j]).id == rows[k].name
            &&& forall|k: int|
                0 <= k < rows.len() ==> ((#[trigger] rows[k]).release_rank is None <==> rows[k].remote is None)
            &&& forall|k: int|
                0 <= k < rows.len() && (#[trigger] rows[k]).release_rank is Some ==> {
                    let j = rows[k].release_rank->0 as int;
                    &&& 0 <= j < mvs.len()
                    &&& mvs[j].id == rows[k].name
                    &&& rows[k].remote == Some(mvs[j])
                }
        }),
    decreases mvs.len(),
{
    let rows = merged_rows(locals, mvs, latest);
    if mvs.len() == 0 {
        assert forall|k: int| 0 <= k < rows.len() implies locals.contains((#[trigger] rows[k]).name) by {
            assert(rows[k].name == locals[k]);
        }
    } else {

        let p = mvs.drop_last();
        let prev = merged_rows(locals, p, latest);
        let mv = mvs.last();
        lemma_merged_rows_cover(locals, p, latest);
        lemma_last_named(prev, mv.id);
        assert(rows == merge_step(prev, mv, latest, (mvs.len() - 1) as usize));
        assert forall|j: int| 0 <= j < mvs.len() implies exists|k: int| 0 <= k < rows.len() && (#[trigger] rows[k]).name
            == (#[trigger] mvs[j]).id by {
            if j < p.len() {
                assert(mvs[j] == p[j]);
                let k = choose|k: int| 0 <= k < prev.len() && (#[trigger] prev[k]).name == p[j].id;
                assert(rows[k].name == prev[k].name);
            } else {
                match last_named(prev, mv.id) {
                    Some(i) => {
                        assert(rows[i].name == mv.id);
                    },
                    None => {
                        assert(rows[prev.len() as int].name == mv.id);
                    },
                }
            }
        }
        assert forall|k: int| 0 <= k < rows.len() implies locals.contains((#[trigger] rows[k]).name) || exists|j: int|
            0 <= j < mvs.len() && (#[trigger] mvs[j]).id == rows[k].name by {
            if k < prev.len() {
                assert(rows[k].name == prev[k].name);
                if !locals.contains(prev[k].name) {
                    let j = choose|j: int| 0 <= j < p.len() && (#[trigger] p[j]).id == prev[k].name;
                    assert(mvs[j] == p[j]);
                }
            } else {
                assert(mvs[mvs.len() - 1] == mv);
            }
        }
    }
}

/// The merged list row by row, for installed names that are pairwise
/// distinct and manifest ids that are pairwise distinct: the installed
/// versions come first, in game-directory order, with the loader that their
/// name shows; after them come the manifest versions that are not installed,
/// in manifest order; every row's manifest entry is the entry with its name
/// (none when the manifest does not list it); its kind is `loader` for a
/// loader row, else the manifest kind, else `local`; and it is the latest
/// release exactly when it is no loader row and bears the latest release's
/// name. No name occurs twice.
pub open spec fn merged_closed_form(
    locals: Seq<Seq<char>>,
    mvs: Seq<ManifestVersionView>,
    latest: Seq<char>,
    rows: Seq<VersionRowView>,
) -> bool {
    let n = locals.len();
    &&& rows.len() >= n
    &&& forall|i: int|
        0 <= i < n ==> {
            &&& (#[trigger] rows[i]).name == locals[i]
            &&& rows[i].installed
            &&& rows[i].loader == loader_of_spec(locals[i])
        }
    &&& forall|k: int|
        n <= k < rows.len() ==> {
            &&& !(#[trigger] rows[k]).installed
            &&& rows[k].loader is None
            &&& rows[k].remote is Some
            &&& !locals.contains(rows[k].name)
        }
    &&& forall|k: int|
        0 <= k < rows.len() ==> {
            &&& (#[trigger] rows[k]).kind == if rows[k].loader is Some {
                "loader"@
            } else {
                match rows[k].remote {
                    Some(m) => m.kind,
                    None => "local"@,
                }
            }
            &&& rows[k].is_latest_release == (rows[k].loader is None && rows[k].name == latest)
        }
    &&& forall|a: int, b: int| 0 <= a < b < rows.len() ==> (#[trigger] rows[a]).name != (#[trigger] rows[b]).name
    &&& forall|k: int, j: int|
        0 <= k < rows.len() && 0 <= j < mvs.len() && (#[trigger] rows[k]).name == (#[trigger] mvs[j]).id
            ==> rows[k].remote == Some(mvs[j]) && rows[k].release_rank == Some(j as usize)
    &&& forall|k: int|
        0 <= k < rows.len() && (#[trigger] rows[k]).remote is None ==> forall|j: int|
            0 <= j < mvs.len() ==> (#[trigger] mvs[j]).id != rows[k].name
    &&& forall|j: int|
        0 <= j < mvs.len() && !#[trigger] locals.contains(mvs[j].id) ==> exists|k: int|
            n <= k < rows.len() && (#[trigger] rows[k]).name == mvs[j].id
    &&& forall|k: int|
        0 <= k < rows.len() ==> ((#[trigger] rows[k]).release_rank is None <==> rows[k].remote is None)
    &&& forall|k: int|
        0 <= k < rows.len() && (#[trigger] rows[k]).release_rank is Some ==> {
            let j = rows[k].release_rank->0 as int;
            j < mvs.len() && mvs[j].id == rows[k].name
        }
    &&& forall|a: int, b: int|
        n <= a < b < rows.len() ==> ((#[trigger] rows[a]).release_rank->0 as int) < ((
        #[trigger] rows[b]).release_rank->0 as int)
}

pub open spec fn pairwise_distinct(s: Seq<Seq<char>>) -> bool {
    forall|a: int, b: int| 0 <= a < b < s.len() ==> (#[trigger] s[a]) != (#[trigger] s[b])
}

pub open spec fn ids_distinct(mvs: Seq<ManifestVersionView>) -> bool {
    forall|a: int, b: int| 0 <= a < b < mvs.len() ==> (#[trigger] mvs[a]).id != (#[trigger] mvs[b]).id
}

/// One step of the merge, when the manifest version is already listed.
#[verifier::rlimit(60)]
#[verifier::spinoff_prover]
proof fn lemma_closed_form_listed(locals: Seq<Seq<char>>, mvs: Seq<ManifestVersionView>, latest: Seq<char>, i: int)
    requires
        0 < mvs.len() <= usize::MAX,
        pairwise_distinct(locals),
        ids_distinct(mvs),
        merged_closed_form(locals, mvs.drop_last(), latest, merged_rows(locals, mvs.drop_last(), latest)),
        last_named(merged_rows(locals, mvs.drop_last(), latest), mvs.last().id) == Some(i),
    ensures
        merged_closed_form(locals, mvs, latest, merged_rows(locals, mvs, latest)),
{
    let p = mvs.drop_last();
    let prev = merged_rows(locals, p, latest);
    let mv = mvs.last();
    let m = p.len();
    let n = locals.len();
    let rows = merged_rows(locals, mvs, latest);
    lemma_last_named(prev, mv.id);
    assert(mvs[m as int] == mv);
    assert forall|j: int| 0 <= j < m implies #[trigger] mvs[j] == p[j] by {}
    assert(rows == merge_step(prev, mv, latest, m as usize));
    // The row already listed is an installed one.
    if i >= n {
        let j = prev[i].release_rank->0 as int;
        assert(p[j].id == prev[i].name);
        assert(mvs[j].id != mvs[m as int].id);
    }
    assert(i < n);
    assert(locals.contains(mv.id)) by {
        assert(locals[i] == mv.id);
    }
    assert(rows.len() == prev.len());
    assert forall|k: int| 0 <= k < rows.len() && k != i implies #[trigger] rows[k] == prev[k] by {}
    assert forall|k: int| 0 <= k < rows.len() && k != i implies (#[trigger] rows[k]).name != mv.id by {
        assert(rows[k] == prev[k]);
        if k < i {
            assert(prev[k].name != prev[i].name);
        } else {
            assert(prev[i].name != prev[k].name);
        }
    }
    assert forall|a: int, b: int| 0 <= a < b < rows.len() implies (#[trigger] rows[a]).name
        != (#[trigger] rows[b]).name by {
        assert(prev[a].name != prev[b].name);
    }
    assert forall|k: int, j: int|
        0 <= k < rows.len() && 0 <= j < mvs.len() && (#[trigger] rows[k]).name == (
        #[trigger] mvs[j]).id implies rows[k].remote == Some(mvs[j]) && rows[k].release_rank
        == Some(j as usize) by {
        if j == m {
            assert(k == i);
        } else {
            assert(mvs[j] == p[j]);
            if k == i {
                assert(mvs[j].id != mvs[m as int].id);
            }
            assert(prev[k].name == p[j].id);
        }
    }
    assert forall|k: int| 0 <= k < rows.len() && (#[trigger] rows[k]).remote is None implies forall|
        j: int,
    | 0 <= j < mvs.len() ==> (#[trigger] mvs[j]).id != rows[k].name by {
        assert(k != i);
        assert forall|j: int| 0 <= j < mvs.len() implies (#[trigger] mvs[j]).id
            != rows[k].name by {
            if j < m {
                assert(mvs[j] == p[j]);
                assert(p[j].id != prev[k].name);
            }
        }
    }
    assert forall|j: int| 0 <= j < mvs.len() && !#[trigger] locals.contains(mvs[j].id) implies exists|
        k: int,
    | n <= k < rows.len() && (#[trigger] rows[k]).name == mvs[j].id by {
        assert(j < m);
        assert(mvs[j] == p[j]);
        assert(!locals.contains(p[j].id));
        let k = choose|k: int| n <= k < prev.len() && (#[trigger] prev[k]).name == p[j].id;
        assert(rows[k] == prev[k]);
    }
    assert forall|a: int, b: int| n <= a < b < rows.len() implies ((
    #[trigger] rows[a]).release_rank->0 as int) < ((#[trigger] rows[b]).release_rank->0 as int) by {
        assert(rows[a] == prev[a] && rows[b] == prev[b]);
    }
    assert forall|k: int| 0 <= k < rows.len() && (#[trigger] rows[k]).release_rank is Some implies {
        let j = rows[k].release_rank->0 as int;
        j < mvs.len() && mvs[j].id == rows[k].name
    } by {
        if k != i {
            let j = prev[k].release_rank->0 as int;
            assert(mvs[j] == p[j]);
        }
    }
}

/// One step of the merge, when the manifest version is not listed yet.
#[verifier::rlimit(60)]
#[verifier::spinoff_prover]
proof fn lemma_closed_form_new(locals: Seq<Seq<char>>, mvs: Seq<ManifestVersionView>, latest: Seq<char>)
    requires
        0 < mvs.len() <= usize::MAX,
        pairwise_distinct(locals),
        ids_distinct(mvs),
        merged_closed_form(locals, mvs.drop_last(), latest, merged_rows(locals, mvs.drop_last(), latest)),
        last_named(merged_rows(locals, mvs.drop_last(), latest), mvs.last().id) is None,
    ensures
        merged_closed_form(locals, mvs, latest, merged_rows(locals, mvs, latest)),
{
    let p = mvs.drop_last();
    let prev = merged_rows(locals, p, latest);
    let mv = mvs.last();
    let m = p.len();
    let n = locals.len();
    let rows = merged_rows(locals, mvs, latest);
    lemma_last_named(prev, mv.id);
    assert(mvs[m as int] == mv);
    assert forall|j: int| 0 <= j < m implies #[trigger] mvs[j] == p[j] by {}
    assert(rows == merge_step(prev, mv, latest, m as usize));
    let last = prev.len() as int;
    assert(rows.len() == prev.len() + 1);
    assert forall|k: int| 0 <= k < prev.len() implies #[trigger] rows[k] == prev[k] by {}
    assert(!locals.contains(mv.id)) by {
        if locals.contains(mv.id) {
            let i = choose|i: int| 0 <= i < locals.len() && locals[i] == mv.id;
            assert(prev[i].name == locals[i]);
        }
    }
    assert forall|a: int, b: int| 0 <= a < b < rows.len() implies (#[trigger] rows[a]).name
        != (#[trigger] rows[b]).name by {
        if b < last {
            assert(prev[a].name != prev[b].name);
        } else {
            assert(prev[a].name != mv.id);
        }
    }
    assert forall|k: int, j: int|
        0 <= k < rows.len() && 0 <= j < mvs.len() && (#[trigger] rows[k]).name == (
        #[trigger] mvs[j]).id implies rows[k].remote == Some(mvs[j]) && rows[k].release_rank
        == Some(j as usize) by {
        if j == m {
            if k < last {
                assert(prev[k].name != mv.id);
            }
        } else {
            assert(mvs[j] == p[j]);
            if k == last {
                assert(mvs[j].id != mvs[m as int].id);
            }
            assert(prev[k].name == p[j].id);
        }
    }
    assert forall|k: int| 0 <= k < rows.len() && (#[trigger] rows[k]).remote is None implies forall|
        j: int,
    | 0 <= j < mvs.len() ==> (#[trigger] mvs[j]).id != rows[k].name by {
        assert(k < last);
        assert forall|j: int| 0 <= j < mvs.len() implies (#[trigger] mvs[j]).id
            != rows[k].name by {
            if j < m {
                assert(mvs[j] == p[j]);
                assert(p[j].id != prev[k].name);
            } else {
                assert(prev[k].name != mv.id);
            }
        }
    }
    assert forall|j: int| 0 <= j < mvs.len() && !#[trigger] locals.contains(mvs[j].id) implies exists|
        k: int,
    | n <= k < rows.len() && (#[trigger] rows[k]).name == mvs[j].id by {
        if j == m {
            assert(rows[last].name == mv.id);
        } else {
            assert(mvs[j] == p[j]);
            assert(!locals.contains(p[j].id));
            let k = choose|k: int| n <= k < prev.len() && (#[trigger] prev[k]).name == p[j].id;
            assert(rows[k] == prev[k]);
        }
    }
    assert forall|a: int, b: int| n <= a < b < rows.len() implies ((
    #[trigger] rows[a]).release_rank->0 as int) < ((#[trigger] rows[b]).release_rank->0 as int) by {
        if b < last {
            assert(rows[a] == prev[a] && rows[b] == prev[b]);
        } else {
            assert(rows[a] == prev[a]);
            assert(prev[a].remote is Some);
            assert(prev[a].release_rank is Some);
        }
    }
    assert forall|k: int| 0 <= k < rows.len() && (#[trigger] rows[k]).release_rank is Some implies {
        let j = rows[k].release_rank->0 as int;
        j < mvs.len() && mvs[j].id == rows[k].name
    } by {
        if k < last {
            let j = prev[k].release_rank->0 as int;
            assert(mvs[j] == p[j]);
        }
    }
}

/// With pairwise distinct installed names and manifest ids, the merged list
/// is the one that `merged_closed_form` describes.
pub proof fn lemma_merged_rows_closed_form(
    locals: Seq<Seq<char>>,
    mvs: Seq<ManifestVersionView>,
    latest: Seq<char>,
)
    requires
        mvs.len() <= usize::MAX,
        pairwise_distinct(locals),
        ids_distinct(mvs),
    ensures
        merged_closed_form(locals, mvs, latest, merged_rows(locals, mvs, latest)),
    decreases mvs.len(),
{
    let rows = merged_rows(locals, mvs, latest);
    if mvs.len() == 0 {
        assert forall|a: int, b: int| 0 <= a < b < rows.len() implies (#[trigger] rows[a]).name
            != (#[trigger] rows[b]).name by {
            assert(locals[a] != locals[b]);
        }
        assert forall|k: int| 0 <= k < rows.len() implies {
            &&& (#[trigger] rows[k]).kind == if rows[k].loader is Some {
                "loader"@
            } else {
                match rows[k].remote {
                    Some(m) => m.kind,
                    None => "local"@,
                }
            }
            &&& rows[k].is_latest_release == (rows[k].loader is None && rows[k].name == latest)
        } by {
            assert(rows[k] == local_row(locals[k], latest));
        }
    } else {
        let p = mvs.drop_last();
        assert(ids_distinct(p)) by {
            assert forall|a: int, b: int| 0 <= a < b < p.len() implies (#[trigger] p[a]).id
                != (#[trigger] p[b]).id by {
                assert(p[a] == mvs[a] && p[b] == mvs[b]);
            }
        }
        lemma_merged_rows_closed_form(locals, p, latest);
        match last_named(merged_rows(locals, p, latest), mvs.last().id) {
            Some(i) => lemma_closed_form_listed(locals, mvs, latest, i),
            None => lemma_closed_form_new(locals, mvs, latest),
        }
    }
}

fn clone_str(s: &str) -> (r: String)
    ensures
        r@ == s@,
{
    let c = to_chars(s);
    string_of(c.as_slice())
}

fn clone_mv(m: &ManifestVersion) -> (r: ManifestVersion)
    ensures
        r@ == m@,
{
    ManifestVersion {
        id: clone_str(m.id.as_str()),
        kind: clone_str(m.kind.as_str()),
        url: clone_str(m.url.as_str()),
        release_time: clone_str(m.release_time.as_str()),
    }
}

fn last_named_exec(rows: &Vec<VersionRow>, name: &str) -> (r: Option<usize>)
    ensures
        match r {
            Some(i) => last_named(rows_view(rows@), name@) == Some(i as int) && i < rows.len(),
            None => last_named(rows_view(rows@), name@) is None,
        },
{
    let ghost rv = rows_view(rows@);
    let mut k: usize = rows.len();
    assert(rv.take(rows.len() as int) =~= rv);
    while k > 0
        invariant
            k <= rows.len(),
            rv == rows_view(rows@),
            last_named(rv, name@) == last_named(rv.take(k as int), name@),
        decreases k,
    {
        assert(rv.take(k as int).drop_last() =~= rv.take(k - 1));
        if str_eq(rows[k - 1].name.as_str(), name) {
            return Some(k - 1);
        }
        k -= 1;
    }
    None
}

/// Merge locally discovered versions with the remote manifest. Local versions
/// come first (the game directory order), then remote-only ones; a version
/// present in both places takes the manifest kind and gains an Install entry.
pub fn merge_versions(local: &[Version], manifest: Option<&Manifest>) -> (r: Vec<VersionRow>)
    ensures
        rows_view(r@) == merged_rows(
            names_of(local@),
            match manifest {
                Some(m) => manifest_views(m.versions@),
                None => Seq::empty(),
            },
            latest_release_of(
                match manifest {
                    Some(m) => Some(*m),
                    None => None,
                },
            ),
        ),
{
    let ghost latest_s = latest_release_of(
        match manifest {
            Some(m) => Some(*m),
            None => None,
        },
    );
    let latest: String = match manifest {
        Some(m) => match &m.latest_release {
            Some(l) => clone_str(l.as_str()),
            None => String::new(),
        },
        None => String::new(),
    };
    assert(latest@ == latest_s);
    let ghost ln = names_of(local@);
    let mut rows: Vec<VersionRow> = Vec::new();
    let mut i: usize = 0;
    while i < local.len()
        invariant
            i <= local.len(),
            ln == names_of(local@),
            latest@ == latest_s,
            rows_view(rows@) == ln.take(i as int).map_values(|n: Seq<char>| local_row(n, latest_s)),
        decreases local.len() - i,
    {
        let name = &local[i].name;
        let loader = loader_of(name.as_str());
        let kind = if loader.is_some() {
            clone_str("loader")
        } else {
            clone_str("local")
        };
        let row = VersionRow {
            name: clone_str(name.as_str()),
            kind,
            installed: true,
            is_latest_release: loader.is_none() && str_eq(name.as_str(), latest.as_str()),
            remote: None,
            loader,
            release_rank: None,
        };
        let ghost r0 = rows@;
        rows.push(row);
        assert(rows_view(rows@) =~= rows_view(r0).push(row@));
        i += 1;
        assert(rows_view(rows@) =~= ln.take(i as int).map_values(|n: Seq<char>| local_row(n, latest_s)));
    }
    assert(ln.take(local.len() as int) =~= ln);
    let ghost mvs = match manifest {
        Some(m) => manifest_views(m.versions@),
        None => Seq::empty(),
    };
    assert(mvs.take(0) =~= Seq::<ManifestVersionView>::empty());
    if let Some(m) = manifest {
        let mut j: usize = 0;
        while j < m.versions.len()
            invariant
                j <= m.versions.len(),
                mvs == manifest_views(m.versions@),
                latest@ == latest_s,
                rows_view(rows@) == merged_rows(ln, mvs.take(j as int), latest_s),
            decreases m.versions.len() - j,
        {
            assert(mvs.take(j + 1).drop_last() =~= mvs.take(j as int));
            let mv = &m.versions[j];
            let ghost before = rows_view(rows@);
            match last_named_exec(&rows, mv.id.as_str()) {
                Some(k) => {
                    let kind = if rows[k].loader.is_none() {
                        clone_str(mv.kind.as_str())
                    } else {
                        clone_str(rows[k].kind.as_str())
                    };
                    let updated = VersionRow {
                        name: clone_str(rows[k].name.as_str()),
                        kind,
                        installed: rows[k].installed,
                        is_latest_release: rows[k].is_latest_release,
                        remote: Some(clone_mv(mv)),
                        loader: rows[k].loader,
                        release_rank: Some(j),
                    };
                    let ghost r0 = rows@;
                    rows.set(k, updated);
                    assert(rows_view(rows@) =~= rows_view(r0).update(k as int, updated@));
                },
                None => {
                    let row = VersionRow {
                        name: clone_str(mv.id.as_str()),
                        kind: clone_str(mv.kind.as_str()),
                        installed: false,
                        is_latest_release: str_eq(mv.id.as_str(), latest.as_str()),
                        remote: Some(clone_mv(mv)),
                        loader: None,
                        release_rank: Some(j),
                    };
                    let ghost r0 = rows@;
                    rows.push(row);
                    assert(rows_view(rows@) =~= rows_view(r0).push(row@));
                },
            }
            assert(rows_view(rows@) == merge_step(before, mv@, latest_s, j));
            j += 1;
        }
        assert(mvs.take(m.versions.len() as int) =~= mvs);
    }
    rows
}

// ---------------------------------------------------------------------------
// Numeric-aware version order
// ---------------------------------------------------------------------------

/// A version id splits into parts at `.` and `-`.
pub open spec fn version_parts(s: Seq<char>) -> Seq<Seq<char>> {
    split_on(s, seq!['.', '-'])
}

/// Each part in Unicode lowercase.
pub open spec fn lowered_parts(ps: Seq<Seq<char>>) -> Seq<Seq<char>> {
    ps.map_values(|p: Seq<char>| unicode_lowercase(p))
}

/// Two parts that are both `u64` numbers compare as numbers; otherwise their
/// lowercase forms (`xl`, `yl`) compare as strings.
pub open spec fn part_order(x: Seq<char>, y: Seq<char>, xl: Seq<char>, yl: Seq<char>) -> int {
    match (parse_u64(x), parse_u64(y)) {
        (Some(m), Some(n)) => if m < n {
            -1
        } else if m > n {
            1
        } else {
            0
        },
        _ => lex_order(xl, yl),
    }
}

/// Parts compare pairwise from position `i`; the first difference decides,
/// and when one id runs out of parts first it is the smaller.
pub open spec fn parts_order_from(
    xs: Seq<Seq<char>>,
    ys: Seq<Seq<char>>,
    xl: Seq<Seq<char>>,
    yl: Seq<Seq<char>>,
    i: int,
) -> int
    decreases xs.len() + ys.len() - i,
{
    if i < 0 || (i >= xs.len() && i >= ys.len()) {
        0
    } else if i >= xs.len() {
        -1
    } else if i >= ys.len() {
        1
    } else {
        let c = part_order(xs[i], ys[i], xl[i], yl[i]);
        if c != 0 {
            c
        } else {
            parts_order_from(xs, ys, xl, yl, i + 1)
        }
    }
}

/// How version id `a` compares to `b`, numeric-aware (`1.21.10` after
/// `1.21.9`): -1, 0 or 1.
pub open spec fn version_parts_order(a: Seq<char>, b: Seq<char>) -> int {
    let xs = version_parts(a);
    let ys = version_parts(b);
    parts_order_from(xs, ys, lowered_parts(xs), lowered_parts(ys), 0)
}

proof fn lemma_parts_order_from_antisymmetric(
    xs: Seq<Seq<char>>,
    ys: Seq<Seq<char>>,
    xl: Seq<Seq<char>>,
    yl: Seq<Seq<char>>,
    i: int,
)
    requires
        xl.len() == xs.len(),
        yl.len() == ys.len(),
    ensures
        parts_order_from(xs, ys, xl, yl, i) == -parts_order_from(ys, xs, yl, xl, i),
        -1 <= parts_order_from(xs, ys, xl, yl, i) <= 1,
    decreases xs.len() + ys.len() - i,
{
    if i >= 0 && i < xs.len() && i < ys.len() {
        lemma_lex_order_antisymmetric(xl[i], yl[i]);
        lemma_parts_order_from_antisymmetric(xs, ys, xl, yl, i + 1);
    }
}

/// Swapping two version ids flips how they compare.
pub proof fn lemma_version_parts_order_antisymmetric(a: Seq<char>, b: Seq<char>)
    ensures
        version_parts_order(a, b) == -version_parts_order(b, a),
        -1 <= version_parts_order(a, b) <= 1,
{
    let xs = version_parts(a);
    let ys = version_parts(b);
    lemma_parts_order_from_antisymmetric(xs, ys, lowered_parts(xs), lowered_parts(ys), 0);
}

pub open spec fn string_seq_views(v: Seq<String>) -> Seq<Seq<char>> {
    v.map_values(|x: String| x@)
}

/// The numeric-aware order of two version ids, given the lowercase form of
/// each of their parts (`a_lowered[i]` is part `i` of `a` in lowercase).
pub fn version_order_lowered(a: &str, b: &str, a_lowered: &Vec<String>, b_lowered: &Vec<String>) -> (r: i8)
    requires
        a_lowered.len() == version_parts(a@).len(),
        b_lowered.len() == version_parts(b@).len(),
    ensures
        r as int == parts_order_from(
            version_parts(a@),
            version_parts(b@),
            string_seq_views(a_lowered@),
            string_seq_views(b_lowered@),
            0,
        ),
{
    let seps = vec!['.', '-'];
    assert(seps@ =~= seq!['.', '-']);
    let ac = to_chars(a);
    let bc = to_chars(b);
    let xs = split_exec(ac.as_slice(), seps.as_slice());
    let ys = split_exec(bc.as_slice(), seps.as_slice());
    let ghost vx = views(xs@);
    let ghost vy = views(ys@);
    let ghost lx = string_seq_views(a_lowered@);
    let ghost ly = string_seq_views(b_lowered@);
    let mut i: usize = 0;
    while i < xs.len() || i < ys.len()
        invariant
            vx == views(xs@),
            vy == views(ys@),
            vx == version_parts(a@),
            vy == version_parts(b@),
            lx == string_seq_views(a_lowered@),
            ly == string_seq_views(b_lowered@),
            a_lowered.len() == xs.len(),
            b_lowered.len() == ys.len(),
            i <= xs.len() || i <= ys.len(),
            parts_order_from(vx, vy, lx, ly, 0) == parts_order_from(vx, vy, lx, ly, i as int),
        decreases xs.len() + ys.len() - i,
    {
        if i >= xs.len() {
            return -1;
        }
        if i >= ys.len() {
            return 1;
        }
        assert(vx[i as int] == xs@[i as int]@ && vy[i as int] == ys@[i as int]@);
        let c: i8 = match (parse_u64_exec(xs[i].as_slice()), parse_u64_exec(ys[i].as_slice())) {
            (Some(m), Some(n)) => if m < n {
                -1
            } else if m > n {
                1
            } else {
                0
            },
            _ => str_order(a_lowered[i].as_str(), b_lowered[i].as_str()),
        };
        if c != 0 {
            return c;
        }
        i += 1;
    }
    0
}

/// The lowercase form of each part of a version id.
fn lowercase_parts(s: &str) -> (r: Vec<String>)
    ensures
        string_seq_views(r@) == lowered_parts(version_parts(s@)),
{
    let seps = vec!['.', '-'];
    assert(seps@ =~= seq!['.', '-']);
    let c = to_chars(s);
    let parts = split_exec(c.as_slice(), seps.as_slice());
    let ghost vp = views(parts@);
    let mut r: Vec<String> = Vec::new();
    let mut i: usize = 0;
    while i < parts.len()
        invariant
            i <= parts.len(),
            vp == views(parts@),
            vp == version_parts(s@),
            string_seq_views(r@) == lowered_parts(vp.take(i as int)),
        decreases parts.len() - i,
    {
        let p = string_of(parts[i].as_slice());
        let l = to_lowercase(p.as_str());
        let ghost r0 = r@;
        r.push(l);
        assert(string_seq_views(r@) =~= string_seq_views(r0).push(l@));
        i += 1;
        assert(lowered_parts(vp.take(i as int)) =~= lowered_parts(vp.take(i - 1)).push(
            unicode_lowercase(vp[i - 1]),
        ));
    }
    assert(vp.take(parts.len() as int) =~= vp);
    r
}

/// How version id `a` compares to `b`, numeric-aware: -1, 0 or 1.
pub fn version_parts_order_exec(a: &str, b: &str) -> (r: i8)
    ensures
        r as int == version_parts_order(a@, b@),
{
    let al = lowercase_parts(a);
    let bl = lowercase_parts(b);
    assert(string_seq_views(al@).len() == al@.len());
    assert(string_seq_views(bl@).len() == bl@.len());
    version_order_lowered(a, b, &al, &bl)
}

/// Numeric-aware ascending comparison of version ids (`1.21.9` before
/// `1.21.10`): parts split at `.` and `-` compare as numbers when both are
/// numbers, else as lowercase strings; a prefix comes first.
pub fn cmp_version_parts_asc(a: &str, b: &str) -> (r: std::cmp::Ordering)
    ensures
        (r == std::cmp::Ordering::Less) == (version_parts_order(a@, b@) < 0),
        (r == std::cmp::Ordering::Equal) == (version_parts_order(a@, b@) == 0),
        (r == std::cmp::Ordering::Greater) == (version_parts_order(a@, b@) > 0),
{
    let c = version_parts_order_exec(a, b);
    if c < 0 {
        std::cmp::Ordering::Less
    } else if c == 0 {
        std::cmp::Ordering::Equal
    } else {
        std::cmp::Ordering::Greater
    }
}

/// Numeric-aware descending comparison (`1.21.10` before `1.21.9`).
pub fn cmp_version_desc(a: &str, b: &str) -> (r: std::cmp::Ordering)
    ensures
        (r == std::cmp::Ordering::Less) == (version_parts_order(a@, b@) > 0),
        (r == std::cmp::Ordering::Equal) == (version_parts_order(a@, b@) == 0),
        (r == std::cmp::Ordering::Greater) == (version_parts_order(a@, b@) < 0),
{
    let c = version_parts_order_exec(a, b);
    if c > 0 {
        std::cmp::Ordering::Less
    } else if c == 0 {
        std::cmp::Ordering::Equal
    } else {
        std::cmp::Ordering::Greater
    }
}

// ---------------------------------------------------------------------------
// Sorting the list
// ---------------------------------------------------------------------------

/// How the version list is ordered.
#[derive(Debug, Clone, Copy, PartialEq, Eq, Structural)]
pub enum VersionSort {
    /// Newest first: the versions the manifest lists, in its order (Mojang's
    /// release order); then the versions it does not list; loader rows last.
    Newest,
    /// By version number descending (numeric-aware).
    Number,
    /// By release date from the manifest, newest first.
    ReleaseDate,
    /// Grouped by loader type, then alphabetically.
    LoaderType,
    /// A → Z.
    Alphabetical,
    /// Z → A.
    AlphabeticalReverse,
}

impl VersionSort {
    /// The default order: newest first.
    pub fn default_sort() -> (r: VersionSort)
        ensures
            r == VersionSort::Newest,
    {
        VersionSort::Newest
    }
}

/// -1, 0 or 1 as `x` is below, at or above `y`.
pub open spec fn sign_of(x: int, y: int) -> int {
    if x < y {
        -1
    } else if x > y {
        1
    } else {
        0
    }
}

/// The release time of a row's manifest entry; empty without one.
pub open spec fn release_date(r: VersionRowView) -> Seq<char> {
    match r.remote {
        Some(m) => m.release_time,
        None => Seq::empty(),
    }
}

/// Group rank for ordering by loader type: Mojang rows first, then loaders
/// by their slug.
pub open spec fn loader_rank(r: VersionRowView) -> (int, Seq<char>) {
    match r.loader {
        None => (0, Seq::empty()),
        Some(l) => (1, l.slug_spec()),
    }
}

/// Where a row goes in the default order: the versions the manifest lists
/// by their position in it (Mojang's release order, newest first), then
/// the other versions, then the loader rows.
pub open spec fn newest_key(r: VersionRowView) -> int {
    if r.loader is Some {
        usize::MAX + 2
    } else {
        match r.release_rank {
            Some(k) => k as int,
            None => usize::MAX + 1,
        }
    }
}

/// How row `a` compares to row `b` under `sort`: -1 (a first), 0 (equal)
/// or 1 (b first).
pub open spec fn row_order(sort: VersionSort, a: VersionRowView, b: VersionRowView) -> int {
    match sort {
        VersionSort::Newest => sign_of(newest_key(a), newest_key(b)),
        VersionSort::Number => -version_parts_order(a.name, b.name),
        VersionSort::ReleaseDate => lex_order(release_date(b), release_date(a)),
        VersionSort::LoaderType => {
            let (ra, sa) = loader_rank(a);
            let (rb, sb) = loader_rank(b);
            if ra != rb {
                sign_of(ra, rb)
            } else if lex_order(sa, sb) != 0 {
                lex_order(sa, sb)
            } else {
                lex_order(unicode_lowercase(a.name), unicode_lowercase(b.name))
            }
        },
        VersionSort::Alphabetical => lex_order(unicode_lowercase(a.name), unicode_lowercase(b.name)),
        VersionSort::AlphabeticalReverse => lex_order(
            unicode_lowercase(b.name),
            unicode_lowercase(a.name),
        ),
    }
}

/// Swapping two rows flips how they compare, under every order.
pub proof fn lemma_row_order_antisymmetric(sort: VersionSort, a: VersionRowView, b: VersionRowView)
    ensures
        row_order(sort, a, b) == -row_order(sort, b, a),
{
    lemma_version_parts_order_antisymmetric(a.name, b.name);
    lemma_lex_order_antisymmetric(release_date(a), release_date(b));
    lemma_lex_order_antisymmetric(loader_rank(a).1, loader_rank(b).1);
    lemma_lex_order_antisymmetric(unicode_lowercase(a.name), unicode_lowercase(b.name));
}

fn loader_slug_or_empty(l: Option<Loader>) -> (r: String)
    ensures
        r@ == match l {
            Some(x) => x.slug_spec(),
            None => Seq::<char>::empty(),
        },
{
    match l {
        Some(x) => x.slug(),
        None => String::new(),
    }
}

fn release_date_exec(r: &VersionRow) -> (d: String)
    ensures
        d@ == release_date(r@),
{
    match &r.remote {
        Some(m) => clone_str(m.release_time.as_str()),
        None => String::new(),
    }
}

fn newest_key_exec(r: &VersionRow) -> (k: u128)
    ensures
        k as int == newest_key(r@),
{
    if r.loader.is_some() {
        usize::MAX as u128 + 2
    } else {
        match r.release_rank {
            Some(k) => k as u128,
            None => usize::MAX as u128 + 1,
        }
    }
}

/// How row `a` compares to row `b` under `sort`.
fn row_order_exec(sort: VersionSort, a: &VersionRow, b: &VersionRow) -> (r: i8)
    ensures
        r as int == row_order(sort, a@, b@),
{
    match sort {
        VersionSort::Newest => {
            let x = newest_key_exec(a);
            let y = newest_key_exec(b);
            if x < y {
                -1
            } else if x > y {
                1
            } else {
                0
            }
        },
        VersionSort::Number => {
            let c = version_parts_order_exec(a.name.as_str(), b.name.as_str());
            proof {
                lemma_version_parts_order_antisymmetric(a.name@, b.name@);
            }
            -c
        },
        VersionSort::ReleaseDate => {
            let da = release_date_exec(a);
            let db = release_date_exec(b);
            str_order(db.as_str(), da.as_str())
        },
        VersionSort::LoaderType => {
            let ra: u8 = if a.loader.is_some() {
                1
            } else {
                0
            };
            let rb: u8 = if b.loader.is_some() {
                1
            } else {
                0
            };
            if ra < rb {
                return -1;
            }
            if ra > rb {
                return 1;
            }
            let sa = loader_slug_or_empty(a.loader);
            let sb = loader_slug_or_empty(b.loader);
            let c = str_order(sa.as_str(), sb.as_str());
            if c != 0 {
                return c;
            }
            let la = to_lowercase(a.name.as_str());
            let lb = to_lowercase(b.name.as_str());
            str_order(la.as_str(), lb.as_str())
        },
        VersionSort::Alphabetical => {
            let la = to_lowercase(a.name.as_str());
            let lb = to_lowercase(b.name.as_str());
            str_order(la.as_str(), lb.as_str())
        },
        VersionSort::AlphabeticalReverse => {
            let la = to_lowercase(a.name.as_str());
            let lb = to_lowercase(b.name.as_str());
            str_order(lb.as_str(), la.as_str())
        },
    }
}

/// `out` holds the rows of `orig` rearranged by `perm` (`out[k]` is
/// `orig[perm[k]]`, each row used once), each row is ordered before or with
/// the next one under `sort`, and neighbours that compare equal keep their
/// original relative order.
pub open spec fn is_stable_sort(
    sort: VersionSort,
    out: Seq<VersionRow>,
    orig: Seq<VersionRow>,
    perm: Seq<int>,
) -> bool {
    &&& out.len() == orig.len()
    &&& perm.len() == orig.len()
    &&& forall|k: int| 0 <= k < perm.len() ==> 0 <= #[trigger] perm[k] < orig.len() && out[k] == orig[perm[k]]
    &&& forall|k1: int, k2: int| 0 <= k1 < k2 < perm.len() ==> #[trigger] perm[k1] != #[trigger] perm[k2]
    &&& forall|k: int|
        0 <= k < out.len() - 1 ==> row_order(sort, #[trigger] out[k]@, out[k + 1]@) <= 0
    &&& forall|k: int|
        0 <= k < out.len() - 1 ==> row_order(sort, #[trigger] out[k]@, out[k + 1]@) == 0 ==> perm[k]
            < perm[k + 1]
}

/// The invariant of insertion sorting the first `i` rows of `orig`.
pub open spec fn sorted_prefix(
    sort: VersionSort,
    out: Seq<VersionRow>,
    orig: Seq<VersionRow>,
    perm: Seq<int>,
    i: int,
) -> bool {
    &&& out.len() == i
    &&& perm.len() == i
    &&& forall|k: int| 0 <= k < perm.len() ==> 0 <= #[trigger] perm[k] < i && out[k] == orig[perm[k]]
    &&& forall|k1: int, k2: int| 0 <= k1 < k2 < perm.len() ==> #[trigger] perm[k1] != #[trigger] perm[k2]
    &&& forall|k: int|
        0 <= k < out.len() - 1 ==> row_order(sort, #[trigger] out[k]@, out[k + 1]@) <= 0
    &&& forall|k: int|
        0 <= k < out.len() - 1 ==> row_order(sort, #[trigger] out[k]@, out[k + 1]@) == 0 ==> perm[k]
            < perm[k + 1]
}

/// Inserting row `i` of `orig` after the rows it does not precede keeps the
/// invariant.
proof fn lemma_insert_sorted(
    sort: VersionSort,
    out: Seq<VersionRow>,
    orig: Seq<VersionRow>,
    perm: Seq<int>,
    i: int,
    j: int,
)
    requires
        0 <= i < orig.len(),
        sorted_prefix(sort, out, orig, perm, i),
        0 <= j <= out.len(),
        j > 0 ==> row_order(sort, out[j - 1]@, orig[i]@) <= 0,
        forall|m: int| j <= m < out.len() ==> row_order(sort, #[trigger] out[m]@, orig[i]@) > 0,
    ensures
        sorted_prefix(sort, out.insert(j, orig[i]), orig, perm.insert(j, i), i + 1),
{
    let x = orig[i];
    let o2 = out.insert(j, x);
    let p2 = perm.insert(j, i);
    out.insert_ensures(j, x);
    perm.insert_ensures(j, i);
    assert forall|k: int| 0 <= k < p2.len() implies 0 <= #[trigger] p2[k] < i + 1 && o2[k] == orig[p2[k]] by {
        if k > j {
            assert(p2[k] == perm[k - 1]);
            assert(o2[k] == out[k - 1]);
        }
    }
    assert forall|k1: int, k2: int| 0 <= k1 < k2 < p2.len() implies #[trigger] p2[k1] != #[trigger] p2[k2] by {
        if k1 > j {
            assert(p2[k1] == perm[k1 - 1]);
        }
        if k2 > j {
            assert(p2[k2] == perm[k2 - 1]);
        }
        if k1 < j {
            assert(p2[k1] == perm[k1]);
        }
        if k2 < j {
            assert(p2[k2] == perm[k2]);
        }
        if k1 != j && k2 != j {
            if k1 < j && k2 > j {
                assert(perm[k1] != perm[k2 - 1]);
            }
        }
    }
    assert forall|k: int| 0 <= k < o2.len() - 1 implies row_order(sort, #[trigger] o2[k]@, o2[k + 1]@) <= 0
        && (row_order(sort, o2[k]@, o2[k + 1]@) == 0 ==> p2[k] < p2[k + 1]) by {
        if k + 1 < j {
            assert(o2[k] == out[k] && o2[k + 1] == out[k + 1]);
            assert(p2[k] == perm[k] && p2[k + 1] == perm[k + 1]);
        } else if k + 1 == j {
            assert(o2[k] == out[k] && o2[k + 1] == x);
            assert(p2[k] == perm[k]);
        } else if k == j {
            assert(o2[k] == x && o2[k + 1] == out[k]);
            lemma_row_order_antisymmetric(sort, out[k]@, x@);
        } else {
            assert(o2[k] == out[k - 1] && o2[k + 1] == out[k]);
            assert(p2[k] == perm[k - 1] && p2[k + 1] == perm[k]);
        }
    }
}

/// Sort the version rows in place according to `sort`. The sort is stable:
/// rows that compare equal keep their order.
pub fn sort_version_rows(rows: &mut Vec<VersionRow>, sort: VersionSort)
    ensures
        exists|perm: Seq<int>| is_stable_sort(sort, final(rows)@, old(rows)@, perm),
{
    let ghost orig = rows@;
    let ghost mut perm: Seq<int> = Seq::empty();
    let mut out: Vec<VersionRow> = Vec::new();
    let n = rows.len();
    let mut i: usize = 0;
    assert(orig.skip(0) =~= orig);
    while i < n
        invariant
            n == orig.len(),
            i <= n,
            rows@ == orig.skip(i as int),
            sorted_prefix(sort, out@, orig, perm, i as int),
        decreases n - i,
    {
        let x = rows.remove(0);
        assert(x == orig[i as int]);
        assert(rows@ =~= orig.skip(i + 1));
        let mut j: usize = out.len();
        while j > 0
            invariant
                j <= out.len(),
                out.len() == i,
                forall|m: int| j <= m < out.len() ==> row_order(sort, #[trigger] out@[m]@, x@) > 0,
            ensures
                j <= out.len(),
                j > 0 ==> row_order(sort, out@[j - 1]@, x@) <= 0,
                forall|m: int| j <= m < out.len() ==> row_order(sort, #[trigger] out@[m]@, x@) > 0,
            decreases j,
        {
            if row_order_exec(sort, &out[j - 1], &x) <= 0 {
                break;
            }
            j -= 1;
        }
        proof {
            lemma_insert_sorted(sort, out@, orig, perm, i as int, j as int);
            perm = perm.insert(j as int, i as int);
        }
        out.insert(j, x);
        i += 1;
    }
    *rows = out;
    assert(is_stable_sort(sort, rows@, orig, perm));
}

/// Every order but `Number` is transitive. (`Number` is not: `9` < `10`
/// numerically, `10` < `5x` and `5x` < `9` as strings.)
pub proof fn lemma_row_order_transitive(
    sort: VersionSort,
    a: VersionRowView,
    b: VersionRowView,
    c: VersionRowView,
)
    requires
        sort != VersionSort::Number,
        row_order(sort, a, b) <= 0,
        row_order(sort, b, c) <= 0,
    ensures
        row_order(sort, a, c) <= 0,
{
    let la = unicode_lowercase(a.name);
    let lb = unicode_lowercase(b.name);
    let lc = unicode_lowercase(c.name);
    match sort {
        VersionSort::ReleaseDate => {
            lemma_lex_order_transitive(release_date(c), release_date(b), release_date(a));
        },
        VersionSort::Alphabetical => {
            lemma_lex_order_transitive(la, lb, lc);
        },
        VersionSort::AlphabeticalReverse => {
            lemma_lex_order_transitive(lc, lb, la);
        },
        VersionSort::LoaderType => {
            let (ra, sa) = loader_rank(a);
            let (rb, sb) = loader_rank(b);
            let (rc, sc) = loader_rank(c);
            lemma_lex_order_antisymmetric(sa, sb);
            lemma_lex_order_antisymmetric(sb, sc);
            lemma_lex_order_antisymmetric(sa, sc);
            if ra == rb && rb == rc {
                lemma_lex_order_transitive(sa, sb, sc);
                if lex_order(sa, sb) == 0 && lex_order(sb, sc) == 0 {
                    lemma_lex_order_transitive(la, lb, lc);
                }
            }
        },
        _ => {},
    }
}

/// Sorting by any order but `Number` leaves the whole list in order: each row
/// comes before or with every later row.
pub proof fn lemma_sorted_rows_in_order(
    sort: VersionSort,
    out: Seq<VersionRow>,
    orig: Seq<VersionRow>,
    perm: Seq<int>,
)
    requires
        sort != VersionSort::Number,
        is_stable_sort(sort, out, orig, perm),
    ensures
        forall|i: int, j: int| 0 <= i < j < out.len() ==> row_order(sort, #[trigger] out[i]@, #[trigger] out[j]@) <= 0,
{
    assert forall|i: int, j: int| 0 <= i < j < out.len() implies row_order(sort, #[trigger] out[i]@, #[trigger] out[j]@)
        <= 0 by {
        lemma_in_order_from(sort, out, orig, perm, i, j);
    }
}

/// The default order: rows the manifest lists come first, by their
/// position in it (Mojang's release order, newest first); then the rows it
/// does not list; the local loader rows come after all the others.
pub proof fn lemma_newest_release_order(out: Seq<VersionRow>, orig: Seq<VersionRow>, perm: Seq<int>)
    requires
        is_stable_sort(VersionSort::Newest, out, orig, perm),
    ensures
        forall|i: int, j: int|
            0 <= i < j < out.len() ==> newest_key(#[trigger] out[i]@) <= newest_key(#[trigger] out[j]@),
        forall|i: int, j: int|
            0 <= i < j < out.len() && (#[trigger] out[i]@).loader is Some ==> (#[trigger] out[j]@).loader is Some,
        forall|i: int, j: int|
            0 <= i < j < out.len() && (#[trigger] out[j]@).loader is None && out[j]@.release_rank is Some
                ==> (#[trigger] out[i]@).loader is None && out[i]@.release_rank is Some
                && out[i]@.release_rank->0 <= out[j]@.release_rank->0,
{
    lemma_sorted_rows_in_order(VersionSort::Newest, out, orig, perm);
    assert forall|i: int, j: int| 0 <= i < j < out.len() implies newest_key(#[trigger] out[i]@) <= newest_key(
        #[trigger] out[j]@,
    ) by {
        assert(row_order(VersionSort::Newest, out[i]@, out[j]@) <= 0);
    }
}

/// Sorted Newest, a merged list shows its non-loader versions in manifest
/// order (Mojang's release order, newest first): of two such rows that the
/// manifest lists, the one listed earlier comes first. Loader rows come
/// last.
pub proof fn lemma_newest_follows_manifest(
    out: Seq<VersionRow>,
    orig: Seq<VersionRow>,
    perm: Seq<int>,
    locals: Seq<Seq<char>>,
    mvs: Seq<ManifestVersionView>,
    latest: Seq<char>,
)
    requires
        is_stable_sort(VersionSort::Newest, out, orig, perm),
        rows_view(orig) == merged_rows(locals, mvs, latest),
        mvs.len() <= usize::MAX,
        pairwise_distinct(locals),
        ids_distinct(mvs),
    ensures
        forall|i: int, j: int|
            0 <= i < j < out.len() && (#[trigger] out[i]@).loader is Some ==> (#[trigger] out[j]@).loader is Some,
        forall|i: int, j: int, a: int, b: int|
            0 <= i < j < out.len() && 0 <= a < mvs.len() && 0 <= b < mvs.len() && (#[trigger] out[i]@).loader
                is None && (#[trigger] out[j]@).loader is None && (#[trigger] mvs[a]).id == out[i]@.name
                && (#[trigger] mvs[b]).id == out[j]@.name ==> a < b,
{
    lemma_newest_release_order(out, orig, perm);
    lemma_merged_rows_closed_form(locals, mvs, latest);
    let rows = merged_rows(locals, mvs, latest);
    assert forall|i: int, j: int, a: int, b: int|
        0 <= i < j < out.len() && 0 <= a < mvs.len() && 0 <= b < mvs.len() && (#[trigger] out[i]@).loader
            is None && (#[trigger] out[j]@).loader is None && (#[trigger] mvs[a]).id == out[i]@.name
            && (#[trigger] mvs[b]).id == out[j]@.name implies a < b by {
        let pi = perm[i];
        let pj = perm[j];
        assert(out[i] == orig[pi] && out[j] == orig[pj]);
        assert(rows[pi] == orig[pi]@ && rows[pj] == orig[pj]@);
        assert(rows[pi].release_rank == Some(a as usize));
        assert(rows[pj].release_rank == Some(b as usize));
        assert(pi != pj);
        if pi < pj {
            assert(rows[pi].name != rows[pj].name);
        } else {
            assert(rows[pj].name != rows[pi].name);
        }
        assert(out[i]@.release_rank->0 <= out[j]@.release_rank->0);
    }
}

proof fn lemma_in_order_from(
    sort: VersionSort,
    out: Seq<VersionRow>,
    orig: Seq<VersionRow>,
    perm: Seq<int>,
    i: int,
    j: int,
)
    requires
        sort != VersionSort::Number,
        is_stable_sort(sort, out, orig, perm),
        0 <= i < j < out.len(),
    ensures
        row_order(sort, out[i]@, out[j]@) <= 0,
    decreases j - i,
{
    if j == i + 1 {
    } else {
        lemma_in_order_from(sort, out, orig, perm, i, j - 1);
        assert(row_order(sort, out[j - 1]@, out[j]@) <= 0);
        lemma_row_order_transitive(sort, out[i]@, out[j - 1]@, out[j]@);
    }
}

// ---------------------------------------------------------------------------
// Labels
// ---------------------------------------------------------------------------

impl VersionSort {
    /// The label of the order in the sort menu.
    pub fn label(self, lang: crate::lang::Language) -> (r: String)
        ensures
            r@ == match self {
                VersionSort::Newest => crate::lang::tr_spec(lang, "Newest"@),
                VersionSort::Number => crate::lang::filled(
                    crate::lang::tr_spec(lang, "Number {0}"@),
                    seq![crate::icons::ARROW_DOWNWARD@],
                ),
                VersionSort::ReleaseDate => crate::lang::tr_spec(lang, "Release date"@),
                VersionSort::LoaderType => crate::lang::tr_spec(lang, "Loader type"@),
                VersionSort::Alphabetical => crate::lang::filled(
                    crate::lang::tr_spec(lang, "A {0} Z"@),
                    seq![crate::icons::ARROW_FORWARD@],
                ),
                VersionSort::AlphabeticalReverse => crate::lang::filled(
                    crate::lang::tr_spec(lang, "Z {0} A"@),
                    seq![crate::icons::ARROW_FORWARD@],
                ),
            },
    {
        let down = [crate::icons::ARROW_DOWNWARD];
        let fwd = [crate::icons::ARROW_FORWARD];
        assert(down@.map_values(|s: &str| s@) =~= seq![crate::icons::ARROW_DOWNWARD@]);
        assert(fwd@.map_values(|s: &str| s@) =~= seq![crate::icons::ARROW_FORWARD@]);
        match self {
            VersionSort::Newest => clone_str(crate::lang::tr(lang, "Newest")),
            VersionSort::Number => crate::lang::tr_fmt(lang, "Number {0}", &down),
            VersionSort::ReleaseDate => clone_str(crate::lang::tr(lang, "Release date")),
            VersionSort::LoaderType => clone_str(crate::lang::tr(lang, "Loader type")),
            VersionSort::Alphabetical => crate::lang::tr_fmt(lang, "A {0} Z", &fwd),
            VersionSort::AlphabeticalReverse => crate::lang::tr_fmt(lang, "Z {0} A", &fwd),
        }
    }
}

impl VersionFilter {
    /// The label of the filter chip.
    pub fn label<'a>(self, lang: crate::lang::Language) -> (r: &'static str)
        ensures
            r@ == crate::lang::tr_spec(
                lang,
                match self {
                    VersionFilter::All => "All"@,
                    VersionFilter::Mojang => "Mojang"@,
                    VersionFilter::Loaders => "Loaders"@,
                    VersionFilter::Release => "Releases"@,
                    VersionFilter::Snapshot => "Snapshots"@,
                    VersionFilter::Old => "Old"@,
                    VersionFilter::Installed => "Installed"@,
                },
            ),
    {
        match self {
            VersionFilter::All => crate::lang::tr(lang, "All"),
            VersionFilter::Mojang => crate::lang::tr(lang, "Mojang"),
            VersionFilter::Loaders => crate::lang::tr(lang, "Loaders"),
            VersionFilter::Release => crate::lang::tr(lang, "Releases"),
            VersionFilter::Snapshot => crate::lang::tr(lang, "Snapshots"),
            VersionFilter::Old => crate::lang::tr(lang, "Old"),
            VersionFilter::Installed => crate::lang::tr(lang, "Installed"),
        }
    }
}

} // verus!
