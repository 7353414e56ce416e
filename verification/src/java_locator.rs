//! Choosing the Java runtime for the game: what `java -version` reports,
//! which runtime is used, and the inventory of installed runtimes.
use vstd::prelude::*;

use crate::text::{
    contains, contains_exec, find_first, find_first_exec, lower, lower_chars, parse_u32,
    parse_u32_exec, push_str_chars, replace_all, replace_exec, slice_chars, split_exec, split_on,
    string_of, string_views, to_chars, trim, trim_str, views, concat2,
};
use crate::ui_text::lines_of;

verus! {

broadcast use vstd::std_specs::vec::group_vec_axioms, vstd::seq::group_seq_axioms;

// ---------------------------------------------------------------------------
// `java -version`
// ---------------------------------------------------------------------------

/// The quoted version token on the first line of `java -version` output
/// (`openjdk version "21.0.5" …` → `21.0.5`).
pub open spec fn full_version_of(output: Seq<char>) -> Option<Seq<char>> {
    let lines = lines_of(output);
    if lines.len() == 0 {
        None
    } else {
        let line = lines[0];
        match find_first(line, seq!['"']) {
            None => None,
            Some(q) => {
                let rest = line.skip(q + 1);
                match find_first(rest, seq!['"']) {
                    None => None,
                    Some(e) => Some(rest.take(e)),
                }
            },
        }
    }
}

/// The major version in a version token: its first dotted part, or for the
/// legacy `1.x` format the second one.
pub open spec fn major_of_token(version: Seq<char>) -> Option<u32> {
    let parts = split_on(version, seq!['.']);
    match parse_u32(parts[0]) {
        None => None,
        Some(first) => if first == 1 {
            if parts.len() > 1 {
                parse_u32(parts[1])
            } else {
                None
            }
        } else {
            Some(first)
        },
    }
}

/// The major version reported by `java -version` output.
pub open spec fn major_version_of(output: Seq<char>) -> Option<u32> {
    match full_version_of(output) {
        Some(v) => major_of_token(v),
        None => None,
    }
}

fn first_line(output: &str) -> (r: Option<Vec<char>>)
    ensures
        match r {
            Some(l) => lines_of(output@).len() > 0 && l@ == lines_of(output@)[0],
            None => lines_of(output@).len() == 0,
        },
{
    let lines = crate::ui_text::lines_exec(output);
    if lines.len() == 0 {
        None
    } else {
        assert(views(lines@)[0] == lines@[0]@);
        Some(slice_chars(lines[0].as_slice(), 0, lines[0].len()))
    }
}

fn full_version_chars(output: &str) -> (r: Option<Vec<char>>)
    ensures
        match r {
            Some(v) => full_version_of(output@) == Some(v@),
            None => full_version_of(output@) is None,
        },
{
    let line = match first_line(output) {
        Some(l) => l,
        None => return None,
    };
    let quote = vec!['"'];
    assert(quote@ =~= seq!['"']);
    let q = match find_first_exec(line.as_slice(), quote.as_slice()) {
        Some(q) => q,
        None => return None,
    };
    let rest = slice_chars(line.as_slice(), q + 1, line.len());
    assert(rest@ =~= line@.skip(q + 1));
    let e = match find_first_exec(rest.as_slice(), quote.as_slice()) {
        Some(e) => e,
        None => return None,
    };
    let v = slice_chars(rest.as_slice(), 0, e);
    assert(v@ =~= rest@.take(e as int));
    Some(v)
}

/// The full version token quoted by `java -version`
/// (`openjdk version "21.0.5" …` -> `21.0.5`).
pub fn parse_java_full_version(output: &str) -> (r: Option<String>)
    ensures
        match r {
            Some(v) => full_version_of(output@) == Some(v@),
            None => full_version_of(output@) is None,
        },
{
    match full_version_chars(output) {
        Some(v) => Some(string_of(v.as_slice())),
        None => None,
    }
}

/// Parse the major version from `java -version` output
/// (e.g. `openjdk version "26.0.1" 2025-04-15` -> 26,
///  `java version "1.8.0_402"` -> 8).
pub fn parse_java_major_version(output: &str) -> (r: Option<u32>)
    ensures
        r == major_version_of(output@),
{
    let v = match full_version_chars(output) {
        Some(v) => v,
        None => return None,
    };
    let dot = vec!['.'];
    assert(dot@ =~= seq!['.']);
    let parts = split_exec(v.as_slice(), dot.as_slice());
    proof {
        crate::text::lemma_split_on_nonempty(v@, seq!['.']);
    }
    let ghost pv = views(parts@);
    assert(pv[0] == parts@[0]@);
    let first = match parse_u32_exec(parts[0].as_slice()) {
        Some(n) => n,
        None => return None,
    };
    if first == 1 {
        if parts.len() > 1 {
            assert(pv[1] == parts@[1]@);
            parse_u32_exec(parts[1].as_slice())
        } else {
            None
        }
    } else {
        Some(first)
    }
}

// ---------------------------------------------------------------------------
// Choosing the runtime
// ---------------------------------------------------------------------------

/// The names of the java executable on an operating system
/// (`std::env::consts::OS`).
pub open spec fn binary_names(os: Seq<char>) -> Seq<Seq<char>> {
    if os == "windows"@ {
        seq!["java.exe"@, "javaw.exe"@]
    } else {
        seq!["java"@]
    }
}

/// The names of the java executable on an operating system
/// (`std::env::consts::OS`).
pub fn java_binary_names(os: &str) -> (r: Vec<&'static str>)
    ensures
        r@.map_values(|s: &str| s@) == binary_names(os@),
{
    if crate::text::str_eq(os, "windows") {
        let r = vec!["java.exe", "javaw.exe"];
        assert(r@.map_values(|s: &str| s@) =~= seq!["java.exe"@, "javaw.exe"@]);
        r
    } else {
        let r = vec!["java"];
        assert(r@.map_values(|s: &str| s@) =~= seq!["java"@]);
        r
    }
}

/// Why no Java runtime could be chosen.
#[derive(Debug, Clone)]
pub enum JavaError {
    /// The configured Java path is not a file (the path given).
    ConfiguredMissing(String),
    /// No Java anywhere.
    NotFound,
    /// The chosen Java did not report its version (its path).
    ProbeFailed(String),
}

impl JavaError {
    /// The message shown for the error.
    pub fn message(&self, lang: crate::lang::Language) -> (r: String)
        ensures
            r@ == match *self {
                JavaError::ConfiguredMissing(p) => crate::lang::filled(
                    crate::lang::tr_spec(lang, "configured Java path does not exist: {0}"@),
                    seq![p@],
                ),
                JavaError::NotFound => crate::lang::tr_spec(
                    lang,
                    "Java not found. Install Java or set a custom path."@,
                ),
                JavaError::ProbeFailed(p) => crate::lang::filled(
                    crate::lang::tr_spec(lang, "failed to probe Java version at {0}"@),
                    seq![p@],
                ),
            },
    {
        match self {
            JavaError::ConfiguredMissing(p) => {
                let args = [p.as_str()];
                assert(args@.map_values(|s: &str| s@) =~= seq![p@]);
                crate::lang::tr_fmt(lang, "configured Java path does not exist: {0}", &args)
            },
            JavaError::NotFound => own(crate::lang::tr(lang, "Java not found. Install Java or set a custom path.")),
            JavaError::ProbeFailed(p) => {
                let args = [p.as_str()];
                assert(args@.map_values(|s: &str| s@) =~= seq![p@]);
                crate::lang::tr_fmt(lang, "failed to probe Java version at {0}", &args)
            },
        }
    }
}

/// A missing configured Java is reported, in every language, by a message
/// that begins `configured Java path does not exist: ` and then names the
/// path.
pub proof fn lemma_missing_java_message(lang: crate::lang::Language, path: Seq<char>)
    ensures
        crate::text::starts_with(
            crate::lang::filled(
                crate::lang::tr_spec(lang, "configured Java path does not exist: {0}"@),
                seq![path],
            ),
            "configured Java path does not exist: "@,
        ),
{
    let key = "configured Java path does not exist: {0}"@;
    let prefix = "configured Java path does not exist: "@;
    reveal_strlit("configured Java path does not exist: {0}");
    reveal_strlit("configured Java path does not exist: ");
    reveal_strlit("{");
    crate::lang::lemma_untranslated_key(lang, key);
    let ph = crate::lang::placeholder(0);
    let args = seq![path];
    assert(args.len() == 1 && args.last() == path);
    assert(args.drop_last() =~= Seq::<Seq<char>>::empty());
    assert(crate::lang::filled(key, args.drop_last()) == key);
    assert(crate::lang::filled(key, args) == replace_all(key, ph, path));
    assert(ph[0] == '{');
    let rest = key.skip(prefix.len() as int);
    assert(key =~= prefix + rest);
    crate::text::lemma_replace_all_keeps_prefix(prefix, rest, ph, path);
    let out = replace_all(key, ph, path);
    assert(out.take(prefix.len() as int) =~= prefix);
}

/// What is known of the machine when choosing Java: whether the configured
/// path is a file, the bundled runtime next to the launcher, the best
/// installed runtime for the required major version, and `java` on `PATH`.
#[derive(Debug, Clone)]
pub struct JavaCandidates {
    pub configured_is_file: bool,
    pub bundled: Option<String>,
    pub compatible: Option<String>,
    pub on_path: Option<String>,
}

/// The Java used for launching, in order of preference: an explicitly
/// configured path (which must exist), the bundled runtime, the best match
/// for the required version, anything on `PATH`.
pub open spec fn java_choice(
    configured: Option<Seq<char>>,
    required_major: Option<u32>,
    c: JavaCandidates,
) -> Result<Seq<char>, ()> {
    if configured is Some && trim(configured->0).len() > 0 {
        if c.configured_is_file {
            Ok(configured->0)
        } else {
            Err(())
        }
    } else if c.bundled is Some {
        Ok(c.bundled->0@)
    } else if required_major is Some && c.compatible is Some {
        Ok(c.compatible->0@)
    } else if c.on_path is Some {
        Ok(c.on_path->0@)
    } else {
        Err(())
    }
}

/// A configured Java path that is not blank decides alone: it is chosen
/// when it is a file and refused otherwise, whatever the required version
/// and whichever other runtimes were found.
pub proof fn lemma_configured_java_decides(
    configured: Seq<char>,
    required_major: Option<u32>,
    c: JavaCandidates,
)
    requires
        trim(configured).len() > 0,
    ensures
        java_choice(Some(configured), required_major, c) == if c.configured_is_file {
            Ok::<Seq<char>, ()>(configured)
        } else {
            Err::<Seq<char>, ()>(())
        },
{
}

/// Without a configured path (or with a blank one), the bundled runtime
/// wins; without it, a runtime compatible with the required major version
/// is chosen ahead of whatever `java` is on `PATH`, which is taken only when
/// no version is required or no compatible runtime was found; with none of
/// them there is no Java.
pub proof fn lemma_java_fallback_order(
    configured: Option<Seq<char>>,
    required_major: Option<u32>,
    c: JavaCandidates,
)
    requires
        configured is None || trim(configured->0).len() == 0,
    ensures
        c.bundled matches Some(b) ==> java_choice(configured, required_major, c) == Ok::<Seq<char>, ()>(b@),
        c.bundled is None && required_major is Some && c.compatible is Some ==> java_choice(
            configured,
            required_major,
            c,
        ) == Ok::<Seq<char>, ()>(c.compatible->0@),
        c.bundled is None && (required_major is None || c.compatible is None) ==> java_choice(
            configured,
            required_major,
            c,
        ) == match c.on_path {
            Some(p) => Ok::<Seq<char>, ()>(p@),
            None => Err::<Seq<char>, ()>(()),
        },
{
}

fn own(s: &str) -> (r: String)
    ensures
        r@ == s@,
{
    string_of(to_chars(s).as_slice())
}

/// Pick the Java executable used for launching: explicit setting, bundled
/// runtime, or the best match for the game's required version, or `java` on
/// `PATH`.
pub fn select_java(
    configured: Option<&str>,
    required_major: Option<u32>,
    candidates: JavaCandidates,
) -> (r: Result<String, JavaError>)
    ensures
        ({
            let cfg = match configured {
                Some(p) => Some(p@),
                None => None,
            };
            let choice = java_choice(cfg, required_major, candidates);
            &&& r is Ok <==> choice is Ok
            &&& r matches Ok(p) ==> choice == Ok::<Seq<char>, ()>(p@)
            &&& r matches Err(JavaError::ConfiguredMissing(p)) ==> cfg == Some(p@)
            &&& r matches Err(JavaError::NotFound) ==> !(cfg is Some && trim(cfg->0).len() > 0)
            &&& r !is Err || !(r->Err_0 is ProbeFailed)
        }),
{
    match configured {
        Some(path) => {
            if trim_str(path).len() > 0 {
                if candidates.configured_is_file {
                    return Ok(own(path));
                }
                return Err(JavaError::ConfiguredMissing(own(path)));
            }
        },
        None => {},
    }
    if let Some(b) = candidates.bundled {
        return Ok(b);
    }
    if required_major.is_some() {
        if let Some(c) = candidates.compatible {
            return Ok(c);
        }
    }
    if let Some(p) = candidates.on_path {
        return Ok(p);
    }
    Err(JavaError::NotFound)
}

/// The major version of the selected Java, from its `java -version` probe.
pub fn selected_java_major(java_exe: &str, probed: Option<u32>) -> (r: Result<u32, JavaError>)
    ensures
        match r {
            Ok(m) => probed == Some(m),
            Err(JavaError::ProbeFailed(p)) => probed is None && p@ == java_exe@,
            Err(_) => false,
        },
{
    match probed {
        Some(m) => Ok(m),
        None => Err(JavaError::ProbeFailed(own(java_exe))),
    }
}

// ---------------------------------------------------------------------------
// Installed runtimes
// ---------------------------------------------------------------------------

/// A Java runtime found on this machine.
#[derive(Debug, Clone)]
pub struct InstalledJava {
    /// Path to the `java` executable (what the launch plan consumes).
    pub path: String,
    /// Directory that contains `bin/java` (the runtime home).
    pub home: String,
    /// Major version (`8`, `21`, `26`…).
    pub major: u32,
    /// Full version string from `java -version` (`21.0.5`, `1.8.0_402`).
    pub version: String,
    /// Short vendor hint derived from the install location.
    pub vendor: String,
}

impl InstalledJava {
    /// Combo-box label, e.g. `Temurin 21.0.5`.
    pub fn label(&self) -> (r: String)
        ensures
            r@ == self.vendor@ + " "@ + self.version@,
    {
        let mut out = to_chars(self.vendor.as_str());
        push_str_chars(&mut out, " ");
        push_str_chars(&mut out, self.version.as_str());
        string_of(out.as_slice())
    }
}

/// The directory part of a path: the text before its last `/` or `\`
/// (empty when there is none).
pub open spec fn parent_of(p: Seq<char>) -> Seq<char>
    decreases p.len(),
{
    if p.len() == 0 {
        p
    } else if p.last() == '/' || p.last() == '\\' {
        p.drop_last()
    } else {
        parent_of(p.drop_last())
    }
}

pub open spec fn vendor_needles() -> Seq<Seq<char>> {
    seq![
        "temurin"@,
        "eclipse adoptium"@,
        "corretto"@,
        "zulu"@,
        "liberica"@,
        "graalvm"@,
        "microsoft"@,
        "jdk-1.8"@,
        "jdk1."@,
        "oracle"@,
        "jdk-"@,
    ]
}

pub open spec fn vendor_labels() -> Seq<Seq<char>> {
    seq![
        "Temurin"@,
        "Temurin"@,
        "Corretto"@,
        "Zulu"@,
        "Liberica"@,
        "GraalVM"@,
        "Microsoft"@,
        "Oracle"@,
        "Oracle"@,
        "Oracle"@,
        "Oracle"@,
    ]
}

/// The label of the first needle at or after `k` found in `hay`.
pub open spec fn vendor_from(hay: Seq<char>, k: int) -> Seq<char>
    decreases 11 - k,
{
    if k < 0 || k >= 11 {
        if contains(hay, "runtimes"@) {
            "RustLauncher"@
        } else {
            "Java"@
        }
    } else if contains(hay, vendor_needles()[k]) {
        vendor_labels()[k]
    } else {
        vendor_from(hay, k + 1)
    }
}

/// A vendor label guessed from a runtime home: the parent folder and the
/// home itself, ASCII-lowercased, are searched for known vendor names
/// (`Eclipse Adoptium`, `zulu-21`, `corretto`, …), first match in table
/// order; the launcher's own `runtimes` folder and then `Java` otherwise.
pub open spec fn vendor_of(home: Seq<char>) -> Seq<char> {
    vendor_from(lower(parent_of(home) + " "@ + home), 0)
}

fn parent_exec(p: &[char]) -> (r: Vec<char>)
    ensures
        r@ == parent_of(p@),
{
    let mut k: usize = p.len();
    assert(p@.take(p.len() as int) =~= p@);
    while k > 0
        invariant
            k <= p.len(),
            parent_of(p@) == parent_of(p@.take(k as int)),
        decreases k,
    {
        assert(p@.take(k as int).drop_last() =~= p@.take(k - 1));
        if p[k - 1] == '/' || p[k - 1] == '\\' {
            let r = slice_chars(p, 0, k - 1);
            assert(r@ =~= p@.take(k - 1));
            return r;
        }
        k -= 1;
    }
    Vec::new()
}

/// Guess a vendor label from the install path (parent folder names like
/// `Eclipse Adoptium`, dir names like `zulu-21`, `corretto`, `liberica`).
pub fn vendor_from_path(home: &str) -> (r: String)
    ensures
        r@ == vendor_of(home@),
{
    let hc = to_chars(home);
    let mut hay = parent_exec(hc.as_slice());
    push_str_chars(&mut hay, " ");
    crate::text::push_all(&mut hay, hc.as_slice());
    let hay = lower_chars(hay.as_slice());
    let needles: Vec<&str> = vec![
        "temurin",
        "eclipse adoptium",
        "corretto",
        "zulu",
        "liberica",
        "graalvm",
        "microsoft",
        "jdk-1.8",
        "jdk1.",
        "oracle",
        "jdk-",
    ];
    let labels: Vec<&str> = vec![
        "Temurin",
        "Temurin",
        "Corretto",
        "Zulu",
        "Liberica",
        "GraalVM",
        "Microsoft",
        "Oracle",
        "Oracle",
        "Oracle",
        "Oracle",
    ];
    assert(needles@.map_values(|s: &str| s@) =~= vendor_needles());
    assert(labels@.map_values(|s: &str| s@) =~= vendor_labels());
    let mut k: usize = 0;
    while k < 11
        invariant
            k <= 11,
            needles.len() == 11,
            labels.len() == 11,
            needles@.map_values(|s: &str| s@) == vendor_needles(),
            labels@.map_values(|s: &str| s@) == vendor_labels(),
            vendor_of(home@) == vendor_from(hay@, k as int),
        decreases 11 - k,
    {
        assert(vendor_needles()[k as int] == needles@[k as int]@);
        assert(vendor_labels()[k as int] == labels@[k as int]@);
        if contains_exec(hay.as_slice(), to_chars(needles[k]).as_slice()) {
            return own(labels[k]);
        }
        k += 1;
    }
    if contains_exec(hay.as_slice(), to_chars("runtimes").as_slice()) {
        own("RustLauncher")
    } else {
        own("Java")
    }
}

// ---------------------------------------------------------------------------
// The inventory
// ---------------------------------------------------------------------------

pub open spec fn key_view(k: Option<String>) -> Option<Seq<char>> {
    match k {
        Some(s) => Some(s@),
        None => None,
    }
}

/// Whether a runtime home with key `key` is already in the inventory whose
/// homes have keys `keys` (a home without a key is never a duplicate).
pub open spec fn listed(keys: Seq<Option<String>>, key: Option<String>) -> bool {
    key is Some && exists|i: int| 0 <= i < keys.len() && key_view(#[trigger] keys[i]) == key_view(key)
}

/// Whether a runtime home with `key` is already listed.
pub fn already_listed(keys: &Vec<Option<String>>, key: &Option<String>) -> (r: bool)
    ensures
        r == listed(keys@, *key),
{
    let k = match key {
        Some(k) => k,
        None => return false,
    };
    let mut i: usize = 0;
    while i < keys.len()
        invariant
            i <= keys.len(),
            key_view(*key) == Some(k@),
            forall|j: int| 0 <= j < i ==> key_view(#[trigger] keys@[j]) != key_view(*key),
        decreases keys.len() - i,
    {
        match &keys[i] {
            Some(x) => {
                if crate::text::str_eq(x.as_str(), k.as_str()) {
                    assert(key_view(keys@[i as int]) == key_view(*key));
                    return true;
                }
            },
            None => {},
        }
        i += 1;
    }
    false
}

/// Home key `inner` lies inside home key `outer` (a `<jdk>/jre` inside its
/// `<jdk>`): it extends it by a `\`-separated part.
pub open spec fn nested_key(outer: Seq<char>, inner: Seq<char>) -> bool {
    crate::text::starts_with(inner, outer) && inner.len() > outer.len() && inner[outer.len() as int]
        == '\\'
}

/// Runtime `j` is nested inside another found runtime.
pub open spec fn is_nested(keys: Seq<Option<String>>, j: int) -> bool {
    exists|i: int|
        0 <= i < keys.len() && i != j && (#[trigger] keys[i]) is Some && keys[j] is Some && nested_key(
            keys[i]->0@,
            keys[j]->0@,
        )
}

/// Runtime `j` has the same home as an earlier found runtime.
pub open spec fn is_repeat(keys: Seq<Option<String>>, j: int) -> bool {
    exists|i: int|
        0 <= i < j && (#[trigger] keys[i]) is Some && keys[j] is Some && keys[i]->0@ == keys[j]->0@
}

/// Runtime `j` is left out of the inventory: nested inside another found
/// runtime, or a second find of an already found home.
pub open spec fn is_dropped(keys: Seq<Option<String>>, j: int) -> bool {
    is_nested(keys, j) || is_repeat(keys, j)
}

/// The positions of the runtimes kept, in order.
pub open spec fn outer_indices(keys: Seq<Option<String>>, n: int) -> Seq<int>
    decreases n,
{
    if n <= 0 {
        Seq::empty()
    } else if is_dropped(keys, n - 1) {
        outer_indices(keys, n - 1)
    } else {
        outer_indices(keys, n - 1).push(n - 1)
    }
}

/// The runtimes kept (neither nested nor found twice), in order.
pub open spec fn outer_runtimes(found: Seq<InstalledJava>, keys: Seq<Option<String>>, n: int) -> Seq<
    InstalledJava,
>
    decreases n,
{
    if n <= 0 {
        Seq::empty()
    } else if is_dropped(keys, n - 1) {
        outer_runtimes(found, keys, n - 1)
    } else {
        outer_runtimes(found, keys, n - 1).push(found[n - 1])
    }
}

/// The inventory keeps, in scan order, the runtimes at `outer_indices`; no
/// two of them have the same home, and none lies inside another found
/// runtime's home.
pub proof fn lemma_inventory_homes(found: Seq<InstalledJava>, keys: Seq<Option<String>>, n: int)
    requires
        0 <= n <= found.len(),
        found.len() == keys.len(),
    ensures
        ({
            let idx = outer_indices(keys, n);
            &&& outer_runtimes(found, keys, n).len() == idx.len()
            &&& forall|a: int| 0 <= a < idx.len() ==> 0 <= #[trigger] idx[a] < n
                && outer_runtimes(found, keys, n)[a] == found[idx[a]]
                && !is_nested(keys, idx[a])
            &&& forall|a: int, b: int| 0 <= a < b < idx.len() ==> (#[trigger] idx[a]) < (#[trigger] idx[b])
            &&& forall|a: int, b: int|
                0 <= a < b < idx.len() && keys[idx[a]] is Some && keys[idx[b]] is Some ==> (
                #[trigger] keys[idx[a]])->0@ != (#[trigger] keys[idx[b]])->0@
        }),
    decreases n,
{
    if n > 0 {
        lemma_inventory_homes(found, keys, n - 1);
        let idx = outer_indices(keys, n);
        let prev = outer_indices(keys, n - 1);
        if !is_dropped(keys, n - 1) {
            assert(idx == prev.push(n - 1));
            assert forall|a: int, b: int|
                0 <= a < b < idx.len() && keys[idx[a]] is Some && keys[idx[b]] is Some implies (
                #[trigger] keys[idx[a]])->0@ != (#[trigger] keys[idx[b]])->0@ by {
                if b == idx.len() - 1 {
                    assert(idx[a] == prev[a]);
                    assert(0 <= idx[a] < n - 1);
                    if keys[idx[a]]->0@ == keys[n - 1]->0@ {
                        assert(is_repeat(keys, n - 1));
                    }
                } else {
                    assert(idx[a] == prev[a] && idx[b] == prev[b]);
                }
            }
        }
    }
}

impl crate::sorting::SortKey for InstalledJava {
    /// Newest major version first; ties by path.
    open spec fn order(a: InstalledJava, b: InstalledJava) -> int {
        if a.major > b.major {
            -1
        } else if a.major < b.major {
            1
        } else {
            crate::classpath::path_order(a.path@, b.path@)
        }
    }

    proof fn lemma_order_antisymmetric(a: InstalledJava, b: InstalledJava) {
        crate::classpath::lemma_components_order_antisymmetric(
            crate::classpath::components(a.path@),
            crate::classpath::components(b.path@),
        );
    }

    proof fn lemma_order_transitive(a: InstalledJava, b: InstalledJava, c: InstalledJava) {
        if a.major == b.major && b.major == c.major {
            crate::classpath::lemma_components_order_transitive(
                crate::classpath::components(a.path@),
                crate::classpath::components(b.path@),
                crate::classpath::components(c.path@),
            );
        }
    }

    fn compare(&self, other: &InstalledJava) -> (r: i8) {
        if self.major > other.major {
            -1
        } else if self.major < other.major {
            1
        } else {
            crate::classpath::path_order_exec(self.path.as_str(), other.path.as_str())
        }
    }
}

fn nested_key_exec(outer: &str, inner: &str) -> (r: bool)
    ensures
        r == nested_key(outer@, inner@),
{
    let o = to_chars(outer);
    let i = to_chars(inner);
    crate::text::starts_with_exec(i.as_slice(), o.as_slice()) && i.len() > o.len() && i[o.len()]
        == '\\'
}

/// The finished inventory: runtimes nested inside another found runtime
/// dropped (a `<jdk>/jre` inside an already-found `<jdk>`, in either scan
/// order, is the same installation), and so are second finds of a home
/// already found; then newest first with ties by path.
/// `keys[i]` is the normalised home of `found[i]`.
pub fn finish_inventory(found: Vec<InstalledJava>, keys: &Vec<Option<String>>) -> (r: Vec<InstalledJava>)
    requires
        keys.len() == found.len(),
    ensures
        exists|perm: Seq<int>| crate::sorting::is_stable_sorted(
            r@,
            outer_runtimes(found@, keys@, found.len() as int),
            perm,
        ),
{
    let ghost orig = found@;
    let n = found.len();
    let mut found = found;
    let mut kept: Vec<InstalledJava> = Vec::new();
    let mut j: usize = 0;
    assert(orig.skip(0) =~= orig);
    while j < n
        invariant
            n == orig.len(),
            keys.len() == n,
            j <= n,
            found@ == orig.skip(j as int),
            kept@ == outer_runtimes(orig, keys@, j as int),
        decreases n - j,
    {
        let e = found.remove(0);
        assert(e == orig[j as int]);
        assert(found@ =~= orig.skip(j + 1));
        let mut nested = false;
        let mut repeat = false;
        match &keys[j] {
            Some(kj) => {
                let mut i: usize = 0;
                while i < n
                    invariant
                        i <= n,
                        keys.len() == n,
                        j < n,
                        keys@[j as int] is Some,
                        kj@ == keys@[j as int]->0@,
                        nested == exists|t: int|
                            0 <= t < i && t != j && (#[trigger] keys@[t]) is Some && nested_key(
                                keys@[t]->0@,
                                kj@,
                            ),
                        repeat == exists|t: int|
                            0 <= t < i && t < j && (#[trigger] keys@[t]) is Some && keys@[t]->0@ == kj@,
                    decreases n - i,
                {
                    if i != j {
                        match &keys[i] {
                            Some(ki) => {
                                if nested_key_exec(ki.as_str(), kj.as_str()) {
                                    nested = true;
                                }
                                if i < j && crate::text::str_eq(ki.as_str(), kj.as_str()) {
                                    repeat = true;
                                }
                            },
                            None => {},
                        }
                    }
                    proof {
                        if nested_key(keys@[i as int]->0@, kj@) && i != j && keys@[i as int] is Some {
                            assert(nested);
                        }
                        if i < j && keys@[i as int] is Some && keys@[i as int]->0@ == kj@ {
                            assert(repeat);
                        }
                    }
                    i += 1;
                }
                assert(nested == is_nested(keys@, j as int));
                assert(repeat == is_repeat(keys@, j as int));
            },
            None => {},
        }
        if !nested && !repeat {
            kept.push(e);
        }
        j += 1;
    }
    crate::sorting::stable_sort(&mut kept);
    kept
}

// ---------------------------------------------------------------------------
// Where runtimes are looked for
// ---------------------------------------------------------------------------

pub open spec fn opt_ref_view(o: Option<&str>) -> Option<Seq<char>> {
    match o {
        Some(s) => Some(s@),
        None => None,
    }
}

/// The well-known install roots (Windows-oriented, harmless elsewhere),
/// then the per-user ones under `LOCALAPPDATA` when it is set.
pub open spec fn java_roots(local_app_data: Option<Seq<char>>) -> Seq<Seq<char>> {
    seq![
        "C:/Program Files/Java"@,
        "C:/Program Files (x86)/Java"@,
        "C:/Program Files/Eclipse Adoptium"@,
        "C:/Program Files/Amazon Corretto"@,
        "C:/Program Files/Zulu"@,
        "C:/Program Files/Microsoft"@,
    ] + match local_app_data {
        Some(l) => seq![
            crate::text::path_join(l, "Programs/Eclipse Adoptium"@),
            crate::text::path_join(l, "Programs/Java"@),
        ],
        None => Seq::empty(),
    }
}

/// The common JRE/JDK installation roots, given `LOCALAPPDATA`.
pub fn common_java_roots(local_app_data: Option<&str>) -> (r: Vec<String>)
    ensures
        string_views(r@) == java_roots(opt_ref_view(local_app_data)),
{
    let mut r: Vec<String> = Vec::new();
    r.push(own("C:/Program Files/Java"));
    r.push(own("C:/Program Files (x86)/Java"));
    r.push(own("C:/Program Files/Eclipse Adoptium"));
    r.push(own("C:/Program Files/Amazon Corretto"));
    r.push(own("C:/Program Files/Zulu"));
    r.push(own("C:/Program Files/Microsoft"));
    match local_app_data {
        Some(l) => {
            r.push(crate::text::join_path(l, "Programs/Eclipse Adoptium"));
            r.push(crate::text::join_path(l, "Programs/Java"));
        },
        None => {},
    }
    assert(string_views(r@) =~= java_roots(opt_ref_view(local_app_data)));
    r
}

/// The extra scan roots: the launcher's own runtime downloads, then
/// `JAVA_HOME` when it is set and not empty.
pub fn extra_java_roots(runtimes_dir: Option<&str>, java_home: Option<&str>) -> (r: Vec<String>)
    ensures
        string_views(r@) == (match runtimes_dir {
            Some(d) => seq![d@],
            None => Seq::<Seq<char>>::empty(),
        }) + (match java_home {
            Some(h) => if h@.len() > 0 {
                seq![h@]
            } else {
                Seq::<Seq<char>>::empty()
            },
            None => Seq::<Seq<char>>::empty(),
        }),
{
    let mut r: Vec<String> = Vec::new();
    match runtimes_dir {
        Some(d) => r.push(own(d)),
        None => {},
    }
    match java_home {
        Some(h) => {
            if !h.is_empty() {
                r.push(own(h));
            }
        },
        None => {},
    }
    assert(string_views(r@) =~= (match runtimes_dir {
        Some(d) => seq![d@],
        None => Seq::<Seq<char>>::empty(),
    }) + (match java_home {
        Some(h) => if h@.len() > 0 {
            seq![h@]
        } else {
            Seq::<Seq<char>>::empty()
        },
        None => Seq::<Seq<char>>::empty(),
    }));
    r
}

/// Every `<dir>/<name>`, directory by directory, each directory with every
/// name in order.
pub open spec fn files_in(dirs: Seq<Seq<char>>, names: Seq<Seq<char>>) -> Seq<Seq<char>>
    decreases dirs.len(),
{
    if dirs.len() == 0 {
        Seq::empty()
    } else {
        files_in(dirs.drop_last(), names) + names.map_values(|n: Seq<char>| crate::text::path_join(dirs.last(), n))
    }
}

/// The java executables to try in the given `bin` directories, on an
/// operating system (`std::env::consts::OS`).
pub fn executables_in(bin_dirs: &Vec<String>, os: &str) -> (r: Vec<String>)
    ensures
        string_views(r@) == files_in(string_views(bin_dirs@), binary_names(os@)),
{
    let names = java_binary_names(os);
    let ghost ns = names@.map_values(|s: &str| s@);
    let ghost ds = string_views(bin_dirs@);
    let mut r: Vec<String> = Vec::new();
    let mut i: usize = 0;
    while i < bin_dirs.len()
        invariant
            i <= bin_dirs.len(),
            ns == names@.map_values(|s: &str| s@),
            ds == string_views(bin_dirs@),
            string_views(r@) == files_in(ds.take(i as int), ns),
        decreases bin_dirs.len() - i,
    {
        let ghost before = string_views(r@);
        let mut k: usize = 0;
        while k < names.len()
            invariant
                k <= names.len(),
                i < bin_dirs.len(),
                ns == names@.map_values(|s: &str| s@),
                ds == string_views(bin_dirs@),
                string_views(r@) == before + ns.take(k as int).map_values(
                    |n: Seq<char>| crate::text::path_join(ds[i as int], n),
                ),
            decreases names.len() - k,
        {
            let d = to_chars(bin_dirs[i].as_str());
            let n = to_chars(names[k]);
            let p = crate::text::join_chars(d.as_slice(), n.as_slice());
            let ghost rv = string_views(r@);
            let f = string_of(p.as_slice());
            r.push(f);
            proof {
                assert(ns[k as int] == names@[k as int]@);
                assert(ds[i as int] == bin_dirs@[i as int]@);
                assert(f@ == crate::text::path_join(ds[i as int], ns[k as int]));
                assert(string_views(r@) =~= rv.push(f@));
                assert(ns.take(k + 1) =~= ns.take(k as int).push(ns[k as int]));
                assert(string_views(r@) =~= before + ns.take(k + 1).map_values(
                    |n: Seq<char>| crate::text::path_join(ds[i as int], n),
                ));
            }
            k += 1;
        }
        proof {
            assert(ns.take(names.len() as int) =~= ns);
            assert(ds.take(i + 1).drop_last() =~= ds.take(i as int));
            assert(ds.take(i + 1).last() == ds[i as int]);
        }
        i += 1;
    }
    assert(ds.take(bin_dirs.len() as int) =~= ds);
    r
}

/// The runtime `find_compatible_java` settles on among the probed ones
/// (major version, path), in probing order: the highest major version not
/// above `max_version`; the first found among equals.
pub open spec fn is_best_compatible(found: Seq<(u32, String)>, max_version: u32, i: int) -> bool {
    &&& 0 <= i < found.len()
    &&& found[i].0 <= max_version
    &&& forall|j: int| 0 <= j < found.len() && found[j].0 <= max_version ==> found[j].0 <= found[i].0
    &&& forall|j: int| 0 <= j < i && found[j].0 <= max_version ==> found[j].0 < found[i].0
}

/// The highest probed Java not above `max_version`, the first one found
/// among equals; `found` lists (major version, path) in probing order.
pub fn best_compatible(found: &Vec<(u32, String)>, max_version: u32) -> (r: Option<String>)
    ensures
        match r {
            Some(p) => exists|i: int| is_best_compatible(found@, max_version, i) && p@ == found@[i].1@,
            None => forall|j: int| 0 <= j < found.len() ==> found@[j].0 > max_version,
        },
{
    let mut best: Option<usize> = None;
    let mut i: usize = 0;
    while i < found.len()
        invariant
            i <= found.len(),
            match best {
                None => forall|j: int| 0 <= j < i ==> found@[j].0 > max_version,
                Some(b) => b < i && found@[b as int].0 <= max_version && (forall|j: int|
                    0 <= j < i && found@[j].0 <= max_version ==> found@[j].0 <= found@[b as int].0)
                    && (forall|j: int| 0 <= j < b && found@[j].0 <= max_version ==> found@[j].0
                    < found@[b as int].0),
            },
        decreases found.len() - i,
    {
        let m = found[i].0;
        if m <= max_version {
            match best {
                None => {
                    best = Some(i);
                },
                Some(b) => {
                    if m > found[b].0 {
                        best = Some(i);
                    }
                },
            }
        }
        i += 1;
    }
    match best {
        Some(b) => {
            assert(is_best_compatible(found@, max_version, b as int));
            Some(own(found[b].1.as_str()))
        },
        None => None,
    }
}

/// Whether `p` contains a path separator (`/` or `\`).
pub open spec fn has_separator(p: Seq<char>) -> bool {
    exists|i: int| 0 <= i < p.len() && (p[i] == '/' || p[i] == '\\')
}

/// Where a probed executable is listed: its path with `/` unified to `\`
/// (roots are scanned with `/`, `PATH` entries arrive with `\`), and its
/// runtime home, two levels up (`<home>\bin\java.exe`); a bare file name is
/// its own home.
pub open spec fn runtime_location(java_exe: Seq<char>) -> (Seq<char>, Seq<char>) {
    let path = replace_all(java_exe, "/"@, "\\"@);
    let home = if has_separator(path) {
        parent_of(parent_of(path))
    } else {
        path
    };
    (path, home)
}

/// The listed path and the runtime home of a probed java executable.
pub fn locate_runtime(java_exe: &str) -> (r: (String, String))
    ensures
        (r.0@, r.1@) == runtime_location(java_exe@),
{
    proof {
        reveal_strlit("/");
        reveal_strlit("\\");
    }
    let slash = to_chars("/");
    let back = to_chars("\\");
    let exe = to_chars(java_exe);
    let path = replace_exec(exe.as_slice(), slash.as_slice(), back.as_slice());
    let mut sep = false;
    let mut i: usize = 0;
    while i < path.len()
        invariant
            i <= path.len(),
            sep == exists|j: int| 0 <= j < i && (path@[j] == '/' || path@[j] == '\\'),
        decreases path.len() - i,
    {
        if path[i] == '/' || path[i] == '\\' {
            sep = true;
        }
        i += 1;
    }
    let home = if sep {
        let up = parent_exec(path.as_slice());
        parent_exec(up.as_slice())
    } else {
        slice_chars(path.as_slice(), 0, path.len())
    };
    proof {
        assert(path@.take(path.len() as int) =~= path@);
    }
    (string_of(path.as_slice()), string_of(home.as_slice()))
}

/// The dedup key of a runtime home, from its canonicalized path: lowercase,
/// with `/` unified to `\`.
pub fn canonical_key(resolved: &str) -> (r: String)
    ensures
        r@ == replace_all(crate::text::unicode_lowercase(resolved@), "/"@, "\\"@),
{
    proof {
        reveal_strlit("/");
    }
    let lowered = crate::text::to_lowercase(resolved);
    let slash = to_chars("/");
    let back = to_chars("\\");
    let k = replace_exec(to_chars(lowered.as_str()).as_slice(), slash.as_slice(), back.as_slice());
    string_of(k.as_slice())
}

} // verus!
