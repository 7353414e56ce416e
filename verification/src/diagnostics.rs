//! Diagnostics: local system checks (platform, game directory, Java
//! runtimes) and network probes (DNS, HTTP reachability, TCP connects). The
//! probes themselves are run by the program around the library; this module
//! orders the checks and turns each outcome into a result line and report.
use vstd::prelude::*;

use crate::lang::{filled, tr, tr_fmt, tr_spec, Language};
use crate::text::{dec, push_dec, push_str_chars, string_of, to_chars, trim, trim_str, join_with, join_strings, string_views};

verus! {

broadcast use vstd::std_specs::vec::group_vec_axioms, vstd::seq::group_seq_axioms;

/// One finished check.
#[derive(Debug, Clone)]
pub struct CheckResult {
    pub name: String,
    pub ok: bool,
    pub detail: String,
}

/// Launcher state the local checks need.
#[derive(Debug, Clone)]
pub struct DiagInput {
    /// Configured game root directory (empty = not configured).
    pub game_directory: String,
    /// News feed site base URL (empty = no feed check).
    pub news_url: String,
    /// Explicitly selected Java executable, if a concrete runtime is picked.
    pub java_path: Option<String>,
    /// Launcher home directory; its `runtimes/` folder is scanned too.
    pub home_dir: Option<String>,
}

/// What a diagnostic check probes.
#[derive(Debug, Clone)]
pub enum DiagCheck {
    Platform,
    GameDir(String),
    Runtimes(Option<String>),
    SelectedJava(Option<String>),
    Dns(String),
    Http(String),
    Tcp(String),
}

/// A check to run: the name shown while it is pending, and what it probes.
#[derive(Debug, Clone)]
pub struct DiagTask {
    pub name: String,
    pub check: DiagCheck,
}

fn own(s: &str) -> (r: String)
    ensures
        r@ == s@,
{
    string_of(to_chars(s).as_slice())
}

fn concat(a: &str, b: &str) -> (r: String)
    ensures
        r@ == a@ + b@,
{
    crate::text::concat2(a, b)
}

fn tr_owned(lang: Language, key: &str) -> (r: String)
    ensures
        r@ == tr_spec(lang, key@),
{
    own(tr(lang, key))
}

// ---------------------------------------------------------------------------
// The suite
// ---------------------------------------------------------------------------

pub open spec fn dns_hosts() -> Seq<Seq<char>> {
    seq![
        "piston-meta.mojang.com"@,
        "api.mojang.com"@,
        "resources.download.minecraft.net"@,
        "libraries.minecraft.net"@,
        "sessionserver.mojang.com"@,
        "textures.minecraft.net"@,
    ]
}

pub open spec fn test_urls() -> Seq<Seq<char>> {
    seq![
        "https://piston-meta.mojang.com/mc/game/version_manifest_v2.json"@,
        "https://launchermeta.mojang.com/mc/game/version_manifest_v2.json"@,
        "https://api.modrinth.com/v2/projects?limit=1"@,
    ]
}

pub open spec fn test_servers() -> Seq<Seq<char>> {
    seq!["mc.hypixel.net:25565"@, "google.com:80"@]
}

/// `s` without trailing `/`s.
pub open spec fn trim_slashes(s: Seq<char>) -> Seq<char>
    decreases s.len(),
{
    if s.len() > 0 && s.last() == '/' {
        trim_slashes(s.drop_last())
    } else {
        s
    }
}

/// The news feed URL checked, if the launcher has a news site.
pub open spec fn news_check_url(news_url: Seq<char>) -> Option<Seq<char>> {
    let base = trim_slashes(trim(news_url));
    if base.len() > 0 {
        Some(base + "/api/news"@)
    } else {
        None
    }
}

pub struct TaskView {
    pub name: Seq<char>,
    pub check: DiagCheck,
}

/// The names of the checks, in the order they are run: platform, game
/// directory, Java runtimes, selected Java, a DNS lookup per Minecraft host,
/// an HTTP request per service (plus the news feed when configured), a TCP
/// connect per test server.
pub open spec fn suite_names(lang: Language, news_url: Seq<char>) -> Seq<Seq<char>> {
    seq![
        tr_spec(lang, "Platform"@),
        tr_spec(lang, "Game directory"@),
        tr_spec(lang, "Detected Java runtimes"@),
        tr_spec(lang, "Selected Java"@),
    ] + dns_hosts().map_values(|h: Seq<char>| "DNS "@ + h) + test_urls().map_values(
        |u: Seq<char>| "HTTP "@ + u,
    ) + match news_check_url(news_url) {
        Some(u) => seq!["HTTP "@ + u],
        None => Seq::empty(),
    } + test_servers().map_values(|s: Seq<char>| "TCP "@ + s)
}

fn trim_slashes_exec(s: Vec<char>) -> (r: Vec<char>)
    ensures
        r@ == trim_slashes(s@),
{
    let mut k = s.len();
    assert(s@.take(s.len() as int) =~= s@);
    while k > 0 && s[k - 1] == '/'
        invariant
            k <= s.len(),
            trim_slashes(s@) == trim_slashes(s@.take(k as int)),
        decreases k,
    {
        assert(s@.take(k as int).drop_last() =~= s@.take(k - 1));
        k -= 1;
    }
    let r = crate::text::slice_chars(s.as_slice(), 0, k);
    assert(r@ =~= s@.take(k as int));
    r
}

fn push_task(tasks: &mut Vec<DiagTask>, name: String, check: DiagCheck)
    ensures
        final(tasks)@.len() == old(tasks)@.len() + 1,
        forall|i: int| 0 <= i < old(tasks)@.len() ==> final(tasks)@[i] == old(tasks)@[i],
        final(tasks)@.last().name@ == name@,
        final(tasks)@.last().check == check,
{
    tasks.push(DiagTask { name, check });
}

pub open spec fn task_names(t: Seq<DiagTask>) -> Seq<Seq<char>> {
    t.map_values(|x: DiagTask| x.name@)
}

/// The ordered list of checks, without running them; the caller runs each
/// task in the background so results stream in one by one.
pub fn suite(lang: Language, input: &DiagInput) -> (r: Vec<DiagTask>)
    ensures
        task_names(r@) == suite_names(lang, input.news_url@),
{
    let mut tasks: Vec<DiagTask> = Vec::new();
    push_task(&mut tasks, tr_owned(lang, "Platform"), DiagCheck::Platform);
    push_task(&mut tasks, tr_owned(lang, "Game directory"), DiagCheck::GameDir(own(input.game_directory.as_str())));
    let home = match &input.home_dir {
        Some(h) => Some(own(h.as_str())),
        None => None,
    };
    push_task(&mut tasks, tr_owned(lang, "Detected Java runtimes"), DiagCheck::Runtimes(home));
    let java = match &input.java_path {
        Some(j) => Some(own(j.as_str())),
        None => None,
    };
    push_task(&mut tasks, tr_owned(lang, "Selected Java"), DiagCheck::SelectedJava(java));
    let ghost head = task_names(tasks@);
    assert(head =~= seq![
        tr_spec(lang, "Platform"@),
        tr_spec(lang, "Game directory"@),
        tr_spec(lang, "Detected Java runtimes"@),
        tr_spec(lang, "Selected Java"@),
    ]);
    let hosts: Vec<&str> = vec![
        "piston-meta.mojang.com",
        "api.mojang.com",
        "resources.download.minecraft.net",
        "libraries.minecraft.net",
        "sessionserver.mojang.com",
        "textures.minecraft.net",
    ];
    assert(hosts@.map_values(|h: &str| h@) =~= dns_hosts());
    let mut i: usize = 0;
    while i < hosts.len()
        invariant
            i <= hosts.len(),
            hosts@.map_values(|h: &str| h@) == dns_hosts(),
            task_names(tasks@) == head + dns_hosts().take(i as int).map_values(|h: Seq<char>| "DNS "@ + h),
        decreases hosts.len() - i,
    {
        let ghost t0 = task_names(tasks@);
        push_task(&mut tasks, concat("DNS ", hosts[i]), DiagCheck::Dns(own(hosts[i])));
        assert(task_names(tasks@) =~= t0.push("DNS "@ + hosts@[i as int]@));
        assert(dns_hosts()[i as int] == hosts@[i as int]@);
        i += 1;
        assert(dns_hosts().take(i as int).map_values(|h: Seq<char>| "DNS "@ + h) =~= dns_hosts().take(
            i - 1,
        ).map_values(|h: Seq<char>| "DNS "@ + h).push("DNS "@ + dns_hosts()[i - 1]));
    }
    assert(dns_hosts().take(6) =~= dns_hosts());
    let ghost with_dns = task_names(tasks@);
    let urls: Vec<&str> = vec![
        "https://piston-meta.mojang.com/mc/game/version_manifest_v2.json",
        "https://launchermeta.mojang.com/mc/game/version_manifest_v2.json",
        "https://api.modrinth.com/v2/projects?limit=1",
    ];
    assert(urls@.map_values(|h: &str| h@) =~= test_urls());
    let mut i: usize = 0;
    while i < urls.len()
        invariant
            i <= urls.len(),
            urls@.map_values(|h: &str| h@) == test_urls(),
            task_names(tasks@) == with_dns + test_urls().take(i as int).map_values(|u: Seq<char>| "HTTP "@ + u),
        decreases urls.len() - i,
    {
        let ghost t0 = task_names(tasks@);
        push_task(&mut tasks, concat("HTTP ", urls[i]), DiagCheck::Http(own(urls[i])));
        assert(task_names(tasks@) =~= t0.push("HTTP "@ + urls@[i as int]@));
        assert(test_urls()[i as int] == urls@[i as int]@);
        i += 1;
        assert(test_urls().take(i as int).map_values(|u: Seq<char>| "HTTP "@ + u) =~= test_urls().take(
            i - 1,
        ).map_values(|u: Seq<char>| "HTTP "@ + u).push("HTTP "@ + test_urls()[i - 1]));
    }
    assert(test_urls().take(3) =~= test_urls());
    let ghost with_http = task_names(tasks@);
    let news = trim_slashes_exec(trim_str(input.news_url.as_str()));
    if news.len() > 0 {
        let mut u = news;
        push_str_chars(&mut u, "/api/news");
        let url = string_of(u.as_slice());
        let ghost t0 = task_names(tasks@);
        push_task(&mut tasks, concat("HTTP ", url.as_str()), DiagCheck::Http(url));
        assert(task_names(tasks@) =~= t0.push("HTTP "@ + url@));
    }
    let ghost with_news = task_names(tasks@);
    assert(with_news =~= with_http + match news_check_url(input.news_url@) {
        Some(u) => seq!["HTTP "@ + u],
        None => Seq::<Seq<char>>::empty(),
    });
    let servers: Vec<&str> = vec!["mc.hypixel.net:25565", "google.com:80"];
    assert(servers@.map_values(|h: &str| h@) =~= test_servers());
    let mut i: usize = 0;
    while i < servers.len()
        invariant
            i <= servers.len(),
            servers@.map_values(|h: &str| h@) == test_servers(),
            task_names(tasks@) == with_news + test_servers().take(i as int).map_values(|s: Seq<char>| "TCP "@ + s),
        decreases servers.len() - i,
    {
        let ghost t0 = task_names(tasks@);
        push_task(&mut tasks, concat("TCP ", servers[i]), DiagCheck::Tcp(own(servers[i])));
        assert(task_names(tasks@) =~= t0.push("TCP "@ + servers@[i as int]@));
        assert(test_servers()[i as int] == servers@[i as int]@);
        i += 1;
        assert(test_servers().take(i as int).map_values(|s: Seq<char>| "TCP "@ + s) =~= test_servers().take(
            i - 1,
        ).map_values(|s: Seq<char>| "TCP "@ + s).push("TCP "@ + test_servers()[i - 1]));
    }
    assert(test_servers().take(2) =~= test_servers());
    tasks
}

// ---------------------------------------------------------------------------
// Results of the checks
// ---------------------------------------------------------------------------

pub struct ResultView {
    pub name: Seq<char>,
    pub ok: bool,
    pub detail: Seq<char>,
}

impl View for CheckResult {
    type V = ResultView;

    open spec fn view(&self) -> ResultView {
        ResultView { name: self.name@, ok: self.ok, detail: self.detail@ }
    }
}

pub open spec fn result_of(name: Seq<char>, ok: bool, detail: Seq<char>) -> ResultView {
    ResultView { name, ok, detail }
}

fn fmt1(lang: Language, key: &str, a: &str) -> (r: String)
    ensures
        r@ == filled(tr_spec(lang, key@), seq![a@]),
{
    let args = [a];
    assert(args@.map_values(|s: &str| s@) =~= seq![a@]);
    tr_fmt(lang, key, &args)
}

fn fmt2(lang: Language, key: &str, a: &str, b: &str) -> (r: String)
    ensures
        r@ == filled(tr_spec(lang, key@), seq![a@, b@]),
{
    let args = [a, b];
    assert(args@.map_values(|s: &str| s@) =~= seq![a@, b@]);
    tr_fmt(lang, key, &args)
}

/// Platform summary: OS, architecture, logical cores, launcher version.
pub fn platform_check(lang: Language, os: &str, arch: &str, cores: u64, version: &str) -> (r: CheckResult)
    ensures
        r@ == result_of(
            tr_spec(lang, "Platform"@),
            true,
            os@ + " / "@ + arch@ + " / "@ + dec(cores as nat) + " cores / RustLauncher v"@ + version@,
        ),
{
    let mut d = to_chars(os);
    push_str_chars(&mut d, " / ");
    push_str_chars(&mut d, arch);
    push_str_chars(&mut d, " / ");
    push_dec(&mut d, cores);
    push_str_chars(&mut d, " cores / RustLauncher v");
    push_str_chars(&mut d, version);
    CheckResult { name: tr_owned(lang, "Platform"), ok: true, detail: string_of(d.as_slice()) }
}

/// What was found of the configured game directory: whether it is a
/// directory and, when it is, why writing a probe file into it failed.
#[derive(Debug, Clone)]
pub struct GameDirProbe {
    pub is_dir: bool,
    pub write_error: Option<String>,
}

/// The game directory check: it must be configured, exist and be writable.
pub open spec fn game_dir_result(lang: Language, dir: Seq<char>, probe: GameDirProbe) -> ResultView {
    let name = tr_spec(lang, "Game directory"@);
    let t = trim(dir);
    if t.len() == 0 {
        result_of(name, false, tr_spec(lang, "not configured"@))
    } else if !probe.is_dir {
        result_of(name, false, filled(tr_spec(lang, "directory does not exist: {0}"@), seq![t]))
    } else {
        match probe.write_error {
            Some(e) => result_of(name, false, filled(tr_spec(lang, "not writable: {0}"@), seq![e@])),
            None => result_of(name, true, t),
        }
    }
}

/// The configured game directory must exist and be writable.
pub fn game_dir_check(dir: &str, lang: Language, probe: &GameDirProbe) -> (r: CheckResult)
    ensures
        r@ == game_dir_result(lang, dir@, *probe),
{
    let name = tr_owned(lang, "Game directory");
    let t = string_of(trim_str(dir).as_slice());
    if t.as_str().is_empty() {
        return CheckResult { name, ok: false, detail: tr_owned(lang, "not configured") };
    }
    if !probe.is_dir {
        return CheckResult { name, ok: false, detail: fmt1(lang, "directory does not exist: {0}", t.as_str()) };
    }
    match &probe.write_error {
        Some(e) => CheckResult { name, ok: false, detail: fmt1(lang, "not writable: {0}", e.as_str()) },
        None => CheckResult { name, ok: true, detail: t },
    }
}

/// `s` with `x` put in its place, unless already present (for a strictly
/// increasing `s`).
pub open spec fn insert_sorted(s: Seq<u32>, x: u32) -> Seq<u32> {
    if s.contains(x) {
        s
    } else {
        s.filter(|y: u32| y < x).push(x) + s.filter(|y: u32| y > x)
    }
}

/// The distinct values of `ms`, ascending.
pub open spec fn sorted_distinct(ms: Seq<u32>) -> Seq<u32>
    decreases ms.len(),
{
    if ms.len() == 0 {
        Seq::empty()
    } else {
        insert_sorted(sorted_distinct(ms.drop_last()), ms.last())
    }
}

pub open spec fn decimals(ms: Seq<u32>) -> Seq<Seq<char>> {
    ms.map_values(|m: u32| dec(m as nat))
}

/// The runtimes check: how many runtimes were found and their major
/// versions (distinct, ascending); with none, whether a bundled runtime is
/// available.
pub open spec fn runtimes_result(lang: Language, majors: Seq<u32>, bundled: bool) -> ResultView {
    let name = tr_spec(lang, "Detected Java runtimes"@);
    if majors.len() == 0 {
        if bundled {
            result_of(name, true, tr_spec(lang, "none found; bundled runtime available"@))
        } else {
            result_of(name, false, tr_spec(lang, "none found"@))
        }
    } else {
        result_of(
            name,
            true,
            filled(
                tr_spec(lang, "{0} found (Java {1})"@),
                seq![dec(majors.len()), join_with(decimals(sorted_distinct(majors)), ", "@)],
            ),
        )
    }
}

fn insert_sorted_exec(s: &mut Vec<u32>, x: u32)
    ensures
        final(s)@ == insert_sorted(old(s)@, x),
{
    proof {
        reveal(Seq::filter);
    }
    let mut i: usize = 0;
    while i < s.len()
        invariant
            i <= s.len(),
            forall|k: int| 0 <= k < i ==> s@[k] != x,
        decreases s.len() - i,
    {
        if s[i] == x {
            assert(s@.contains(x));
            return;
        }
        i += 1;
    }
    let ghost s0 = s@;
    let mut lo: Vec<u32> = Vec::new();
    let mut hi: Vec<u32> = Vec::new();
    let mut i: usize = 0;
    while i < s.len()
        invariant
            i <= s.len(),
            s@ == s0,
            lo@ == s0.take(i as int).filter(|y: u32| y < x),
            hi@ == s0.take(i as int).filter(|y: u32| y > x),
        decreases s.len() - i,
    {
        proof {
            reveal(Seq::filter);
            assert(s0.take(i + 1).drop_last() =~= s0.take(i as int));
        }
        if s[i] < x {
            lo.push(s[i]);
        } else if s[i] > x {
            hi.push(s[i]);
        }
        i += 1;
    }
    assert(s0.take(s0.len() as int) =~= s0);
    assert(!s0.contains(x));
    lo.push(x);
    let mut j: usize = 0;
    let ghost lo0 = lo@;
    while j < hi.len()
        invariant
            j <= hi.len(),
            lo@ == lo0 + hi@.take(j as int),
        decreases hi.len() - j,
    {
        lo.push(hi[j]);
        j += 1;
        assert(lo@ =~= lo0 + hi@.take(j as int));
    }
    assert(hi@.take(hi.len() as int) =~= hi@);
    *s = lo;
}

/// How many Java runtimes are installed on this machine, given the major
/// versions of the runtimes found.
pub fn runtimes_check(lang: Language, majors: &Vec<u32>, bundled_available: bool) -> (r: CheckResult)
    ensures
        r@ == runtimes_result(lang, majors@, bundled_available),
{
    let name = tr_owned(lang, "Detected Java runtimes");
    if majors.len() == 0 {
        if bundled_available {
            return CheckResult { name, ok: true, detail: tr_owned(lang, "none found; bundled runtime available") };
        }
        return CheckResult { name, ok: false, detail: tr_owned(lang, "none found") };
    }
    let mut distinct: Vec<u32> = Vec::new();
    let mut i: usize = 0;
    while i < majors.len()
        invariant
            i <= majors.len(),
            distinct@ == sorted_distinct(majors@.take(i as int)),
        decreases majors.len() - i,
    {
        assert(majors@.take(i + 1).drop_last() =~= majors@.take(i as int));
        insert_sorted_exec(&mut distinct, majors[i]);
        i += 1;
    }
    assert(majors@.take(majors.len() as int) =~= majors@);
    let mut texts: Vec<String> = Vec::new();
    let mut k: usize = 0;
    while k < distinct.len()
        invariant
            k <= distinct.len(),
            string_views(texts@) == decimals(distinct@.take(k as int)),
        decreases distinct.len() - k,
    {
        let t = crate::text::dec_string(distinct[k] as u64);
        let ghost t0 = texts@;
        texts.push(t);
        assert(string_views(texts@) =~= string_views(t0).push(t@));
        k += 1;
        assert(decimals(distinct@.take(k as int)) =~= decimals(distinct@.take(k - 1)).push(
            dec(distinct@[k - 1] as nat),
        ));
    }
    assert(distinct@.take(distinct.len() as int) =~= distinct@);
    let list = join_strings(&texts, ", ");
    let count = crate::text::dec_string(majors.len() as u64);
    CheckResult { name, ok: true, detail: fmt2(lang, "{0} found (Java {1})", count.as_str(), list.as_str()) }
}

/// The selected Java check: the runtime games would launch with, verified
/// by its `java -version` probe (major version and full version).
pub open spec fn selected_java_result(
    lang: Language,
    selection: Result<String, crate::java_locator::JavaError>,
    probe: Option<(u32, String)>,
) -> ResultView {
    let name = tr_spec(lang, "Selected Java"@);
    match selection {
        Err(e) => result_of(name, false, java_error_text(lang, e)),
        Ok(path) => match probe {
            Some((major, version)) => result_of(
                name,
                true,
                path@ + " (Java "@ + dec(major as nat) + ", "@ + version@ + ")"@,
            ),
            None => result_of(name, false, filled(tr_spec(lang, "java -version failed for {0}"@), seq![path@])),
        },
    }
}

pub open spec fn java_error_text(lang: Language, e: crate::java_locator::JavaError) -> Seq<char> {
    match e {
        crate::java_locator::JavaError::ConfiguredMissing(p) => filled(
            tr_spec(lang, "configured Java path does not exist: {0}"@),
            seq![p@],
        ),
        crate::java_locator::JavaError::NotFound => tr_spec(lang, "Java not found. Install Java or set a custom path."@),
        crate::java_locator::JavaError::ProbeFailed(p) => filled(
            tr_spec(lang, "failed to probe Java version at {0}"@),
            seq![p@],
        ),
    }
}

/// The Java executable games would launch with right now, given the
/// selection and the probe of the selected runtime.
pub fn selected_java_check(
    lang: Language,
    selection: &Result<String, crate::java_locator::JavaError>,
    probe: &Option<(u32, String)>,
) -> (r: CheckResult)
    ensures
        r@ == selected_java_result(lang, *selection, *probe),
{
    let name = tr_owned(lang, "Selected Java");
    match selection {
        Err(e) => CheckResult { name, ok: false, detail: e.message(lang) },
        Ok(path) => match probe {
            Some((major, version)) => {
                let mut d = to_chars(path.as_str());
                push_str_chars(&mut d, " (Java ");
                push_dec(&mut d, *major as u64);
                push_str_chars(&mut d, ", ");
                push_str_chars(&mut d, version.as_str());
                push_str_chars(&mut d, ")");
                CheckResult { name, ok: true, detail: string_of(d.as_slice()) }
            },
            None => CheckResult { name, ok: false, detail: fmt1(lang, "java -version failed for {0}", path.as_str()) },
        },
    }
}

/// A DNS check: the first (at most four) addresses the host resolved to.
pub open spec fn dns_result(lang: Language, host: Seq<char>, resolved: Result<Vec<String>, String>) -> ResultView {
    let name = "DNS "@ + host;
    match resolved {
        Ok(addrs) => if addrs.len() == 0 {
            result_of(name, false, tr_spec(lang, "no addresses returned"@))
        } else {
            result_of(
                name,
                true,
                join_with(
                    string_views(addrs@).take(if addrs.len() < 4 {
                        addrs.len() as int
                    } else {
                        4
                    }),
                    ", "@,
                ),
            )
        },
        Err(e) => result_of(name, false, e@),
    }
}

/// DNS resolve a host (first addresses), given what the lookup returned.
pub fn dns_check(host: &str, lang: Language, resolved: &Result<Vec<String>, String>) -> (r: CheckResult)
    ensures
        r@ == dns_result(lang, host@, *resolved),
{
    let name = concat("DNS ", host);
    match resolved {
        Ok(addrs) => {
            if addrs.len() == 0 {
                return CheckResult { name, ok: false, detail: tr_owned(lang, "no addresses returned") };
            }
            let n = if addrs.len() < 4 {
                addrs.len()
            } else {
                4
            };
            let mut first: Vec<String> = Vec::new();
            let mut i: usize = 0;
            while i < n
                invariant
                    i <= n <= addrs.len(),
                    string_views(first@) == string_views(addrs@).take(i as int),
                decreases n - i,
            {
                let c = own(addrs[i].as_str());
                let ghost f0 = first@;
                first.push(c);
                assert(string_views(first@) =~= string_views(f0).push(c@));
                i += 1;
                assert(string_views(first@) =~= string_views(addrs@).take(i as int));
            }
            CheckResult { name, ok: true, detail: join_strings(&first, ", ") }
        },
        Err(e) => CheckResult { name, ok: false, detail: own(e.as_str()) },
    }
}

/// The selected Java check always explains itself: its detail is never
/// empty, whatever the selection and the probe.
pub proof fn lemma_selected_java_detail(
    lang: Language,
    selection: Result<String, crate::java_locator::JavaError>,
    probe: Option<(u32, String)>,
)
    ensures
        selected_java_result(lang, selection, probe).detail.len() > 0,
{
    let k_missing = "configured Java path does not exist: {0}"@;
    let k_none = "Java not found. Install Java or set a custom path."@;
    let k_probe = "failed to probe Java version at {0}"@;
    let k_version = "java -version failed for {0}"@;
    reveal_strlit("configured Java path does not exist: {0}");
    reveal_strlit("Java not found. Install Java or set a custom path.");
    reveal_strlit("failed to probe Java version at {0}");
    reveal_strlit("java -version failed for {0}");
    reveal_strlit(" (Java ");
    crate::lang::lemma_untranslated_key(lang, k_missing);
    crate::lang::lemma_untranslated_key(lang, k_none);
    crate::lang::lemma_untranslated_key(lang, k_probe);
    crate::lang::lemma_untranslated_key(lang, k_version);
    match selection {
        Err(e) => match e {
            crate::java_locator::JavaError::ConfiguredMissing(p) => {
                crate::lang::lemma_filled_one_nonempty(k_missing, p@);
            },
            crate::java_locator::JavaError::NotFound => {},
            crate::java_locator::JavaError::ProbeFailed(p) => {
                crate::lang::lemma_filled_one_nonempty(k_probe, p@);
            },
        },
        Ok(path) => match probe {
            Some(_) => {},
            None => {
                crate::lang::lemma_filled_one_nonempty(k_version, path@);
            },
        },
    }
}

/// A failed DNS check explains itself whenever the resolver's error text is
/// not empty: only an empty error text gives an empty detail.
pub proof fn lemma_dns_failure_detail(lang: Language, host: Seq<char>, resolved: Result<Vec<String>, String>)
    requires
        resolved matches Err(e) ==> e@.len() > 0,
    ensures
        !dns_result(lang, host, resolved).ok ==> dns_result(lang, host, resolved).detail.len() > 0,
        dns_result(lang, host, resolved).name == "DNS "@ + host,
{
    reveal_strlit("no addresses returned");
    crate::lang::lemma_untranslated_key(lang, "no addresses returned"@);
}

/// What an HTTP probe got back.
#[derive(Debug, Clone, Copy)]
pub struct HttpReply {
    pub status: u16,
    /// Whether the reply announced its length.
    pub has_content_length: bool,
    pub latency_ms: u64,
}

pub open spec fn millis_text(ms: u64) -> Seq<char> {
    dec(ms as nat) + " ms"@
}

/// An HTTP check: passes on status 200; the detail gives the status and the
/// latency, noting streamed replies.
pub open spec fn http_result(lang: Language, url: Seq<char>, outcome: Result<HttpReply, String>) -> ResultView {
    let name = "HTTP "@ + url;
    match outcome {
        Ok(r) => result_of(
            name,
            r.status == 200,
            filled(
                tr_spec(
                    lang,
                    if r.has_content_length {
                        "HTTP {0} ({1})"@
                    } else {
                        "HTTP {0} streamed ({1})"@
                    },
                ),
                seq![dec(r.status as nat), millis_text(r.latency_ms)],
            ),
        ),
        Err(e) => result_of(name, false, e@),
    }
}

fn millis_exec(ms: u64) -> (r: String)
    ensures
        r@ == millis_text(ms),
{
    let mut d: Vec<char> = Vec::new();
    push_dec(&mut d, ms);
    push_str_chars(&mut d, " ms");
    string_of(d.as_slice())
}

/// HTTP GET probe with a latency measurement, given its outcome.
pub fn http_check(url: &str, lang: Language, outcome: &Result<HttpReply, String>) -> (r: CheckResult)
    ensures
        r@ == http_result(lang, url@, *outcome),
{
    let name = concat("HTTP ", url);
    match outcome {
        Ok(reply) => {
            let status = crate::text::dec_string(reply.status as u64);
            let latency = millis_exec(reply.latency_ms);
            let detail = if reply.has_content_length {
                fmt2(lang, "HTTP {0} ({1})", status.as_str(), latency.as_str())
            } else {
                fmt2(lang, "HTTP {0} streamed ({1})", status.as_str(), latency.as_str())
            };
            CheckResult { name, ok: reply.status == 200, detail }
        },
        Err(e) => CheckResult { name, ok: false, detail: own(e.as_str()) },
    }
}

/// What a TCP probe found.
#[derive(Debug, Clone)]
pub enum TcpOutcome {
    /// The address did not resolve (the error).
    DnsFailed(String),
    /// The address resolved to nothing.
    NoAddress,
    /// Connected to the first address (shown as text) after some time.
    Connected { address: String, latency_ms: u64 },
    /// Connecting failed (the error).
    Failed(String),
}

/// A TCP check: passes when the connect succeeded.
pub open spec fn tcp_result(lang: Language, address: Seq<char>, outcome: TcpOutcome) -> ResultView {
    let name = "TCP "@ + address;
    match outcome {
        TcpOutcome::DnsFailed(e) => result_of(name, false, filled(tr_spec(lang, "DNS failed: {0}"@), seq![e@])),
        TcpOutcome::NoAddress => result_of(name, false, tr_spec(lang, "DNS returned no addresses"@)),
        TcpOutcome::Connected { address: a, latency_ms } => result_of(
            name,
            true,
            filled(tr_spec(lang, "connected to {0} ({1})"@), seq![a@, millis_text(latency_ms)]),
        ),
        TcpOutcome::Failed(e) => result_of(name, false, e@),
    }
}

/// Direct TCP connect probe, given its outcome.
pub fn tcp_check(address: &str, lang: Language, outcome: &TcpOutcome) -> (r: CheckResult)
    ensures
        r@ == tcp_result(lang, address@, *outcome),
{
    let name = concat("TCP ", address);
    match outcome {
        TcpOutcome::DnsFailed(e) => CheckResult { name, ok: false, detail: fmt1(lang, "DNS failed: {0}", e.as_str()) },
        TcpOutcome::NoAddress => CheckResult { name, ok: false, detail: tr_owned(lang, "DNS returned no addresses") },
        TcpOutcome::Connected { address: a, latency_ms } => {
            let ms = millis_exec(*latency_ms);
            CheckResult { name, ok: true, detail: fmt2(lang, "connected to {0} ({1})", a.as_str(), ms.as_str()) }
        },
        TcpOutcome::Failed(e) => CheckResult { name, ok: false, detail: own(e.as_str()) },
    }
}

// ---------------------------------------------------------------------------
// The report
// ---------------------------------------------------------------------------

/// How many results passed.
pub open spec fn passed_count(rs: Seq<CheckResult>) -> nat
    decreases rs.len(),
{
    if rs.len() == 0 {
        0
    } else {
        passed_count(rs.drop_last()) + if rs.last().ok {
            1nat
        } else {
            0nat
        }
    }
}

/// The report line of a result.
pub open spec fn report_line(r: CheckResult) -> Seq<char> {
    "["@ + (if r.ok {
        " OK "@
    } else {
        "FAIL"@
    }) + "] "@ + r.name@ + " \u{2014} "@ + r.detail@ + "\n"@
}

pub open spec fn report_lines(rs: Seq<CheckResult>) -> Seq<char>
    decreases rs.len(),
{
    if rs.len() == 0 {
        Seq::empty()
    } else {
        report_lines(rs.drop_last()) + report_line(rs.last())
    }
}

/// The plain-text report: a summary line, then a line per result.
pub open spec fn report_spec(rs: Seq<CheckResult>) -> Seq<char> {
    "RustLauncher diagnostics: "@ + dec(passed_count(rs)) + "/"@ + dec(rs.len()) + " passed\n"@
        + report_lines(rs)
}

proof fn lemma_passed_count_bound(rs: Seq<CheckResult>)
    ensures
        passed_count(rs) <= rs.len(),
    decreases rs.len(),
{
    if rs.len() > 0 {
        lemma_passed_count_bound(rs.drop_last());
    }
}

/// Plain-text report for the clipboard (the Copy report button).
pub fn report_text(results: &[CheckResult]) -> (r: String)
    ensures
        r@ == report_spec(results@),
{
    let mut passed: u64 = 0;
    let mut i: usize = 0;
    while i < results.len()
        invariant
            i <= results.len(),
            passed == passed_count(results@.take(i as int)),
            passed <= i,
        decreases results.len() - i,
    {
        assert(results@.take(i + 1).drop_last() =~= results@.take(i as int));
        proof {
            lemma_passed_count_bound(results@.take(i as int));
        }
        if results[i].ok {
            passed += 1;
        }
        i += 1;
    }
    assert(results@.take(results.len() as int) =~= results@);
    let mut out: Vec<char> = Vec::new();
    push_str_chars(&mut out, "RustLauncher diagnostics: ");
    push_dec(&mut out, passed);
    push_str_chars(&mut out, "/");
    push_dec(&mut out, results.len() as u64);
    push_str_chars(&mut out, " passed\n");
    let ghost head = out@;
    let mut k: usize = 0;
    while k < results.len()
        invariant
            k <= results.len(),
            out@ == head + report_lines(results@.take(k as int)),
        decreases results.len() - k,
    {
        assert(results@.take(k + 1).drop_last() =~= results@.take(k as int));
        let ghost o0 = out@;
        let r = &results[k];
        push_str_chars(&mut out, "[");
        if r.ok {
            push_str_chars(&mut out, " OK ");
        } else {
            push_str_chars(&mut out, "FAIL");
        }
        push_str_chars(&mut out, "] ");
        push_str_chars(&mut out, r.name.as_str());
        push_str_chars(&mut out, " \u{2014} ");
        push_str_chars(&mut out, r.detail.as_str());
        push_str_chars(&mut out, "\n");
        assert(out@ =~= o0 + report_line(*r));
        k += 1;
    }
    assert(results@.take(results.len() as int) =~= results@);
    string_of(out.as_slice())
}

} // verus!
