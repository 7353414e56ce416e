//! Building the Minecraft launch command: JVM flags, module access for
//! modern JVMs, and the game arguments.
use vstd::prelude::*;

use crate::auth::Account;
use crate::classpath::VersionJson;
use crate::instances::Instance;
use crate::versions::Screen;
use crate::jvm::{jvm_args_check, validate_jvm_args, JvmArgsError};
use crate::text::{
    dec, lower, lower_chars, push_dec, push_str_chars, replace_all, replace_exec, starts_with,
    starts_with_exec, string_of, string_views, to_chars, trim, trim_str, views, words, words_exec,
};

verus! {

broadcast use vstd::std_specs::vec::group_vec_axioms, vstd::seq::group_seq_axioms;

pub open spec fn opened_modules() -> Seq<Seq<char>> {
    seq![
        "java.base/java.net"@,
        "java.base/java.lang"@,
        "java.base/java.lang.reflect"@,
        "java.base/java.util"@,
        "java.base/java.io"@,
        "java.base/java.nio"@,
        "java.base/sun.nio.ch"@,
        "java.base/java.security"@,
    ]
}

/// The module-access flags for a Java major version: none before Java 9;
/// from 9 on an `--add-opens=<module/package>=ALL-UNNAMED` per opened
/// package, from 22 on native access, from 26 on final-field mutation.
pub open spec fn module_flags(java_major: u32) -> Seq<Seq<char>> {
    if java_major < 9 {
        Seq::empty()
    } else {
        let opens = opened_modules().map_values(|m: Seq<char>| "--add-opens="@ + m + "=ALL-UNNAMED"@);
        let native = if java_major >= 22 {
            seq!["--enable-native-access=ALL-UNNAMED"@]
        } else {
            Seq::empty()
        };
        let final_fields = if java_major >= 26 {
            seq!["--enable-final-field-mutation=ALL-UNNAMED"@]
        } else {
            Seq::empty()
        };
        opens + native + final_fields
    }
}

fn push_string(v: &mut Vec<String>, s: &str)
    ensures
        string_views(final(v)@) == string_views(old(v)@).push(s@),
{
    let c = string_of(to_chars(s).as_slice());
    let ghost v0 = v@;
    v.push(c);
    assert(string_views(v@) =~= string_views(v0).push(c@));
}

/// Module-access flags for modded launchers on modern JVMs.
///
/// Each `--add-opens` is a complete `module/package=ALL-UNNAMED` specifier:
/// the JVM parses the flag and its value together.
pub fn module_access_flags(java_major: u32) -> (r: Vec<String>)
    ensures
        string_views(r@) == module_flags(java_major),
{
    let mut flags: Vec<String> = Vec::new();
    if java_major < 9 {
        assert(string_views(flags@) =~= Seq::<Seq<char>>::empty());
        return flags;
    }
    let modules = vec![
        "java.base/java.net",
        "java.base/java.lang",
        "java.base/java.lang.reflect",
        "java.base/java.util",
        "java.base/java.io",
        "java.base/java.nio",
        "java.base/sun.nio.ch",
        "java.base/java.security",
    ];
    let ghost ms = opened_modules();
    assert(modules@.map_values(|m: &str| m@) =~= ms);
    let mut i: usize = 0;
    while i < modules.len()
        invariant
            i <= modules.len(),
            modules.len() == 8,
            modules@.map_values(|m: &str| m@) == ms,
            ms == opened_modules(),
            string_views(flags@) == ms.take(i as int).map_values(
                |m: Seq<char>| "--add-opens="@ + m + "=ALL-UNNAMED"@,
            ),
        decreases modules.len() - i,
    {
        let mut f: Vec<char> = Vec::new();
        push_str_chars(&mut f, "--add-opens=");
        push_str_chars(&mut f, modules[i]);
        push_str_chars(&mut f, "=ALL-UNNAMED");
        let s = string_of(f.as_slice());
        let ghost f0 = flags@;
        flags.push(s);
        assert(string_views(flags@) =~= string_views(f0).push(s@));
        assert(ms[i as int] == modules@[i as int]@);
        i += 1;
        assert(ms.take(i as int).map_values(|m: Seq<char>| "--add-opens="@ + m + "=ALL-UNNAMED"@)
            =~= ms.take(i - 1).map_values(|m: Seq<char>| "--add-opens="@ + m + "=ALL-UNNAMED"@).push(
            "--add-opens="@ + ms[i - 1] + "=ALL-UNNAMED"@,
        ));
    }
    assert(ms.take(8) =~= ms);
    let ghost opens = string_views(flags@);
    if java_major >= 22 {
        push_string(&mut flags, "--enable-native-access=ALL-UNNAMED");
    }
    let ghost with_native = string_views(flags@);
    if java_major >= 26 {
        push_string(&mut flags, "--enable-final-field-mutation=ALL-UNNAMED");
    }
    assert(string_views(flags@) =~= module_flags(java_major));
    flags
}

proof fn lemma_opened_modules_distinct()
    ensures
        opened_modules().len() == 8,
        forall|a: int, b: int|
            0 <= a < b < 8 ==> (#[trigger] opened_modules()[a]) != (#[trigger] opened_modules()[b]),
        forall|a: int| 0 <= a < 8 ==> (#[trigger] opened_modules()[a]).len() >= 17,
{
    reveal_strlit("java.base/java.net");
    reveal_strlit("java.base/java.lang");
    reveal_strlit("java.base/java.lang.reflect");
    reveal_strlit("java.base/java.util");
    reveal_strlit("java.base/java.io");
    reveal_strlit("java.base/java.nio");
    reveal_strlit("java.base/sun.nio.ch");
    reveal_strlit("java.base/java.security");
    let ms = opened_modules();
    assert(ms[0].len() == 18 && ms[0][16] == 'e');
    assert(ms[1].len() == 19 && ms[1][16] == 'a');
    assert(ms[2].len() == 27 && ms[2][16] == 'a');
    assert(ms[3].len() == 19 && ms[3][16] == 't');
    assert(ms[4].len() == 17 && ms[4][16] == 'o');
    assert(ms[5].len() == 18 && ms[5][16] == 'i');
    assert(ms[6].len() == 20 && ms[6][16] == 'o');
    assert(ms[7].len() == 23 && ms[7][16] == 'e');
    assert forall|a: int, b: int| 0 <= a < b < 8 implies (#[trigger] ms[a]) != (#[trigger] ms[b]) by {
        assert(ms[a].len() != ms[b].len() || ms[a][16] != ms[b][16]);
    }
}

/// The module-access flags: none before Java 9; from 9 on the eight
/// `--add-opens` flags, one more from 22 on and another from 26 on; no flag
/// occurs twice.
pub proof fn lemma_module_flags_shape(java_major: u32)
    ensures
        java_major < 9 ==> module_flags(java_major).len() == 0,
        java_major >= 9 ==> module_flags(java_major).len() == 8 + (if java_major >= 22 {
            1int
        } else {
            0int
        }) + (if java_major >= 26 {
            1int
        } else {
            0int
        }),
        forall|a: int, b: int|
            0 <= a < b < module_flags(java_major).len() ==> (#[trigger] module_flags(java_major)[a])
                != (#[trigger] module_flags(java_major)[b]),
{
    if java_major >= 9 {
        lemma_opened_modules_distinct();
        let flags = module_flags(java_major);
        let ms = opened_modules();
        let pre = "--add-opens="@;
        let post = "=ALL-UNNAMED"@;
        let native = "--enable-native-access=ALL-UNNAMED"@;
        let final_fields = "--enable-final-field-mutation=ALL-UNNAMED"@;
        reveal_strlit("--add-opens=");
        reveal_strlit("--enable-native-access=ALL-UNNAMED");
        reveal_strlit("--enable-final-field-mutation=ALL-UNNAMED");
        assert(native[2] == 'e' && final_fields[2] == 'e' && pre[2] == 'a');
        assert(native.len() != final_fields.len());
        let opens = ms.map_values(|m: Seq<char>| "--add-opens="@ + m + "=ALL-UNNAMED"@);
        assert(opens.len() == 8);
        assert forall|a: int| 0 <= a < 8 implies #[trigger] flags[a] == pre + ms[a] + post by {
            assert(flags[a] == opens[a]);
        }
        assert forall|a: int, b: int| 0 <= a < b < flags.len() implies (#[trigger] flags[a]) != (
        #[trigger] flags[b]) by {
            if b < 8 {
                let fa = pre + ms[a] + post;
                let fb = pre + ms[b] + post;
                assert(flags[a] == fa && flags[b] == fb);
                if fa == fb {
                    assert(fa.len() == pre.len() + ms[a].len() + post.len());
                    assert(fb.len() == pre.len() + ms[b].len() + post.len());
                    assert forall|t: int| 0 <= t < ms[a].len() implies ms[a][t] == ms[b][t] by {
                        assert(fa[pre.len() + t] == ms[a][t]);
                        assert(fb[pre.len() + t] == ms[b][t]);
                    }
                    assert(ms[a] =~= ms[b]);
                }
            } else if a < 8 {
                let fa = pre + ms[a] + post;
                assert(flags[a] == fa);
                assert(fa[2] == 'a');
                assert(flags[b] == native || flags[b] == final_fields);
            } else {
                assert(flags[a] == native && flags[b] == final_fields);
            }
        }
    }
}

// ---------------------------------------------------------------------------
// Custom JVM arguments
// ---------------------------------------------------------------------------

/// Flag prefixes (ASCII lowercase) that can break the game or the machine:
/// proxy/DNS hijacks, TLS downgrades, agent injection, JDWP.
pub open spec fn blocked_prefixes() -> Seq<Seq<char>> {
    seq![
        "-dproxyhost"@,
        "-dproxyport"@,
        "-dhttp.proxyhost"@,
        "-dhttp.proxyport"@,
        "-dhttps.proxyhost"@,
        "-dhttps.proxyport"@,
        "-dhttp.nonproxyhosts"@,
        "-dsocksproxyhost"@,
        "-dsocksproxyport"@,
        "-dsocksproxypasswd"@,
        "-djava.net.preferipv4stack"@,
        "-djava.security.manager"@,
        "-djava.security.policy"@,
        "-dsun.net.spi.nameservice.nameservers"@,
        "-dcom.sun.net.ssl.checkrevocation"@,
        "-djavax.net.ssl.truststore"@,
        "-djavax.net.ssl.truststorepassword"@,
        "-djavax.net.ssl.keystore"@,
        "-dhttps.protocols"@,
        "-djdk.tls.client.protocols"@,
        "-xbootclasspath"@,
        "-agentlib:"@,
        "-javaagent:"@,
        "-xrunjdwp:"@,
    ]
}

/// An argument is blocked when, ASCII-lowercased, it starts with a blocked
/// prefix.
pub open spec fn is_blocked_arg(arg: Seq<char>) -> bool {
    exists|k: int| 0 <= k < blocked_prefixes().len() && starts_with(lower(arg), #[trigger] blocked_prefixes()[k])
}

/// The elements of `s` that are not blocked, in order.
pub open spec fn unblocked(s: Seq<Seq<char>>) -> Seq<Seq<char>>
    decreases s.len(),
{
    if s.len() == 0 {
        Seq::empty()
    } else if is_blocked_arg(s.last()) {
        unblocked(s.drop_last())
    } else {
        unblocked(s.drop_last()).push(s.last())
    }
}

fn blocked_exec(arg: &[char]) -> (r: bool)
    ensures
        r == is_blocked_arg(arg@),
{
    let prefixes: Vec<&str> = vec![
        "-dproxyhost",
        "-dproxyport",
        "-dhttp.proxyhost",
        "-dhttp.proxyport",
        "-dhttps.proxyhost",
        "-dhttps.proxyport",
        "-dhttp.nonproxyhosts",
        "-dsocksproxyhost",
        "-dsocksproxyport",
        "-dsocksproxypasswd",
        "-djava.net.preferipv4stack",
        "-djava.security.manager",
        "-djava.security.policy",
        "-dsun.net.spi.nameservice.nameservers",
        "-dcom.sun.net.ssl.checkrevocation",
        "-djavax.net.ssl.truststore",
        "-djavax.net.ssl.truststorepassword",
        "-djavax.net.ssl.keystore",
        "-dhttps.protocols",
        "-djdk.tls.client.protocols",
        "-xbootclasspath",
        "-agentlib:",
        "-javaagent:",
        "-xrunjdwp:",
    ];
    let ghost bp = blocked_prefixes();
    assert(prefixes@.map_values(|p: &str| p@) =~= bp);
    let l = lower_chars(arg);
    let mut i: usize = 0;
    while i < prefixes.len()
        invariant
            i <= prefixes.len(),
            prefixes.len() == bp.len(),
            prefixes@.map_values(|p: &str| p@) == bp,
            bp == blocked_prefixes(),
            l@ == lower(arg@),
            forall|k: int| 0 <= k < i ==> !starts_with(lower(arg@), #[trigger] bp[k]),
        decreases prefixes.len() - i,
    {
        assert(bp[i as int] == prefixes@[i as int]@);
        if starts_with_exec(l.as_slice(), to_chars(prefixes[i]).as_slice()) {
            return true;
        }
        i += 1;
    }
    false
}

/// The custom JVM arguments kept for the launch: the whitespace-separated
/// words of `custom` that are not blocked. Heap flags (`-Xms`/`-Xmx`) are
/// kept: they are the legitimate way RAM is configured.
pub open spec fn kept_java_args(custom: Seq<char>) -> Seq<Seq<char>> {
    unblocked(words(custom))
}

/// A heap flag: ASCII-lowercased it starts with `-xms` or `-xmx`.
pub open spec fn is_heap_arg(arg: Seq<char>) -> bool {
    starts_with(lower(arg), "-xms"@) || starts_with(lower(arg), "-xmx"@)
}

/// Heap flags are never blocked: every blocked prefix differs from `-xm`
/// in its first three characters.
pub proof fn lemma_heap_flags_never_blocked(arg: Seq<char>)
    requires
        is_heap_arg(arg),
    ensures
        !is_blocked_arg(arg),
{
    reveal_strlit("-xms");
    reveal_strlit("-xmx");
    reveal_strlit("-dproxyhost");
    reveal_strlit("-dproxyport");
    reveal_strlit("-dhttp.proxyhost");
    reveal_strlit("-dhttp.proxyport");
    reveal_strlit("-dhttps.proxyhost");
    reveal_strlit("-dhttps.proxyport");
    reveal_strlit("-dhttp.nonproxyhosts");
    reveal_strlit("-dsocksproxyhost");
    reveal_strlit("-dsocksproxyport");
    reveal_strlit("-dsocksproxypasswd");
    reveal_strlit("-djava.net.preferipv4stack");
    reveal_strlit("-djava.security.manager");
    reveal_strlit("-djava.security.policy");
    reveal_strlit("-dsun.net.spi.nameservice.nameservers");
    reveal_strlit("-dcom.sun.net.ssl.checkrevocation");
    reveal_strlit("-djavax.net.ssl.truststore");
    reveal_strlit("-djavax.net.ssl.truststorepassword");
    reveal_strlit("-djavax.net.ssl.keystore");
    reveal_strlit("-dhttps.protocols");
    reveal_strlit("-djdk.tls.client.protocols");
    reveal_strlit("-xbootclasspath");
    reveal_strlit("-agentlib:");
    reveal_strlit("-javaagent:");
    reveal_strlit("-xrunjdwp:");
    let l = lower(arg);
    assert(l.len() >= 4 && l[1] == 'x' && l[2] == 'm') by {
        if starts_with(l, "-xms"@) {
            assert(l.take(4)[1] == l[1] && l.take(4)[2] == l[2]);
        } else {
            assert(l.take(4)[1] == l[1] && l.take(4)[2] == l[2]);
        }
    }
    assert forall|k: int| 0 <= k < blocked_prefixes().len() implies !starts_with(
        l,
        #[trigger] blocked_prefixes()[k],
    ) by {
        let p = blocked_prefixes()[k];
        if starts_with(l, p) {
            assert(l.take(p.len() as int)[1] == l[1]);
            assert(l.take(p.len() as int)[2] == l[2]);
        }
    }
}

proof fn lemma_unblocked_clean(s: Seq<Seq<char>>)
    ensures
        forall|i: int| 0 <= i < unblocked(s).len() ==> !is_blocked_arg(#[trigger] unblocked(s)[i]),
    decreases s.len(),
{
    if s.len() > 0 {
        let p = s.drop_last();
        lemma_unblocked_clean(p);
        let u = unblocked(s);
        assert forall|i: int| 0 <= i < u.len() implies !is_blocked_arg(#[trigger] u[i]) by {
            if !is_blocked_arg(s.last()) && i < unblocked(p).len() {
                assert(u[i] == unblocked(p)[i]);
            } else if is_blocked_arg(s.last()) {
                assert(u[i] == unblocked(p)[i]);
            }
        }
    }
}

/// Drop JVM args that can break the game or the machine: proxy/DNS hijacks,
/// TLS downgrades, agent injection, JDWP.
pub fn filter_custom_java_args(custom: &str) -> (r: Vec<String>)
    ensures
        string_views(r@) == kept_java_args(custom@),
        forall|i: int| 0 <= i < r.len() ==> !is_blocked_arg(#[trigger] r@[i]@),
{
    let c = to_chars(custom);
    let ws = words_exec(c.as_slice());
    let ghost wv = views(ws@);
    let mut r: Vec<String> = Vec::new();
    let mut i: usize = 0;
    while i < ws.len()
        invariant
            i <= ws.len(),
            wv == views(ws@),
            wv == words(custom@),
            string_views(r@) == unblocked(wv.take(i as int)),
        decreases ws.len() - i,
    {
        assert(wv.take(i + 1).drop_last() =~= wv.take(i as int));
        assert(wv[i as int] == ws@[i as int]@);
        if !blocked_exec(ws[i].as_slice()) {
            let s = string_of(ws[i].as_slice());
            let ghost r0 = r@;
            r.push(s);
            assert(string_views(r@) =~= string_views(r0).push(s@));
        }
        i += 1;
    }
    assert(wv.take(ws.len() as int) =~= wv);
    proof {
        lemma_unblocked_clean(wv);
        assert forall|i: int| 0 <= i < r.len() implies !is_blocked_arg(#[trigger] r@[i]@) by {
            assert(string_views(r@)[i] == r@[i]@);
        }
    }
    r
}

// ---------------------------------------------------------------------------
// Server addresses
// ---------------------------------------------------------------------------

pub open spec fn all_ascii_digits(s: Seq<char>) -> bool {
    forall|i: int| 0 <= i < s.len() ==> '0' <= #[trigger] s[i] <= '9'
}

/// The position of the last `:`.
pub open spec fn last_colon(s: Seq<char>) -> Option<int>
    decreases s.len(),
{
    if s.len() == 0 {
        None
    } else if s.last() == ':' {
        Some(s.len() - 1)
    } else {
        last_colon(s.drop_last())
    }
}

proof fn lemma_last_colon_in_range(s: Seq<char>)
    ensures
        last_colon(s) matches Some(k) ==> 0 <= k < s.len() && s[k] == ':',
    decreases s.len(),
{
    if s.len() > 0 && s.last() != ':' {
        lemma_last_colon_in_range(s.drop_last());
    }
}

/// `host[:port]` as `(host, port)`: split at the last `:` when a non-empty,
/// all-digit port follows it; otherwise the whole address with port 25565.
pub open spec fn server_address(addr: Seq<char>) -> (Seq<char>, Seq<char>) {
    match last_colon(addr) {
        Some(k) => if addr.skip(k + 1).len() > 0 && all_ascii_digits(addr.skip(k + 1)) {
            (addr.take(k), addr.skip(k + 1))
        } else {
            (addr, "25565"@)
        },
        None => (addr, "25565"@),
    }
}

/// Parse `host[:port]` into `(host, port)` with the default 25565.
pub fn split_server_address(addr: &str) -> (r: (String, String))
    ensures
        (r.0@, r.1@) == server_address(addr@),
{
    let a = to_chars(addr);
    let mut k: usize = a.len();
    proof {
        lemma_last_colon_in_range(a@);
        assert(a@.take(a.len() as int) =~= a@);
    }
    while k > 0
        invariant
            k <= a.len(),
            last_colon(a@) == last_colon(a@.take(k as int)),
        ensures
            k <= a.len(),
            last_colon(a@) == last_colon(a@.take(k as int)),
            k > 0 ==> a@[k - 1] == ':',
        decreases k,
    {
        assert(a@.take(k as int).drop_last() =~= a@.take(k - 1));
        if a[k - 1] == ':' {
            break;
        }
        k -= 1;
    }
    if k > 0 {
        let colon = k - 1;
        assert(a@.take(k as int).last() == ':');
        assert(last_colon(a@) == Some(colon as int));
        let port = crate::text::slice_chars(a.as_slice(), colon + 1, a.len());
        assert(port@ =~= a@.skip(colon + 1));
        let mut ok = port.len() > 0;
        let mut i: usize = 0;
        while i < port.len()
            invariant
                i <= port.len(),
                ok ==> port@.len() > 0,
                ok ==> forall|j: int| 0 <= j < i ==> '0' <= #[trigger] port@[j] <= '9',
                !ok ==> port@.len() == 0 || !all_ascii_digits(port@),
            decreases port.len() - i,
        {
            if !('0' <= port[i] && port[i] <= '9') {
                ok = false;
            }
            i += 1;
        }
        if ok {
            assert(all_ascii_digits(port@));
            assert(a@.skip(colon + 1).len() > 0 && all_ascii_digits(a@.skip(colon + 1)));
            let host = crate::text::slice_chars(a.as_slice(), 0, colon);
            assert(host@ =~= a@.take(colon as int));
            return (string_of(host.as_slice()), string_of(port.as_slice()));
        }
    }
    (string_of(a.as_slice()), string_of(to_chars("25565").as_slice()))
}

// ---------------------------------------------------------------------------
// The launch command
// ---------------------------------------------------------------------------

/// Fully resolved launch plan (also used for dry-run output).
#[derive(Debug, Clone)]
pub struct LaunchPlan {
    pub java: String,
    pub args: Vec<String>,
    pub working_dir: String,
}

/// The Java major version a version needs: the one its `version.json`
/// names, else 21.
pub fn required_java_major(version_json: &VersionJson) -> (r: u32)
    ensures
        r == match version_json.java_major {
            Some(m) => m,
            None => 21u32,
        },
{
    match version_json.java_major {
        Some(m) => m,
        None => 21,
    }
}

/// The asset index a version uses: the one its `version.json` names, else
/// the version's own name.
pub open spec fn asset_index_of(version_json: VersionJson, version_name: Seq<char>) -> Seq<char> {
    match version_json.asset_index {
        Some(a) => a@,
        None => version_name,
    }
}

/// The token passed as `--accessToken`: online accounts pass their session
/// token, offline accounts (no token) their UUID.
pub open spec fn access_token_arg(account: Account) -> Seq<char> {
    if account.access_token@.len() == 0 {
        account.uuid@
    } else {
        account.access_token@
    }
}

pub open spec fn resolution_args(resolution: Option<(u32, u32)>) -> Seq<Seq<char>> {
    match resolution {
        Some((w, h)) => seq!["--width"@, dec(w as nat), "--height"@, dec(h as nat)],
        None => Seq::empty(),
    }
}

pub open spec fn server_args(server: Option<Seq<char>>) -> Seq<Seq<char>> {
    match server {
        Some(s) => if trim(s).len() > 0 {
            let (host, port) = server_address(trim(s));
            seq!["--server"@, host, "--port"@, port]
        } else {
            Seq::empty()
        },
        None => Seq::empty(),
    }
}

/// The arguments from the natives path through the game arguments.
pub open spec fn core_args(
    game_dir: Seq<char>,
    version_name: Seq<char>,
    version_json: VersionJson,
    classpath: Seq<char>,
    account: Account,
) -> Seq<Seq<char>> {
    seq![
        "-Djava.library.path="@ + crate::text::path_join(game_dir, "natives"@),
        "-cp"@,
        classpath,
        version_json.main_class@,
        "--username"@,
        account.username@,
        "--uuid"@,
        replace_all(account.uuid@, "-"@, Seq::empty()),
        "--accessToken"@,
        access_token_arg(account),
        "--version"@,
        version_name,
        "--gameDir"@,
        game_dir,
        "--assetsDir"@,
        crate::text::path_join(game_dir, "assets"@),
        "--assetIndex"@,
        asset_index_of(version_json, version_name),
        "--userProperties"@,
        "{}"@,
        "--userType"@,
        "legacy"@,
        "--clientVersion"@,
        version_name,
        "--xuid"@,
        Seq::empty(),
        "--clientId"@,
        Seq::empty(),
    ]
}

/// The full argument list of the game's JVM, in order: the kept custom JVM
/// flags, a short DNS TTL, module access flags, the natives path and
/// classpath, the main class, then the game arguments.
pub open spec fn launch_args_spec(
    java_major: u32,
    game_dir: Seq<char>,
    version_name: Seq<char>,
    version_json: VersionJson,
    classpath: Seq<char>,
    account: Account,
    java_args: Seq<char>,
    server: Option<Seq<char>>,
    resolution: Option<(u32, u32)>,
) -> Seq<Seq<char>> {
    kept_java_args(java_args) + seq!["-Dsun.net.inetaddr.ttl=0"@] + module_flags(java_major)
        + core_args(game_dir, version_name, version_json, classpath, account) + resolution_args(
        resolution,
    ) + server_args(server)
}

/// The launch arguments begin with the user's kept JVM flags; they pass
/// the account's UUID without dashes, its access token (the UUID when
/// there is none) and the asset index that version.json names (the version
/// name when it names none); and they end with `--server <host> --port <port>`
/// exactly when a non-blank server is given.
pub proof fn lemma_launch_args_shape(
    java_major: u32,
    game_dir: Seq<char>,
    version_name: Seq<char>,
    version_json: VersionJson,
    classpath: Seq<char>,
    account: Account,
    java_args: Seq<char>,
    server: Option<Seq<char>>,
    resolution: Option<(u32, u32)>,
)
    ensures
        ({
            let args = launch_args_spec(
                java_major,
                game_dir,
                version_name,
                version_json,
                classpath,
                account,
                java_args,
                server,
                resolution,
            );
            let kept = kept_java_args(java_args);
            let c = kept.len() + 1 + module_flags(java_major).len() as int;
            &&& args.take(kept.len() as int) == kept
            &&& args[c + 6] == "--uuid"@
            &&& args[c + 7] == replace_all(account.uuid@, "-"@, Seq::empty())
            &&& args[c + 8] == "--accessToken"@
            &&& args[c + 9] == if account.access_token@.len() == 0 {
                account.uuid@
            } else {
                account.access_token@
            }
            &&& args[c + 16] == "--assetIndex"@
            &&& args[c + 17] == match version_json.asset_index {
                Some(a) => a@,
                None => version_name,
            }
            &&& match server {
                Some(s) if trim(s).len() > 0 => args.len() >= 4 && args.skip(args.len() - 4) == seq![
                    "--server"@,
                    server_address(trim(s)).0,
                    "--port"@,
                    server_address(trim(s)).1,
                ],
                _ => args == kept + seq!["-Dsun.net.inetaddr.ttl=0"@] + module_flags(java_major) + core_args(
                    game_dir,
                    version_name,
                    version_json,
                    classpath,
                    account,
                ) + resolution_args(resolution),
            }
        }),
{
    let kept = kept_java_args(java_args);
    let head = kept + seq!["-Dsun.net.inetaddr.ttl=0"@] + module_flags(java_major);
    let core = core_args(game_dir, version_name, version_json, classpath, account);
    let body = head + core + resolution_args(resolution);
    let args = body + server_args(server);
    let c = kept.len() + 1 + module_flags(java_major).len() as int;
    assert(head.len() == c);
    assert(core.len() == 28);
    assert(args.take(kept.len() as int) =~= kept);
    assert(args[c + 6] == core[6]);
    assert(args[c + 7] == core[7]);
    assert(args[c + 8] == core[8]);
    assert(args[c + 9] == core[9]);
    assert(args[c + 16] == core[16]);
    assert(args[c + 17] == core[17]);
    match server {
        Some(s) => {
            if trim(s).len() > 0 {
                assert(args.skip(args.len() - 4) =~= server_args(server));
            } else {
                assert(args =~= body);
            }
        },
        None => {
            assert(args =~= body);
        },
    }
}

fn push_owned(v: &mut Vec<String>, s: String)
    ensures
        string_views(final(v)@) == string_views(old(v)@).push(s@),
{
    let ghost v0 = v@;
    v.push(s);
    assert(string_views(v@) =~= string_views(v0).push(s@));
}

fn append_all(v: &mut Vec<String>, tail: Vec<String>)
    ensures
        string_views(final(v)@) == string_views(old(v)@) + string_views(tail@),
{
    let mut i: usize = 0;
    while i < tail.len()
        invariant
            i <= tail.len(),
            string_views(v@) == string_views(old(v)@) + string_views(tail@).take(i as int),
        decreases tail.len() - i,
    {
        let c = string_of(to_chars(tail[i].as_str()).as_slice());
        push_owned(v, c);
        i += 1;
        assert(string_views(v@) =~= string_views(old(v)@) + string_views(tail@).take(i as int));
    }
    assert(string_views(tail@).take(tail.len() as int) =~= string_views(tail@));
}

fn concat_str(a: &str, b: &str) -> (r: String)
    ensures
        r@ == a@ + b@,
{
    crate::text::concat2(a, b)
}

fn own(s: &str) -> (r: String)
    ensures
        r@ == s@,
{
    string_of(to_chars(s).as_slice())
}

#[verifier::rlimit(30)]
fn core_args_exec(
    game_dir: &str,
    version_name: &str,
    version_json: &VersionJson,
    classpath: &str,
    account: &Account,
) -> (r: Vec<String>)
    ensures
        string_views(r@) == core_args(game_dir@, version_name@, *version_json, classpath@, *account),
{
    let natives = concat_str("-Djava.library.path=", crate::text::join_path(game_dir, "natives").as_str());
    let dash = to_chars("-");
    proof {
        reveal_strlit("-");
    }
    let none: Vec<char> = Vec::new();
    let uuid_plain = string_of(
        replace_exec(to_chars(account.uuid.as_str()).as_slice(), dash.as_slice(), none.as_slice()).as_slice(),
    );
    assert(none@ =~= Seq::<char>::empty());
    let token = if account.access_token.as_str().is_empty() {
        own(account.uuid.as_str())
    } else {
        own(account.access_token.as_str())
    };
    let asset_index = match &version_json.asset_index {
        Some(a) => own(a.as_str()),
        None => own(version_name),
    };
    let r = vec![
        natives,
        own("-cp"),
        own(classpath),
        own(version_json.main_class.as_str()),
        own("--username"),
        own(account.username.as_str()),
        own("--uuid"),
        uuid_plain,
        own("--accessToken"),
        token,
        own("--version"),
        own(version_name),
        own("--gameDir"),
        own(game_dir),
        own("--assetsDir"),
        crate::text::join_path(game_dir, "assets"),
        own("--assetIndex"),
        asset_index,
        own("--userProperties"),
        own("{}"),
        own("--userType"),
        own("legacy"),
        own("--clientVersion"),
        own(version_name),
        own("--xuid"),
        String::new(),
        own("--clientId"),
        String::new(),
    ];
    assert(string_views(r@) =~= core_args(game_dir@, version_name@, *version_json, classpath@, *account));
    r
}

/// The whitespace-separated JVM flags.
fn split_flags(java_args: &str) -> (r: Vec<String>)
    ensures
        string_views(r@) == words(java_args@),
{
    let ws = words_exec(to_chars(java_args).as_slice());
    let mut parsed: Vec<String> = Vec::new();
    let mut i: usize = 0;
    while i < ws.len()
        invariant
            i <= ws.len(),
            string_views(parsed@) == views(ws@).take(i as int),
        decreases ws.len() - i,
    {
        push_owned(&mut parsed, string_of(ws[i].as_slice()));
        i += 1;
        assert(string_views(parsed@) =~= views(ws@).take(i as int));
    }
    assert(views(ws@).take(ws.len() as int) =~= views(ws@));
    parsed
}

/// The full argument list of the game's JVM.
pub fn launch_args(
    java_major: u32,
    game_dir: &str,
    version_name: &str,
    version_json: &VersionJson,
    classpath: &str,
    account: &Account,
    java_args: &str,
    server: Option<&str>,
    resolution: Option<(u32, u32)>,
) -> (r: Vec<String>)
    ensures
        string_views(r@) == launch_args_spec(
            java_major,
            game_dir@,
            version_name@,
            *version_json,
            classpath@,
            *account,
            java_args@,
            match server {
                Some(s) => Some(s@),
                None => None,
            },
            resolution,
        ),
{
    let mut args: Vec<String> = Vec::new();
    append_all(&mut args, filter_custom_java_args(java_args));
    push_string(&mut args, "-Dsun.net.inetaddr.ttl=0");
    append_all(&mut args, module_access_flags(java_major));
    let ghost head = string_views(args@);
    let core = core_args_exec(game_dir, version_name, version_json, classpath, account);
    append_all(&mut args, core);
    let ghost body = string_views(args@);
    match resolution {
        Some((w, h)) => {
            push_string(&mut args, "--width");
            push_owned(&mut args, crate::text::dec_string(w as u64));
            push_string(&mut args, "--height");
            push_owned(&mut args, crate::text::dec_string(h as u64));
        },
        None => {},
    }
    let ghost with_res = string_views(args@);
    assert(with_res =~= body + resolution_args(resolution));
    match server {
        Some(s) => {
            let t = trim_str(s);
            if t.len() > 0 {
                let ts = string_of(t.as_slice());
                let (host, port) = split_server_address(ts.as_str());
                push_string(&mut args, "--server");
                push_owned(&mut args, host);
                push_string(&mut args, "--port");
                push_owned(&mut args, port);
            }
        },
        None => {},
    }
    assert(string_views(args@) =~= with_res + server_args(
        match server {
            Some(s) => Some(s@),
            None => None,
        },
    ));
    args
}

/// Assemble the full launch command for a version, once Java, its major
/// version and the classpath are known. The JVM flags must name both heap
/// sizes: the game cannot start without them.
pub fn build_launch_plan(
    java: String,
    java_major: u32,
    game_dir: &str,
    version_name: &str,
    version_json: &VersionJson,
    classpath: &str,
    account: &Account,
    java_args: &str,
    server: Option<&str>,
    resolution: Option<(u32, u32)>,
) -> (r: Result<LaunchPlan, JvmArgsError>)
    ensures
        match r {
            Ok(plan) => jvm_args_check(words(java_args@)) is Ok && plan.java@ == java@
                && plan.working_dir@ == game_dir@ && string_views(plan.args@) == launch_args_spec(
                java_major,
                game_dir@,
                version_name@,
                *version_json,
                classpath@,
                *account,
                java_args@,
                match server {
                    Some(s) => Some(s@),
                    None => None,
                },
                resolution,
            ),
            Err(e) => jvm_args_check(words(java_args@)) == Err::<(), JvmArgsError>(e),
        },
{
    let parsed = split_flags(java_args);
    match validate_jvm_args(parsed.as_slice()) {
        Ok(()) => {},
        Err(e) => return Err(e),
    }
    let args = launch_args(
        java_major,
        game_dir,
        version_name,
        version_json,
        classpath,
        account,
        java_args,
        server,
        resolution,
    );
    Ok(LaunchPlan { java, args, working_dir: string_of(to_chars(game_dir).as_slice()) })
}

/// A game output line that reports an error: ASCII-lowercased, it mentions
/// `error`, `exception`, `failed`, `fatal` or `crash`.
pub open spec fn error_line(line: Seq<char>) -> bool {
    let l = lower(line);
    crate::text::contains(l, "error"@) || crate::text::contains(l, "exception"@) || crate::text::contains(
        l,
        "failed"@,
    ) || crate::text::contains(l, "fatal"@) || crate::text::contains(l, "crash"@)
}

/// The command line prints only error lines by default; recognize common
/// error markers.
pub fn is_error_line(line: &str) -> (r: bool)
    ensures
        r == error_line(line@),
{
    let l = crate::text::lower_str(line);
    let l = l.as_slice();
    crate::text::contains_exec(l, to_chars("error").as_slice()) || crate::text::contains_exec(
        l,
        to_chars("exception").as_slice(),
    ) || crate::text::contains_exec(l, to_chars("failed").as_slice()) || crate::text::contains_exec(
        l,
        to_chars("fatal").as_slice(),
    ) || crate::text::contains_exec(l, to_chars("crash").as_slice())
}

/// A jar whose native libraries are unpacked before launch: its file name
/// mentions `natives`.
pub fn is_natives_jar(file_name: &str) -> (r: bool)
    ensures
        r == crate::text::contains(file_name@, "natives"@),
{
    crate::text::contains_exec(to_chars(file_name).as_slice(), to_chars("natives").as_slice())
}

/// An entry of a natives jar that is unpacked into the natives directory:
/// a file (not a directory) ending in `.dll`, `.so` or `.dylib`.
pub fn is_native_library(entry_name: &str, is_dir: bool) -> (r: bool)
    ensures
        r == (!is_dir && (crate::text::ends_with(entry_name@, ".dll"@) || crate::text::ends_with(
            entry_name@,
            ".so"@,
        ) || crate::text::ends_with(entry_name@, ".dylib"@))),
{
    if is_dir {
        return false;
    }
    let n = to_chars(entry_name);
    let n = n.as_slice();
    crate::text::ends_with_exec(n, to_chars(".dll").as_slice()) || crate::text::ends_with_exec(
        n,
        to_chars(".so").as_slice(),
    ) || crate::text::ends_with_exec(n, to_chars(".dylib").as_slice())
}

/// The heap size given on the command line with its unit: as given when it
/// ends in `G` or `M` (either case), else in megabytes.
pub open spec fn heap_size(ram: Seq<char>) -> Seq<char> {
    let t = trim(ram);
    if t.len() > 0 && (t.last() == 'G' || t.last() == 'g' || t.last() == 'M' || t.last() == 'm') {
        t
    } else {
        t + "m"@
    }
}

/// The JVM flags of a command-line launch: the minimal flag pair, with
/// `--ram` as the maximum heap.
pub fn cli_jvm_flags(ram: &str) -> (r: String)
    ensures
        r@ == "-Xms1m -Xmx"@ + heap_size(ram@),
{
    let t = trim_str(ram);
    let mut out = to_chars("-Xms1m -Xmx");
    let n = t.len();
    crate::text::push_all(&mut out, t.as_slice());
    if !(n > 0 && (t[n - 1] == 'G' || t[n - 1] == 'g' || t[n - 1] == 'M' || t[n - 1] == 'm')) {
        push_str_chars(&mut out, "m");
    }
    string_of(out.as_slice())
}

// ---------------------------------------------------------------------------
// Before a launch from the window
// ---------------------------------------------------------------------------

/// What the window knows when Play is pressed.
#[derive(Debug, Clone)]
pub struct LaunchRequest {
    /// The selected instance, when it exists.
    pub instance: Option<Instance>,
    /// Whether a game of that instance is still running.
    pub instance_running: bool,
    /// Whether the instance's (trimmed) game directory is a directory.
    pub game_dir_is_dir: bool,
    /// The JVM flags of the settings.
    pub java_args: String,
    /// Whether the settings name a custom Java.
    pub use_custom_java: bool,
    /// The custom Java path of the settings.
    pub java_path: String,
    /// Whether an account is selected.
    pub has_account: bool,
    /// Whether a version is selected.
    pub has_version: bool,
}

/// Why a launch does not start.
#[derive(Debug, Clone)]
pub enum LaunchBlock {
    /// No instance is selected.
    NoInstance,
    /// The instance (named) already runs a game.
    AlreadyRunning(String),
    /// The instance has no game directory.
    NoGameDir,
    /// The instance's game directory (given) does not exist.
    MissingGameDir(String),
    /// The JVM flags cannot start the game.
    JvmArgs(JvmArgsError),
    /// A custom Java is selected without a path.
    CustomJavaEmpty,
    /// No account is selected.
    NoAccount,
    /// No version is selected.
    NoVersion,
}

/// The first of the launch checks that fails, in the order they are made
/// (8 when all pass): instance, not already running, game directory set and
/// present, JVM flags, custom Java path, account, version.
pub open spec fn failed_check(req: LaunchRequest) -> int {
    if req.instance is None {
        0
    } else if req.instance_running {
        1
    } else if trim(req.instance->0.game_dir@).len() == 0 {
        2
    } else if !req.game_dir_is_dir {
        3
    } else if jvm_args_check(words(req.java_args@)) is Err {
        4
    } else if req.use_custom_java && trim(req.java_path@).len() == 0 {
        5
    } else if !req.has_account {
        6
    } else if !req.has_version {
        7
    } else {
        8
    }
}

/// Check that a launch can start; on success, the instance's game
/// directory (trimmed) to launch in.
pub fn launch_check(req: &LaunchRequest) -> (r: Result<String, LaunchBlock>)
    ensures
        r is Ok <==> failed_check(*req) == 8,
        r matches Ok(dir) ==> dir@ == trim(req.instance->0.game_dir@),
        failed_check(*req) == 0 ==> r matches Err(LaunchBlock::NoInstance),
        failed_check(*req) == 1 ==> (r matches Err(LaunchBlock::AlreadyRunning(n)) && n@
            == req.instance->0.name@),
        failed_check(*req) == 2 ==> r matches Err(LaunchBlock::NoGameDir),
        failed_check(*req) == 3 ==> (r matches Err(LaunchBlock::MissingGameDir(d)) && d@ == trim(
            req.instance->0.game_dir@,
        )),
        failed_check(*req) == 4 ==> (r matches Err(LaunchBlock::JvmArgs(e)) && jvm_args_check(
            words(req.java_args@),
        ) == Err::<(), JvmArgsError>(e)),
        failed_check(*req) == 5 ==> r matches Err(LaunchBlock::CustomJavaEmpty),
        failed_check(*req) == 6 ==> r matches Err(LaunchBlock::NoAccount),
        failed_check(*req) == 7 ==> r matches Err(LaunchBlock::NoVersion),
{
    let instance = match &req.instance {
        Some(i) => i,
        None => return Err(LaunchBlock::NoInstance),
    };
    if req.instance_running {
        return Err(LaunchBlock::AlreadyRunning(string_of(to_chars(instance.name.as_str()).as_slice())));
    }
    let dir = trim_str(instance.game_dir.as_str());
    if dir.len() == 0 {
        return Err(LaunchBlock::NoGameDir);
    }
    if !req.game_dir_is_dir {
        return Err(LaunchBlock::MissingGameDir(string_of(dir.as_slice())));
    }
    let flags = split_flags(req.java_args.as_str());
    match validate_jvm_args(flags.as_slice()) {
        Ok(()) => {},
        Err(e) => return Err(LaunchBlock::JvmArgs(e)),
    }
    if req.use_custom_java && trim_str(req.java_path.as_str()).len() == 0 {
        return Err(LaunchBlock::CustomJavaEmpty);
    }
    if !req.has_account {
        return Err(LaunchBlock::NoAccount);
    }
    if !req.has_version {
        return Err(LaunchBlock::NoVersion);
    }
    Ok(string_of(dir.as_slice()))
}

impl LaunchBlock {
    /// The screen the window switches to for this problem, if any.
    pub fn screen(&self) -> (r: Option<Screen>)
        ensures
            r == match *self {
                LaunchBlock::NoInstance => Some(Screen::Instances),
                LaunchBlock::JvmArgs(_) | LaunchBlock::CustomJavaEmpty => Some(Screen::Settings),
                _ => None::<Screen>,
            },
    {
        match self {
            LaunchBlock::NoInstance => Some(Screen::Instances),
            LaunchBlock::JvmArgs(_) | LaunchBlock::CustomJavaEmpty => Some(Screen::Settings),
            _ => None,
        }
    }

    /// Whether the problem is only a status note (a game of the instance
    /// is running) rather than a launch error.
    pub fn is_status(&self) -> (r: bool)
        ensures
            r == (*self is AlreadyRunning),
    {
        match self {
            LaunchBlock::AlreadyRunning(_) => true,
            _ => false,
        }
    }

    /// The text shown for the problem.
    pub fn message(&self) -> (r: String)
        ensures
            r@ == match *self {
                LaunchBlock::NoInstance => "No instance selected. Create one on the Instances tab first."@,
                LaunchBlock::AlreadyRunning(n) => n@ + " is already running"@,
                LaunchBlock::NoGameDir => "The instance has no game directory. Edit it on the Instances tab."@,
                LaunchBlock::MissingGameDir(d) => "Instance game directory does not exist: "@ + d@,
                LaunchBlock::JvmArgs(e) => e.message_spec(),
                LaunchBlock::CustomJavaEmpty =>
                    "Custom Java is selected but the Java path is empty. Pick a java executable in Settings or switch back to Default."@,
                LaunchBlock::NoAccount =>
                    "No account selected. Add one on the Accounts screen (or type a name there)."@,
                LaunchBlock::NoVersion =>
                    "No version selected. Install one on the Catalog screen or scan your game dir."@,
            },
    {
        match self {
            LaunchBlock::NoInstance => string_of(
                to_chars("No instance selected. Create one on the Instances tab first.").as_slice(),
            ),
            LaunchBlock::AlreadyRunning(n) => {
                let mut out = to_chars(n.as_str());
                push_str_chars(&mut out, " is already running");
                string_of(out.as_slice())
            },
            LaunchBlock::NoGameDir => string_of(
                to_chars("The instance has no game directory. Edit it on the Instances tab.").as_slice(),
            ),
            LaunchBlock::MissingGameDir(d) => {
                let mut out = to_chars("Instance game directory does not exist: ");
                push_str_chars(&mut out, d.as_str());
                string_of(out.as_slice())
            },
            LaunchBlock::JvmArgs(e) => string_of(to_chars(e.message()).as_slice()),
            LaunchBlock::CustomJavaEmpty => string_of(
                to_chars(
                    "Custom Java is selected but the Java path is empty. Pick a java executable in Settings or switch back to Default.",
                ).as_slice(),
            ),
            LaunchBlock::NoAccount => string_of(
                to_chars("No account selected. Add one on the Accounts screen (or type a name there).").as_slice(),
            ),
            LaunchBlock::NoVersion => string_of(
                to_chars("No version selected. Install one on the Catalog screen or scan your game dir.").as_slice(),
            ),
        }
    }
}

} // verus!
