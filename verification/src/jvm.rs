//! JVM flag presets. Memory is configured here (via `-Xms`/`-Xmx`), not by a
//! separate RAM slider: the game refuses to launch without heap flags.
use vstd::prelude::*;

use crate::text::{lower, lower_str, starts_with, starts_with_exec, str_eq, string_views, to_chars};

verus! {

broadcast use vstd::std_specs::vec::group_vec_axioms, vstd::seq::group_seq_axioms;

/// The fallback flag set used everywhere no explicit preset was chosen.
pub const DEFAULT_JVM_ARGS: &'static str = "-Xms1m -Xmx4g";

/// A named, ready-made JVM flag set.
#[derive(Debug, Clone, Copy)]
pub struct JvmPreset {
    pub id: &'static str,
    pub label: &'static str,
    pub args: &'static str,
}

pub open spec fn preset_ids() -> Seq<Seq<char>> {
    seq!["minimal"@, "g1gc"@, "shenandoah"@, "zgc"@, "parallel"@]
}

pub open spec fn preset_labels() -> Seq<Seq<char>> {
    seq![
        "Minimal"@,
        "G1GC (optimized)"@,
        "Shenandoah GC (optimized)"@,
        "ZGC (optimized)"@,
        "Parallel GC (optimized)"@,
    ]
}

pub open spec fn preset_args() -> Seq<Seq<char>> {
    seq![
        "-Xms1m -Xmx4g"@,
        "-Xms1m -Xmx4g -XX:+UseG1GC -XX:+ParallelRefProcEnabled -XX:MaxGCPauseMillis=200 -XX:G1NewSizePercent=20 -XX:G1ReservePercent=20 -XX:MaxTenuringThreshold=1 -XX:InitiatingHeapOccupancyPercent=15 -XX:G1HeapRegionSize=16M -XX:+UnlockExperimentalVMOptions -XX:+DisableExplicitGC -XX:+AlwaysPreTouch"@,
        "-Xms1m -Xmx4g -XX:+UseShenandoahGC -XX:ShenandoahGCHeuristics=adaptive -XX:+AlwaysPreTouch -XX:+DisableExplicitGC -XX:+ParallelRefProcEnabled"@,
        "-Xms1m -Xmx4g -XX:+UseZGC -XX:+AlwaysPreTouch -XX:+DisableExplicitGC -XX:+ParallelRefProcEnabled"@,
        "-Xms1m -Xmx4g -XX:+UseParallelGC -XX:+ParallelRefProcEnabled -XX:MaxGCPauseMillis=200 -XX:+DisableExplicitGC -XX:+AlwaysPreTouch"@,
    ]
}

/// Preset `i` as listed.
pub open spec fn is_preset(p: JvmPreset, i: int) -> bool {
    &&& 0 <= i < 5
    &&& p.id@ == preset_ids()[i]
    &&& p.label@ == preset_labels()[i]
    &&& p.args@ == preset_args()[i]
}

/// All built-in presets, in display order.
pub fn presets() -> (r: Vec<JvmPreset>)
    ensures
        r.len() == 5,
        forall|i: int| 0 <= i < 5 ==> is_preset(#[trigger] r@[i], i),
{
    let r = vec![
        JvmPreset { id: "minimal", label: "Minimal", args: "-Xms1m -Xmx4g" },
        JvmPreset {
            id: "g1gc",
            label: "G1GC (optimized)",
            args: "-Xms1m -Xmx4g -XX:+UseG1GC -XX:+ParallelRefProcEnabled -XX:MaxGCPauseMillis=200 -XX:G1NewSizePercent=20 -XX:G1ReservePercent=20 -XX:MaxTenuringThreshold=1 -XX:InitiatingHeapOccupancyPercent=15 -XX:G1HeapRegionSize=16M -XX:+UnlockExperimentalVMOptions -XX:+DisableExplicitGC -XX:+AlwaysPreTouch",
        },
        JvmPreset {
            id: "shenandoah",
            label: "Shenandoah GC (optimized)",
            args: "-Xms1m -Xmx4g -XX:+UseShenandoahGC -XX:ShenandoahGCHeuristics=adaptive -XX:+AlwaysPreTouch -XX:+DisableExplicitGC -XX:+ParallelRefProcEnabled",
        },
        JvmPreset {
            id: "zgc",
            label: "ZGC (optimized)",
            args: "-Xms1m -Xmx4g -XX:+UseZGC -XX:+AlwaysPreTouch -XX:+DisableExplicitGC -XX:+ParallelRefProcEnabled",
        },
        JvmPreset {
            id: "parallel",
            label: "Parallel GC (optimized)",
            args: "-Xms1m -Xmx4g -XX:+UseParallelGC -XX:+ParallelRefProcEnabled -XX:MaxGCPauseMillis=200 -XX:+DisableExplicitGC -XX:+AlwaysPreTouch",
        },
    ];
    r
}

/// The position of the first preset with id `id`, looking from `from`.
pub open spec fn preset_index(id: Seq<char>, from: int) -> Option<int>
    decreases 5 - from,
{
    if from < 0 || from >= 5 {
        None
    } else if preset_ids()[from] == id {
        Some(from)
    } else {
        preset_index(id, from + 1)
    }
}

/// Look up a preset by id.
pub fn find_preset(id: &str) -> (r: Option<JvmPreset>)
    ensures
        match r {
            Some(p) => preset_index(id@, 0) is Some && is_preset(p, preset_index(id@, 0)->0),
            None => preset_index(id@, 0) is None,
        },
{
    let all = presets();
    let mut i: usize = 0;
    while i < all.len()
        invariant
            all.len() == 5,
            i <= 5,
            forall|k: int| 0 <= k < 5 ==> is_preset(#[trigger] all@[k], k),
            preset_index(id@, 0) == preset_index(id@, i as int),
        decreases 5 - i,
    {
        assert(is_preset(all@[i as int], i as int));
        if str_eq(all[i].id, id) {
            return Some(all[i]);
        }
        i += 1;
    }
    None
}

/// A heap-size flag (`-Xms…` / `-Xmx…`, ASCII case ignored, any unit).
pub open spec fn heap_flag(arg: Seq<char>) -> bool {
    starts_with(lower(arg), "-xms"@) || starts_with(lower(arg), "-xmx"@)
}

/// Is this flag a heap-size flag (`-Xms…` / `-Xmx…`, any case, any unit)?
pub fn is_heap_flag(arg: &str) -> (r: bool)
    ensures
        r == heap_flag(arg@),
{
    let l = lower_str(arg);
    starts_with_exec(l.as_slice(), to_chars("-xms").as_slice()) || starts_with_exec(
        l.as_slice(),
        to_chars("-xmx").as_slice(),
    )
}

/// Why a JVM flag set cannot start the game.
#[derive(Debug, Clone, Copy, PartialEq, Eq, Structural)]
pub enum JvmArgsError {
    /// No flags at all.
    Empty,
    /// No `-Xms` flag (initial heap).
    MissingXms,
    /// No `-Xmx` flag (maximum heap).
    MissingXmx,
    /// Neither heap flag.
    MissingBoth,
}

impl JvmArgsError {
    /// The text shown for the problem.
    pub open spec fn message_spec(self) -> Seq<char> {
        match self {
            JvmArgsError::Empty =>
                "JVM flags are empty \u{2014} the game cannot start without heap flags (pick a preset in Settings or add -Xms/-Xmx)."@,
            JvmArgsError::MissingXms => "JVM flags are missing -Xms (initial heap)."@,
            JvmArgsError::MissingXmx => "JVM flags are missing -Xmx (maximum heap)."@,
            JvmArgsError::MissingBoth => "JVM flags are missing both -Xms and -Xmx (heap size)."@,
        }
    }

    pub fn message(self) -> (r: &'static str)
        ensures
            r@ == self.message_spec(),
    {
        match self {
            JvmArgsError::Empty => "JVM flags are empty \u{2014} the game cannot start without heap flags (pick a preset in Settings or add -Xms/-Xmx).",
            JvmArgsError::MissingXms => "JVM flags are missing -Xms (initial heap).",
            JvmArgsError::MissingXmx => "JVM flags are missing -Xmx (maximum heap).",
            JvmArgsError::MissingBoth => "JVM flags are missing both -Xms and -Xmx (heap size).",
        }
    }
}

pub open spec fn has_prefix_flag(args: Seq<Seq<char>>, p: Seq<char>) -> bool {
    exists|i: int| 0 <= i < args.len() && starts_with(lower(#[trigger] args[i]), p)
}

/// Launch-time validation of the JVM flags: the game must not start when
/// the flag set is empty or when either heap boundary is missing.
pub open spec fn jvm_args_check(args: Seq<Seq<char>>) -> Result<(), JvmArgsError> {
    let xms = has_prefix_flag(args, "-xms"@);
    let xmx = has_prefix_flag(args, "-xmx"@);
    if args.len() == 0 {
        Err(JvmArgsError::Empty)
    } else if xms && xmx {
        Ok(())
    } else if xmx {
        Err(JvmArgsError::MissingXms)
    } else if xms {
        Err(JvmArgsError::MissingXmx)
    } else {
        Err(JvmArgsError::MissingBoth)
    }
}

fn any_with_prefix(args: &[String], p: &str) -> (r: bool)
    ensures
        r == has_prefix_flag(string_views(args@), p@),
{
    let pc = to_chars(p);
    let mut i: usize = 0;
    while i < args.len()
        invariant
            i <= args.len(),
            pc@ == p@,
            forall|k: int| 0 <= k < i ==> !starts_with(lower(#[trigger] string_views(args@)[k]), p@),
        decreases args.len() - i,
    {
        let l = lower_str(args[i].as_str());
        assert(string_views(args@)[i as int] == args@[i as int]@);
        if starts_with_exec(l.as_slice(), pc.as_slice()) {
            return true;
        }
        i += 1;
    }
    false
}

/// Launch-time validation of the JVM flags.
pub fn validate_jvm_args(args: &[String]) -> (r: Result<(), JvmArgsError>)
    ensures
        r == jvm_args_check(string_views(args@)),
{
    if args.len() == 0 {
        return Err(JvmArgsError::Empty);
    }
    let xms = any_with_prefix(args, "-xms");
    let xmx = any_with_prefix(args, "-xmx");
    if xms && xmx {
        Ok(())
    } else if xmx {
        Err(JvmArgsError::MissingXms)
    } else if xms {
        Err(JvmArgsError::MissingXmx)
    } else {
        Err(JvmArgsError::MissingBoth)
    }
}

} // verus!
