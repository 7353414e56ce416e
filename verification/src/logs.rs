//! Session logging with numbered files (`logs/launcher-N_<time>.log`,
//! `logs/game-N_<time>.log`). The counter is monotonic: it scans the
//! existing file names and never reuses a number.
use vstd::prelude::*;

use crate::text::{
    dec, parse_u32, parse_u32_exec, push_dec, push_str_chars, slice_chars, split_exec, split_on,
    starts_with, starts_with_exec, string_of, to_chars, views,
};

verus! {

broadcast use vstd::std_specs::vec::group_vec_axioms, vstd::seq::group_seq_axioms;

/// The session number a log file name carries for `prefix`:
/// `<prefix>-<N>_…` (or `<prefix>-<N>`), `N` a `u32`.
pub open spec fn log_number(name: Seq<char>, prefix: Seq<char>) -> Option<u32> {
    if starts_with(name, prefix + "-"@) {
        let rest = name.skip(prefix.len() + 1 as int);
        parse_u32(split_on(rest, seq!['_'])[0])
    } else {
        None
    }
}

/// The largest session number among the names (0 when none).
pub open spec fn max_log_number(names: Seq<Seq<char>>, prefix: Seq<char>) -> u32
    decreases names.len(),
{
    if names.len() == 0 {
        0
    } else {
        let m = max_log_number(names.drop_last(), prefix);
        match log_number(names.last(), prefix) {
            Some(n) => if n > m {
                n
            } else {
                m
            },
            None => m,
        }
    }
}

proof fn lemma_max_log_number(names: Seq<Seq<char>>, prefix: Seq<char>)
    ensures
        forall|i: int|
            0 <= i < names.len() ==> (log_number(#[trigger] names[i], prefix) matches Some(n) ==> n
                <= max_log_number(names, prefix)),
    decreases names.len(),
{
    if names.len() > 0 {
        let p = names.drop_last();
        lemma_max_log_number(p, prefix);
        assert forall|i: int| 0 <= i < names.len() implies (log_number(#[trigger] names[i], prefix) matches Some(
            n,
        ) ==> n <= max_log_number(names, prefix)) by {
            if i < p.len() {
                assert(names[i] == p[i]);
            }
        }
    }
}

fn log_number_exec(name: &str, prefix: &str) -> (r: Option<u32>)
    ensures
        r == log_number(name@, prefix@),
{
    let mut p = to_chars(prefix);
    push_str_chars(&mut p, "-");
    let n = to_chars(name);
    if !starts_with_exec(n.as_slice(), p.as_slice()) {
        return None;
    }
    proof {
        reveal_strlit("-");
    }
    let rest = slice_chars(n.as_slice(), p.len(), n.len());
    assert(rest@ =~= name@.skip(prefix@.len() + 1 as int));
    let us = vec!['_'];
    assert(us@ =~= seq!['_']);
    let parts = split_exec(rest.as_slice(), us.as_slice());
    proof {
        crate::text::lemma_split_on_nonempty(rest@, seq!['_']);
    }
    assert(views(parts@)[0] == parts@[0]@);
    parse_u32_exec(parts[0].as_slice())
}

/// The largest `prefix-N_…` number among the file names of the logs
/// directory (0 when there is none).
pub fn highest_log_number(names: &Vec<String>, prefix: &str) -> (r: u32)
    ensures
        r == max_log_number(names@.map_values(|s: String| s@), prefix@),
        forall|i: int|
            0 <= i < names.len() ==> (log_number(#[trigger] names@[i]@, prefix@) matches Some(n) ==> n <= r),
{
    let ghost ns = names@.map_values(|s: String| s@);
    let mut max: u32 = 0;
    let mut i: usize = 0;
    while i < names.len()
        invariant
            i <= names.len(),
            ns == names@.map_values(|s: String| s@),
            max == max_log_number(ns.take(i as int), prefix@),
        decreases names.len() - i,
    {
        assert(ns.take(i + 1).drop_last() =~= ns.take(i as int));
        assert(ns[i as int] == names@[i as int]@);
        match log_number_exec(names[i].as_str(), prefix) {
            Some(n) => {
                if n > max {
                    max = n;
                }
            },
            None => {},
        }
        i += 1;
    }
    assert(ns.take(names.len() as int) =~= ns);
    proof {
        lemma_max_log_number(ns, prefix@);
        assert forall|i: int| 0 <= i < names.len() implies ns[i] == #[trigger] names@[i]@ by {}
    }
    max
}

/// One past the largest `prefix-N_…` number among the file names of the
/// logs directory: numbers are never reused. (A name numbered `u32::MAX`
/// leaves no next number.)
pub fn next_number(names: &Vec<String>, prefix: &str) -> (r: u32)
    requires
        max_log_number(names@.map_values(|s: String| s@), prefix@) < u32::MAX,
    ensures
        r == max_log_number(names@.map_values(|s: String| s@), prefix@) + 1,
        forall|i: int|
            0 <= i < names.len() ==> (log_number(#[trigger] names@[i]@, prefix@) matches Some(n) ==> n < r),
{
    highest_log_number(names, prefix) + 1
}

/// The file name of session `num`: `<prefix>-<num>_<timestamp>.log`.
pub fn log_file_name(prefix: &str, num: u32, timestamp: &str) -> (r: String)
    ensures
        r@ == prefix@ + "-"@ + dec(num as nat) + "_"@ + timestamp@ + ".log"@,
{
    let mut out = to_chars(prefix);
    push_str_chars(&mut out, "-");
    push_dec(&mut out, num as u64);
    push_str_chars(&mut out, "_");
    push_str_chars(&mut out, timestamp);
    push_str_chars(&mut out, ".log");
    string_of(out.as_slice())
}

/// The first line of a session log.
pub fn session_header(prefix: &str, num: u32, started: &str) -> (r: String)
    ensures
        r@ == "[Log] === "@ + prefix@ + " session #"@ + dec(num as nat) + " started at "@ + started@
            + " ==="@,
{
    let mut out = to_chars("[Log] === ");
    push_str_chars(&mut out, prefix);
    push_str_chars(&mut out, " session #");
    push_dec(&mut out, num as u64);
    push_str_chars(&mut out, " started at ");
    push_str_chars(&mut out, started);
    push_str_chars(&mut out, " ===");
    string_of(out.as_slice())
}

/// The last line of a session log.
pub fn session_footer(closed: &str) -> (r: String)
    ensures
        r@ == "[Log] === Log closed at "@ + closed@ + " ==="@,
{
    let mut out = to_chars("[Log] === Log closed at ");
    push_str_chars(&mut out, closed);
    push_str_chars(&mut out, " ===");
    string_of(out.as_slice())
}

} // verus!
