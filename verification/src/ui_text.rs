//! Text shaping for notifications and project pages: the lines of a
//! notification's detail and plain text from markdown.
use vstd::prelude::*;

use crate::text::{
    find_first, find_first_exec, replace_all, replace_exec, slice_chars, split_exec, split_on,
    string_of, string_views, to_chars, views, push_all,
};

verus! {

broadcast use vstd::std_specs::vec::group_vec_axioms, vstd::seq::group_seq_axioms;

/// A line without the `\r` of a `\r\n` ending.
pub open spec fn strip_cr(l: Seq<char>) -> Seq<char> {
    if l.len() > 0 && l.last() == '\r' {
        l.drop_last()
    } else {
        l
    }
}

/// The lines of `s`, as `str::lines` yields them: split at `\n`, a `\r`
/// before the `\n` dropped, and no empty last line after a final newline.
pub open spec fn lines_of(s: Seq<char>) -> Seq<Seq<char>> {
    let p = split_on(s, seq!['\n']);
    let ended = p.take(p.len() - 1).map_values(|l: Seq<char>| strip_cr(l));
    if p.last().len() > 0 {
        ended.push(p.last())
    } else {
        ended
    }
}

pub open spec fn ellipsis() -> Seq<char> {
    seq!['\u{2026}']
}

/// The lines shown for a notification detail: all of them when there are at
/// most `max_lines`, else the first `max_lines - 1` (none for a cap of 0)
/// and a single `…` line.
pub open spec fn collapsed(detail: Seq<char>, max_lines: nat) -> Seq<Seq<char>> {
    let lines = lines_of(detail);
    if lines.len() <= max_lines {
        lines
    } else {
        lines.take(if max_lines > 0 {
            max_lines - 1
        } else {
            0
        }).push(ellipsis())
    }
}

pub fn lines_exec(s: &str) -> (r: Vec<Vec<char>>)
    ensures
        views(r@) == lines_of(s@),
{
    let nl = vec!['\n'];
    assert(nl@ =~= seq!['\n']);
    let c = to_chars(s);
    let p = split_exec(c.as_slice(), nl.as_slice());
    let ghost pv = views(p@);
    proof {
        crate::text::lemma_split_on_nonempty(s@, seq!['\n']);
    }
    let n = p.len();
    let mut r: Vec<Vec<char>> = Vec::new();
    let mut i: usize = 0;
    while i + 1 < n
        invariant
            n == p.len(),
            n >= 1,
            i + 1 <= n,
            pv == views(p@),
            views(r@) == pv.take(i as int).map_values(|l: Seq<char>| strip_cr(l)),
        decreases n - i,
    {
        let l = &p[i];
        let t = if l.len() > 0 && l[l.len() - 1] == '\r' {
            slice_chars(l.as_slice(), 0, l.len() - 1)
        } else {
            slice_chars(l.as_slice(), 0, l.len())
        };
        assert(pv[i as int] == l@);
        assert(t@ =~= strip_cr(l@));
        let ghost r0 = r@;
        r.push(t);
        assert(views(r@) =~= views(r0).push(t@));
        i += 1;
        assert(views(r@) =~= pv.take(i as int).map_values(|l: Seq<char>| strip_cr(l)));
    }
    assert(pv.last() == p@[n - 1]@);
    if p[n - 1].len() > 0 {
        let t = slice_chars(p[n - 1].as_slice(), 0, p[n - 1].len());
        assert(t@ =~= pv.last());
        let ghost r0 = r@;
        r.push(t);
        assert(views(r@) =~= views(r0).push(t@));
    }
    r
}

/// The lines of a notification detail, capped at `max_lines`: past the cap
/// the overflow becomes a single `…` line.
pub fn collapse_detail(detail: &str, max_lines: usize) -> (r: Vec<String>)
    ensures
        string_views(r@) == collapsed(detail@, max_lines as nat),
{
    let lines = lines_exec(detail);
    let ghost lv = views(lines@);
    let keep = if lines.len() <= max_lines {
        lines.len()
    } else if max_lines > 0 {
        max_lines - 1
    } else {
        0
    };
    let mut out: Vec<String> = Vec::new();
    let mut i: usize = 0;
    while i < keep
        invariant
            keep <= lines.len(),
            lv == views(lines@),
            i <= keep,
            string_views(out@) == lv.take(i as int),
        decreases keep - i,
    {
        let s = string_of(lines[i].as_slice());
        let ghost o0 = out@;
        out.push(s);
        assert(string_views(out@) =~= string_views(o0).push(s@));
        i += 1;
        assert(string_views(out@) =~= lv.take(i as int));
    }
    if lines.len() > max_lines {
        let e = string_of(&['\u{2026}']);
        let ghost o0 = out@;
        out.push(e);
        assert(string_views(out@) =~= string_views(o0).push(e@));
        assert(e@ =~= ellipsis());
    } else {
        assert(lv.take(keep as int) =~= lv);
    }
    out
}

// ---------------------------------------------------------------------------
// Markdown
// ---------------------------------------------------------------------------

/// The first occurrence of `p` at or after `from`.
pub open spec fn find_from(s: Seq<char>, p: Seq<char>, from: int) -> Option<int> {
    match find_first(s.skip(from), p) {
        Some(k) => Some(from + k),
        None => None,
    }
}

/// Links `[text](url)` collapsed to their text, leftmost first, until no
/// complete link remains.
pub open spec fn strip_links(s: Seq<char>) -> Seq<char>
    decreases s.len(),
{
    match find_first(s, seq!['[']) {
        None => s,
        Some(start) => match find_from(s, seq![']', '('], start) {
            None => s,
            Some(end) => match find_from(s, seq![')'], end) {
                None => s,
                Some(close) => if 0 <= start < end && end <= close < s.len() {
                    strip_links(s.take(start) + s.subrange(start + 1, end) + s.skip(close + 1))
                } else {
                    s
                },
            },
        },
    }
}

/// A line of a project body with the most common markdown noise removed:
/// `**`, `*` and `` ` `` dropped, links reduced to their text.
pub open spec fn stripped_markdown(line: Seq<char>) -> Seq<char> {
    strip_links(
        replace_all(
            replace_all(replace_all(line, seq!['*', '*'], Seq::empty()), seq!['*'], Seq::empty()),
            seq!['`'],
            Seq::empty(),
        ),
    )
}

fn find_from_exec(s: &[char], p: &[char], from: usize) -> (r: Option<usize>)
    requires
        from <= s.len(),
    ensures
        match r {
            Some(i) => find_from(s@, p@, from as int) == Some(i as int) && i + p.len() <= s.len(),
            None => find_from(s@, p@, from as int) is None,
        },
{
    let t = slice_chars(s, from, s.len());
    assert(t@ =~= s@.skip(from as int));
    match find_first_exec(t.as_slice(), p) {
        Some(k) => Some(from + k),
        None => None,
    }
}

/// Strip the most common markdown noise so project bodies read cleanly in
/// the plain-text description view.
pub fn strip_markdown(line: &str) -> (r: String)
    ensures
        r@ == stripped_markdown(line@),
{
    let c = to_chars(line);
    let empty: Vec<char> = Vec::new();
    let stars = vec!['*', '*'];
    let star = vec!['*'];
    let tick = vec!['`'];
    let open = vec!['['];
    let mid = vec![']', '('];
    let close_p = vec![')'];
    assert(empty@ =~= Seq::<char>::empty());
    assert(stars@ =~= seq!['*', '*'] && star@ =~= seq!['*'] && tick@ =~= seq!['`']);
    assert(open@ =~= seq!['['] && mid@ =~= seq![']', '('] && close_p@ =~= seq![')']);
    let a = replace_exec(c.as_slice(), stars.as_slice(), empty.as_slice());
    let b = replace_exec(a.as_slice(), star.as_slice(), empty.as_slice());
    let mut out = replace_exec(b.as_slice(), tick.as_slice(), empty.as_slice());
    loop
        invariant
            strip_links(out@) == stripped_markdown(line@),
            open@ == seq!['['],
            mid@ == seq![']', '('],
            close_p@ == seq![')'],
        ensures
            out@ == stripped_markdown(line@),
        decreases out.len(),
    {
        let start = match find_first_exec(out.as_slice(), open.as_slice()) {
            Some(i) => i,
            None => break,
        };
        let end = match find_from_exec(out.as_slice(), mid.as_slice(), start) {
            Some(i) => i,
            None => break,
        };
        let close = match find_from_exec(out.as_slice(), close_p.as_slice(), end) {
            Some(i) => i,
            None => break,
        };
        if !(start < end && end <= close && close < out.len()) {
            break;
        }
        let mut next = slice_chars(out.as_slice(), 0, start);
        let text = slice_chars(out.as_slice(), start + 1, end);
        let tail = slice_chars(out.as_slice(), close + 1, out.len());
        push_all(&mut next, text.as_slice());
        push_all(&mut next, tail.as_slice());
        assert(next@ =~= out@.take(start as int) + out@.subrange(start + 1, end as int) + out@.skip(
            close + 1,
        ));
        out = next;
    }
    string_of(out.as_slice())
}

// ---------------------------------------------------------------------------
// The console
// ---------------------------------------------------------------------------

/// The maximum number of console lines kept in memory.
pub const CONSOLE_CAP: usize = 8000;

/// Appends a line to the console, dropping the oldest lines beyond
/// [`CONSOLE_CAP`].
pub fn push_line(console: &mut Vec<String>, line: String)
    ensures
        ({
            let all = old(console)@.push(line);
            final(console)@ == if all.len() > CONSOLE_CAP {
                all.skip(all.len() - CONSOLE_CAP)
            } else {
                all
            }
        }),
{
    console.push(line);
    let ghost all = console@;
    assert(all.skip(0) =~= all);
    while console.len() > CONSOLE_CAP
        invariant
            console@.len() <= all.len(),
            console@ == all.skip(all.len() - console@.len()),
            all.len() > CONSOLE_CAP ==> console@.len() >= CONSOLE_CAP,
            all.len() <= CONSOLE_CAP ==> console@ == all,
        decreases console.len(),
    {
        console.remove(0);
        assert(console@ =~= all.skip(all.len() - console@.len()));
    }
}

} // verus!
