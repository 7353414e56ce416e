//! Character- and byte-level string helpers shared by the launcher logic.
use vstd::prelude::*;
use vstd::utf8::*;

verus! {

/// The characters of a string slice, in order.
pub fn to_chars(s: &str) -> (v: Vec<char>)
    ensures
        v@ == s@,
{
    let mut v: Vec<char> = Vec::new();
    for c in it: s.chars()
        invariant
            v@ == it.seq().take(it.index()),
            it.seq() == s@,
    {
        v.push(c);
    }
    v
}


/// `std::str::from_utf8`: the string whose UTF-8 encoding is `bytes`, when
/// `bytes` is valid UTF-8 (the standard library checks exactly that).
#[verifier::external_body]
pub(crate) fn str_from_utf8(bytes: &[u8]) -> (r: Option<&str>)
    ensures
        r is Some <==> valid_utf8(bytes@),
        r matches Some(s) ==> s@ == decode_utf8(bytes@),
{
    std::str::from_utf8(bytes).ok()
}

/// The bytes `data[from..to]` as a new vector.
pub fn copy_range(data: &[u8], from: usize, to: usize) -> (v: Vec<u8>)
    requires
        from <= to <= data.len(),
    ensures
        v@ == data@.subrange(from as int, to as int),
{
    let mut v: Vec<u8> = Vec::new();
    let mut i = from;
    while i < to
        invariant
            from <= i <= to <= data.len(),
            v@ == data@.subrange(from as int, i as int),
        decreases to - i,
    {
        v.push(data[i]);
        i += 1;
        assert(v@ =~= data@.subrange(from as int, i as int));
    }
    v
}


/// `String::push`: appends one character.
#[verifier::external_body]
pub(crate) fn push_char(s: &mut String, c: char)
    ensures
        final(s)@ == old(s)@.push(c),
{
    s.push(c);
}

/// A string holding exactly the given characters.
pub fn string_of(chars: &[char]) -> (r: String)
    ensures
        r@ == chars@,
{
    let mut r = String::new();
    let mut i: usize = 0;
    while i < chars.len()
        invariant
            i <= chars.len(),
            r@ == chars@.take(i as int),
        decreases chars.len() - i,
    {
        push_char(&mut r, chars[i]);
        i += 1;
        assert(r@ =~= chars@.take(i as int));
    }
    assert(chars@.take(chars.len() as int) =~= chars@);
    r
}

/// Appends all characters of `tail` to `v`.
pub fn push_all(v: &mut Vec<char>, tail: &[char])
    ensures
        final(v)@ == old(v)@ + tail@,
{
    let mut i: usize = 0;
    while i < tail.len()
        invariant
            i <= tail.len(),
            v@ == old(v)@ + tail@.take(i as int),
        decreases tail.len() - i,
    {
        v.push(tail[i]);
        i += 1;
        assert(v@ =~= old(v)@ + tail@.take(i as int));
    }
    assert(tail@.take(tail.len() as int) =~= tail@);
}

/// Appends the characters of a string slice to `v`.
pub fn push_str_chars(v: &mut Vec<char>, s: &str)
    ensures
        final(v)@ == old(v)@ + s@,
{
    let c = to_chars(s);
    push_all(v, c.as_slice());
}

/// The concatenation of two strings.
pub fn concat2(a: &str, b: &str) -> (r: String)
    ensures
        r@ == a@ + b@,
{
    let mut v = to_chars(a);
    push_str_chars(&mut v, b);
    string_of(v.as_slice())
}

/// `child` joined onto `base` as `Path::join` does on a `/`-separated path:
/// an absolute child (starting with `/`) replaces the base, the child stands
/// alone after an empty base, and no second separator follows a base that
/// already ends in `/`.
pub open spec fn path_join(base: Seq<char>, child: Seq<char>) -> Seq<char> {
    if child.len() > 0 && child[0] == '/' {
        child
    } else if base.len() == 0 {
        child
    } else if base.last() == '/' {
        base + child
    } else {
        base + seq!['/'] + child
    }
}

pub fn join_chars(base: &[char], child: &[char]) -> (r: Vec<char>)
    ensures
        r@ == path_join(base@, child@),
{
    let mut v: Vec<char> = Vec::new();
    if child.len() > 0 && child[0] == '/' {
        push_all(&mut v, child);
        assert(v@ =~= path_join(base@, child@));
        return v;
    }
    push_all(&mut v, base);
    if base.len() > 0 && base[base.len() - 1] != '/' {
        v.push('/');
    }
    push_all(&mut v, child);
    proof {
        if base@.len() > 0 {
            assert(base@.last() == base@[base@.len() - 1]);
        }
    }
    assert(v@ =~= path_join(base@, child@));
    v
}

/// [`path_join`] on strings.
pub fn join_path(base: &str, child: &str) -> (r: String)
    ensures
        r@ == path_join(base@, child@),
{
    let b = to_chars(base);
    let c = to_chars(child);
    string_of(join_chars(b.as_slice(), c.as_slice()).as_slice())
}

/// Whether two character sequences are equal.
pub fn chars_eq(a: &[char], b: &[char]) -> (r: bool)
    ensures
        r == (a@ == b@),
{
    if a.len() != b.len() {
        return false;
    }
    let mut i: usize = 0;
    while i < a.len()
        invariant
            a.len() == b.len(),
            i <= a.len(),
            a@.take(i as int) == b@.take(i as int),
        decreases a.len() - i,
    {
        if a[i] != b[i] {
            assert(a@[i as int] != b@[i as int]);
            return false;
        }
        i += 1;
        assert(a@.take(i as int) =~= b@.take(i as int));
    }
    assert(a@ =~= a@.take(a.len() as int));
    assert(b@ =~= b@.take(b.len() as int));
    true
}

/// Whether two string slices hold the same characters.
pub fn str_eq(a: &str, b: &str) -> (r: bool)
    ensures
        r == (a@ == b@),
{
    let ca = to_chars(a);
    let cb = to_chars(b);
    chars_eq(ca.as_slice(), cb.as_slice())
}

// ---------------------------------------------------------------------------
// ASCII case
// ---------------------------------------------------------------------------

pub open spec fn lower_char(c: char) -> char {
    if 'A' <= c <= 'Z' {
        ((c as u32) + 32) as char
    } else {
        c
    }
}

/// ASCII lowercase (`str::to_ascii_lowercase`).
pub open spec fn lower(s: Seq<char>) -> Seq<char> {
    s.map_values(|c: char| lower_char(c))
}

pub fn lower_char_exec(c: char) -> (r: char)
    ensures
        r == lower_char(c),
{
    if 'A' <= c && c <= 'Z' {
        ((c as u8) + 32) as char
    } else {
        c
    }
}

/// The ASCII-lowercased characters.
pub fn lower_chars(s: &[char]) -> (r: Vec<char>)
    ensures
        r@ == lower(s@),
{
    let mut r: Vec<char> = Vec::new();
    let mut i: usize = 0;
    while i < s.len()
        invariant
            i <= s.len(),
            r@ == lower(s@.take(i as int)),
        decreases s.len() - i,
    {
        r.push(lower_char_exec(s[i]));
        i += 1;
        assert(r@ =~= lower(s@.take(i as int)));
    }
    assert(s@.take(s.len() as int) =~= s@);
    r
}

/// The ASCII-lowercased characters of a string slice.
pub fn lower_str(s: &str) -> (r: Vec<char>)
    ensures
        r@ == lower(s@),
{
    let c = to_chars(s);
    lower_chars(c.as_slice())
}

// ---------------------------------------------------------------------------
// Prefixes, suffixes, occurrences
// ---------------------------------------------------------------------------

pub open spec fn starts_with(s: Seq<char>, p: Seq<char>) -> bool {
    p.len() <= s.len() && s.take(p.len() as int) == p
}

pub open spec fn ends_with(s: Seq<char>, p: Seq<char>) -> bool {
    p.len() <= s.len() && s.skip(s.len() - p.len()) == p
}

/// `p` occurs in `s` starting at index `i`.
pub open spec fn occurs_at(s: Seq<char>, p: Seq<char>, i: int) -> bool {
    0 <= i && i + p.len() <= s.len() && s.subrange(i, i + p.len()) == p
}

pub open spec fn contains(s: Seq<char>, p: Seq<char>) -> bool {
    exists|i: int| occurs_at(s, p, i)
}

/// `i` is the first index where `p` occurs in `s`.
pub open spec fn first_occurrence(s: Seq<char>, p: Seq<char>, i: int) -> bool {
    occurs_at(s, p, i) && forall|j: int| 0 <= j < i ==> !occurs_at(s, p, j)
}

/// Whether `p` occurs in `s` at index `i`.
pub fn occurs_at_exec(s: &[char], p: &[char], i: usize) -> (r: bool)
    ensures
        r == occurs_at(s@, p@, i as int),
{
    if i > s.len() || p.len() > s.len() - i {
        return false;
    }
    let mut j: usize = 0;
    while j < p.len()
        invariant
            i + p.len() <= s.len(),
            j <= p.len(),
            s@.subrange(i as int, i + j) == p@.take(j as int),
        decreases p.len() - j,
    {
        if s[i + j] != p[j] {
            assert(s@.subrange(i as int, i + p.len())[j as int] != p@[j as int]);
            return false;
        }
        j += 1;
        assert(s@.subrange(i as int, i + j) =~= p@.take(j as int));
    }
    assert(p@ =~= p@.take(p.len() as int));
    true
}

pub fn starts_with_exec(s: &[char], p: &[char]) -> (r: bool)
    ensures
        r == starts_with(s@, p@),
{
    let r = occurs_at_exec(s, p, 0);
    assert(s@.take(p.len() as int) =~= s@.subrange(0, p.len() as int));
    r
}

pub fn ends_with_exec(s: &[char], p: &[char]) -> (r: bool)
    ensures
        r == ends_with(s@, p@),
{
    if p.len() > s.len() {
        return false;
    }
    let r = occurs_at_exec(s, p, s.len() - p.len());
    assert(s@.skip(s.len() - p.len()) =~= s@.subrange(s.len() - p.len(), s.len() as int));
    r
}

/// The first index where `p` occurs in `s`, if any.
pub fn find_exec(s: &[char], p: &[char]) -> (r: Option<usize>)
    ensures
        match r {
            Some(i) => first_occurrence(s@, p@, i as int),
            None => !contains(s@, p@),
        },
{
    if p.len() > s.len() {
        assert(forall|j: int| !occurs_at(s@, p@, j));
        return None;
    }
    let last = s.len() - p.len();
    let mut i: usize = 0;
    loop
        invariant
            last + p.len() == s.len(),
            i <= last,
            forall|j: int| 0 <= j < i ==> !occurs_at(s@, p@, j),
        decreases last - i,
    {
        if occurs_at_exec(s, p, i) {
            return Some(i);
        }
        if i == last {
            assert forall|j: int| !occurs_at(s@, p@, j) by {
                if 0 <= j < i {
                }
            }
            return None;
        }
        i += 1;
    }
}

pub fn contains_exec(s: &[char], p: &[char]) -> (r: bool)
    ensures
        r == contains(s@, p@),
{
    match find_exec(s, p) {
        Some(_) => true,
        None => false,
    }
}


// ---------------------------------------------------------------------------
// Splitting and trimming
// ---------------------------------------------------------------------------

/// Unicode `White_Space` (what `char::is_whitespace` tests).
pub open spec fn is_ws(c: char) -> bool {
    c == ' ' || ('\t' <= c <= '\r') || c == '\u{85}' || c == '\u{a0}' || c == '\u{1680}' || (
    '\u{2000}' <= c <= '\u{200a}') || c == '\u{2028}' || c == '\u{2029}' || c == '\u{202f}' || c
        == '\u{205f}' || c == '\u{3000}'
}

pub fn is_ws_exec(c: char) -> (r: bool)
    ensures
        r == is_ws(c),
{
    c == ' ' || ('\t' <= c && c <= '\r') || c == '\u{85}' || c == '\u{a0}' || c == '\u{1680}' || (
    '\u{2000}' <= c && c <= '\u{200a}') || c == '\u{2028}' || c == '\u{2029}' || c == '\u{202f}'
        || c == '\u{205f}' || c == '\u{3000}'
}

/// The number of leading characters of `s` that satisfy `keep`.
pub open spec fn run_len(s: Seq<char>, keep: spec_fn(char) -> bool) -> nat
    decreases s.len(),
{
    if s.len() > 0 && keep(s[0]) {
        1 + run_len(s.drop_first(), keep)
    } else {
        0
    }
}

pub proof fn lemma_run_len(s: Seq<char>, keep: spec_fn(char) -> bool, k: int)
    requires
        0 <= k <= s.len(),
        forall|j: int| 0 <= j < k ==> keep(#[trigger] s[j]),
        k == s.len() || !keep(s[k]),
    ensures
        run_len(s, keep) == k,
    decreases k,
{
    if k > 0 {
        lemma_run_len(s.drop_first(), keep, k - 1);
    }
}

pub proof fn lemma_run_len_bound(s: Seq<char>, keep: spec_fn(char) -> bool)
    ensures
        run_len(s, keep) <= s.len(),
    decreases s.len(),
{
    if s.len() > 0 {
        lemma_run_len_bound(s.drop_first(), keep);
    }
}

/// The pieces of `s` between separator characters (`str::split` on a set of
/// characters): always at least one piece, empty pieces included.
pub open spec fn split_on(s: Seq<char>, seps: Seq<char>) -> Seq<Seq<char>>
    decreases s.len(),
{
    let k = run_len(s, |c: char| !seps.contains(c));
    if k >= s.len() {
        seq![s]
    } else {
        seq![s.take(k as int)] + split_on(s.skip(k + 1 as int), seps)
    }
}

/// Splitting always yields at least one piece.
pub(crate) proof fn lemma_split_on_nonempty(s: Seq<char>, seps: Seq<char>)
    ensures
        split_on(s, seps).len() >= 1,
{
}

/// The whitespace-separated words of `s` (`str::split_whitespace`).
pub open spec fn words(s: Seq<char>) -> Seq<Seq<char>>
    decreases s.len(),
{
    if s.len() == 0 {
        Seq::empty()
    } else if is_ws(s[0]) {
        words(s.drop_first())
    } else {
        let k = run_len(s, |c: char| !is_ws(c));
        proof {
            lemma_run_len_bound(s, |c: char| !is_ws(c));
        }
        seq![s.take(k as int)] + words(s.skip(k as int))
    }
}

pub open spec fn trim_start(s: Seq<char>) -> Seq<char>
    decreases s.len(),
{
    if s.len() > 0 && is_ws(s[0]) {
        trim_start(s.drop_first())
    } else {
        s
    }
}

pub open spec fn trim_end(s: Seq<char>) -> Seq<char>
    decreases s.len(),
{
    if s.len() > 0 && is_ws(s.last()) {
        trim_end(s.drop_last())
    } else {
        s
    }
}

/// `str::trim`: without leading and trailing whitespace.
pub open spec fn trim(s: Seq<char>) -> Seq<char> {
    trim_end(trim_start(s))
}

pub open spec fn views(v: Seq<Vec<char>>) -> Seq<Seq<char>> {
    v.map_values(|x: Vec<char>| x@)
}

/// The characters `s[from..to]`.
pub fn slice_chars(s: &[char], from: usize, to: usize) -> (r: Vec<char>)
    requires
        from <= to <= s.len(),
    ensures
        r@ == s@.subrange(from as int, to as int),
{
    let mut r: Vec<char> = Vec::new();
    let mut i = from;
    while i < to
        invariant
            from <= i <= to <= s.len(),
            r@ == s@.subrange(from as int, i as int),
        decreases to - i,
    {
        r.push(s[i]);
        i += 1;
        assert(r@ =~= s@.subrange(from as int, i as int));
    }
    r
}

fn char_in(c: char, set: &[char]) -> (r: bool)
    ensures
        r == set@.contains(c),
{
    let mut i: usize = 0;
    while i < set.len()
        invariant
            i <= set.len(),
            forall|j: int| 0 <= j < i ==> set@[j] != c,
        decreases set.len() - i,
    {
        if set[i] == c {
            assert(set@[i as int] == c);
            return true;
        }
        i += 1;
    }
    false
}

/// `s.split(seps)`.
pub fn split_exec(s: &[char], seps: &[char]) -> (r: Vec<Vec<char>>)
    ensures
        views(r@) == split_on(s@, seps@),
{
    let ghost keep = |c: char| !seps@.contains(c);
    let mut r: Vec<Vec<char>> = Vec::new();
    let mut start: usize = 0;
    let mut i: usize = 0;
    assert(s@.skip(0) =~= s@);
    assert(views(r@) + split_on(s@, seps@) =~= split_on(s@, seps@));
    while i < s.len()
        invariant
            start <= i <= s.len(),
            keep == |c: char| !seps@.contains(c),
            forall|j: int| start <= j < i ==> keep(#[trigger] s@[j]),
            split_on(s@, seps@) == views(r@) + split_on(s@.skip(start as int), seps@),
        decreases s.len() - i,
    {
        if char_in(s[i], seps) {
            let piece = slice_chars(s, start, i);
            proof {
                let t = s@.skip(start as int);
                assert forall|j: int| 0 <= j < i - start implies keep(#[trigger] t[j]) by {
                    assert(t[j] == s@[start + j]);
                }
                lemma_run_len(t, keep, i - start);
                assert(t.take(i - start) =~= piece@);
                assert(t.skip(i - start + 1) =~= s@.skip(i + 1));
                assert(views(r@.push(piece)) =~= views(r@) + seq![piece@]);
            }
            r.push(piece);
            start = i + 1;
        }
        i += 1;
    }
    let piece = slice_chars(s, start, s.len());
    proof {
        let t = s@.skip(start as int);
        assert forall|j: int| 0 <= j < t.len() implies keep(#[trigger] t[j]) by {
            assert(t[j] == s@[start + j]);
        }
        lemma_run_len(t, keep, t.len() as int);
        assert(t =~= piece@);
        assert(views(r@.push(piece)) =~= views(r@) + seq![piece@]);
    }
    r.push(piece);
    r
}

/// `s.split_whitespace()`.
pub fn words_exec(s: &[char]) -> (r: Vec<Vec<char>>)
    ensures
        views(r@) == words(s@),
{
    let ghost keep = |c: char| !is_ws(c);
    let mut r: Vec<Vec<char>> = Vec::new();
    let mut i: usize = 0;
    assert(s@.skip(0) =~= s@);
    assert(views(r@) + words(s@) =~= words(s@));
    while i < s.len()
        invariant
            i <= s.len(),
            keep == |c: char| !is_ws(c),
            words(s@) == views(r@) + words(s@.skip(i as int)),
        decreases s.len() - i,
    {
        if is_ws_exec(s[i]) {
            assert(s@.skip(i as int).drop_first() =~= s@.skip(i + 1));
            i += 1;
        } else {
            let mut j = i + 1;
            while j < s.len() && !is_ws_exec(s[j])
                invariant
                    i < j <= s.len(),
                    keep == |c: char| !is_ws(c),
                    forall|m: int| i <= m < j ==> keep(#[trigger] s@[m]),
                decreases s.len() - j,
            {
                j += 1;
            }
            let piece = slice_chars(s, i, j);
            proof {
                let t = s@.skip(i as int);
                assert forall|m: int| 0 <= m < j - i implies keep(#[trigger] t[m]) by {
                    assert(t[m] == s@[i + m]);
                }
                lemma_run_len(t, keep, j - i);
                assert(t.take(j - i) =~= piece@);
                assert(t.skip(j - i) =~= s@.skip(j as int));
                assert(views(r@.push(piece)) =~= views(r@) + seq![piece@]);
            }
            r.push(piece);
            i = j;
        }
    }
    assert(s@.skip(i as int) =~= Seq::<char>::empty());
    assert(views(r@) + Seq::<Seq<char>>::empty() =~= views(r@));
    r
}

proof fn lemma_trim_start(s: Seq<char>, a: int)
    requires
        0 <= a <= s.len(),
        forall|j: int| 0 <= j < a ==> is_ws(#[trigger] s[j]),
        a == s.len() || !is_ws(s[a]),
    ensures
        trim_start(s) == s.skip(a),
    decreases a,
{
    if a > 0 {
        lemma_trim_start(s.drop_first(), a - 1);
        assert(s.drop_first().skip(a - 1) =~= s.skip(a));
    } else {
        assert(s.skip(0) =~= s);
    }
}

proof fn lemma_trim_end(s: Seq<char>, b: int)
    requires
        0 <= b <= s.len(),
        forall|j: int| b <= j < s.len() ==> is_ws(#[trigger] s[j]),
        b == 0 || !is_ws(s[b - 1]),
    ensures
        trim_end(s) == s.take(b),
    decreases s.len() - b,
{
    if b < s.len() {
        lemma_trim_end(s.drop_last(), b);
        assert(s.drop_last().take(b) =~= s.take(b));
    } else {
        assert(s.take(b) =~= s);
    }
}

/// `s.trim()`.
pub fn trim_exec(s: &[char]) -> (r: Vec<char>)
    ensures
        r@ == trim(s@),
{
    let mut a: usize = 0;
    while a < s.len() && is_ws_exec(s[a])
        invariant
            a <= s.len(),
            forall|j: int| 0 <= j < a ==> is_ws(#[trigger] s@[j]),
        decreases s.len() - a,
    {
        a += 1;
    }
    proof {
        lemma_trim_start(s@, a as int);
    }
    let mut b: usize = s.len();
    while b > a && is_ws_exec(s[b - 1])
        invariant
            a <= b <= s.len(),
            forall|j: int| b <= j < s.len() ==> is_ws(#[trigger] s@[j]),
        decreases b,
    {
        b -= 1;
    }
    let r = slice_chars(s, a, b);
    proof {
        let t = s@.skip(a as int);
        assert forall|j: int| b - a <= j < t.len() implies is_ws(#[trigger] t[j]) by {
            assert(t[j] == s@[a + j]);
        }
        if b > a {
            assert(t[b - a - 1] == s@[b - 1]);
        }
        lemma_trim_end(t, b - a);
        assert(t.take(b - a) =~= r@);
    }
    r
}

/// The trimmed characters of a string slice.
pub fn trim_str(s: &str) -> (r: Vec<char>)
    ensures
        r@ == trim(s@),
{
    let c = to_chars(s);
    trim_exec(c.as_slice())
}


// ---------------------------------------------------------------------------
// Decimal numbers
// ---------------------------------------------------------------------------

pub open spec fn is_digit(c: char) -> bool {
    '0' <= c <= '9'
}

pub open spec fn all_digits(s: Seq<char>) -> bool {
    forall|i: int| 0 <= i < s.len() ==> is_digit(#[trigger] s[i])
}

pub open spec fn digit_value(c: char) -> nat {
    (c as int - '0' as int) as nat
}

/// The value of a string of decimal digits.
pub open spec fn digits_value(s: Seq<char>) -> nat
    decreases s.len(),
{
    if s.len() == 0 {
        0
    } else {
        digits_value(s.drop_last()) * 10 + digit_value(s.last())
    }
}

/// What `str::parse` accepts for an unsigned integer: an optional `+`, then
/// one or more ASCII digits (the range of the target type is checked apart).
pub open spec fn parse_nat(s: Seq<char>) -> Option<nat> {
    let t = if s.len() > 0 && s[0] == '+' {
        s.drop_first()
    } else {
        s
    };
    if t.len() > 0 && all_digits(t) {
        Some(digits_value(t))
    } else {
        None
    }
}

/// What `str::parse` accepts for a signed integer: an optional sign, then one
/// or more ASCII digits.
pub open spec fn parse_int(s: Seq<char>) -> Option<int> {
    if s.len() > 0 && s[0] == '-' {
        let t = s.drop_first();
        if t.len() > 0 && all_digits(t) {
            Some(-(digits_value(t) as int))
        } else {
            None
        }
    } else {
        match parse_nat(s) {
            Some(n) => Some(n as int),
            None => None,
        }
    }
}

/// `s.parse::<u64>().ok()`.
pub open spec fn parse_u64(s: Seq<char>) -> Option<u64> {
    match parse_nat(s) {
        Some(n) => if n <= u64::MAX {
            Some(n as u64)
        } else {
            None
        },
        None => None,
    }
}

/// `s.parse::<u32>().ok()`.
pub open spec fn parse_u32(s: Seq<char>) -> Option<u32> {
    match parse_nat(s) {
        Some(n) => if n <= u32::MAX {
            Some(n as u32)
        } else {
            None
        },
        None => None,
    }
}

/// `s.parse::<i64>().ok()`.
pub open spec fn parse_i64(s: Seq<char>) -> Option<i64> {
    match parse_int(s) {
        Some(n) => if i64::MIN <= n <= i64::MAX {
            Some(n as i64)
        } else {
            None
        },
        None => None,
    }
}

proof fn lemma_digits_value_mono(s: Seq<char>, k: int)
    requires
        0 <= k <= s.len(),
    ensures
        digits_value(s.take(k)) <= digits_value(s),
    decreases s.len() - k,
{
    if k < s.len() {
        lemma_digits_value_mono(s.drop_last(), k);
        assert(s.drop_last().take(k) =~= s.take(k));
    } else {
        assert(s.take(k) =~= s);
    }
}

/// The value of the digits `s[from..]`, if it fits a `u64`.
fn digits_u64(s: &[char], from: usize) -> (r: Option<u64>)
    requires
        from <= s.len(),
        all_digits(s@.skip(from as int)),
    ensures
        match r {
            Some(v) => v == digits_value(s@.skip(from as int)),
            None => digits_value(s@.skip(from as int)) > u64::MAX,
        },
{
    let ghost t = s@.skip(from as int);
    let mut acc: u64 = 0;
    let mut i = from;
    while i < s.len()
        invariant
            from <= i <= s.len(),
            t == s@.skip(from as int),
            all_digits(t),
            acc == digits_value(t.take(i - from)),
        decreases s.len() - i,
    {
        assert(t[i - from] == s@[i as int]);
        assert(is_digit(t[i - from]));
        let d = (s[i] as u32 - 48) as u64;
        assert(t.take(i - from + 1).drop_last() =~= t.take(i - from));
        if acc > (u64::MAX - d) / 10 {
            proof {
                lemma_digits_value_mono(t, i - from + 1);
                assert(digits_value(t.take(i - from + 1)) == acc * 10 + d);
            }
            return None;
        }
        acc = acc * 10 + d;
        i += 1;
    }
    assert(t.take(i - from) =~= t);
    Some(acc)
}

fn all_digits_from(s: &[char], from: usize) -> (r: bool)
    requires
        from <= s.len(),
    ensures
        r == all_digits(s@.skip(from as int)),
{
    let mut i = from;
    while i < s.len()
        invariant
            from <= i <= s.len(),
            forall|j: int| from <= j < i ==> is_digit(#[trigger] s@[j]),
        decreases s.len() - i,
    {
        if !('0' <= s[i] && s[i] <= '9') {
            assert(s@.skip(from as int)[i - from] == s@[i as int]);
            return false;
        }
        i += 1;
    }
    assert forall|j: int| 0 <= j < s@.skip(from as int).len() implies is_digit(
        #[trigger] s@.skip(from as int)[j],
    ) by {
        assert(s@.skip(from as int)[j] == s@[from + j]);
    }
    true
}

/// `s.parse::<u64>().ok()`.
pub fn parse_u64_exec(s: &[char]) -> (r: Option<u64>)
    ensures
        r == parse_u64(s@),
{
    let from: usize = if s.len() > 0 && s[0] == '+' {
        1
    } else {
        0
    };
    assert(from == 1 ==> s@.skip(1) =~= s@.drop_first());
    assert(from == 0 ==> s@.skip(0) =~= s@);
    if from >= s.len() || !all_digits_from(s, from) {
        return None;
    }
    digits_u64(s, from)
}

/// `s.parse::<u32>().ok()`.
pub fn parse_u32_exec(s: &[char]) -> (r: Option<u32>)
    ensures
        r == parse_u32(s@),
{
    match parse_u64_exec(s) {
        Some(v) => if v <= u32::MAX as u64 {
            Some(v as u32)
        } else {
            None
        },
        None => None,
    }
}

/// `s.parse::<i64>().ok()`.
pub fn parse_i64_exec(s: &[char]) -> (r: Option<i64>)
    ensures
        r == parse_i64(s@),
{
    if s.len() > 0 && s[0] == '-' {
        assert(s@.skip(1) =~= s@.drop_first());
        if s.len() < 2 || !all_digits_from(s, 1) {
            return None;
        }
        match digits_u64(s, 1) {
            Some(m) => {
                if m <= 9223372036854775807u64 {
                    Some(-(m as i64))
                } else if m == 9223372036854775808u64 {
                    Some(i64::MIN)
                } else {
                    None
                }
            },
            None => None,
        }
    } else {
        match parse_u64_exec(s) {
            Some(m) => if m <= i64::MAX as u64 {
                Some(m as i64)
            } else {
                None
            },
            None => None,
        }
    }
}

pub open spec fn digit_char(d: nat) -> char {
    (d + '0' as nat) as char
}

/// The decimal representation of `n` (what `to_string` writes).
pub open spec fn dec(n: nat) -> Seq<char>
    decreases n,
{
    if n < 10 {
        seq![digit_char(n)]
    } else {
        dec(n / 10).push(digit_char(n % 10))
    }
}

pub(crate) proof fn lemma_dec(n: nat)
    ensures
        all_digits(dec(n)),
        digits_value(dec(n)) == n,
        dec(n).len() > 0,
        dec(n)[0] != '+' && dec(n)[0] != '-',
    decreases n,
{
    assert(digit_value(digit_char(n % 10)) == n % 10);
    if n >= 10 {
        lemma_dec(n / 10);
        assert(dec(n).drop_last() =~= dec(n / 10));
        assert(dec(n).last() == digit_char(n % 10));
        assert(dec(n)[0] == dec(n / 10)[0]);
        assert(n == (n / 10) * 10 + n % 10);
        assert(digits_value(dec(n)) == digits_value(dec(n / 10)) * 10 + n % 10);
    } else {
        assert(dec(n).drop_last() =~= Seq::<char>::empty());
        assert(digits_value(Seq::<char>::empty()) == 0);
        assert(digits_value(dec(n)) == digits_value(dec(n).drop_last()) * 10 + digit_value(dec(n).last()));
    }
}

/// Different numbers are written differently.
pub(crate) proof fn lemma_dec_injective(a: nat, b: nat)
    requires
        dec(a) == dec(b),
    ensures
        a == b,
{
    lemma_dec(a);
    lemma_dec(b);
}

/// Appends the decimal representation of `n`.
pub fn push_dec(out: &mut Vec<char>, n: u64)
    ensures
        final(out)@ == old(out)@ + dec(n as nat),
    decreases n,
{
    if n >= 10 {
        push_dec(out, n / 10);
    }
    let d = (n % 10) as u8;
    out.push((d + 48u8) as char);
    assert(out@ =~= old(out)@ + dec(n as nat));
}

/// `n.to_string()`.
pub fn dec_string(n: u64) -> (r: String)
    ensures
        r@ == dec(n as nat),
{
    let mut v: Vec<char> = Vec::new();
    push_dec(&mut v, n);
    string_of(v.as_slice())
}

// ---------------------------------------------------------------------------
// Replacement
// ---------------------------------------------------------------------------

/// `str::replace` for a non-empty pattern: every non-overlapping occurrence,
/// scanning from the left, becomes `rep`.
pub open spec fn replace_all(s: Seq<char>, pat: Seq<char>, rep: Seq<char>) -> Seq<char>
    decreases s.len(),
{
    if s.len() == 0 || pat.len() == 0 {
        s
    } else if starts_with(s, pat) {
        rep + replace_all(s.skip(pat.len() as int), pat, rep)
    } else {
        seq![s[0]] + replace_all(s.drop_first(), pat, rep)
    }
}

/// Replacing leaves a prefix alone that holds no character starting the
/// pattern.
pub proof fn lemma_replace_all_keeps_prefix(a: Seq<char>, b: Seq<char>, pat: Seq<char>, rep: Seq<char>)
    requires
        pat.len() > 0,
        forall|i: int| 0 <= i < a.len() ==> a[i] != pat[0],
    ensures
        replace_all(a + b, pat, rep) == a + replace_all(b, pat, rep),
    decreases a.len(),
{
    if a.len() == 0 {
        assert(a + b =~= b);
    } else {
        let s = a + b;
        assert(s[0] == a[0]);
        if starts_with(s, pat) {
            assert(s.take(pat.len() as int)[0] == s[0]);
        }
        assert(s.drop_first() =~= a.drop_first() + b);
        lemma_replace_all_keeps_prefix(a.drop_first(), b, pat, rep);
        assert(a =~= seq![a[0]] + a.drop_first());
    }
}

pub fn replace_exec(s: &[char], pat: &[char], rep: &[char]) -> (r: Vec<char>)
    requires
        pat.len() > 0,
    ensures
        r@ == replace_all(s@, pat@, rep@),
{
    let mut r: Vec<char> = Vec::new();
    let mut i: usize = 0;
    assert(s@.skip(0) =~= s@);
    while i < s.len()
        invariant
            i <= s.len(),
            pat.len() > 0,
            replace_all(s@, pat@, rep@) == r@ + replace_all(s@.skip(i as int), pat@, rep@),
        decreases s.len() - i,
    {
        let ghost t = s@.skip(i as int);
        if occurs_at_exec(s, pat, i) {
            proof {
                assert(t.take(pat.len() as int) =~= s@.subrange(i as int, i + pat.len()));
                assert(t.skip(pat.len() as int) =~= s@.skip(i + pat.len()));
            }
            let ghost r0 = r@;
            push_all(&mut r, rep);
            i += pat.len();
            let ghost rest = replace_all(s@.skip(i as int), pat@, rep@);
            assert((r0 + rep@) + rest =~= r0 + (rep@ + rest));
        } else {
            proof {
                assert(t.take(pat.len() as int) =~= s@.subrange(i as int, i + pat.len()) || pat.len() > t.len());
                assert(t.drop_first() =~= s@.skip(i + 1));
            }
            r.push(s[i]);
            i += 1;
        }
    }
    assert(s@.skip(i as int) =~= Seq::<char>::empty());
    assert(r@ + Seq::<char>::empty() =~= r@);
    r
}

// ---------------------------------------------------------------------------
// Joining
// ---------------------------------------------------------------------------

/// `parts.join(sep)`.
pub open spec fn join_with(parts: Seq<Seq<char>>, sep: Seq<char>) -> Seq<char>
    decreases parts.len(),
{
    if parts.len() == 0 {
        Seq::empty()
    } else if parts.len() == 1 {
        parts[0]
    } else {
        join_with(parts.drop_last(), sep) + sep + parts.last()
    }
}

pub open spec fn string_views(v: Seq<String>) -> Seq<Seq<char>> {
    v.map_values(|x: String| x@)
}

/// `parts.join(sep)` for strings.
pub fn join_strings(parts: &Vec<String>, sep: &str) -> (r: String)
    ensures
        r@ == join_with(string_views(parts@), sep@),
{
    let ghost ps = string_views(parts@);
    let mut r: Vec<char> = Vec::new();
    let mut i: usize = 0;
    while i < parts.len()
        invariant
            i <= parts.len(),
            ps == string_views(parts@),
            r@ == join_with(ps.take(i as int), sep@),
        decreases parts.len() - i,
    {
        assert(ps.take(i + 1).drop_last() =~= ps.take(i as int));
        let ghost r0 = r@;
        if i > 0 {
            push_str_chars(&mut r, sep);
        }
        push_str_chars(&mut r, parts[i].as_str());
        i += 1;
        proof {
            if i == 1 {
                assert(r@ =~= ps.take(1)[0]);
            } else {
                assert(r@ =~= join_with(ps.take(i - 1), sep@) + sep@ + ps.take(i as int).last());
            }
        }
    }
    assert(ps.take(parts.len() as int) =~= ps);
    string_of(r.as_slice())
}

/// `parts.join(sep)` for character vectors and a one-character separator.
pub fn join_char_vecs(parts: &Vec<Vec<char>>, sep: char) -> (r: Vec<char>)
    ensures
        r@ == join_with(views(parts@), seq![sep]),
{
    let ghost ps = views(parts@);
    let mut r: Vec<char> = Vec::new();
    let mut i: usize = 0;
    while i < parts.len()
        invariant
            i <= parts.len(),
            ps == views(parts@),
            r@ == join_with(ps.take(i as int), seq![sep]),
        decreases parts.len() - i,
    {
        assert(ps.take(i + 1).drop_last() =~= ps.take(i as int));
        if i > 0 {
            r.push(sep);
        }
        push_all(&mut r, parts[i].as_slice());
        i += 1;
        proof {
            if i == 1 {
                assert(r@ =~= ps.take(1)[0]);
            } else {
                assert(r@ =~= join_with(ps.take(i - 1), seq![sep]) + seq![sep] + ps.take(i as int).last());
            }
        }
    }
    assert(ps.take(parts.len() as int) =~= ps);
    r
}

// ---------------------------------------------------------------------------
// Ordering of strings
// ---------------------------------------------------------------------------

/// How `a` compares to `b` in the order of `str` (lexicographic by
/// character, which is the order of their UTF-8 bytes): -1, 0 or 1.
pub open spec fn lex_order(a: Seq<char>, b: Seq<char>) -> int
    decreases a.len(),
{
    if a.len() == 0 && b.len() == 0 {
        0
    } else if a.len() == 0 {
        -1
    } else if b.len() == 0 {
        1
    } else if a[0] < b[0] {
        -1
    } else if a[0] > b[0] {
        1
    } else {
        lex_order(a.drop_first(), b.drop_first())
    }
}

/// Swapping the arguments flips the sign.
pub proof fn lemma_lex_order_antisymmetric(a: Seq<char>, b: Seq<char>)
    ensures
        lex_order(a, b) == -lex_order(b, a),
        -1 <= lex_order(a, b) <= 1,
        lex_order(a, b) == 0 <==> a == b,
    decreases a.len(),
{
    if a.len() > 0 && b.len() > 0 && a[0] == b[0] {
        lemma_lex_order_antisymmetric(a.drop_first(), b.drop_first());
        if a.drop_first() == b.drop_first() {
            assert(a =~= seq![a[0]] + a.drop_first());
            assert(b =~= seq![b[0]] + b.drop_first());
        }
    }
    if a.len() > 0 && b.len() > 0 && a[0] != b[0] {
        assert(a != b);
    }
    if a.len() == 0 && b.len() > 0 || a.len() > 0 && b.len() == 0 {
        assert(a.len() != b.len());
    }
    if a.len() == 0 && b.len() == 0 {
        assert(a =~= b);
    }
}

/// `a <= b <= c` gives `a <= c`.
pub proof fn lemma_lex_order_transitive(a: Seq<char>, b: Seq<char>, c: Seq<char>)
    requires
        lex_order(a, b) <= 0,
        lex_order(b, c) <= 0,
    ensures
        lex_order(a, c) <= 0,
    decreases a.len(),
{
    if a.len() > 0 && b.len() > 0 && c.len() > 0 && a[0] == b[0] && b[0] == c[0] {
        lemma_lex_order_transitive(a.drop_first(), b.drop_first(), c.drop_first());
    }
}

/// How `a` compares to `b` as strings: -1, 0 or 1.
pub fn lex_order_exec(a: &[char], b: &[char]) -> (r: i8)
    ensures
        r as int == lex_order(a@, b@),
{
    let mut i: usize = 0;
    assert(a@.skip(0) =~= a@ && b@.skip(0) =~= b@);
    while i < a.len() && i < b.len()
        invariant
            i <= a.len(),
            i <= b.len(),
            lex_order(a@, b@) == lex_order(a@.skip(i as int), b@.skip(i as int)),
        decreases a.len() - i,
    {
        let ghost sa = a@.skip(i as int);
        let ghost sb = b@.skip(i as int);
        assert(sa[0] == a@[i as int]);
        assert(sb[0] == b@[i as int]);
        if a[i] < b[i] {
            return -1;
        }
        if a[i] > b[i] {
            return 1;
        }
        assert(sa.drop_first() =~= a@.skip(i + 1));
        assert(sb.drop_first() =~= b@.skip(i + 1));
        i += 1;
    }
    if i < a.len() {
        1
    } else if i < b.len() {
        -1
    } else {
        0
    }
}

/// How string `a` compares to string `b`: -1, 0 or 1.
pub fn str_order(a: &str, b: &str) -> (r: i8)
    ensures
        r as int == lex_order(a@, b@),
{
    let ca = to_chars(a);
    let cb = to_chars(b);
    lex_order_exec(ca.as_slice(), cb.as_slice())
}

/// The Unicode lowercase mapping of a string, as `str::to_lowercase`
/// computes it; its value on given strings is not stated here.
pub uninterp spec fn unicode_lowercase(s: Seq<char>) -> Seq<char>;

/// `str::to_lowercase`. Its result depends on the string alone, and the
/// contract names it. On ASCII text it is ASCII lowercasing: the Unicode
/// lowercase of `A`–`Z` is `a`–`z` and every other ASCII character is its
/// own lowercase (the documentation of `to_ascii_lowercase` points to
/// `to_lowercase` for lowercasing "ASCII characters in addition to
/// non-ASCII characters"). Beyond ASCII nothing is stated.
#[verifier::external_body]
pub(crate) fn to_lowercase(s: &str) -> (r: String)
    ensures
        r@ == unicode_lowercase(s@),
        (forall|i: int| 0 <= i < s@.len() ==> (#[trigger] s@[i] as u32) < 128) ==> r@ == lower(s@),
{
    s.to_lowercase()
}

// ---------------------------------------------------------------------------
// Searching
// ---------------------------------------------------------------------------

/// The first index where `p` occurs in `s` (`str::find`).
pub open spec fn find_first(s: Seq<char>, p: Seq<char>) -> Option<int> {
    if exists|i: int| first_occurrence(s, p, i) {
        Some(choose|i: int| first_occurrence(s, p, i))
    } else {
        None
    }
}

/// There is at most one first occurrence.
proof fn lemma_first_occurrence_unique(s: Seq<char>, p: Seq<char>, i: int, j: int)
    requires
        first_occurrence(s, p, i),
        first_occurrence(s, p, j),
    ensures
        i == j,
{
}

/// `str::find`.
pub fn find_first_exec(s: &[char], p: &[char]) -> (r: Option<usize>)
    ensures
        match r {
            Some(i) => find_first(s@, p@) == Some(i as int) && i + p.len() <= s.len(),
            None => find_first(s@, p@) is None,
        },
{
    match find_exec(s, p) {
        Some(i) => {
            proof {
                let k = choose|k: int| first_occurrence(s@, p@, k);
                lemma_first_occurrence_unique(s@, p@, k, i as int);
            }
            Some(i)
        },
        None => {
            assert forall|i: int| !first_occurrence(s@, p@, i) by {
                if first_occurrence(s@, p@, i) {
                    assert(occurs_at(s@, p@, i));
                }
            }
            None
        },
    }
}

} // verus!
