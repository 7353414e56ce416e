//! Classpath assembly: Maven coordinates of library jars, deduplication of
//! artifacts, LWJGL conflict removal and the final joined classpath.
//!
//! Paths are handled as strings; both `/` and `\` separate components, and
//! empty and `.` components are ignored, as `Path::components` does.
use vstd::prelude::*;

use crate::text::{
    join_chars, join_path, path_join, lower_char, lower_char_exec, chars_eq, lemma_split_on_nonempty, starts_with, starts_with_exec, str_eq, parse_i64, parse_i64_exec, push_all, push_str_chars, slice_chars, split_exec, split_on,
    string_of, to_chars, views, join_with, lex_order, lex_order_exec, lemma_lex_order_antisymmetric,
    lemma_lex_order_transitive, concat2, contains, contains_exec, join_char_vecs, join_strings, string_views,
};

verus! {

broadcast use vstd::std_specs::vec::group_vec_axioms, vstd::seq::group_seq_axioms;

// ---------------------------------------------------------------------------
// Path components
// ---------------------------------------------------------------------------

pub open spec fn path_seps() -> Seq<char> {
    seq!['/', '\\']
}

pub open spec fn is_normal_component(c: Seq<char>) -> bool {
    c.len() > 0 && c != seq!['.']
}

/// The pieces that name a directory or file (not empty, not `.`).
pub open spec fn normal_pieces(ps: Seq<Seq<char>>) -> Seq<Seq<char>>
    decreases ps.len(),
{
    if ps.len() == 0 {
        Seq::empty()
    } else if is_normal_component(ps.last()) {
        normal_pieces(ps.drop_last()).push(ps.last())
    } else {
        normal_pieces(ps.drop_last())
    }
}

/// The components of a path.
pub open spec fn components(p: Seq<char>) -> Seq<Seq<char>> {
    normal_pieces(split_on(p, path_seps()))
}

pub open spec fn seq_prefix<T>(a: Seq<T>, b: Seq<T>) -> bool {
    a.len() <= b.len() && b.take(a.len() as int) == a
}

/// `path.starts_with(dir)`, component-wise.
pub open spec fn is_under(path: Seq<char>, dir: Seq<char>) -> bool {
    seq_prefix(components(dir), components(path))
}

pub open spec fn cviews(v: Seq<Vec<char>>) -> Seq<Seq<char>> {
    v.map_values(|x: Vec<char>| x@)
}

/// The components of a path.
pub fn path_components(p: &str) -> (r: Vec<Vec<char>>)
    ensures
        cviews(r@) == components(p@),
{
    let chars = to_chars(p);
    let seps = vec!['/', '\\'];
    let pieces = split_exec(chars.as_slice(), seps.as_slice());
    assert(seps@ =~= path_seps());
    let dot = vec!['.'];
    let ghost ps = views(pieces@);
    let mut r: Vec<Vec<char>> = Vec::new();
    let mut i: usize = 0;
    while i < pieces.len()
        invariant
            i <= pieces.len(),
            ps == views(pieces@),
            dot@ == seq!['.'],
            cviews(r@) == normal_pieces(ps.take(i as int)),
        decreases pieces.len() - i,
    {
        let piece = &pieces[i];
        assert(ps.take(i + 1).drop_last() =~= ps.take(i as int));
        assert(ps.take(i + 1).last() == piece@);
        if piece.len() > 0 && !chars_eq(piece.as_slice(), dot.as_slice()) {
            let copy = slice_chars(piece.as_slice(), 0, piece.len());
            assert(copy@ =~= piece@);
            r.push(copy);
            assert(cviews(r@) =~= normal_pieces(ps.take(i as int)).push(piece@));
        }
        i += 1;
    }
    assert(ps.take(pieces.len() as int) =~= ps);
    r
}

fn components_prefix(a: &Vec<Vec<char>>, b: &Vec<Vec<char>>) -> (r: bool)
    ensures
        r == seq_prefix(cviews(a@), cviews(b@)),
{
    if a.len() > b.len() {
        return false;
    }
    let mut i: usize = 0;
    while i < a.len()
        invariant
            a.len() <= b.len(),
            i <= a.len(),
            cviews(b@).take(i as int) == cviews(a@).take(i as int),
        decreases a.len() - i,
    {
        if !chars_eq(a[i].as_slice(), b[i].as_slice()) {
            assert(cviews(b@).take(a.len() as int)[i as int] != cviews(a@)[i as int]);
            return false;
        }
        i += 1;
        assert(cviews(b@).take(i as int) =~= cviews(a@).take(i as int));
    }
    assert(cviews(a@).take(a.len() as int) =~= cviews(a@));
    true
}

/// Whether `path` lies under `dir` (component-wise `Path::starts_with`).
pub fn path_is_under(path: &str, dir: &str) -> (r: bool)
    ensures
        r == is_under(path@, dir@),
{
    let pc = path_components(path);
    let dc = path_components(dir);
    components_prefix(&dc, &pc)
}

// ---------------------------------------------------------------------------
// Maven layout
// ---------------------------------------------------------------------------

/// `parts.join(".")`.
pub open spec fn join_dots(parts: Seq<Seq<char>>) -> Seq<char>
    decreases parts.len(),
{
    if parts.len() == 0 {
        Seq::empty()
    } else if parts.len() == 1 {
        parts[0]
    } else {
        join_dots(parts.drop_last()) + seq!['.'] + parts.last()
    }
}

/// `(group, artifact, version)` of a jar laid out as
/// `<libraries>/<group dirs...>/<artifact>/<version>/<file>`.
pub open spec fn maven_parts_of(libraries: Seq<char>, jar: Seq<char>) -> Option<
    (Seq<char>, Seq<char>, Seq<char>),
> {
    let lc = components(libraries);
    let jc = components(jar);
    if !seq_prefix(lc, jc) {
        None
    } else {
        let rel = jc.skip(lc.len() as int);
        if rel.len() < 4 {
            None
        } else {
            Some((join_dots(rel.take(rel.len() - 3)), rel[rel.len() - 3], rel[rel.len() - 2]))
        }
    }
}

fn join_dots_exec(parts: &[Vec<char>], n: usize) -> (r: Vec<char>)
    requires
        n <= parts.len(),
    ensures
        r@ == join_dots(cviews(parts@).take(n as int)),
{
    let ghost ps = cviews(parts@);
    let mut r: Vec<char> = Vec::new();
    let mut i: usize = 0;
    while i < n
        invariant
            n <= parts.len(),
            i <= n,
            ps == cviews(parts@),
            r@ == join_dots(ps.take(i as int)),
        decreases n - i,
    {
        assert(ps.take(i + 1).drop_last() =~= ps.take(i as int));
        if i > 0 {
            r.push('.');
        }
        push_all(&mut r, parts[i].as_slice());
        i += 1;
        proof {
            if i == 1 {
                assert(r@ =~= ps.take(1)[0]);
            } else {
                assert(r@ =~= join_dots(ps.take(i - 1)) + seq!['.'] + ps.take(i as int).last());
            }
        }
    }
    r
}

/// Maven layout parts of a library path relative to the libraries dir:
/// `<group dirs...>/<artifact>/<version>/<artifact>-<version>.jar`.
pub fn maven_parts(libraries_dir: &str, jar: &str) -> (r: Option<(String, String, String)>)
    ensures
        match r {
            Some((g, a, v)) => maven_parts_of(libraries_dir@, jar@) == Some((g@, a@, v@)),
            None => maven_parts_of(libraries_dir@, jar@) is None,
        },
{
    let lc = path_components(libraries_dir);
    let jc = path_components(jar);
    if !components_prefix(&lc, &jc) {
        return None;
    }
    let ghost rel = cviews(jc@).skip(lc.len() as int);
    let n = jc.len() - lc.len();
    if n < 4 {
        return None;
    }
    let rel_vec = slice_components(&jc, lc.len());
    assert(cviews(rel_vec@) =~= rel);
    let group = join_dots_exec(rel_vec.as_slice(), n - 3);
    let artifact = string_of(rel_vec[n - 3].as_slice());
    let version = string_of(rel_vec[n - 2].as_slice());
    Some((string_of(group.as_slice()), artifact, version))
}

fn slice_components(v: &Vec<Vec<char>>, from: usize) -> (r: Vec<Vec<char>>)
    requires
        from <= v.len(),
    ensures
        cviews(r@) == cviews(v@).skip(from as int),
{
    let mut r: Vec<Vec<char>> = Vec::new();
    let mut i = from;
    while i < v.len()
        invariant
            from <= i <= v.len(),
            cviews(r@) == cviews(v@).subrange(from as int, i as int),
        decreases v.len() - i,
    {
        let c = slice_chars(v[i].as_slice(), 0, v[i].len());
        assert(c@ =~= v[i as int]@);
        let ghost old_r = r@;
        r.push(c);
        assert(cviews(r@) =~= cviews(old_r).push(c@));
        i += 1;
        assert(cviews(r@) =~= cviews(v@).subrange(from as int, i as int));
    }
    r
}


// ---------------------------------------------------------------------------
// Version comparison
// ---------------------------------------------------------------------------

/// The number a version part stands for: its text before the first `-`,
/// parsed as an `i64`; 0 when that is not a number.
pub open spec fn part_number(p: Seq<char>) -> int {
    match parse_i64(split_on(p, seq!['-'])[0]) {
        Some(n) => n as int,
        None => 0,
    }
}

/// The `i`-th number of a dotted version (0 past its end).
pub open spec fn nth_number(parts: Seq<Seq<char>>, i: int) -> int {
    if 0 <= i < parts.len() {
        part_number(parts[i])
    } else {
        0
    }
}

/// Compares the numbers of two dotted versions from position `i` on:
/// -1, 0 or 1.
pub open spec fn order_numbers_from(xs: Seq<Seq<char>>, ys: Seq<Seq<char>>, i: int) -> int
    decreases xs.len() + ys.len() - i,
{
    if i < 0 || (i >= xs.len() && i >= ys.len()) {
        0
    } else if nth_number(xs, i) < nth_number(ys, i) {
        -1
    } else if nth_number(xs, i) > nth_number(ys, i) {
        1
    } else {
        order_numbers_from(xs, ys, i + 1)
    }
}

/// How dotted version `a` compares to `b`: -1, 0 or 1. Parts compare as
/// numbers; a missing or non-numeric part counts as 0.
pub open spec fn version_order(a: Seq<char>, b: Seq<char>) -> int {
    order_numbers_from(split_on(a, seq!['.']), split_on(b, seq!['.']), 0)
}

proof fn lemma_order_from_antisym(xs: Seq<Seq<char>>, ys: Seq<Seq<char>>, i: int)
    ensures
        order_numbers_from(xs, ys, i) == -order_numbers_from(ys, xs, i),
    decreases xs.len() + ys.len() - i,
{
    if !(i < 0 || (i >= xs.len() && i >= ys.len())) {
        lemma_order_from_antisym(xs, ys, i + 1);
    }
}

proof fn lemma_order_from_trans(xs: Seq<Seq<char>>, ys: Seq<Seq<char>>, zs: Seq<Seq<char>>, i: int)
    requires
        order_numbers_from(xs, ys, i) <= 0,
        order_numbers_from(ys, zs, i) <= 0,
    ensures
        order_numbers_from(xs, zs, i) <= 0,
        order_numbers_from(xs, ys, i) < 0 || order_numbers_from(ys, zs, i) < 0 ==> order_numbers_from(
            xs,
            zs,
            i,
        ) < 0,
    decreases xs.len() + ys.len() + zs.len() - i,
{
    if i >= 0 && (i < xs.len() || i < ys.len() || i < zs.len()) {
        if nth_number(xs, i) == nth_number(ys, i) && nth_number(ys, i) == nth_number(zs, i) {
            lemma_order_from_trans(xs, ys, zs, i + 1);
            lemma_order_from_zero_tail(xs, ys, i);
            lemma_order_from_zero_tail(ys, zs, i);
            lemma_order_from_zero_tail(xs, zs, i);
        } else {
            lemma_order_from_zero_tail(xs, ys, i);
            lemma_order_from_zero_tail(ys, zs, i);
            lemma_order_from_zero_tail(xs, zs, i);
        }
    }
}

/// One step of the comparison, whether or not all sequences have ended.
proof fn lemma_order_from_zero_tail(xs: Seq<Seq<char>>, ys: Seq<Seq<char>>, i: int)
    requires
        i >= 0,
    ensures
        order_numbers_from(xs, ys, i) == if nth_number(xs, i) < nth_number(ys, i) {
            -1
        } else if nth_number(xs, i) > nth_number(ys, i) {
            1
        } else {
            order_numbers_from(xs, ys, i + 1)
        },
    decreases xs.len() + ys.len() - i,
{
    if i >= xs.len() && i >= ys.len() {
        assert(nth_number(xs, i) == 0 && nth_number(ys, i) == 0);
    }
}

/// Comparing versions is antisymmetric: swapping the arguments flips the sign.
pub proof fn lemma_version_order_antisymmetric(a: Seq<char>, b: Seq<char>)
    ensures
        version_order(a, b) == -version_order(b, a),
{
    lemma_order_from_antisym(split_on(a, seq!['.']), split_on(b, seq!['.']), 0);
}

/// Comparing versions is transitive: `a <= b <= c` gives `a <= c`, strictly
/// when either step is strict.
pub proof fn lemma_version_order_transitive(a: Seq<char>, b: Seq<char>, c: Seq<char>)
    requires
        version_order(a, b) <= 0,
        version_order(b, c) <= 0,
    ensures
        version_order(a, c) <= 0,
        version_order(a, b) < 0 || version_order(b, c) < 0 ==> version_order(a, c) < 0,
{
    lemma_order_from_trans(split_on(a, seq!['.']), split_on(b, seq!['.']), split_on(c, seq!['.']), 0);
}

/// Every version compares equal to itself.
pub proof fn lemma_version_order_reflexive(a: Seq<char>)
    ensures
        version_order(a, a) == 0,
{
    lemma_version_order_antisymmetric(a, a);
}

fn part_number_exec(p: &Vec<char>) -> (r: i64)
    ensures
        r as int == part_number(p@),
{
    let dash = vec!['-'];
    let pieces = split_exec(p.as_slice(), dash.as_slice());
    assert(dash@ =~= seq!['-']);
    proof {
        lemma_split_on_nonempty(p@, dash@);
    }
    assert(views(pieces@)[0] == pieces@[0]@);
    match parse_i64_exec(pieces[0].as_slice()) {
        Some(n) => n,
        None => 0,
    }
}

fn nth_number_exec(parts: &Vec<Vec<char>>, i: usize) -> (r: i64)
    ensures
        r as int == nth_number(views(parts@), i as int),
{
    if i < parts.len() {
        part_number_exec(&parts[i])
    } else {
        0
    }
}

/// How dotted version `a` compares to `b`: -1, 0 or 1.
pub fn version_order_exec(a: &str, b: &str) -> (r: i8)
    ensures
        r as int == version_order(a@, b@),
{
    let dot = vec!['.'];
    assert(dot@ =~= seq!['.']);
    let ac = to_chars(a);
    let bc = to_chars(b);
    let xs = split_exec(ac.as_slice(), dot.as_slice());
    let ys = split_exec(bc.as_slice(), dot.as_slice());
    let ghost vx = views(xs@);
    let ghost vy = views(ys@);
    let mut i: usize = 0;
    while i < xs.len() || i < ys.len()
        invariant
            vx == views(xs@),
            vy == views(ys@),
            i <= xs.len() || i <= ys.len(),
            version_order(a@, b@) == order_numbers_from(vx, vy, i as int),
        decreases xs.len() + ys.len() - i,
    {
        let x = nth_number_exec(&xs, i);
        let y = nth_number_exec(&ys, i);
        if x < y {
            return -1;
        }
        if x > y {
            return 1;
        }
        i += 1;
    }
    0
}

/// Compare dot-separated version strings numerically; non-numeric components
/// compare as 0.
pub fn compare_versions(a: &str, b: &str) -> (r: std::cmp::Ordering)
    ensures
        (r == std::cmp::Ordering::Less) == (version_order(a@, b@) < 0),
        (r == std::cmp::Ordering::Equal) == (version_order(a@, b@) == 0),
        (r == std::cmp::Ordering::Greater) == (version_order(a@, b@) > 0),
{
    let c = version_order_exec(a, b);
    if c < 0 {
        std::cmp::Ordering::Less
    } else if c == 0 {
        std::cmp::Ordering::Equal
    } else {
        std::cmp::Ordering::Greater
    }
}


// ---------------------------------------------------------------------------
// Deduplication
// ---------------------------------------------------------------------------

/// The `i`-th dotted part of a version parsed as an `i64` (0 when missing or
/// not a number).
pub open spec fn leading_number(parts: Seq<Seq<char>>, i: int) -> int {
    if 0 <= i < parts.len() {
        match parse_i64(parts[i]) {
            Some(n) => n as int,
            None => 0,
        }
    } else {
        0
    }
}

/// Gson 2.14 and later removed `setStrictness`, which modern clients need.
pub open spec fn gson_too_new(version: Seq<char>) -> bool {
    let parts = split_on(version, seq!['.']);
    leading_number(parts, 0) == 2 && leading_number(parts, 1) >= 14
}

fn leading_number_exec(parts: &Vec<Vec<char>>, i: usize) -> (r: i64)
    ensures
        r as int == leading_number(views(parts@), i as int),
{
    if i < parts.len() {
        match parse_i64_exec(parts[i].as_slice()) {
            Some(n) => n,
            None => 0,
        }
    } else {
        0
    }
}

pub fn is_gson_too_new(version: &str) -> (r: bool)
    ensures
        r == gson_too_new(version@),
{
    let dot = vec!['.'];
    assert(dot@ =~= seq!['.']);
    let c = to_chars(version);
    let parts = split_exec(c.as_slice(), dot.as_slice());
    let major = leading_number_exec(&parts, 0);
    let minor = leading_number_exec(&parts, 1);
    major == 2 && minor >= 14
}


/// The versions of the jars with Maven coordinates `group:artifact`, in jar order.
pub open spec fn artifact_versions(
    libraries: Seq<char>,
    jars: Seq<Seq<char>>,
    group: Seq<char>,
    artifact: Seq<char>,
) -> Seq<Seq<char>>
    decreases jars.len(),
{
    if jars.len() == 0 {
        Seq::empty()
    } else {
        let rest = artifact_versions(libraries, jars.drop_last(), group, artifact);
        match maven_parts_of(libraries, jars.last()) {
            Some((g, a, v)) => if g == group && a == artifact {
                rest.push(v)
            } else {
                rest
            },
            None => rest,
        }
    }
}

/// `k` is the first position of a newest version in `vs`.
pub open spec fn is_first_newest(vs: Seq<Seq<char>>, k: int) -> bool {
    &&& 0 <= k < vs.len()
    &&& forall|j: int| 0 <= j < vs.len() ==> version_order(vs[k], #[trigger] vs[j]) >= 0
    &&& forall|j: int| 0 <= j < k ==> version_order(#[trigger] vs[j], vs[k]) < 0
}

/// The newest version of `vs`; among equally new ones, the first.
pub open spec fn newest_version(vs: Seq<Seq<char>>) -> Seq<char> {
    vs[choose|k: int| is_first_newest(vs, k)]
}

pub open spec fn not_too_new(vs: Seq<Seq<char>>) -> Seq<Seq<char>>
    decreases vs.len(),
{
    if vs.len() == 0 {
        Seq::empty()
    } else if gson_too_new(vs.last()) {
        not_too_new(vs.drop_last())
    } else {
        not_too_new(vs.drop_last()).push(vs.last())
    }
}

/// The version of an artifact that deduplication keeps: the newest, except
/// that Gson falls back to its newest version older than 2.14 when there is one.
pub open spec fn kept_version(vs: Seq<Seq<char>>, artifact: Seq<char>) -> Seq<char> {
    let newest = newest_version(vs);
    if artifact == seq!['g', 's', 'o', 'n'] && gson_too_new(newest) && not_too_new(vs).len() > 0 {
        newest_version(not_too_new(vs))
    } else {
        newest
    }
}

/// Whether deduplication keeps `jar` (one of `jars`): jars outside the
/// libraries directory always stay; inside it, a jar stays when it has Maven
/// coordinates and its version is the kept version of its artifact.
pub open spec fn dedup_keeps(libraries: Seq<char>, jars: Seq<Seq<char>>, jar: Seq<char>) -> bool {
    !is_under(jar, libraries) || match maven_parts_of(libraries, jar) {
        Some((g, a, v)) => v == kept_version(artifact_versions(libraries, jars, g, a), a),
        None => false,
    }
}

/// The elements of `s` that satisfy `keep`, in order.
pub open spec fn filter_seq(s: Seq<Seq<char>>, keep: spec_fn(Seq<char>) -> bool) -> Seq<Seq<char>>
    decreases s.len(),
{
    if s.len() == 0 {
        Seq::empty()
    } else if keep(s.last()) {
        filter_seq(s.drop_last(), keep).push(s.last())
    } else {
        filter_seq(s.drop_last(), keep)
    }
}

proof fn lemma_first_newest_unique(vs: Seq<Seq<char>>, k1: int, k2: int)
    requires
        is_first_newest(vs, k1),
        is_first_newest(vs, k2),
    ensures
        k1 == k2,
{
    if k1 < k2 {
        assert(version_order(vs[k1], vs[k2]) < 0);
        assert(version_order(vs[k1], vs[k2]) >= 0);
    } else if k2 < k1 {
        assert(version_order(vs[k2], vs[k1]) < 0);
        assert(version_order(vs[k2], vs[k1]) >= 0);
    }
}

/// The first position of a newest version.
fn first_newest_index(vs: &Vec<String>) -> (k: usize)
    requires
        vs.len() > 0,
    ensures
        is_first_newest(string_views(vs@), k as int),
        newest_version(string_views(vs@)) == vs@[k as int]@,
{
    let ghost v = string_views(vs@);
    let mut best: usize = 0;
    let mut i: usize = 1;
    proof {
        lemma_version_order_reflexive(v[0]);
    }
    while i < vs.len()
        invariant
            v == string_views(vs@),
            1 <= i <= vs.len(),
            best < i,
            forall|j: int| 0 <= j < i ==> version_order(v[best as int], #[trigger] v[j]) >= 0,
            forall|j: int| 0 <= j < best ==> version_order(#[trigger] v[j], v[best as int]) < 0,
        decreases vs.len() - i,
    {
        let c = version_order_exec(vs[i].as_str(), vs[best].as_str());
        if c > 0 {
            proof {
                assert forall|j: int| 0 <= j < i + 1 implies version_order(v[i as int], #[trigger] v[j])
                    >= 0 by {
                    if j < i {
                        lemma_version_order_antisymmetric(v[i as int], v[best as int]);
                        lemma_version_order_antisymmetric(v[j], v[best as int]);
                        lemma_version_order_transitive(v[j], v[best as int], v[i as int]);
                        lemma_version_order_antisymmetric(v[j], v[i as int]);
                    } else {
                        lemma_version_order_reflexive(v[i as int]);
                    }
                }
                assert forall|j: int| 0 <= j < i implies version_order(#[trigger] v[j], v[i as int])
                    < 0 by {
                    lemma_version_order_antisymmetric(v[i as int], v[best as int]);
                    lemma_version_order_antisymmetric(v[j], v[best as int]);
                    lemma_version_order_transitive(v[j], v[best as int], v[i as int]);
                }
            }
            best = i;
        } else {
            proof {
                lemma_version_order_antisymmetric(v[i as int], v[best as int]);
            }
        }
        i += 1;
    }
    proof {
        let k = choose|k: int| is_first_newest(v, k);
        assert(is_first_newest(v, best as int));
        lemma_first_newest_unique(v, k, best as int);
    }
    best
}

fn clone_string(s: &String) -> (r: String)
    ensures
        r@ == s@,
{
    s.clone()
}

/// The versions not affected by the Gson 2.14 breakage.
fn not_too_new_exec(vs: &Vec<String>) -> (r: Vec<String>)
    ensures
        string_views(r@) == not_too_new(string_views(vs@)),
{
    let ghost v = string_views(vs@);
    let mut r: Vec<String> = Vec::new();
    let mut i: usize = 0;
    while i < vs.len()
        invariant
            v == string_views(vs@),
            i <= vs.len(),
            string_views(r@) == not_too_new(v.take(i as int)),
        decreases vs.len() - i,
    {
        assert(v.take(i + 1).drop_last() =~= v.take(i as int));
        if !is_gson_too_new(vs[i].as_str()) {
            let c = clone_string(&vs[i]);
            let ghost old_r = r@;
            r.push(c);
            assert(string_views(r@) =~= string_views(old_r).push(c@));
        }
        i += 1;
    }
    assert(v.take(vs.len() as int) =~= v);
    r
}

/// The version of an artifact that deduplication keeps.
fn kept_version_exec(vs: &Vec<String>, artifact: &str) -> (r: String)
    requires
        vs.len() > 0,
    ensures
        r@ == kept_version(string_views(vs@), artifact@),
{
    let k = first_newest_index(vs);
    let newest = clone_string(&vs[k]);
    let gson = vec!['g', 's', 'o', 'n'];
    let art = to_chars(artifact);
    if chars_eq(art.as_slice(), gson.as_slice()) && is_gson_too_new(newest.as_str()) {
        assert(gson@ =~= seq!['g', 's', 'o', 'n']);
        let older = not_too_new_exec(vs);
        if older.len() > 0 {
            let j = first_newest_index(&older);
            return clone_string(&older[j]);
        }
    }
    assert(gson@ =~= seq!['g', 's', 'o', 'n']);
    newest
}

pub open spec fn parts_view(p: Option<(String, String, String)>) -> Option<
    (Seq<char>, Seq<char>, Seq<char>),
> {
    match p {
        Some((g, a, v)) => Some((g@, a@, v@)),
        None => None,
    }
}

/// The versions of `group:artifact` among the parsed jars.
fn collect_versions(
    parts: &Vec<Option<(String, String, String)>>,
    group: &String,
    artifact: &String,
    Ghost(libraries): Ghost<Seq<char>>,
    Ghost(jars): Ghost<Seq<Seq<char>>>,
) -> (r: Vec<String>)
    requires
        parts.len() == jars.len(),
        forall|k: int| 0 <= k < jars.len() ==> parts_view(#[trigger] parts@[k]) == maven_parts_of(
            libraries,
            jars[k],
        ),
    ensures
        string_views(r@) == artifact_versions(libraries, jars, group@, artifact@),
{
    let mut r: Vec<String> = Vec::new();
    let mut i: usize = 0;
    while i < parts.len()
        invariant
            parts.len() == jars.len(),
            i <= parts.len(),
            forall|k: int| 0 <= k < jars.len() ==> parts_view(#[trigger] parts@[k]) == maven_parts_of(
                libraries,
                jars[k],
            ),
            string_views(r@) == artifact_versions(libraries, jars.take(i as int), group@, artifact@),
        decreases parts.len() - i,
    {
        assert(jars.take(i + 1).drop_last() =~= jars.take(i as int));
        assert(jars.take(i + 1).last() == jars[i as int]);
        assert(parts_view(parts@[i as int]) == maven_parts_of(libraries, jars[i as int]));
        match &parts[i] {
            Some((g, a, v)) => {
                if str_eq(g.as_str(), group.as_str()) && str_eq(a.as_str(), artifact.as_str()) {
                    let c = clone_string(v);
                    let ghost old_r = r@;
                    r.push(c);
                    assert(string_views(r@) =~= string_views(old_r).push(c@));
                }
            },
            None => {},
        }
        i += 1;
    }
    assert(jars.take(parts.len() as int) =~= jars);
    r
}

/// Keep only the newest version of each `group:artifact`, preserving all
/// entries (classifiers like natives) of the kept version.
pub fn deduplicate_artifacts(jars: &mut Vec<String>, libraries_dir: &str)
    ensures
        string_views(final(jars)@) == deduplicated(libraries_dir@, string_views(old(jars)@)),
{
    let ghost js = string_views(jars@);
    let ghost keep = |j: Seq<char>| dedup_keeps(libraries_dir@, js, j);
    let mut parts: Vec<Option<(String, String, String)>> = Vec::new();
    let mut i: usize = 0;
    while i < jars.len()
        invariant
            js == string_views(jars@),
            i <= jars.len(),
            parts.len() == i,
            forall|k: int| 0 <= k < i ==> parts_view(#[trigger] parts@[k]) == maven_parts_of(
                libraries_dir@,
                js[k],
            ),
        decreases jars.len() - i,
    {
        parts.push(maven_parts(libraries_dir, jars[i].as_str()));
        i += 1;
    }
    let mut kept: Vec<String> = Vec::new();
    let mut i: usize = 0;
    while i < jars.len()
        invariant
            js == string_views(jars@),
            keep == |j: Seq<char>| dedup_keeps(libraries_dir@, js, j),
            i <= jars.len(),
            parts.len() == jars.len(),
            forall|k: int| 0 <= k < jars.len() ==> parts_view(#[trigger] parts@[k]) == maven_parts_of(
                libraries_dir@,
                js[k],
            ),
            string_views(kept@) == filter_seq(js.take(i as int), keep),
        decreases jars.len() - i,
    {
        assert(js.take(i + 1).drop_last() =~= js.take(i as int));
        assert(js.take(i + 1).last() == js[i as int]);
        let jar = &jars[i];
        let stays = if !path_is_under(jar.as_str(), libraries_dir) {
            true
        } else {
            match &parts[i] {
                None => false,
                Some((g, a, v)) => {
                    let vs = collect_versions(&parts, g, a, Ghost(libraries_dir@), Ghost(js));
                    proof {
                        assert(parts_view(parts@[i as int]) == maven_parts_of(libraries_dir@, js[i as int]));
                        lemma_own_version_listed(libraries_dir@, js, i as int);
                    }
                    let target = kept_version_exec(&vs, a.as_str());
                    str_eq(v.as_str(), target.as_str())
                },
            }
        };
        assert(stays == keep(js[i as int]));
        if stays {
            let c = clone_string(jar);
            let ghost old_k = kept@;
            kept.push(c);
            assert(string_views(kept@) =~= string_views(old_k).push(c@));
        }
        i += 1;
    }
    assert(js.take(jars.len() as int) =~= js);
    *jars = kept;
}

/// A jar with coordinates appears among the versions of its own artifact.
proof fn lemma_own_version_listed(libraries: Seq<char>, jars: Seq<Seq<char>>, i: int)
    requires
        0 <= i < jars.len(),
        maven_parts_of(libraries, jars[i]) is Some,
    ensures
        ({
            let (g, a, v) = maven_parts_of(libraries, jars[i])->0;
            artifact_versions(libraries, jars, g, a).len() > 0
        }),
    decreases jars.len(),
{
    let (g, a, v) = maven_parts_of(libraries, jars[i])->0;
    if i == jars.len() - 1 {
    } else {
        lemma_own_version_listed(libraries, jars.drop_last(), i);
        assert(jars.drop_last()[i] == jars[i]);
        lemma_versions_grow(libraries, jars, g, a);
    }
}

proof fn lemma_versions_grow(libraries: Seq<char>, jars: Seq<Seq<char>>, g: Seq<char>, a: Seq<char>)
    requires
        jars.len() > 0,
    ensures
        artifact_versions(libraries, jars, g, a).len() >= artifact_versions(
            libraries,
            jars.drop_last(),
            g,
            a,
        ).len(),
{
}


// ---------------------------------------------------------------------------
// LWJGL conflicts
// ---------------------------------------------------------------------------

pub open spec fn lwjgl_prefix() -> Seq<char> {
    seq!['o', 'r', 'g', '.', 'l', 'w', 'j', 'g', 'l']
}

/// The LWJGL version a jar belongs to: jars whose Maven group starts with
/// `org.lwjgl`.
pub open spec fn lwjgl_version_of(libraries: Seq<char>, jar: Seq<char>) -> Option<Seq<char>> {
    match maven_parts_of(libraries, jar) {
        Some((g, a, v)) => if starts_with(g, lwjgl_prefix()) {
            Some(v)
        } else {
            None
        },
        None => None,
    }
}

/// The versions of all LWJGL jars, in jar order.
pub open spec fn lwjgl_versions(libraries: Seq<char>, jars: Seq<Seq<char>>) -> Seq<Seq<char>>
    decreases jars.len(),
{
    if jars.len() == 0 {
        Seq::empty()
    } else {
        let rest = lwjgl_versions(libraries, jars.drop_last());
        match lwjgl_version_of(libraries, jars.last()) {
            Some(v) => rest.push(v),
            None => rest,
        }
    }
}

/// `k` is the last position of a newest version in `vs`.
pub open spec fn is_last_newest(vs: Seq<Seq<char>>, k: int) -> bool {
    &&& 0 <= k < vs.len()
    &&& forall|j: int| 0 <= j < vs.len() ==> version_order(vs[k], #[trigger] vs[j]) >= 0
    &&& forall|j: int| k < j < vs.len() ==> version_order(#[trigger] vs[j], vs[k]) < 0
}

/// The newest version of `vs`; among equally new ones, the last.
pub open spec fn last_newest_version(vs: Seq<Seq<char>>) -> Seq<char> {
    vs[choose|k: int| is_last_newest(vs, k)]
}

/// Whether LWJGL conflict removal keeps `jar`: all jars but the LWJGL jars
/// whose version differs from the newest LWJGL version present.
pub open spec fn lwjgl_keeps(libraries: Seq<char>, jars: Seq<Seq<char>>, jar: Seq<char>) -> bool {
    match lwjgl_version_of(libraries, jar) {
        Some(v) => v == last_newest_version(lwjgl_versions(libraries, jars)),
        None => true,
    }
}

proof fn lemma_last_newest_unique(vs: Seq<Seq<char>>, k1: int, k2: int)
    requires
        is_last_newest(vs, k1),
        is_last_newest(vs, k2),
    ensures
        k1 == k2,
{
    if k1 < k2 {
        assert(version_order(vs[k2], vs[k1]) < 0);
        assert(version_order(vs[k2], vs[k1]) >= 0);
    } else if k2 < k1 {
        assert(version_order(vs[k1], vs[k2]) < 0);
        assert(version_order(vs[k1], vs[k2]) >= 0);
    }
}

/// The last position of a newest version.
fn last_newest_index(vs: &Vec<String>) -> (k: usize)
    requires
        vs.len() > 0,
    ensures
        is_last_newest(string_views(vs@), k as int),
        last_newest_version(string_views(vs@)) == vs@[k as int]@,
{
    let ghost v = string_views(vs@);
    let mut best: usize = 0;
    let mut i: usize = 1;
    proof {
        lemma_version_order_reflexive(v[0]);
    }
    while i < vs.len()
        invariant
            v == string_views(vs@),
            1 <= i <= vs.len(),
            best < i,
            forall|j: int| 0 <= j < i ==> version_order(v[best as int], #[trigger] v[j]) >= 0,
            forall|j: int| best < j < i ==> version_order(#[trigger] v[j], v[best as int]) < 0,
        decreases vs.len() - i,
    {
        let c = version_order_exec(vs[i].as_str(), vs[best].as_str());
        if c >= 0 {
            proof {
                assert forall|j: int| 0 <= j < i + 1 implies version_order(v[i as int], #[trigger] v[j])
                    >= 0 by {
                    if j < i {
                        lemma_version_order_antisymmetric(v[i as int], v[best as int]);
                        lemma_version_order_antisymmetric(v[j], v[best as int]);
                        lemma_version_order_transitive(v[j], v[best as int], v[i as int]);
                        lemma_version_order_antisymmetric(v[j], v[i as int]);
                    } else {
                        lemma_version_order_reflexive(v[i as int]);
                    }
                }
            }
            best = i;
        } else {
            proof {
                lemma_version_order_antisymmetric(v[i as int], v[best as int]);
            }
        }
        i += 1;
    }
    proof {
        let k = choose|k: int| is_last_newest(v, k);
        assert(is_last_newest(v, best as int));
        lemma_last_newest_unique(v, k, best as int);
    }
    best
}

/// The LWJGL version of a jar, if it is one.
fn lwjgl_version_exec(libraries_dir: &str, jar: &str) -> (r: Option<String>)
    ensures
        match r {
            Some(v) => lwjgl_version_of(libraries_dir@, jar@) == Some(v@),
            None => lwjgl_version_of(libraries_dir@, jar@) is None,
        },
{
    match maven_parts(libraries_dir, jar) {
        Some((g, _a, v)) => {
            let prefix = vec!['o', 'r', 'g', '.', 'l', 'w', 'j', 'g', 'l'];
            assert(prefix@ =~= lwjgl_prefix());
            let gc = to_chars(g.as_str());
            if starts_with_exec(gc.as_slice(), prefix.as_slice()) {
                Some(v)
            } else {
                None
            }
        },
        None => None,
    }
}

/// Remove LWJGL jars that are not the newest `org.lwjgl*` version present,
/// to avoid VerifyError from mixed LWJGL 2/3 classes. With at most one LWJGL
/// jar nothing changes.
pub fn remove_conflicting_lwjgl(jars: &mut Vec<String>, libraries_dir: &str)
    ensures
        lwjgl_versions(libraries_dir@, string_views(old(jars)@)).len() <= 1 ==> final(jars)@ == old(jars)@,
        string_views(final(jars)@) == without_lwjgl_conflicts(libraries_dir@, string_views(old(jars)@)),
{
    let ghost js = string_views(jars@);
    let mut tags: Vec<Option<String>> = Vec::new();
    let mut versions: Vec<String> = Vec::new();
    let mut i: usize = 0;
    while i < jars.len()
        invariant
            js == string_views(jars@),
            i <= jars.len(),
            tags.len() == i,
            forall|k: int| 0 <= k < i ==> sview_opt(#[trigger] tags@[k]) == lwjgl_version_of(
                libraries_dir@,
                js[k],
            ),
            string_views(versions@) == lwjgl_versions(libraries_dir@, js.take(i as int)),
        decreases jars.len() - i,
    {
        assert(js.take(i + 1).drop_last() =~= js.take(i as int));
        assert(js.take(i + 1).last() == js[i as int]);
        let t = lwjgl_version_exec(libraries_dir, jars[i].as_str());
        match &t {
            Some(v) => {
                let c = clone_string(v);
                let ghost old_v = versions@;
                versions.push(c);
                assert(string_views(versions@) =~= string_views(old_v).push(c@));
            },
            None => {},
        }
        tags.push(t);
        i += 1;
    }
    assert(js.take(jars.len() as int) =~= js);
    if versions.len() <= 1 {
        return;
    }
    let k = last_newest_index(&versions);
    let newest = clone_string(&versions[k]);
    let ghost keep = |j: Seq<char>| lwjgl_keeps(libraries_dir@, js, j);
    let mut kept: Vec<String> = Vec::new();
    let mut i: usize = 0;
    while i < jars.len()
        invariant
            js == string_views(jars@),
            keep == |j: Seq<char>| lwjgl_keeps(libraries_dir@, js, j),
            newest@ == last_newest_version(lwjgl_versions(libraries_dir@, js)),
            i <= jars.len(),
            tags.len() == jars.len(),
            forall|k: int| 0 <= k < jars.len() ==> sview_opt(#[trigger] tags@[k]) == lwjgl_version_of(
                libraries_dir@,
                js[k],
            ),
            string_views(kept@) == filter_seq(js.take(i as int), keep),
        decreases jars.len() - i,
    {
        assert(js.take(i + 1).drop_last() =~= js.take(i as int));
        assert(js.take(i + 1).last() == js[i as int]);
        assert(sview_opt(tags@[i as int]) == lwjgl_version_of(libraries_dir@, js[i as int]));
        let stays = match &tags[i] {
            Some(v) => str_eq(v.as_str(), newest.as_str()),
            None => true,
        };
        assert(stays == keep(js[i as int]));
        if stays {
            let c = clone_string(&jars[i]);
            let ghost old_k = kept@;
            kept.push(c);
            assert(string_views(kept@) =~= string_views(old_k).push(c@));
        }
        i += 1;
    }
    assert(js.take(jars.len() as int) =~= js);
    *jars = kept;
}

pub open spec fn sview_opt(o: Option<String>) -> Option<Seq<char>> {
    match o {
        Some(s) => Some(s@),
        None => None,
    }
}

// ---------------------------------------------------------------------------
// Bootstrap libraries and the classpath
// ---------------------------------------------------------------------------

/// The jar of a Maven coordinate `group:artifact:version[:classifier]` under
/// the libraries directory:
/// `<libraries>/<group with / for .>/<artifact>/<version>/<artifact>-<version>[-<classifier>].jar`.
/// Coordinates with fewer than three parts have none.
pub open spec fn maven_coordinate_path(libraries: Seq<char>, coord: Seq<char>) -> Option<Seq<char>> {
    let p = split_on(coord, seq![':']);
    if p.len() < 3 {
        None
    } else {
        let classifier = if p.len() > 3 {
            seq!['-'] + p[3]
        } else {
            Seq::empty()
        };
        let file = p[1] + seq!['-'] + p[2] + classifier + seq!['.', 'j', 'a', 'r'];
        Some(
            libraries + seq!['/'] + join_with(split_on(p[0], seq!['.']), seq!['/']) + seq!['/']
                + p[1] + seq!['/'] + p[2] + seq!['/'] + file,
        )
    }
}

/// The jars of the coordinates that name one, in order.
pub open spec fn bootstrap_paths(libraries: Seq<char>, names: Seq<Seq<char>>) -> Seq<Seq<char>>
    decreases names.len(),
{
    if names.len() == 0 {
        Seq::empty()
    } else {
        let rest = bootstrap_paths(libraries, names.drop_last());
        match maven_coordinate_path(libraries, names.last()) {
            Some(p) => rest.push(p),
            None => rest,
        }
    }
}

/// The jar of a Maven coordinate under the libraries directory.
pub fn maven_coordinate_to_path(libraries_dir: &str, coordinate: &str) -> (r: Option<String>)
    ensures
        sview_opt(r) == maven_coordinate_path(libraries_dir@, coordinate@),
{
    let colon = vec![':'];
    let dot = vec!['.'];
    assert(colon@ =~= seq![':']);
    assert(dot@ =~= seq!['.']);
    let cc = to_chars(coordinate);
    let p = split_exec(cc.as_slice(), colon.as_slice());
    if p.len() < 3 {
        return None;
    }
    let ghost pv = views(p@);
    assert(pv[0] == p@[0]@ && pv[1] == p@[1]@ && pv[2] == p@[2]@);
    let groups = split_exec(p[0].as_slice(), dot.as_slice());
    let group_path = join_char_vecs(&groups, '/');
    let mut out = to_chars(libraries_dir);
    out.push('/');
    push_all(&mut out, group_path.as_slice());
    out.push('/');
    push_all(&mut out, p[1].as_slice());
    out.push('/');
    push_all(&mut out, p[2].as_slice());
    out.push('/');
    push_all(&mut out, p[1].as_slice());
    out.push('-');
    push_all(&mut out, p[2].as_slice());
    if p.len() > 3 {
        assert(pv[3] == p@[3]@);
        out.push('-');
        push_all(&mut out, p[3].as_slice());
    }
    push_str_chars(&mut out, ".jar");
    proof {
        reveal_strlit(".jar");
        let classifier = if pv.len() > 3 {
            seq!['-'] + pv[3]
        } else {
            Seq::empty()
        };
        assert(out@ =~= libraries_dir@ + seq!['/'] + join_with(split_on(pv[0], seq!['.']), seq!['/'])
            + seq!['/'] + pv[1] + seq!['/'] + pv[2] + seq!['/'] + (pv[1] + seq!['-'] + pv[2] + classifier
            + seq!['.', 'j', 'a', 'r']));
    }
    Some(string_of(out.as_slice()))
}

/// Bootstrap libraries for modloader versions: the jars of the library
/// coordinates listed in `version.json`.
pub fn bootstrap_libraries(library_names: &Vec<String>, libraries_dir: &str) -> (r: Vec<String>)
    ensures
        string_views(r@) == bootstrap_paths(libraries_dir@, string_views(library_names@)),
{
    let ghost ns = string_views(library_names@);
    let mut r: Vec<String> = Vec::new();
    let mut i: usize = 0;
    while i < library_names.len()
        invariant
            ns == string_views(library_names@),
            i <= library_names.len(),
            string_views(r@) == bootstrap_paths(libraries_dir@, ns.take(i as int)),
        decreases library_names.len() - i,
    {
        assert(ns.take(i + 1).drop_last() =~= ns.take(i as int));
        assert(ns.take(i + 1).last() == ns[i as int]);
        match maven_coordinate_to_path(libraries_dir, library_names[i].as_str()) {
            Some(p) => {
                let ghost old_r = r@;
                r.push(p);
                assert(string_views(r@) =~= string_views(old_r).push(p@));
            },
            None => {},
        }
        i += 1;
    }
    assert(ns.take(library_names.len() as int) =~= ns);
    r
}

/// What the classpath needs from a version's `version.json`.
#[derive(Debug, Clone)]
pub struct VersionJson {
    /// The main class to launch.
    pub main_class: String,
    /// The Maven coordinates of its libraries.
    pub libraries: Vec<String>,
    /// The version whose jar this one reuses (`jar` in `version.json`).
    pub jar: Option<String>,
    /// Whether the version runs on LWJGL 3.
    pub uses_lwjgl3: bool,
    /// The id of the asset index the version uses, when it names one.
    pub asset_index: Option<String>,
    /// The Java major version the version requires, when it names one.
    pub java_major: Option<u32>,
}

/// A library coordinate of LWJGL 3: group `org.lwjgl…` and a version
/// starting with `3`.
pub open spec fn is_lwjgl3_coordinate(coordinate: Seq<char>) -> bool {
    let p = split_on(coordinate, seq![':']);
    p.len() >= 3 && starts_with(p[0], "org.lwjgl"@) && p[2].len() > 0 && p[2][0] == '3'
}

/// Whether a version runs on LWJGL 3: one of its libraries is.
pub fn uses_lwjgl3(libraries: &Vec<String>) -> (r: bool)
    ensures
        r == exists|i: int| 0 <= i < libraries.len() && is_lwjgl3_coordinate(#[trigger] libraries@[i]@),
{
    let colon = vec![':'];
    assert(colon@ =~= seq![':']);
    let prefix = to_chars("org.lwjgl");
    let mut i: usize = 0;
    while i < libraries.len()
        invariant
            i <= libraries.len(),
            colon@ == seq![':'],
            prefix@ == "org.lwjgl"@,
            forall|j: int| 0 <= j < i ==> !is_lwjgl3_coordinate(#[trigger] libraries@[j]@),
        decreases libraries.len() - i,
    {
        let p = split_exec(to_chars(libraries[i].as_str()).as_slice(), colon.as_slice());
        if p.len() >= 3 {
            assert(views(p@)[0] == p@[0]@ && views(p@)[2] == p@[2]@);
            if starts_with_exec(p[0].as_slice(), prefix.as_slice()) && p[2].len() > 0 && p[2][0] == '3' {
                return true;
            }
        }
        i += 1;
    }
    false
}

#[derive(Debug, Clone, Copy, PartialEq, Eq, Structural)]
pub enum ClasspathError {
    /// No jar at all ended up on the classpath.
    Empty,
}

pub open spec fn knot_client() -> Seq<char> {
    seq!['K', 'n', 'o', 't', 'C', 'l', 'i', 'e', 'n', 't']
}

/// `<game_dir>/libraries`.
pub open spec fn libraries_dir_of(game_dir: Seq<char>) -> Seq<char> {
    path_join(game_dir, seq!['l', 'i', 'b', 'r', 'a', 'r', 'i', 'e', 's'])
}

/// `<game_dir>/versions/<name>/<name>.jar`.
pub open spec fn version_jar_of(game_dir: Seq<char>, name: Seq<char>) -> Seq<char> {
    path_join(
        path_join(path_join(game_dir, seq!['v', 'e', 'r', 's', 'i', 'o', 'n', 's']), name),
        name + seq!['.', 'j', 'a', 'r'],
    )
}

/// The jars after LWJGL conflict removal.
pub open spec fn without_lwjgl_conflicts(libraries: Seq<char>, jars: Seq<Seq<char>>) -> Seq<Seq<char>> {
    if lwjgl_versions(libraries, jars).len() <= 1 {
        jars
    } else {
        filter_seq(jars, |j: Seq<char>| lwjgl_keeps(libraries, jars, j))
    }
}

/// The jars after artifact deduplication.
pub open spec fn deduplicated(libraries: Seq<char>, jars: Seq<Seq<char>>) -> Seq<Seq<char>> {
    filter_seq(jars, |j: Seq<char>| dedup_keeps(libraries, jars, j))
}

/// The classpath entries of a version, in order.
///
/// - Fabric-like versions (main class contains `KnotClient`): the version jar
///   and the bootstrap libraries from `version.json` only; Fabric's own
///   classloader loads the rest.
/// - Others: all library jars, the referenced version's jar when it exists,
///   the version jar; deduplicated, and for LWJGL 3 versions without LWJGL
///   conflicts.
pub open spec fn classpath_entries(
    game_dir: Seq<char>,
    main_class: Seq<char>,
    libraries: Seq<Seq<char>>,
    jar: Option<Seq<char>>,
    uses_lwjgl3: bool,
    version_jar: Seq<char>,
    library_jars: Seq<Seq<char>>,
    referenced_present: bool,
) -> Seq<Seq<char>> {
    let lib = libraries_dir_of(game_dir);
    if contains(main_class, knot_client()) {
        seq![version_jar] + bootstrap_paths(lib, libraries)
    } else {
        let referenced = match jar {
            Some(r) => if referenced_present {
                seq![version_jar_of(game_dir, r)]
            } else {
                Seq::empty()
            },
            None => Seq::empty(),
        };
        let all = library_jars + referenced + seq![version_jar];
        let d = deduplicated(lib, all);
        if uses_lwjgl3 {
            without_lwjgl_conflicts(lib, d)
        } else {
            d
        }
    }
}

/// Build the final classpath for a version: its entries joined by the
/// platform's path separator.
///
/// `library_jars` are the jars found under `<game_dir>/libraries` in sorted
/// order, and `referenced_present` tells whether the jar of the version named
/// by `jar` in `version.json` exists.
pub fn build_classpath(
    game_dir: &str,
    version_json: &VersionJson,
    version_jar: &str,
    library_jars: &Vec<String>,
    referenced_present: bool,
    separator: &str,
) -> (r: Result<String, ClasspathError>)
    ensures
        ({
            let entries = classpath_entries(
                game_dir@,
                version_json.main_class@,
                string_views(version_json.libraries@),
                sview_opt(version_json.jar),
                version_json.uses_lwjgl3,
                version_jar@,
                string_views(library_jars@),
                referenced_present,
            );
            match r {
                Ok(cp) => entries.len() > 0 && cp@ == join_with(entries, separator@),
                Err(ClasspathError::Empty) => entries.len() == 0,
            }
        }),
{
    let libraries_dir = join_path(game_dir, "libraries");
    proof {
        reveal_strlit("libraries");
        assert("libraries"@ =~= seq!['l', 'i', 'b', 'r', 'a', 'r', 'i', 'e', 's']);
    }
    let mc = to_chars(version_json.main_class.as_str());
    let knot = vec!['K', 'n', 'o', 't', 'C', 'l', 'i', 'e', 'n', 't'];
    assert(knot@ =~= knot_client());
    let mut entries: Vec<String> = Vec::new();
    if contains_exec(mc.as_slice(), knot.as_slice()) {
        let vj = clone_str(version_jar);
        entries.push(vj);
        assert(string_views(entries@) =~= seq![version_jar@]);
        let boot = bootstrap_libraries(&version_json.libraries, libraries_dir.as_str());
        append_strings(&mut entries, &boot);
    } else {
        append_strings(&mut entries, library_jars);
        assert(string_views(entries@) =~= string_views(library_jars@));
        let ghost before_ref = string_views(entries@);
        match &version_json.jar {
            Some(referenced) => {
                if referenced_present {
                    let g = to_chars(game_dir);
                    let versions = vec!['v', 'e', 'r', 's', 'i', 'o', 'n', 's'];
                    let r = to_chars(referenced.as_str());
                    let vdir = join_chars(g.as_slice(), versions.as_slice());
                    let rdir = join_chars(vdir.as_slice(), r.as_slice());
                    let mut file = to_chars(referenced.as_str());
                    file.push('.');
                    file.push('j');
                    file.push('a');
                    file.push('r');
                    let p = join_chars(rdir.as_slice(), file.as_slice());
                    proof {
                        assert(versions@ =~= seq!['v', 'e', 'r', 's', 'i', 'o', 'n', 's']);
                        assert(file@ =~= referenced@ + seq!['.', 'j', 'a', 'r']);
                        assert(p@ =~= version_jar_of(game_dir@, referenced@));
                    }
                    let ps = string_of(p.as_slice());
                    entries.push(ps);
                    assert(string_views(entries@) =~= before_ref + seq![version_jar_of(game_dir@, referenced@)]);
                } else {
                    assert(string_views(entries@) =~= before_ref + Seq::<Seq<char>>::empty());
                }
            },
            None => {
                assert(string_views(entries@) =~= before_ref + Seq::<Seq<char>>::empty());
            },
        }
        let ghost before_jar = string_views(entries@);
        let vj = clone_str(version_jar);
        entries.push(vj);
        assert(string_views(entries@) =~= before_jar + seq![version_jar@]);
        deduplicate_artifacts(&mut entries, libraries_dir.as_str());
        if version_json.uses_lwjgl3 {
            remove_conflicting_lwjgl(&mut entries, libraries_dir.as_str());
        }
    }
    if entries.len() == 0 {
        return Err(ClasspathError::Empty);
    }
    Ok(join_strings(&entries, separator))
}

/// Appends copies of `src` to `dst`.
fn append_strings(dst: &mut Vec<String>, src: &Vec<String>)
    ensures
        string_views(final(dst)@) == string_views(old(dst)@) + string_views(src@),
{
    let mut i: usize = 0;
    while i < src.len()
        invariant
            i <= src.len(),
            string_views(dst@) == string_views(old(dst)@) + string_views(src@).take(i as int),
        decreases src.len() - i,
    {
        let c = clone_string(&src[i]);
        let ghost d0 = dst@;
        dst.push(c);
        assert(string_views(dst@) =~= string_views(d0).push(c@));
        i += 1;
        assert(string_views(dst@) =~= string_views(old(dst)@) + string_views(src@).take(i as int));
    }
    assert(string_views(src@).take(src.len() as int) =~= string_views(src@));
}

fn clone_str(s: &str) -> (r: String)
    ensures
        r@ == s@,
{
    let c = to_chars(s);
    string_of(c.as_slice())
}

// ---------------------------------------------------------------------------
// Ordering paths
// ---------------------------------------------------------------------------

/// Sequences of components compared one component at a time, each as a
/// string; a proper prefix comes first.
pub open spec fn components_order(xs: Seq<Seq<char>>, ys: Seq<Seq<char>>) -> int
    decreases xs.len(),
{
    if xs.len() == 0 && ys.len() == 0 {
        0
    } else if xs.len() == 0 {
        -1
    } else if ys.len() == 0 {
        1
    } else if lex_order(xs[0], ys[0]) != 0 {
        lex_order(xs[0], ys[0])
    } else {
        components_order(xs.drop_first(), ys.drop_first())
    }
}

/// How path `a` compares to path `b`: component by component.
pub open spec fn path_order(a: Seq<char>, b: Seq<char>) -> int {
    components_order(components(a), components(b))
}

pub proof fn lemma_components_order_antisymmetric(xs: Seq<Seq<char>>, ys: Seq<Seq<char>>)
    ensures
        components_order(xs, ys) == -components_order(ys, xs),
        -1 <= components_order(xs, ys) <= 1,
    decreases xs.len(),
{
    if xs.len() > 0 && ys.len() > 0 {
        lemma_lex_order_antisymmetric(xs[0], ys[0]);
        lemma_components_order_antisymmetric(xs.drop_first(), ys.drop_first());
    }
}

pub proof fn lemma_components_order_transitive(xs: Seq<Seq<char>>, ys: Seq<Seq<char>>, zs: Seq<Seq<char>>)
    requires
        components_order(xs, ys) <= 0,
        components_order(ys, zs) <= 0,
    ensures
        components_order(xs, zs) <= 0,
    decreases xs.len(),
{
    if xs.len() > 0 && ys.len() > 0 && zs.len() > 0 {
        lemma_lex_order_antisymmetric(xs[0], ys[0]);
        lemma_lex_order_antisymmetric(ys[0], zs[0]);
        lemma_lex_order_antisymmetric(xs[0], zs[0]);
        lemma_lex_order_transitive(xs[0], ys[0], zs[0]);
        if lex_order(xs[0], ys[0]) == 0 && lex_order(ys[0], zs[0]) == 0 {
            lemma_components_order_transitive(xs.drop_first(), ys.drop_first(), zs.drop_first());
        } else if lex_order(xs[0], ys[0]) == 0 {
            assert(xs[0] == ys[0]);
        } else if lex_order(ys[0], zs[0]) == 0 {
            assert(ys[0] == zs[0]);
        } else {
            if lex_order(xs[0], zs[0]) == 0 {
                assert(xs[0] == zs[0]);
            }
        }
    }
}

fn components_order_exec(xs: &Vec<Vec<char>>, ys: &Vec<Vec<char>>) -> (r: i8)
    ensures
        r as int == components_order(cviews(xs@), cviews(ys@)),
{
    let ghost vx = cviews(xs@);
    let ghost vy = cviews(ys@);
    let mut i: usize = 0;
    assert(vx.skip(0) =~= vx && vy.skip(0) =~= vy);
    while i < xs.len() && i < ys.len()
        invariant
            i <= xs.len(),
            i <= ys.len(),
            vx == cviews(xs@),
            vy == cviews(ys@),
            components_order(vx, vy) == components_order(vx.skip(i as int), vy.skip(i as int)),
        decreases xs.len() - i,
    {
        assert(vx.skip(i as int)[0] == xs@[i as int]@);
        assert(vy.skip(i as int)[0] == ys@[i as int]@);
        let c = lex_order_exec(xs[i].as_slice(), ys[i].as_slice());
        if c != 0 {
            return c;
        }
        assert(vx.skip(i as int).drop_first() =~= vx.skip(i + 1));
        assert(vy.skip(i as int).drop_first() =~= vy.skip(i + 1));
        i += 1;
    }
    if i < xs.len() {
        1
    } else if i < ys.len() {
        -1
    } else {
        0
    }
}

/// How path `a` compares to path `b`: -1, 0 or 1.
pub fn path_order_exec(a: &str, b: &str) -> (r: i8)
    ensures
        r as int == path_order(a@, b@),
{
    let xa = path_components(a);
    let xb = path_components(b);
    components_order_exec(&xa, &xb)
}

/// A path ordered component by component.
#[derive(Debug, Clone)]
pub struct JarPath {
    pub path: String,
}

impl crate::sorting::SortKey for JarPath {
    open spec fn order(a: JarPath, b: JarPath) -> int {
        path_order(a.path@, b.path@)
    }

    proof fn lemma_order_antisymmetric(a: JarPath, b: JarPath) {
        lemma_components_order_antisymmetric(components(a.path@), components(b.path@));
    }

    proof fn lemma_order_transitive(a: JarPath, b: JarPath, c: JarPath) {
        lemma_components_order_transitive(components(a.path@), components(b.path@), components(c.path@));
    }

    fn compare(&self, other: &JarPath) -> (r: i8) {
        path_order_exec(self.path.as_str(), other.path.as_str())
    }
}

/// Whether a file path has the extension `jar`, ASCII case ignored: its
/// file name has a `.` other than a leading one, followed by `jar` and
/// nothing else.
pub open spec fn is_jar_path(p: Seq<char>) -> bool {
    let n = p.len();
    &&& n >= 5
    &&& p[n - 5] != '/'
    &&& p[n - 4] == '.'
    &&& lower_char(p[n - 3]) == 'j'
    &&& lower_char(p[n - 2]) == 'a'
    &&& lower_char(p[n - 1]) == 'r'
}

/// The `.jar` files among the walked files, in walk order.
pub open spec fn jar_paths(files: Seq<Seq<char>>) -> Seq<Seq<char>> {
    filter_seq(files, |p: Seq<char>| is_jar_path(p))
}

fn is_jar_path_exec(p: &str) -> (r: bool)
    ensures
        r == is_jar_path(p@),
{
    let c = to_chars(p);
    let n = c.len();
    if n < 5 {
        return false;
    }
    c[n - 5] != '/' && c[n - 4] == '.' && lower_char_exec(c[n - 3]) == 'j' && lower_char_exec(c[n - 2]) == 'a'
        && lower_char_exec(c[n - 1]) == 'r'
}

/// All `.jar` files found under a directory (extension compared ignoring
/// ASCII case), sorted by path (component by component); `files` are the
/// files, not directories, that the directory walk found.
pub fn collect_jars(files: Vec<String>) -> (r: Vec<String>)
    ensures
        ({
            let jars = jar_paths(string_views(files@));
            &&& r.len() == jars.len()
            &&& forall|i: int, j: int|
                0 <= i < j < r.len() ==> path_order(#[trigger] r@[i]@, #[trigger] r@[j]@) <= 0
            &&& exists|perm: Seq<int>|
                {
                    &&& perm.len() == jars.len()
                    &&& forall|k: int|
                        0 <= k < perm.len() ==> 0 <= #[trigger] perm[k] < jars.len() && r@[k]@ == jars[perm[k]]
                    &&& forall|k1: int, k2: int|
                        0 <= k1 < k2 < perm.len() ==> #[trigger] perm[k1] != #[trigger] perm[k2]
                }
        }),
{
    let ghost fs = string_views(files@);
    let ghost keep = |p: Seq<char>| is_jar_path(p);
    let mut kept: Vec<String> = Vec::new();
    let mut i: usize = 0;
    while i < files.len()
        invariant
            fs == string_views(files@),
            keep == |p: Seq<char>| is_jar_path(p),
            i <= files.len(),
            string_views(kept@) == filter_seq(fs.take(i as int), keep),
        decreases files.len() - i,
    {
        assert(fs.take(i + 1).drop_last() =~= fs.take(i as int));
        assert(fs.take(i + 1).last() == fs[i as int]);
        if is_jar_path_exec(files[i].as_str()) {
            let ghost k0 = kept@;
            kept.push(files[i].clone());
            assert(string_views(kept@) =~= string_views(k0).push(kept@[k0.len() as int]@));
        }
        i += 1;
    }
    assert(fs.take(files.len() as int) =~= fs);
    let ghost kv = kept@;
    let r = sort_paths(kept);
    proof {
        let perm = choose|perm: Seq<int>| {
            &&& perm.len() == kv.len()
            &&& forall|k: int| 0 <= k < perm.len() ==> 0 <= #[trigger] perm[k] < kv.len() && r@[k]@ == kv[perm[k]]@
            &&& forall|k1: int, k2: int| 0 <= k1 < k2 < perm.len() ==> #[trigger] perm[k1] != #[trigger] perm[k2]
        };
        let jars = jar_paths(fs);
        assert(jars == filter_seq(fs, keep));
        assert forall|k: int| 0 <= k < perm.len() implies 0 <= #[trigger] perm[k] < jars.len() && r@[k]@
            == jars[perm[k]] by {
            assert(string_views(kv)[perm[k]] == kv[perm[k]]@);
        }
    }
    r
}

/// Paths sorted by path (component by component).
fn sort_paths(jars: Vec<String>) -> (r: Vec<String>)
    ensures
        r.len() == jars.len(),
        forall|i: int, j: int| 0 <= i < j < r.len() ==> path_order(#[trigger] r@[i]@, #[trigger] r@[j]@) <= 0,
        exists|perm: Seq<int>| {
            &&& perm.len() == jars.len()
            &&& forall|k: int| 0 <= k < perm.len() ==> 0 <= #[trigger] perm[k] < jars.len() && r@[k]@ == jars@[perm[k]]@
            &&& forall|k1: int, k2: int| 0 <= k1 < k2 < perm.len() ==> #[trigger] perm[k1] != #[trigger] perm[k2]
        },
{
    let mut keyed: Vec<JarPath> = Vec::new();
    let mut jars = jars;
    let ghost orig = jars@;
    let mut i: usize = 0;
    let n = jars.len();
    assert(orig.skip(0) =~= orig);
    while jars.len() > 0
        invariant
            i + jars.len() == n,
            n == orig.len(),
            jars@ == orig.skip(i as int),
            keyed.len() == i,
            forall|k: int| 0 <= k < i ==> (#[trigger] keyed@[k]).path == orig[k],
        decreases jars.len(),
    {
        let p = jars.remove(0);
        assert(p == orig[i as int]);
        assert(jars@ =~= orig.skip(i + 1));
        keyed.push(JarPath { path: p });
        i += 1;
    }
    let ghost before = keyed@;
    crate::sorting::stable_sort(&mut keyed);
    let ghost perm = choose|perm: Seq<int>| crate::sorting::is_stable_sorted(keyed@, before, perm);
    let mut r: Vec<String> = Vec::new();
    let m = keyed.len();
    let ghost sorted = keyed@;
    let mut k: usize = 0;
    assert(sorted.skip(0) =~= sorted);
    while keyed.len() > 0
        invariant
            k + keyed.len() == m,
            m == sorted.len(),
            keyed@ == sorted.skip(k as int),
            r.len() == k,
            forall|t: int| 0 <= t < k ==> (#[trigger] r@[t]) == sorted[t].path,
        decreases keyed.len(),
    {
        let e = keyed.remove(0);
        assert(e == sorted[k as int]);
        assert(keyed@ =~= sorted.skip(k + 1));
        r.push(e.path);
        k += 1;
    }
    proof {
        assert forall|a: int, b: int| 0 <= a < b < r.len() implies path_order(#[trigger] r@[a]@, #[trigger] r@[b]@) <= 0 by {
            assert(<JarPath as crate::sorting::SortKey>::order(sorted[a], sorted[b]) <= 0);
        }
        assert forall|t: int| 0 <= t < perm.len() implies 0 <= #[trigger] perm[t] < orig.len() && r@[t]@ == orig[perm[t]]@ by {
            assert(sorted[t] == before[perm[t]]);
        }
    }
    r
}

proof fn lemma_filter_seq_keeps(s: Seq<Seq<char>>, keep: spec_fn(Seq<char>) -> bool)
    ensures
        forall|i: int| 0 <= i < filter_seq(s, keep).len() ==> keep(#[trigger] filter_seq(s, keep)[i]),
    decreases s.len(),
{
    if s.len() > 0 {
        let p = s.drop_last();
        lemma_filter_seq_keeps(p, keep);
        let f = filter_seq(s, keep);
        assert forall|i: int| 0 <= i < f.len() implies keep(#[trigger] f[i]) by {
            if keep(s.last()) {
                assert(f == filter_seq(p, keep).push(s.last()));
                if i < filter_seq(p, keep).len() {
                    assert(f[i] == filter_seq(p, keep)[i]);
                }
            } else {
                assert(f == filter_seq(p, keep));
            }
        }
    }
}

/// Deduplication leaves a single version of each artifact: every library
/// jar that stays has Maven coordinates, and two that stay with the same
/// `group:artifact` have the same version.
pub proof fn lemma_deduplicated_one_version(libraries: Seq<char>, jars: Seq<Seq<char>>, i: int, j: int)
    requires
        0 <= i < deduplicated(libraries, jars).len(),
        0 <= j < deduplicated(libraries, jars).len(),
        is_under(deduplicated(libraries, jars)[i], libraries),
        is_under(deduplicated(libraries, jars)[j], libraries),
    ensures
        match (
            maven_parts_of(libraries, deduplicated(libraries, jars)[i]),
            maven_parts_of(libraries, deduplicated(libraries, jars)[j]),
        ) {
            (Some((g1, a1, v1)), Some((g2, a2, v2))) => g1 == g2 && a1 == a2 ==> v1 == v2,
            _ => false,
        },
{
    let keep = |x: Seq<char>| dedup_keeps(libraries, jars, x);
    lemma_filter_seq_keeps(jars, keep);
    assert(keep(deduplicated(libraries, jars)[i]));
    assert(keep(deduplicated(libraries, jars)[j]));
}

/// After LWJGL conflict removal, the LWJGL jars that stay all have one
/// version: the newest one present.
pub proof fn lemma_lwjgl_single_version(libraries: Seq<char>, jars: Seq<Seq<char>>, i: int)
    requires
        lwjgl_versions(libraries, jars).len() > 1,
        0 <= i < without_lwjgl_conflicts(libraries, jars).len(),
        lwjgl_version_of(libraries, without_lwjgl_conflicts(libraries, jars)[i]) is Some,
    ensures
        lwjgl_version_of(libraries, without_lwjgl_conflicts(libraries, jars)[i])->0 == last_newest_version(
            lwjgl_versions(libraries, jars),
        ),
{
    let keep = |x: Seq<char>| lwjgl_keeps(libraries, jars, x);
    lemma_filter_seq_keeps(jars, keep);
    assert(keep(without_lwjgl_conflicts(libraries, jars)[i]));
}

proof fn lemma_last_newest_exists(vs: Seq<Seq<char>>)
    requires
        vs.len() > 0,
    ensures
        exists|k: int| is_last_newest(vs, k),
    decreases vs.len(),
{
    let n = vs.len() - 1;
    if n == 0 {
        lemma_version_order_reflexive(vs[0]);
        assert(is_last_newest(vs, 0));
    } else {
        let p = vs.drop_last();
        lemma_last_newest_exists(p);
        let k = choose|k: int| is_last_newest(p, k);
        assert(p[k] == vs[k]);
        lemma_version_order_antisymmetric(vs[n], vs[k]);
        if version_order(vs[n], vs[k]) >= 0 {
            assert forall|j: int| 0 <= j < vs.len() implies version_order(vs[n], #[trigger] vs[j]) >= 0 by {
                if j < n {
                    assert(p[j] == vs[j]);
                    assert(version_order(p[k], p[j]) >= 0);
                    lemma_version_order_antisymmetric(vs[k], vs[j]);
                    lemma_version_order_antisymmetric(vs[n], vs[j]);
                    lemma_version_order_transitive(vs[j], vs[k], vs[n]);
                } else {
                    lemma_version_order_reflexive(vs[n]);
                }
            }
            assert(is_last_newest(vs, n));
        } else {
            assert forall|j: int| 0 <= j < vs.len() implies version_order(vs[k], #[trigger] vs[j]) >= 0 by {
                if j < n {
                    assert(p[j] == vs[j]);
                    assert(version_order(p[k], p[j]) >= 0);
                }
            }
            assert forall|j: int| k < j < vs.len() implies version_order(#[trigger] vs[j], vs[k]) < 0 by {
                if j < n {
                    assert(p[j] == vs[j]);
                    assert(version_order(p[j], p[k]) < 0);
                }
            }
            assert(is_last_newest(vs, k));
        }
    }
}

proof fn lemma_lwjgl_version_listed(libraries: Seq<char>, jars: Seq<Seq<char>>, i: int)
    requires
        0 <= i < jars.len(),
        lwjgl_version_of(libraries, jars[i]) is Some,
    ensures
        exists|j: int|
            0 <= j < lwjgl_versions(libraries, jars).len() && #[trigger] lwjgl_versions(libraries, jars)[j]
                == lwjgl_version_of(libraries, jars[i])->0,
    decreases jars.len(),
{
    let vs = lwjgl_versions(libraries, jars);
    let p = jars.drop_last();
    if i == jars.len() - 1 {
        assert(vs[vs.len() - 1] == lwjgl_version_of(libraries, jars[i])->0);
    } else {
        assert(p[i] == jars[i]);
        lemma_lwjgl_version_listed(libraries, p, i);
        let j = choose|j: int|
            0 <= j < lwjgl_versions(libraries, p).len() && #[trigger] lwjgl_versions(libraries, p)[j]
                == lwjgl_version_of(libraries, p[i])->0;
        assert(vs[j] == lwjgl_versions(libraries, p)[j]);
    }
}

/// LWJGL on the classpath of a version that is not Fabric-like: for a
/// version on LWJGL 3, every LWJGL jar left is of a version at least as new
/// as every LWJGL jar that deduplication kept (so LWJGL 2 and 3 never mix);
/// for another version nothing is removed beyond deduplication of the
/// library jars, the referenced version's jar when present, and the version
/// jar.
pub proof fn lemma_classpath_lwjgl(
    game_dir: Seq<char>,
    main_class: Seq<char>,
    libraries: Seq<Seq<char>>,
    jar: Option<Seq<char>>,
    uses_lwjgl3: bool,
    version_jar: Seq<char>,
    library_jars: Seq<Seq<char>>,
    referenced_present: bool,
    i: int,
    k: int,
)
    requires
        !contains(main_class, knot_client()),
    ensures
        ({
            let lib = libraries_dir_of(game_dir);
            let e = classpath_entries(
                game_dir,
                main_class,
                libraries,
                jar,
                uses_lwjgl3,
                version_jar,
                library_jars,
                referenced_present,
            );
            let referenced = match jar {
                Some(r) => if referenced_present {
                    seq![version_jar_of(game_dir, r)]
                } else {
                    Seq::empty()
                },
                None => Seq::empty(),
            };
            let d = deduplicated(lib, library_jars + referenced + seq![version_jar]);
            &&& !uses_lwjgl3 ==> e == d
            &&& uses_lwjgl3 && 0 <= i < e.len() && 0 <= k < d.len() && lwjgl_version_of(lib, e[i]) is Some
                && lwjgl_version_of(lib, d[k]) is Some ==> version_order(
                lwjgl_version_of(lib, e[i])->0,
                lwjgl_version_of(lib, d[k])->0,
            ) >= 0
        }),
{
    let lib = libraries_dir_of(game_dir);
    let e = classpath_entries(
        game_dir,
        main_class,
        libraries,
        jar,
        uses_lwjgl3,
        version_jar,
        library_jars,
        referenced_present,
    );
    let referenced = match jar {
        Some(r) => if referenced_present {
            seq![version_jar_of(game_dir, r)]
        } else {
            Seq::empty()
        },
        None => Seq::empty(),
    };
    let d = deduplicated(lib, library_jars + referenced + seq![version_jar]);
    if uses_lwjgl3 && 0 <= i < e.len() && 0 <= k < d.len() && lwjgl_version_of(lib, e[i]) is Some
        && lwjgl_version_of(lib, d[k]) is Some {
        let vs = lwjgl_versions(lib, d);
        let v2 = lwjgl_version_of(lib, d[k])->0;
        lemma_lwjgl_version_listed(lib, d, k);
        let j = choose|j: int| 0 <= j < vs.len() && #[trigger] vs[j] == v2;
        if vs.len() <= 1 {
            assert(e == d);
            lemma_lwjgl_version_listed(lib, d, i);
            let j1 = choose|j1: int| 0 <= j1 < vs.len() && #[trigger] vs[j1] == lwjgl_version_of(lib, d[i])->0;
            assert(j1 == 0 && j == 0);
            lemma_version_order_reflexive(v2);
        } else {
            assert(e == without_lwjgl_conflicts(lib, d));
            lemma_lwjgl_single_version(lib, d, i);
            lemma_last_newest_exists(vs);
            let kk = choose|kk: int| is_last_newest(vs, kk);
            assert(version_order(vs[kk], vs[j]) >= 0);
        }
    }
}

proof fn lemma_filter_seq_from(s: Seq<Seq<char>>, keep: spec_fn(Seq<char>) -> bool)
    ensures
        forall|i: int|
            0 <= i < filter_seq(s, keep).len() ==> exists|j: int| 0 <= j < s.len() && s[j] == #[trigger] filter_seq(s, keep)[i],
    decreases s.len(),
{
    if s.len() > 0 {
        let p = s.drop_last();
        lemma_filter_seq_from(p, keep);
        let f = filter_seq(s, keep);
        assert forall|i: int| 0 <= i < f.len() implies exists|j: int| 0 <= j < s.len() && s[j] == #[trigger] f[i] by {
            if keep(s.last()) && i == f.len() - 1 {
                assert(f == filter_seq(p, keep).push(s.last()));
                assert(s[s.len() - 1] == f[i]);
            } else {
                assert(f[i] == filter_seq(p, keep)[i]);
                let j = choose|j: int| 0 <= j < p.len() && p[j] == filter_seq(p, keep)[i];
                assert(s[j] == p[j]);
            }
        }
    }
}

/// The classpath of a version that is not Fabric-like, whose jar lies
/// outside the libraries directory: it is never empty, the version jar comes
/// last, and it holds one version of each library artifact.
pub proof fn lemma_classpath_shape(
    game_dir: Seq<char>,
    main_class: Seq<char>,
    libraries: Seq<Seq<char>>,
    jar: Option<Seq<char>>,
    uses_lwjgl3: bool,
    version_jar: Seq<char>,
    library_jars: Seq<Seq<char>>,
    referenced_present: bool,
    i: int,
    j: int,
)
    requires
        !contains(main_class, knot_client()),
        !is_under(version_jar, libraries_dir_of(game_dir)),
    ensures
        ({
            let e = classpath_entries(
                game_dir,
                main_class,
                libraries,
                jar,
                uses_lwjgl3,
                version_jar,
                library_jars,
                referenced_present,
            );
            let lib = libraries_dir_of(game_dir);
            &&& e.len() > 0
            &&& e.last() == version_jar
            &&& 0 <= i < e.len() && 0 <= j < e.len() && is_under(e[i], lib) && is_under(e[j], lib) ==> match (
                maven_parts_of(lib, e[i]),
                maven_parts_of(lib, e[j]),
            ) {
                (Some((g1, a1, v1)), Some((g2, a2, v2))) => g1 == g2 && a1 == a2 ==> v1 == v2,
                _ => false,
            }
        }),
{
    let lib = libraries_dir_of(game_dir);
    let referenced = match jar {
        Some(r) => if referenced_present {
            seq![version_jar_of(game_dir, r)]
        } else {
            Seq::empty()
        },
        None => Seq::empty(),
    };
    let all = library_jars + referenced + seq![version_jar];
    let d = deduplicated(lib, all);
    assert(all.last() == version_jar);
    assert(dedup_keeps(lib, all, version_jar));
    assert(d == filter_seq(all.drop_last(), |x: Seq<char>| dedup_keeps(lib, all, x)).push(version_jar));
    let e = classpath_entries(
        game_dir,
        main_class,
        libraries,
        jar,
        uses_lwjgl3,
        version_jar,
        library_jars,
        referenced_present,
    );
    if uses_lwjgl3 && lwjgl_versions(lib, d).len() > 1 {
        let keep = |x: Seq<char>| lwjgl_keeps(lib, d, x);
        assert(maven_parts_of(lib, version_jar) is None);
        assert(keep(d.last()));
        assert(e == filter_seq(d.drop_last(), keep).push(d.last()));
        lemma_filter_seq_from(d, keep);
    }
    if 0 <= i < e.len() && 0 <= j < e.len() && is_under(e[i], lib) && is_under(e[j], lib) {
        let (i2, j2) = if uses_lwjgl3 && lwjgl_versions(lib, d).len() > 1 {
            let keep = |x: Seq<char>| lwjgl_keeps(lib, d, x);
            let i2 = choose|k: int| 0 <= k < d.len() && d[k] == filter_seq(d, keep)[i];
            let j2 = choose|k: int| 0 <= k < d.len() && d[k] == filter_seq(d, keep)[j];
            (i2, j2)
        } else {
            (i, j)
        };
        assert(d[i2] == e[i] && d[j2] == e[j]);
        lemma_deduplicated_one_version(lib, all, i2, j2);
    }
}

} // verus!
