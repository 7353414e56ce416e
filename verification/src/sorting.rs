//! Stable insertion sort by a total preorder given through a trait.
use vstd::prelude::*;

verus! {

broadcast use vstd::std_specs::vec::group_vec_axioms, vstd::seq::group_seq_axioms;

/// An order on values: `order(a, b)` is -1 when `a` comes first, 0 when they
/// tie and 1 when `b` comes first.
pub trait SortKey: Sized {
    spec fn order(a: Self, b: Self) -> int;

    /// Swapping the arguments flips the sign.
    proof fn lemma_order_antisymmetric(a: Self, b: Self)
        ensures
            Self::order(a, b) == -Self::order(b, a),
    ;

    /// The order is transitive.
    proof fn lemma_order_transitive(a: Self, b: Self, c: Self)
        requires
            Self::order(a, b) <= 0,
            Self::order(b, c) <= 0,
        ensures
            Self::order(a, c) <= 0,
    ;

    fn compare(&self, other: &Self) -> (r: i8)
        ensures
            r as int == Self::order(*self, *other),
    ;
}

/// `out` holds the elements of `orig` rearranged by `perm` (`out[k]` is
/// `orig[perm[k]]`, each used once), in order, and elements that tie keep
/// their original relative order.
pub open spec fn is_stable_sorted<T: SortKey>(out: Seq<T>, orig: Seq<T>, perm: Seq<int>) -> bool {
    &&& out.len() == orig.len()
    &&& perm.len() == orig.len()
    &&& forall|k: int| 0 <= k < perm.len() ==> 0 <= #[trigger] perm[k] < orig.len() && out[k] == orig[perm[k]]
    &&& forall|k1: int, k2: int| 0 <= k1 < k2 < perm.len() ==> #[trigger] perm[k1] != #[trigger] perm[k2]
    &&& forall|i: int, j: int| 0 <= i < j < out.len() ==> T::order(#[trigger] out[i], #[trigger] out[j]) <= 0
    &&& forall|i: int, j: int|
        0 <= i < j < out.len() && T::order(#[trigger] out[i], #[trigger] out[j]) == 0 ==> perm[i] < perm[j]
}

spec fn prefix_sorted<T: SortKey>(out: Seq<T>, orig: Seq<T>, perm: Seq<int>, n: int) -> bool {
    &&& out.len() == n
    &&& perm.len() == n
    &&& forall|k: int| 0 <= k < perm.len() ==> 0 <= #[trigger] perm[k] < n && out[k] == orig[perm[k]]
    &&& forall|k1: int, k2: int| 0 <= k1 < k2 < perm.len() ==> #[trigger] perm[k1] != #[trigger] perm[k2]
    &&& forall|i: int, j: int| 0 <= i < j < out.len() ==> T::order(#[trigger] out[i], #[trigger] out[j]) <= 0
    &&& forall|i: int, j: int|
        0 <= i < j < out.len() && T::order(#[trigger] out[i], #[trigger] out[j]) == 0 ==> perm[i] < perm[j]
}

proof fn lemma_insert<T: SortKey>(out: Seq<T>, orig: Seq<T>, perm: Seq<int>, n: int, j: int)
    requires
        0 <= n < orig.len(),
        prefix_sorted(out, orig, perm, n),
        0 <= j <= out.len(),
        j > 0 ==> T::order(out[j - 1], orig[n]) <= 0,
        forall|m: int| j <= m < out.len() ==> T::order(#[trigger] out[m], orig[n]) > 0,
    ensures
        prefix_sorted(out.insert(j, orig[n]), orig, perm.insert(j, n), n + 1),
{
    let x = orig[n];
    let o2 = out.insert(j, x);
    let p2 = perm.insert(j, n);
    out.insert_ensures(j, x);
    perm.insert_ensures(j, n);
    assert forall|k: int| 0 <= k < p2.len() implies 0 <= #[trigger] p2[k] < n + 1 && o2[k] == orig[p2[k]] by {
        if k > j {
            assert(p2[k] == perm[k - 1]);
            assert(o2[k] == out[k - 1]);
        }
    }
    assert forall|k1: int, k2: int| 0 <= k1 < k2 < p2.len() implies #[trigger] p2[k1] != #[trigger] p2[k2] by {
        if k1 > j {
            assert(p2[k1] == perm[k1 - 1]);
        }
        if k2 > j {
            assert(p2[k2] == perm[k2 - 1]);
        }
        if k1 < j {
            assert(p2[k1] == perm[k1]);
        }
        if k2 < j {
            assert(p2[k2] == perm[k2]);
        }
    }
    assert forall|a: int, b: int| 0 <= a < b < o2.len() implies T::order(#[trigger] o2[a], #[trigger] o2[b]) <= 0
        && (T::order(o2[a], o2[b]) == 0 ==> p2[a] < p2[b]) by {
        let ia = if a < j { a } else if a == j { -1 } else { a - 1 };
        let ib = if b < j { b } else if b == j { -1 } else { b - 1 };
        if a != j && b != j {
            assert(o2[a] == out[ia] && o2[b] == out[ib]);
            assert(p2[a] == perm[ia] && p2[b] == perm[ib]);
            assert(ia < ib);
        } else if a == j {
            // x before out[ib], which is after the insertion point
            assert(o2[b] == out[ib]);
            assert(T::order(out[ib], x) > 0);
            T::lemma_order_antisymmetric(out[ib], x);
        } else {
            // out[ia] before x
            assert(o2[a] == out[ia]);
            assert(p2[a] == perm[ia]);
            assert(j > 0);
            if ia < j - 1 {
                assert(T::order(out[ia], out[j - 1]) <= 0);
                T::lemma_order_transitive(out[ia], out[j - 1], x);
            }
        }
    }
}

/// Sort `v` stably by `T::order`.
pub fn stable_sort<T: SortKey>(v: &mut Vec<T>)
    ensures
        exists|perm: Seq<int>| is_stable_sorted(final(v)@, old(v)@, perm),
{
    let ghost orig = v@;
    let ghost mut perm: Seq<int> = Seq::empty();
    let mut out: Vec<T> = Vec::new();
    let n = v.len();
    let mut i: usize = 0;
    assert(orig.skip(0) =~= orig);
    while i < n
        invariant
            n == orig.len(),
            i <= n,
            v@ == orig.skip(i as int),
            prefix_sorted(out@, orig, perm, i as int),
        decreases n - i,
    {
        let x = v.remove(0);
        assert(x == orig[i as int]);
        assert(v@ =~= orig.skip(i + 1));
        let mut j: usize = out.len();
        while j > 0
            invariant
                j <= out.len(),
                out.len() == i,
                forall|m: int| j <= m < out.len() ==> T::order(#[trigger] out@[m], x) > 0,
            ensures
                j <= out.len(),
                j > 0 ==> T::order(out@[j - 1], x) <= 0,
                forall|m: int| j <= m < out.len() ==> T::order(#[trigger] out@[m], x) > 0,
            decreases j,
        {
            if out[j - 1].compare(&x) <= 0 {
                break;
            }
            j -= 1;
        }
        proof {
            lemma_insert(out@, orig, perm, i as int, j as int);
            perm = perm.insert(j as int, i as int);
        }
        out.insert(j, x);
        i += 1;
    }
    *v = out;
    assert(is_stable_sorted(v@, orig, perm));
}

} // verus!
