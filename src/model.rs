//! The mathematical model of a partition: what a predicate says of an element,
//! when a sequence is split by it at an index, and where that index must lie.

use vstd::prelude::*;

verus! {

broadcast use {vstd::seq_lib::group_to_multiset_ensures, vstd::multiset::group_multiset_axioms};

/// A call of `pred` on `x` may return `true`.
pub open spec fn satisfies<T, P: Fn(&T) -> bool>(pred: P, x: &T) -> bool {
    pred.ensures((x,), true)
}

/// A call of `pred` on `x` may return `false`.
pub open spec fn rejects<T, P: Fn(&T) -> bool>(pred: P, x: &T) -> bool {
    pred.ensures((x,), false)
}

/// `pred` may be called on any element, and never answers both ways for one
/// element: it is a pure, deterministic predicate.
pub open spec fn is_predicate<T, P: Fn(&T) -> bool>(pred: P) -> bool {
    &&& forall|x: &T| #[trigger] pred.requires((x,))
    &&& forall|x: &T| #[trigger] satisfies(pred, x) ==> !rejects(pred, x)
}

/// `pred` as a spec function on elements.
pub open spec fn satisfies_fn<T, P: Fn(&T) -> bool>(pred: P) -> spec_fn(T) -> bool {
    |x: T| satisfies(pred, &x)
}

/// The number of elements of `s`, counted with multiplicity, that satisfy `pred`.
pub open spec fn satisfying_count<T, P: Fn(&T) -> bool>(pred: P, s: Seq<T>) -> nat {
    s.to_multiset().filter(satisfies_fn(pred)).len()
}

/// Every element of `s` before index `k` satisfies `pred`, and every element
/// from `k` on is rejected by it.
pub open spec fn is_split_at<T, P: Fn(&T) -> bool>(pred: P, s: Seq<T>, k: int) -> bool {
    &&& 0 <= k <= s.len()
    &&& forall|i: int| 0 <= i < k ==> #[trigger] satisfies(pred, &s[i])
    &&& forall|i: int| k <= i < s.len() ==> #[trigger] rejects(pred, &s[i])
}

/// `after` is a rearrangement of `before` that `pred` splits at `k`.
pub open spec fn is_partition_of<T, P: Fn(&T) -> bool>(
    pred: P,
    before: Seq<T>,
    after: Seq<T>,
    k: int,
) -> bool {
    &&& after.to_multiset() == before.to_multiset()
    &&& is_split_at(pred, after, k)
}

/// Where a rearrangement is split by a predicate, the split lies at the number
/// of elements that satisfy it.
pub proof fn lemma_split_point_is_count<T, P: Fn(&T) -> bool>(
    pred: P,
    before: Seq<T>,
    after: Seq<T>,
    k: int,
)
    requires
        is_predicate(pred),
        is_partition_of(pred, before, after, k),
    ensures
        k == satisfying_count(pred, before),
{
    let f = satisfies_fn(pred);
    let a = after.subrange(0, k);
    let b = after.subrange(k, after.len() as int);
    assert(after == a + b);
    vstd::seq_lib::lemma_multiset_commutative(a, b);
    assert forall|v: T| #[trigger] after.to_multiset().filter(f).count(v) == a.to_multiset().count(v) by {
        if a.contains(v) {
            let i = choose|i: int| 0 <= i < a.len() && a[i] == v;
            assert(satisfies(pred, &after[i]));
        }
        if b.contains(v) {
            let i = choose|i: int| 0 <= i < b.len() && b[i] == v;
            assert(rejects(pred, &after[k + i]));
        }
    }
    assert(after.to_multiset().filter(f) =~= a.to_multiset());
}

} // verus!
