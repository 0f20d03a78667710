//! Laws that relate the results of the partitioning functions, stated over
//! the model that their contracts use.

use vstd::multiset::Multiset;
use vstd::prelude::*;

use crate::model::{
    is_partition_of, is_predicate, lemma_split_point_is_count, rejects, satisfies,
    satisfies_fn,
};

verus! {

broadcast use {vstd::seq_lib::group_to_multiset_ensures, vstd::multiset::group_multiset_axioms};

/// On equal inputs, the index that `partition_index` returns is the length of
/// the first view that `partition` returns.
pub proof fn lemma_index_agreement<T, P: Fn(&T) -> bool>(
    pred: P,
    input: Seq<T>,
    indexed: Seq<T>,
    idx: int,
    true_view: Seq<T>,
    false_view: Seq<T>,
)
    requires
        is_predicate(pred),
        is_partition_of(pred, input, indexed, idx),
        is_partition_of(pred, input, true_view + false_view, true_view.len() as int),
    ensures
        idx == true_view.len(),
{
    lemma_split_point_is_count(pred, input, indexed, idx);
    lemma_split_point_is_count(pred, input, true_view + false_view, true_view.len() as int);
}

/// Partitioning the output of a partition again, with the same predicate,
/// leaves the boundary between the two views where it was.
pub proof fn lemma_repartition_keeps_split<T, P: Fn(&T) -> bool>(
    pred: P,
    input: Seq<T>,
    true_view: Seq<T>,
    false_view: Seq<T>,
    true_again: Seq<T>,
    false_again: Seq<T>,
)
    requires
        is_predicate(pred),
        is_partition_of(pred, input, true_view + false_view, true_view.len() as int),
        is_partition_of(
            pred,
            true_view + false_view,
            true_again + false_again,
            true_again.len() as int,
        ),
    ensures
        true_again.len() == true_view.len(),
{
    lemma_split_point_is_count(pred, input, true_view + false_view, true_view.len() as int);
    lemma_split_point_is_count(
        pred,
        true_view + false_view,
        true_again + false_again,
        true_again.len() as int,
    );
    assert((true_view + false_view).to_multiset() == input.to_multiset());
}

/// When every element of the input satisfies the predicate, the split lies at
/// its end: the first view is the whole sequence and the second is empty.
pub proof fn lemma_all_satisfying<T, P: Fn(&T) -> bool>(
    pred: P,
    input: Seq<T>,
    after: Seq<T>,
    k: int,
)
    requires
        is_predicate(pred),
        is_partition_of(pred, input, after, k),
        forall|i: int| 0 <= i < input.len() ==> #[trigger] satisfies(pred, &input[i]),
    ensures
        k == input.len(),
{
    lemma_split_point_is_count(pred, input, after, k);
    let m = input.to_multiset();
    assert forall|v: T| #[trigger] m.filter(satisfies_fn(pred)).count(v) == m.count(v) by {
        if input.contains(v) {
            let i = choose|i: int| 0 <= i < input.len() && input[i] == v;
            assert(satisfies(pred, &input[i]));
        }
    }
    assert(m.filter(satisfies_fn(pred)) =~= m);
}

/// When the predicate rejects every element of the input, the split lies at
/// index 0: the first view is empty and the second is the whole sequence.
pub proof fn lemma_all_rejected<T, P: Fn(&T) -> bool>(
    pred: P,
    input: Seq<T>,
    after: Seq<T>,
    k: int,
)
    requires
        is_predicate(pred),
        is_partition_of(pred, input, after, k),
        forall|i: int| 0 <= i < input.len() ==> #[trigger] rejects(pred, &input[i]),
    ensures
        k == 0,
{
    lemma_split_point_is_count(pred, input, after, k);
    let m = input.to_multiset();
    assert forall|v: T| #[trigger] m.filter(satisfies_fn(pred)).count(v) == 0 by {
        if input.contains(v) {
            let i = choose|i: int| 0 <= i < input.len() && input[i] == v;
            assert(rejects(pred, &input[i]));
        }
    }
    assert(m.filter(satisfies_fn(pred)) =~= Multiset::empty());
}

} // verus!
