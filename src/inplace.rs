//! The two-cursor partitioning loop and its two entry points.

use vstd::prelude::*;

use crate::model::{
    is_partition_of, is_predicate, lemma_split_point_is_count, rejects, satisfies, satisfying_count,
};

verus! {

broadcast use {vstd::seq_lib::group_to_multiset_ensures, vstd::multiset::group_multiset_axioms};

/// Relies on the slice method `swap`: it exchanges the elements at `a` and `b`, and
/// panics when either index is out of bounds.
pub assume_specification<X>[ <[X]>::swap ](slice: &mut [X], a: usize, b: usize)
    requires
        a < old(slice)@.len(),
        b < old(slice)@.len(),
    ensures
        final(slice)@ == old(slice)@.update(a as int, old(slice)@[b as int]).update(
            b as int,
            old(slice)@[a as int],
        ),
;

/// Moves the left cursor forward from `start` over elements that satisfy `pred`;
/// stops at the end of `data` or at the first element that `pred` rejects.
fn skip_satisfying<T, P: Fn(&T) -> bool>(data: &[T], pred: &P, start: usize) -> (res: usize)
    requires
        is_predicate(*pred),
        start <= data@.len(),
    ensures
        start <= res <= data@.len(),
        forall|i: int| start <= i < res ==> #[trigger] satisfies(*pred, &data@[i]),
        res < data@.len() ==> rejects(*pred, &data@[res as int]),
{
    let len = data.len();
    let mut l = start;
    while l < len && pred(&data[l])
        invariant
            is_predicate(*pred),
            len == data@.len(),
            start <= l <= len,
            forall|i: int| start <= i < l ==> #[trigger] satisfies(*pred, &data@[i]),
        decreases len - l,
    {
        l = l + 1;
    }
    l
}

/// Moves the right cursor backward from `start` over elements that `pred` rejects;
/// stops at index 0 or at the first element that satisfies `pred`.
fn skip_rejected<T, P: Fn(&T) -> bool>(data: &[T], pred: &P, start: usize) -> (res: usize)
    requires
        is_predicate(*pred),
        start < data@.len(),
    ensures
        res <= start,
        forall|i: int| res < i <= start ==> #[trigger] rejects(*pred, &data@[i]),
        res > 0 ==> satisfies(*pred, &data@[res as int]),
{
    let mut r = start;
    while r > 0 && !pred(&data[r])
        invariant
            is_predicate(*pred),
            start < data@.len(),
            r <= start,
            forall|i: int| r < i <= start ==> #[trigger] rejects(*pred, &data@[i]),
        decreases r,
    {
        r = r - 1;
    }
    r
}

/// Rearranges `data` in place so that every element that satisfies
/// `predicate` comes before every element that it rejects, and returns the
/// index of the first rejected element: `data.len()` when all satisfy it, 0
/// when none does. The order within each part is not kept.
pub fn partition_index<T, P: Fn(&T) -> bool>(data: &mut [T], predicate: P) -> (idx: usize)
    requires
        is_predicate(predicate),
    ensures
        is_partition_of(predicate, old(data)@, final(data)@, idx as int),
        idx == satisfying_count(predicate, old(data)@),
{
    let len = data.len();
    if len == 0 {
        proof {
            lemma_split_point_is_count(predicate, old(data)@, data@, 0);
        }
        return 0;
    }
    let mut l = skip_satisfying(data, &predicate, 0);
    let mut r = skip_rejected(data, &predicate, len - 1);
    while l < r
        invariant
            is_predicate(predicate),
            len == data@.len(),
            data@.to_multiset() == old(data)@.to_multiset(),
            l <= len,
            r < len,
            forall|i: int| 0 <= i < l ==> #[trigger] satisfies(predicate, &data@[i]),
            forall|i: int| r < i < len ==> #[trigger] rejects(predicate, &data@[i]),
            l < len ==> rejects(predicate, &data@[l as int]),
            r > 0 ==> satisfies(predicate, &data@[r as int]),
        decreases (len - l) + r,
    {
        data.swap(l, r);
        l = skip_satisfying(data, &predicate, l);
        r = skip_rejected(data, &predicate, r);
    }
    proof {
        lemma_split_point_is_count(predicate, old(data)@, data@, l as int);
    }
    l
}

/// Rearranges `data` in place as `partition_index` does, and returns the two
/// parts as disjoint mutable views: first every element that satisfies
/// `predicate`, then every element that it rejects. Together they cover
/// `data`, and what is written through them is what `data` holds afterwards.
pub fn partition<'a, T, P: Fn(&T) -> bool>(data: &'a mut [T], predicate: P) -> (parts: (
    &'a mut [T],
    &'a mut [T],
))
    requires
        is_predicate(predicate),
    ensures
        is_partition_of(predicate, old(data)@, parts.0@ + parts.1@, parts.0@.len() as int),
        parts.0@.len() == satisfying_count(predicate, old(data)@),
        final(data)@ == final(parts.0)@ + final(parts.1)@,
{
    let idx = partition_index(data, predicate);
    let ghost rearranged = data@;
    let parts = data.split_at_mut(idx);
    assert(parts.0@ + parts.1@ =~= rearranged);
    parts
}

} // verus!
