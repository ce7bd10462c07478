//! Laws that hold of the tree's operations, stated over the logical array
//! that the operations' contracts speak of.

use vstd::prelude::*;
use crate::bits::lemma_below_not_max;
use crate::sums::{lemma_child_sums_match, lemma_children_tile, node_sum, values_of_nodes, lemma_range_sum_split, lemma_range_sum_update, lemma_range_sum_zeros, range_sum};
use crate::tree::{binary_search_result, ints, search_result, updated};
use crate::value::TreeValue;

verus! {

/// No value of the logical array is negative.
pub open spec fn no_negatives(a: Seq<int>) -> bool {
    forall|i: int| 0 <= i < a.len() ==> a[i] >= 0
}

/// The prefix sum up to index zero is zero.
pub proof fn law_prefix_sum_at_zero(a: Seq<int>)
    ensures
        range_sum(a, 0, 0) == 0,
{
}

/// The sum of `a[i..j]` is the prefix sum up to `j` minus the prefix sum up
/// to `i`.
pub proof fn law_range_sum_from_prefix_sums(a: Seq<int>, i: int, j: int)
    requires
        0 <= i <= j,
    ensures
        range_sum(a, i, j) == range_sum(a, 0, j) - range_sum(a, 0, i),
{
    lemma_range_sum_split(a, 0, i, j);
}

/// Adding `diff` at `index` raises by `diff` exactly the prefix sums that
/// include `index`, and leaves the others as they were.
pub proof fn law_add_at_shifts_prefix_sums(a: Seq<int>, index: int, diff: int, k: int)
    requires
        0 <= index < a.len(),
        0 <= k <= a.len(),
    ensures
        range_sum(updated(a, index, diff, false), 0, k) == range_sum(a, 0, k) + if index < k {
            diff
        } else {
            0
        },
{
    lemma_range_sum_update(a, index, a[index] + diff, 0, k);
}

/// Subtracting `diff` at `index` lowers by `diff` exactly the prefix sums
/// that include `index`, and leaves the others as they were.
pub proof fn law_sub_at_shifts_prefix_sums(a: Seq<int>, index: int, diff: int, k: int)
    requires
        0 <= index < a.len(),
        0 <= k <= a.len(),
    ensures
        range_sum(updated(a, index, diff, true), 0, k) == range_sum(a, 0, k) - if index < k {
            diff
        } else {
            0
        },
{
    lemma_range_sum_update(a, index, a[index] - diff, 0, k);
}

/// Subtracting `diff` at `index` undoes adding it there.
pub proof fn law_sub_at_undoes_add_at(a: Seq<int>, index: int, diff: int)
    requires
        0 <= index < a.len(),
    ensures
        updated(updated(a, index, diff, false), index, diff, true) == a,
{
    assert(updated(updated(a, index, diff, false), index, diff, true) =~= a);
}

/// Popping undoes pushing.
pub proof fn law_pop_undoes_push(a: Seq<int>, v: int)
    ensures
        a.push(v).drop_last() == a,
{
    assert(a.push(v).drop_last() =~= a);
}

/// Pushing `v` adds `v` to the total and leaves the earlier prefix sums as
/// they were.
pub proof fn law_push_extends_prefix_sums(a: Seq<int>, v: int, k: int)
    requires
        0 <= k <= a.len(),
    ensures
        range_sum(a.push(v), 0, a.len() + 1int) == range_sum(a, 0, a.len() as int) + v,
        range_sum(a.push(v), 0, k) == range_sum(a, 0, k),
{
    crate::sums::lemma_range_sum_agree(a.push(v), a, 0, a.len() as int);
    crate::sums::lemma_range_sum_agree(a.push(v), a, 0, k);
}

/// Restoring the values of a tree built from `values` gives `values` back:
/// values that stand for the same integers are the same values.
pub proof fn law_restore_after_build<T: TreeValue>(values: Seq<T>, restored: Seq<T>)
    requires
        ints(restored) == ints(values),
    ensures
        restored == values,
{
    assert(restored.len() == ints(restored).len() == ints(values).len() == values.len());
    assert forall|i: int| 0 <= i < values.len() implies restored[i] == values[i] by {
        assert(ints(restored)[i] == ints(values)[i]);
        assert(ints(restored)[i] == restored[i].as_int());
        assert(ints(values)[i] == values[i].as_int());
        T::lemma_same_int(&restored[i], &values[i]);
    }
    assert(restored =~= values);
}

/// The stored nodes of a tree determine its logical array: the array that
/// a tree taking those nodes stands for is the one they were summed from.
pub proof fn law_nodes_determine_values(a: Seq<int>, nodes: Seq<int>)
    requires
        a.len() == nodes.len() <= usize::MAX,
        forall|k: int| 0 <= k < a.len() ==> #[trigger] node_sum(a, k) == nodes[k],
    ensures
        values_of_nodes(nodes) == a,
{
    assert forall|k: int| 0 <= k < a.len() implies #[trigger] values_of_nodes(nodes)[k] == a[k] by {
        lemma_child_sums_match(a, nodes, k, 0, k);
        lemma_below_not_max(k as usize, (k + 1) as usize);
        lemma_children_tile(a, k as usize);
    }
    assert(values_of_nodes(nodes) =~= a);
}

/// A remainder left by the search that is above zero lies strictly inside
/// the slot that starts at the position found: the target is above that
/// position's prefix sum and, unless the position is the last one, below
/// the next prefix sum.
pub proof fn law_search_remainder_inside_slot(a: Seq<int>, target: int, pos: int)
    requires
        search_result(a, target, pos),
        target - range_sum(a, 0, pos) > 0,
    ensures
        range_sum(a, 0, pos) < target,
        pos < a.len() ==> target < range_sum(a, 0, pos + 1),
{
}

/// Every prefix sum of a tree of zeros is zero.
pub proof fn law_zeros_prefix_sums(n: nat, k: int)
    requires
        0 <= k <= n,
    ensures
        range_sum(Seq::new(n, |i: int| 0int), 0, k) == 0,
{
    lemma_range_sum_zeros(Seq::new(n, |i: int| 0int), 0, k);
}

/// With no negative values, prefix sums never decrease.
pub proof fn law_prefix_sums_monotone(a: Seq<int>, i: int, j: int)
    requires
        no_negatives(a),
        0 <= i <= j <= a.len(),
    ensures
        range_sum(a, 0, i) <= range_sum(a, 0, j),
    decreases j - i,
{
    if i < j {
        law_prefix_sums_monotone(a, i, j - 1);
    }
}

/// With no negative values the search finds the largest position whose
/// prefix sum is at most the target; that prefix sum is at most the target
/// unless the target is below zero, in which case the position is zero.
pub proof fn law_search_finds_largest(a: Seq<int>, target: int, pos: int)
    requires
        no_negatives(a),
        search_result(a, target, pos),
    ensures
        forall|k: int| 0 <= k <= a.len() && range_sum(a, 0, k) <= target ==> k <= pos,
        range_sum(a, 0, pos) <= target || (pos == 0 && target < 0),
{
    assert forall|k: int| 0 <= k <= a.len() && range_sum(a, 0, k) <= target implies k <= pos by {
        if k > pos {
            law_prefix_sums_monotone(a, pos + 1, k);
        }
    }
}

/// With no negative values, searching the prefix sums behaves like a binary
/// search of a sorted slice: `Ok(k)` when some prefix sum equals the
/// target, with `k` the last such position; `Err(k)` when none does, with
/// `k` the number of prefix sums below the target.
pub proof fn law_binary_search_sorted(a: Seq<int>, target: int, r: Result<usize, usize>)
    requires
        no_negatives(a),
        binary_search_result(a, target, r),
    ensures
        match r {
            Ok(k) => forall|j: int| 0 <= j <= a.len() && range_sum(a, 0, j) == target ==> j <= k,
            Err(k) => forall|j: int|
                0 <= j <= a.len() ==> (range_sum(a, 0, j) < target <==> j < k),
        },
{
    match r {
        Ok(k) => {
            assert forall|j: int| 0 <= j <= a.len() && range_sum(a, 0, j) == target implies j
                <= k by {
                if j > k {
                    law_prefix_sums_monotone(a, k + 1, j);
                }
            }
        },
        Err(k) => {
            assert forall|j: int| 0 <= j <= a.len() implies (range_sum(a, 0, j) < target <==> j
                < k) by {
                if j < k {
                    law_prefix_sums_monotone(a, j, k - 1);
                } else {
                    law_prefix_sums_monotone(a, k as int, j);
                }
            }
        },
    }
}

} // verus!
