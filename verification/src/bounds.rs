//! Conditions under which the range requirements of the tree's operations
//! hold: with no negative values, each of them follows from a bound on the
//! total.

use vstd::prelude::*;
use crate::bits::{lemma_below_not_max, lemma_node_start_le, lemma_prefix_step};
use crate::laws::no_negatives;
use crate::sums::{child_part, child_sum, lemma_children_tile, lemma_range_sum_split, node_sum, range_sum};
use crate::tree::{
    covers, descend_fits, prefix_walk_fits, push_fits, rebuild_fits, search_fits, top_power,
    update_fits,
};
use crate::value::{fits, TreeValue};

verus! {

/// With no negative values, every range sum is between zero and the total.
pub proof fn lemma_range_sum_bounds(a: Seq<int>, lo: int, hi: int)
    requires
        no_negatives(a),
        0 <= lo <= hi <= a.len(),
    ensures
        0 <= range_sum(a, lo, hi) <= range_sum(a, 0, a.len() as int),
{
    lemma_range_sum_nonneg(a, lo, hi);
    lemma_range_sum_nonneg(a, 0, lo);
    lemma_range_sum_nonneg(a, hi, a.len() as int);
    lemma_range_sum_split(a, 0, lo, hi);
    lemma_range_sum_split(a, 0, hi, a.len() as int);
}

proof fn lemma_range_sum_nonneg(a: Seq<int>, lo: int, hi: int)
    requires
        no_negatives(a),
        0 <= lo,
        hi <= a.len(),
    ensures
        0 <= range_sum(a, lo, hi),
    decreases hi - lo,
{
    if lo < hi {
        lemma_range_sum_nonneg(a, lo, hi - 1);
    }
}

/// With no negative values, the child sums of a node from zero are
/// nonnegative and grow with the end of their range.
proof fn lemma_child_sum_bounds(a: Seq<int>, p: int, m: int, hi: int)
    requires
        no_negatives(a),
        0 <= m <= hi <= a.len(),
    ensures
        0 <= child_sum(a, p, 0, m) <= child_sum(a, p, 0, hi),
    decreases hi,
{
    if hi > 0 {
        lemma_child_sum_bounds(a, p, if m < hi { m } else { hi - 1 }, hi - 1);
        let c = hi - 1;
        lemma_node_start_le(c as usize);
        lemma_range_sum_bounds(a, node_start_of(c), c + 1);
        assert(child_part(a, p, c) >= 0);
    }
}

/// The first index covered by node `c`, as an integer.
spec fn node_start_of(c: int) -> int {
    crate::bits::node_start(c as usize) as int
}

/// With no negative values and a total that fits, building the tree (and
/// restoring the values from it) stays in range.
pub proof fn lemma_rebuild_fits<T: TreeValue>(a: Seq<int>)
    requires
        no_negatives(a),
        a.len() <= usize::MAX,
        T::min_int() <= 0,
        fits::<T>(range_sum(a, 0, a.len() as int)),
    ensures
        rebuild_fits::<T>(a),
{
    assert forall|p: int, m: int| 0 <= p < a.len() && 0 <= m <= p implies fits::<T>(
        a[p] + #[trigger] child_sum(a, p, 0, m),
    ) by {
        lemma_child_sum_bounds(a, p, m, p);
        lemma_below_not_max(p as usize, (p + 1) as usize);
        lemma_children_tile(a, p as usize);
        lemma_node_start_le(p as usize);
        lemma_range_sum_bounds(a, node_start_of(p), p + 1);
    }
}

/// With no negative values, a prefix walk from `start` stays in range when
/// `start` and `start` plus (or minus) the whole prefix sum do.
pub proof fn lemma_prefix_walk_fits<T: TreeValue>(
    a: Seq<int>,
    end: int,
    idx: usize,
    start: int,
    subtract: bool,
)
    requires
        no_negatives(a),
        idx <= end <= a.len(),
        fits::<T>(start),
        fits::<T>(
            if subtract {
                start - range_sum(a, 0, end)
            } else {
                start + range_sum(a, 0, end)
            },
        ),
    ensures
        prefix_walk_fits::<T>(a, end, idx, start, subtract),
    decreases idx,
{
    if idx > 0 {
        lemma_prefix_step(idx);
        let next = idx & ((idx - 1) as usize);
        lemma_range_sum_bounds(a, next as int, end);
        lemma_range_sum_bounds(a, 0, next as int);
        lemma_range_sum_split(a, 0, next as int, end);
        lemma_prefix_walk_fits::<T>(a, end, next, start, subtract);
    }
}

/// With no negative values and a total that fits with `diff` added,
/// adding a nonnegative `diff` at any index stays in range.
pub proof fn lemma_add_fits<T: TreeValue>(a: Seq<int>, i: int, diff: int)
    requires
        no_negatives(a),
        a.len() <= usize::MAX,
        0 <= diff,
        T::min_int() <= 0,
        fits::<T>(range_sum(a, 0, a.len() as int) + diff),
    ensures
        update_fits::<T>(a, i, diff, false),
{
    assert forall|k: int| 0 <= k < a.len() && covers(k, i) implies fits::<T>(
        #[trigger] node_sum(a, k) + diff,
    ) by {
        lemma_node_start_le(k as usize);
        lemma_range_sum_bounds(a, node_start_of(k), k + 1);
    }
}

/// With no negative values and a total that fits, subtracting at `i` an
/// amount no larger than the value there stays in range.
pub proof fn lemma_sub_fits<T: TreeValue>(a: Seq<int>, i: int, diff: int)
    requires
        no_negatives(a),
        a.len() <= usize::MAX,
        0 <= i < a.len(),
        0 <= diff <= a[i],
        T::min_int() <= 0,
        fits::<T>(range_sum(a, 0, a.len() as int)),
    ensures
        update_fits::<T>(a, i, diff, true),
{
    assert forall|k: int| 0 <= k < a.len() && covers(k, i) implies fits::<T>(
        #[trigger] node_sum(a, k) - diff,
    ) by {
        let s = node_start_of(k);
        lemma_node_start_le(k as usize);
        lemma_range_sum_bounds(a, s, k + 1);
        lemma_range_sum_split(a, s, i, k + 1);
        lemma_range_sum_split(a, i, i + 1, k + 1);
        lemma_range_sum_bounds(a, s, i);
        lemma_range_sum_bounds(a, i + 1, k + 1);
        assert(range_sum(a, i, i) == 0);
        assert(range_sum(a, i, i + 1) == a[i]);
    }
}

/// With no negative values and a total that fits with `v` added, pushing a
/// nonnegative `v` stays in range.
pub proof fn lemma_push_fits<T: TreeValue>(a: Seq<int>, v: int)
    requires
        no_negatives(a),
        a.len() < usize::MAX,
        0 <= v,
        T::min_int() <= 0,
        fits::<T>(range_sum(a, 0, a.len() as int) + v),
    ensures
        push_fits::<T>(a, v),
{
    let n = a.len() as int;
    let b = a.push(v);
    assert forall|m: int| 0 <= m <= n implies fits::<T>(v + #[trigger] child_sum(a, n, m, n)) by {
        lemma_child_sum_bounds(a, n, m, n);
        crate::sums::lemma_child_sum_split(a, n, 0, m, n);
        lemma_child_sums_push(a, v, n, 0, n);
        lemma_below_not_max(n as usize, (n + 1) as usize);
        lemma_children_tile(b, n as usize);
        lemma_node_start_le(n as usize);
        crate::sums::lemma_range_sum_agree(a, b, 0, n);
        lemma_range_sum_bounds(b, node_start_of(n), n + 1);
        crate::sums::lemma_range_sum_split(b, 0, n, n + 1);
    }
}

/// Child sums below the end of `a` are the same after pushing a value.
proof fn lemma_child_sums_push(a: Seq<int>, v: int, p: int, lo: int, hi: int)
    requires
        0 <= lo,
        hi <= a.len(),
    ensures
        child_sum(a.push(v), p, lo, hi) == child_sum(a, p, lo, hi),
    decreases hi - lo,
{
    if lo < hi {
        lemma_child_sums_push(a, v, p, lo, hi - 1);
        let c = hi - 1;
        lemma_node_start_le(c as usize);
        crate::sums::lemma_range_sum_agree(a.push(v), a, node_start_of(c), c + 1);
    }
}

/// With no negative values, searching for a target that fits stays in
/// range.
pub proof fn lemma_search_fits<T: TreeValue>(a: Seq<int>, target: int)
    requires
        no_negatives(a),
        T::min_int() <= 0,
        fits::<T>(target),
    ensures
        search_fits::<T>(a, target),
{
    lemma_descend_fits::<T>(a, target, 0, top_power(a.len()));
}

/// With no negative values, the search from any position keeps remainders
/// between zero and a target that fits.
proof fn lemma_descend_fits<T: TreeValue>(a: Seq<int>, target: int, pos: int, step: nat)
    requires
        no_negatives(a),
        T::min_int() <= 0,
        fits::<T>(target),
        0 <= pos,
    ensures
        descend_fits::<T>(a, target, pos, step),
    decreases step,
{
    if step > 0 {
        if pos + step <= a.len() {
            lemma_range_sum_bounds(a, 0, pos + step);
        }
        lemma_descend_fits::<T>(a, target, pos + step, step / 2);
        lemma_descend_fits::<T>(a, target, pos, step / 2);
    }
}

} // verus!
