//! Sums over the logical array, and how the nodes of a Fenwick tree tile
//! them.

use vstd::prelude::*;
use crate::bits::{
    clear_low, lemma_child, lemma_clear_low_ends, lemma_inside_parent, lemma_low_ones_step,
    lemma_node_start_le, lemma_parent, lemma_below_not_max, lemma_bit_set, low_ones, node_start, parent,
};

verus! {

/// The sum of `a[lo..hi]`; zero when the range is empty.
pub open spec fn range_sum(a: Seq<int>, lo: int, hi: int) -> int
    decreases hi - lo,
{
    if hi <= lo {
        0
    } else {
        range_sum(a, lo, hi - 1) + a[hi - 1]
    }
}

/// The sum that node `k` of a tree over `a` holds: `a[k & (k + 1)..=k]`.
pub open spec fn node_sum(a: Seq<int>, k: int) -> int {
    range_sum(a, node_start(k as usize) as int, k + 1)
}

/// What index `c` contributes to node `p` when the tree is built: the sum
/// of node `c` if `p` is its parent, else zero.
pub open spec fn child_part(a: Seq<int>, p: int, c: int) -> int {
    if parent(c as usize) as int == p {
        node_sum(a, c)
    } else {
        0
    }
}

/// The total of the nodes in `lo..hi` whose parent is `p`.
pub open spec fn child_sum(a: Seq<int>, p: int, lo: int, hi: int) -> int
    decreases hi - lo,
{
    if hi <= lo {
        0
    } else {
        child_sum(a, p, lo, hi - 1) + child_part(a, p, hi - 1)
    }
}

/// A range sum splits at any point inside the range.
pub proof fn lemma_range_sum_split(a: Seq<int>, lo: int, mid: int, hi: int)
    requires
        lo <= mid <= hi,
    ensures
        range_sum(a, lo, hi) == range_sum(a, lo, mid) + range_sum(a, mid, hi),
    decreases hi - mid,
{
    if mid < hi {
        lemma_range_sum_split(a, lo, mid, hi - 1);
    }
}

/// A child sum splits at any point inside the range.
pub proof fn lemma_child_sum_split(a: Seq<int>, p: int, lo: int, mid: int, hi: int)
    requires
        lo <= mid <= hi,
    ensures
        child_sum(a, p, lo, hi) == child_sum(a, p, lo, mid) + child_sum(a, p, mid, hi),
    decreases hi - mid,
{
    if mid < hi {
        lemma_child_sum_split(a, p, lo, mid, hi - 1);
    }
}

/// Sequences that agree on a range have the same sum over it.
pub proof fn lemma_range_sum_agree(a: Seq<int>, b: Seq<int>, lo: int, hi: int)
    requires
        forall|i: int| lo <= i < hi ==> a[i] == b[i],
    ensures
        range_sum(a, lo, hi) == range_sum(b, lo, hi),
    decreases hi - lo,
{
    if lo < hi {
        lemma_range_sum_agree(a, b, lo, hi - 1);
    }
}

/// Changing one entry changes every sum that covers it by the difference.
pub proof fn lemma_range_sum_update(a: Seq<int>, i: int, x: int, lo: int, hi: int)
    requires
        0 <= i < a.len(),
        0 <= lo,
        hi <= a.len(),
    ensures
        range_sum(a.update(i, x), lo, hi) == range_sum(a, lo, hi) + (if lo <= i < hi {
            x - a[i]
        } else {
            0
        }),
    decreases hi - lo,
{
    if lo < hi {
        lemma_range_sum_update(a, i, x, lo, hi - 1);
    }
}

/// A range of zeros sums to zero.
pub proof fn lemma_range_sum_zeros(a: Seq<int>, lo: int, hi: int)
    requires
        forall|i: int| lo <= i < hi ==> a[i] == 0,
    ensures
        range_sum(a, lo, hi) == 0,
    decreases hi - lo,
{
    if lo < hi {
        lemma_range_sum_zeros(a, lo, hi - 1);
    }
}

/// A child sum over indices none of which has `p` as parent is zero.
pub proof fn lemma_child_sum_none(a: Seq<int>, p: int, lo: int, hi: int)
    requires
        forall|c: int| lo <= c < hi ==> #[trigger] child_part(a, p, c) == 0,
    ensures
        child_sum(a, p, lo, hi) == 0,
    decreases hi - lo,
{
    if lo < hi {
        lemma_child_sum_none(a, p, lo, hi - 1);
    }
}

/// The children of node `p` tile its range below `p`: together with
/// `a[p]` they make up the node sum of `p`.
pub proof fn lemma_children_tile(a: Seq<int>, p: usize)
    requires
        p < a.len(),
        p != !0usize,
    ensures
        a[p as int] + child_sum(a, p as int, 0, p as int) == node_sum(a, p as int),
{
    let start = node_start(p);
    lemma_node_start_le(p);
    assert forall|c: int| 0 <= c < start implies #[trigger] child_part(a, p as int, c) == 0 by {
        let cu = c as usize;
        lemma_node_start_le(cu);
        if parent(cu) == p {
            lemma_below_not_max(cu, p);
            lemma_parent(cu);
        }
    }
    lemma_child_sum_none(a, p as int, 0, start as int);
    lemma_child_sum_split(a, p as int, 0, start as int, p as int);
    assert(clear_low(p, 0) == p) by (bit_vector);
    assert(low_ones(p, 0)) by (bit_vector);
    lemma_children_tile_from(a, p, 0);
    lemma_range_sum_split(a, start as int, p as int, p + 1);
}

/// The children of `p` above `clear_low(p, j)` tile the range from there up
/// to `p`, for every `j` up to the number of trailing ones of `p`.
pub proof fn lemma_children_tile_from(a: Seq<int>, p: usize, j: usize)
    requires
        j <= usize::BITS,
        p != !0usize,
        low_ones(p, j),
        child_sum(a, p as int, clear_low(p, j) as int, p as int) == range_sum(
            a,
            clear_low(p, j) as int,
            p as int,
        ),
    ensures
        child_sum(a, p as int, node_start(p) as int, p as int) == range_sum(
            a,
            node_start(p) as int,
            p as int,
        ),
    decreases usize::BITS - j,
{
    if j == usize::BITS {
        assert(false) by (bit_vector)
            requires
                j == usize::BITS,
                p != !0usize,
                p & !(!0usize << j) == !(!0usize << j),
        ;
    }
    lemma_bit_set(p, j);
    if j == usize::BITS {
    } else if (p >> j) & 1 == 0 {
        lemma_clear_low_ends(p, j);
    } else {
        lemma_low_ones_step(p, j);
        lemma_child(p, j);
        let c = p & !(1usize << j);
        let lo = clear_low(p, (j + 1) as usize) as int;
        let mid = clear_low(p, j) as int;
        lemma_node_start_le(c);
        assert(mid == c + 1);
        // Inside the block of child `c`, only `c` itself has `p` as parent.
        assert forall|d: int| lo <= d < c implies #[trigger] child_part(a, p as int, d) == 0 by {
            lemma_below_not_max(c, p);
            lemma_inside_parent(c, d as usize);
        }
        lemma_child_sum_none(a, p as int, lo, c as int);
        lemma_child_sum_split(a, p as int, lo, mid, p as int);
        lemma_range_sum_split(a, lo, mid, p as int);
        lemma_children_tile_from(a, p, (j + 1) as usize);
    }
}

/// The total of the stored node values `nodes[c]` for `c` in `lo..hi`
/// whose parent is `p`.
pub open spec fn stored_child_sum(nodes: Seq<int>, p: int, lo: int, hi: int) -> int
    decreases hi - lo,
{
    if hi <= lo {
        0
    } else {
        stored_child_sum(nodes, p, lo, hi - 1) + if parent((hi - 1) as usize) as int == p {
            nodes[hi - 1]
        } else {
            0
        }
    }
}

/// The logical array of a tree that stores `nodes`: each value is its
/// node minus the nodes of its children.
pub open spec fn values_of_nodes(nodes: Seq<int>) -> Seq<int> {
    Seq::new(nodes.len(), |k: int| nodes[k] - stored_child_sum(nodes, k, 0, k))
}

/// Child sums over `a` match those over stored nodes that hold the node
/// sums of `a`.
pub proof fn lemma_child_sums_match(a: Seq<int>, nodes: Seq<int>, p: int, lo: int, hi: int)
    requires
        0 <= lo,
        forall|c: int| lo <= c < hi ==> node_sum(a, c) == #[trigger] nodes[c],
    ensures
        child_sum(a, p, lo, hi) == stored_child_sum(nodes, p, lo, hi),
    decreases hi - lo,
{
    if lo < hi {
        lemma_child_sums_match(a, nodes, p, lo, hi - 1);
    }
}

/// Any sequence of stored nodes is the tree of exactly one logical array:
/// the node sums of `values_of_nodes(nodes)` are `nodes`.
pub proof fn lemma_values_of_nodes(nodes: Seq<int>, k: int)
    requires
        nodes.len() <= usize::MAX,
        0 <= k < nodes.len(),
    ensures
        forall|j: int| 0 <= j <= k ==> #[trigger] node_sum(values_of_nodes(nodes), j) == nodes[j],
    decreases k,
{
    if k > 0 {
        lemma_values_of_nodes(nodes, k - 1);
    }
    let a = values_of_nodes(nodes);
    lemma_child_sums_match(a, nodes, k, 0, k);
    lemma_below_not_max(k as usize, (k + 1) as usize);
    lemma_children_tile(a, k as usize);
}

} // verus!
