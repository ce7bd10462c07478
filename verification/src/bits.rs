//! Facts about the bit patterns that lay out a Fenwick tree.
//!
//! Node `k` of the tree covers the half-open range
//! `[k & (k + 1), k + 1)` of the logical array, and its parent is
//! `k | (k + 1)`.

use vstd::prelude::*;

verus! {

/// The first index covered by node `k`.
pub open spec fn node_start(k: usize) -> usize {
    k & ((k + 1) as usize)
}

/// The node that node `k` is added into when the tree is built.
pub open spec fn parent(k: usize) -> usize {
    k | ((k + 1) as usize)
}

/// `k` with its lowest `j` bits cleared.
pub open spec fn clear_low(k: usize, j: usize) -> usize {
    k & (!0usize << j)
}

/// The lowest `j` bits of `k` are all set.
pub open spec fn low_ones(k: usize, j: usize) -> bool {
    k & !(!0usize << j) == !(!0usize << j)
}

/// An index below another one is not the largest `usize`.
pub proof fn lemma_below_not_max(c: usize, p: usize)
    by (bit_vector)
    requires
        c < p,
    ensures
        c != !0usize,
{
}

/// A bit is either set or clear.
pub proof fn lemma_bit_set(p: usize, j: usize)
    by (bit_vector)
    ensures
        (p >> j) & 1 == 0 || (p >> j) & 1 == 1,
{
}

/// A node starts at or before its own index.
pub proof fn lemma_node_start_le(k: usize)
    by (bit_vector)
    ensures
        k & ((k + 1) as usize) <= k,
{
}

/// One step of the prefix walk: `idx & (idx - 1)` is the start of node
/// `idx - 1`, and it is below `idx`.
pub proof fn lemma_prefix_step(idx: usize)
    by (bit_vector)
    requires
        idx > 0,
    ensures
        ((idx - 1) as usize) & idx == idx & ((idx - 1) as usize),
        idx & ((idx - 1) as usize) < idx,
{
}

/// The parent of a node lies above it, and starts no later than it.
pub proof fn lemma_parent(c: usize)
    by (bit_vector)
    requires
        c != !0usize,
    ensures
        c < c | ((c + 1) as usize),
        (c | ((c + 1) as usize)) != !0usize ==> (c | ((c + 1) as usize)) & (((c | ((c
            + 1) as usize)) + 1) as usize) <= c & ((c + 1) as usize),
{
}

/// A node strictly between `c` and the parent of `c` starts after `c`.
pub proof fn lemma_between_parent(c: usize, k: usize)
    by (bit_vector)
    requires
        c < k,
        k < c | ((c + 1) as usize),
    ensures
        k & ((k + 1) as usize) > c,
{
}

/// A node inside the range of node `k`, other than `k`, has its parent at
/// or below `k`.
pub proof fn lemma_inside_parent(k: usize, c: usize)
    by (bit_vector)
    requires
        k != !0usize,
        k & ((k + 1) as usize) <= c,
        c < k,
    ensures
        c | ((c + 1) as usize) <= k,
{
}

/// The `j`-th child of a node whose lowest `j + 1` bits are set: it is
/// that node with bit `j` cleared, and it covers the range between the node
/// with its lowest `j + 1` bits cleared and the node with its lowest `j`
/// bits cleared.
pub proof fn lemma_child(p: usize, j: usize)
    by (bit_vector)
    requires
        j < usize::BITS,
        p != !0usize,
        p & !(!0usize << ((j + 1) as usize)) == !(!0usize << ((j + 1) as usize)),
    ensures
        (p & !(1usize << j)) < p,
        (p & !(1usize << j)) | (((p & !(1usize << j)) + 1) as usize) == p,
        (((p & !(1usize << j)) + 1) as usize) == p & (!0usize << j),
        (p & !(1usize << j)) & (((p & !(1usize << j)) + 1) as usize) == p & (!0usize << ((j
            + 1) as usize)),
{
}

/// Clearing no bits leaves a node unchanged; clearing its trailing ones
/// gives its start.
pub proof fn lemma_clear_low_ends(p: usize, j: usize)
    by (bit_vector)
    requires
        j < usize::BITS,
        p & !(!0usize << j) == !(!0usize << j),
        (p >> j) & 1 == 0,
    ensures
        p & (!0usize << 0usize) == p,
        p & (!0usize << j) == p & ((p + 1) as usize),
{
}

/// Setting bit `j` on top of `j` set low bits gives `j + 1` set low bits.
pub proof fn lemma_low_ones_step(p: usize, j: usize)
    by (bit_vector)
    requires
        j < usize::BITS,
        p & !(!0usize << j) == !(!0usize << j),
        (p >> j) & 1 == 1,
    ensures
        p & !(!0usize << ((j + 1) as usize)) == !(!0usize << ((j + 1) as usize)),
{
}

/// What `trailing_ones` of an index (taken as a `u64`) says about its bits:
/// the lowest `t` bits are set and bit `t` is clear.
pub proof fn lemma_trailing_ones(n: usize, t: u64)
    by (bit_vector)
    requires
        n != !0usize,
        t <= 64,
        (!(n as u64)) << ((64 - t) as u64) == 0,
        t < 64 ==> ((n as u64) >> t) & 1u64 == 0u64,
    ensures
        t < usize::BITS,
        n & !(!0usize << (t as usize)) == !(!0usize << (t as usize)),
        (n >> (t as usize)) & 1 == 0,
{
}

/// Fewer low bits of a number with `t` set low bits are set too.
pub proof fn lemma_low_ones_fewer(n: usize, i: usize, t: usize)
    by (bit_vector)
    requires
        i <= t,
        t < usize::BITS,
        n & !(!0usize << t) == !(!0usize << t),
    ensures
        n & !(!0usize << i) == !(!0usize << i),
{
}

/// The highest set bit `k` of a nonzero index gives the largest power of
/// two at most that index.
pub proof fn lemma_top_bit(n: usize, k: u64)
    by (bit_vector)
    requires
        k < 64,
        ((n as u64) >> k) & 1u64 != 0u64,
        (n as u64) >> ((k + 1) as u64) == 0,
    ensures
        k < usize::BITS,
        (1usize << (k as usize)) <= n,
        n < 2 * (1usize << (k as usize)),
        (1usize << (k as usize)) & (((1usize << (k as usize)) - 1) as usize) == 0,
        (((2 * (1usize << (k as usize))) - 1) as usize) == 2 * (1usize << (k as usize)) - 1,
{
}

/// In the top-down search, with `pos` a multiple of `2 * m` for a power of
/// two `m`, node `pos + m - 1` starts at `pos`, and `pos` and `pos + m` are
/// multiples of `m`.
pub proof fn lemma_search_node(pos: usize, m: usize, n: usize)
    by (bit_vector)
    requires
        m > 0,
        m & ((m - 1) as usize) == 0,
        (((2 * m) - 1) as usize) == 2 * m - 1,
        pos & (((2 * m) - 1) as usize) == 0,
        pos + m <= n,
    ensures
        ((pos + m - 1) as usize) & ((pos + m) as usize) == pos,
        pos & ((m - 1) as usize) == 0,
        ((pos + m) as usize) & ((m - 1) as usize) == 0,
{
}

/// Halving a power of two gives zero (from one) or a power of two.
pub proof fn lemma_halve_mask(pos: usize, m: usize)
    by (bit_vector)
    requires
        m > 0,
        m & ((m - 1) as usize) == 0,
        pos & (((2 * m) - 1) as usize) == 0,
    ensures
        (m >> 1) == 0 ==> m == 1,
        (m >> 1) > 0 ==> (m >> 1) & (((m >> 1) - 1) as usize) == 0 && 2 * (m >> 1) == m,
        pos & ((m - 1) as usize) == 0,
{
}

} // verus!
