//! The binary indexed tree itself.

use vstd::prelude::*;
use crate::bits::{
    clear_low, lemma_below_not_max, lemma_between_parent, lemma_child, lemma_clear_low_ends,
    lemma_halve_mask, lemma_inside_parent, lemma_low_ones_fewer, lemma_node_start_le,
    lemma_parent, lemma_prefix_step, lemma_search_node, lemma_top_bit, lemma_trailing_ones,
    low_ones, node_start,
};
use crate::laws::law_nodes_determine_values;
use crate::sums::{
    child_part, child_sum, lemma_child_sum_none, lemma_child_sum_split, lemma_children_tile,
    lemma_range_sum_agree, lemma_range_sum_split, lemma_range_sum_update, lemma_range_sum_zeros,
    lemma_values_of_nodes, node_sum, range_sum, values_of_nodes,
};
use crate::value::{fits, TreeValue};
use vstd::std_specs::cmp::PartialEqSpecImpl;

verus! {

/// The integers that a sequence of values stands for.
pub open spec fn ints<T: TreeValue>(s: Seq<T>) -> Seq<int> {
    s.map_values(|x: T| x.as_int())
}

/// Every intermediate value that building the tree over `a`, or restoring
/// `a` from it, passes through fits in `T`: for each node `p` and each
/// `m <= p`, `a[p]` plus the sums of the children of `p` below `m`.
pub open spec fn rebuild_fits<T: TreeValue>(a: Seq<int>) -> bool {
    forall|p: int, m: int|
        0 <= p < a.len() && 0 <= m <= p ==> fits::<T>(a[p] + #[trigger] child_sum(a, p, 0, m))
}

/// Whether every partial value of the prefix walk that starts from `start`
/// and goes down from index `idx` towards zero fits in `T`. After each step
/// the walk holds `start` plus (or minus) the sum of `a[next..end]`, where
/// `next` is `idx` with its lowest set bit cleared.
pub open spec fn prefix_walk_fits<T: TreeValue>(
    a: Seq<int>,
    end: int,
    idx: usize,
    start: int,
    subtract: bool,
) -> bool
    decreases idx,
{
    if idx == 0 {
        true
    } else {
        let next = idx & ((idx - 1) as usize);
        proof {
            lemma_prefix_step(idx);
        }
        &&& fits::<T>(
            if subtract {
                start - range_sum(a, next as int, end)
            } else {
                start + range_sum(a, next as int, end)
            },
        )
        &&& prefix_walk_fits::<T>(a, end, next, start, subtract)
    }
}

/// Whether node `k` covers index `i`, that is, `i` lies in
/// `[k & (k + 1), k]`.
pub open spec fn covers(k: int, i: int) -> bool {
    node_start(k as usize) <= i <= k
}

/// Whether adding `diff` to the value at `i` (or, with `subtract`,
/// subtracting it) keeps the sum of every node that covers `i` within the
/// range of `T`.
pub open spec fn update_fits<T: TreeValue>(a: Seq<int>, i: int, diff: int, subtract: bool) -> bool {
    forall|k: int|
        0 <= k < a.len() && covers(k, i) ==> fits::<T>(
            if subtract {
                #[trigger] node_sum(a, k) - diff
            } else {
                node_sum(a, k) + diff
            },
        )
}

/// The logical array after adding `diff` to the value at `i` (or, with
/// `subtract`, subtracting it).
pub open spec fn updated(a: Seq<int>, i: int, diff: int, subtract: bool) -> Seq<int> {
    a.update(
        i,
        if subtract {
            a[i] - diff
        } else {
            a[i] + diff
        },
    )
}

/// Whether every partial value that pushing `v` onto a tree over `a`
/// passes through fits in `T`: `v` plus the sums of the children of the new
/// node at or above `m`, for every `m` up to the new node's index.
pub open spec fn push_fits<T: TreeValue>(a: Seq<int>, v: int) -> bool {
    forall|m: int|
        0 <= m <= a.len() ==> fits::<T>(v + #[trigger] child_sum(a, a.len() as int, m, a.len() as int))
}

/// The largest power of two at most `n`, or zero when `n` is zero.
pub open spec fn top_power(n: nat) -> nat
    decreases n,
{
    if n <= 1 {
        n
    } else {
        2 * top_power(n / 2)
    }
}

/// The position that the top-down search for `target` reaches from `pos`
/// with steps `step`, `step / 2`, ..., `1`: each step is taken when it
/// stays within the array and the prefix sum where it lands is at most the
/// target.
pub open spec fn descend(a: Seq<int>, target: int, pos: int, step: nat) -> int
    decreases step,
{
    if step == 0 {
        pos
    } else if pos + step <= a.len() && range_sum(a, 0, pos + step) <= target {
        descend(a, target, pos + step, step / 2)
    } else {
        descend(a, target, pos, step / 2)
    }
}

/// Whether every remainder that the search from `pos` keeps fits in `T`:
/// the target minus the prefix sum at each position the search moves to.
pub open spec fn descend_fits<T: TreeValue>(a: Seq<int>, target: int, pos: int, step: nat) -> bool
    decreases step,
{
    if step == 0 {
        true
    } else if pos + step <= a.len() && range_sum(a, 0, pos + step) <= target {
        fits::<T>(target - range_sum(a, 0, pos + step)) && descend_fits::<T>(
            a,
            target,
            pos + step,
            step / 2,
        )
    } else {
        descend_fits::<T>(a, target, pos, step / 2)
    }
}

/// The position that the search for `target` finds in a tree over `a`.
pub open spec fn search_position(a: Seq<int>, target: int) -> int {
    descend(a, target, 0, top_power(a.len()))
}

/// Whether the search for `target` in a tree over `a` stays in range.
pub open spec fn search_fits<T: TreeValue>(a: Seq<int>, target: int) -> bool {
    descend_fits::<T>(a, target, 0, top_power(a.len()))
}

/// What `binary_search` answers, given where the search ends: `Ok(pos)`
/// when the prefix sum there equals the target, `Err(pos)` when it is
/// above the target, and `Err(pos + 1)` when it is below.
pub open spec fn binary_search_answer(a: Seq<int>, target: int) -> Result<usize, usize> {
    let pos = search_position(a, target);
    let rem = target - range_sum(a, 0, pos);
    if rem < 0 {
        Err(pos as usize)
    } else if rem > 0 {
        Err((pos + 1) as usize)
    } else {
        Ok(pos as usize)
    }
}

/// What the top-down search for `target` finds: a position `pos` whose
/// prefix sum is at most the target (unless `pos` is zero) and whose next
/// prefix sum, if any, is above it.
pub open spec fn search_result(a: Seq<int>, target: int, pos: int) -> bool {
    &&& 0 <= pos <= a.len()
    &&& pos > 0 ==> range_sum(a, 0, pos) <= target
    &&& pos < a.len() ==> range_sum(a, 0, pos + 1) > target
}

/// What a binary search of the prefix sums of `a` for `target` answers:
/// `Ok(k)` for a prefix sum equal to the target whose next prefix sum is
/// above it, `Err(k)` for a target strictly between the prefix sums at
/// `k - 1` and `k` (where those exist).
pub open spec fn binary_search_result(a: Seq<int>, target: int, r: Result<usize, usize>) -> bool {
    match r {
        Ok(k) => {
            &&& k <= a.len()
            &&& range_sum(a, 0, k as int) == target
            &&& k < a.len() ==> range_sum(a, 0, k + 1) > target
        },
        Err(k) => {
            &&& k <= a.len() + 1
            &&& k > 0 ==> range_sum(a, 0, k - 1) < target
            &&& k <= a.len() ==> target < range_sum(a, 0, k as int)
        },
    }
}

/// A power of two `m` with `m <= n < 2 * m` is the largest power of two at
/// most `n`.
proof fn lemma_top_power(n: nat, m: nat)
    requires
        0 < m <= n < 2 * m,
        m <= usize::MAX,
        (m as usize) & (((m as usize) - 1) as usize) == 0,
    ensures
        top_power(n) == m,
    decreases n,
{
    if n >= 2 {
        let mu = m as usize;
        assert(mu >= 2 ==> (mu >> 1) & (((mu >> 1) - 1) as usize) == 0 && mu >> 1 == mu / 2 && mu
            % 2 == 0) by (bit_vector)
            requires
                mu & ((mu - 1) as usize) == 0,
        ;
        assert(m >= 2);
        assert(m / 2 <= n / 2 < m);
        assert(((m / 2) as usize) == mu >> 1);
        lemma_top_power(n / 2, m / 2);
    }
}

/// The largest power of two at most `n`, or zero when `n` is zero.
fn highest_power_of_two(n: usize) -> (m: usize)
    ensures
        m == top_power(n as nat),
        n > 0 ==> {
            &&& 0 < m <= n < 2 * m
            &&& m & ((m - 1) as usize) == 0
            &&& (((2 * m) - 1) as usize) == 2 * m - 1
        },
{
    if n == 0 {
        0
    } else {
        let lz = (n as u64).leading_zeros();
        proof {
            vstd::std_specs::bits::axiom_u64_leading_zeros(n as u64);
            lemma_top_bit(n, (63 - lz) as u64);
            lemma_top_power(n as nat, (1usize << (63 - lz)) as nat);
        }
        1usize << (63 - lz)
    }
}

/// A binary indexed tree (Fenwick tree) over a sequence of values.
///
/// It stands for a logical array `a[0..n]` (its view) and stores, at each
/// index `k`, the sum of `a[k & (k + 1)..=k]`, so that prefix sums and
/// point updates both take *O*(log *n*) steps.
pub struct BITree<T: TreeValue> {
    inner: Vec<T>,
    values: Ghost<Seq<int>>,
}

impl<T: TreeValue> View for BITree<T> {
    type V = Seq<int>;

    /// The logical array that the tree stands for.
    closed spec fn view(&self) -> Seq<int> {
        self.values@
    }
}

impl<T: TreeValue> BITree<T> {
    /// The stored nodes hold the node sums of the logical array.
    #[verifier::type_invariant]
    spec fn wf(&self) -> bool {
        &&& self.inner@.len() == self.values@.len()
        &&& forall|k: int|
            0 <= k < self.inner@.len() ==> #[trigger] self.inner@[k].as_int() == node_sum(
                self.values@,
                k,
            )
    }

    /// Constructs a new, empty tree.
    pub fn new() -> (r: Self)
        ensures
            r@ == Seq::<int>::empty(),
    {
        BITree { inner: Vec::new(), values: Ghost(Seq::empty()) }
    }

    /// Constructs a tree of `n` zeros.
    pub fn new_zeros(n: usize) -> (r: Self)
        ensures
            r@ == Seq::new(n as nat, |i: int| 0int),
    {
        let mut inner: Vec<T> = Vec::with_capacity(n);
        let mut i: usize = 0;
        while i < n
            invariant
                i <= n,
                inner@.len() == i,
                forall|k: int| 0 <= k < i ==> #[trigger] inner@[k].as_int() == 0,
            decreases n - i,
        {
            inner.push(T::zero());
            i = i + 1;
        }
        let ghost zeros = Seq::new(n as nat, |i: int| 0int);
        proof {
            assert forall|k: int| 0 <= k < n implies #[trigger] inner@[k].as_int() == node_sum(
                zeros,
                k,
            ) by {
                lemma_range_sum_zeros(zeros, node_start(k as usize) as int, k + 1);
            }
        }
        BITree { inner, values: Ghost(zeros) }
    }

    /// Constructs a new, empty tree with room for at least `capacity`
    /// values.
    pub fn with_capacity(capacity: usize) -> (r: Self)
        ensures
            r@ == Seq::<int>::empty(),
    {
        BITree { inner: Vec::with_capacity(capacity), values: Ghost(Seq::empty()) }
    }

    /// The stored nodes: entry `k` holds the sum of the logical values in
    /// `[k & (k + 1), k]`.
    pub fn nodes(&self) -> (r: &[T])
        ensures
            r@.len() == self@.len(),
            forall|k: int| 0 <= k < r@.len() ==> #[trigger] r@[k].as_int() == node_sum(self@, k),
    {
        proof {
            use_type_invariant(self);
        }
        self.inner.as_slice()
    }

    /// Consumes the tree and returns its stored nodes.
    pub fn into_nodes(self) -> (r: Vec<T>)
        ensures
            r@.len() == self@.len(),
            forall|k: int| 0 <= k < r@.len() ==> #[trigger] r@[k].as_int() == node_sum(self@, k),
    {
        proof {
            use_type_invariant(&self);
        }
        let BITree { inner, values } = self;
        inner
    }

    /// Takes `nodes` as the stored nodes of a tree, whose logical array is
    /// then the one those nodes sum up.
    pub fn from_nodes(nodes: Vec<T>) -> (r: Self)
        ensures
            r@ == values_of_nodes(ints(nodes@)),
            forall|k: int| 0 <= k < r@.len() ==> #[trigger] node_sum(r@, k) == nodes@[k].as_int(),
    {
        let ghost n = ints(nodes@);
        proof {
            assert(nodes@.len() == nodes.len());
            if n.len() > 0 {
                lemma_values_of_nodes(n, n.len() - 1);
            }
        }
        BITree { inner: nodes, values: Ghost(values_of_nodes(n)) }
    }

    /// Returns `true` if the tree holds no values.
    pub fn is_empty(&self) -> (r: bool)
        ensures
            r == (self@.len() == 0),
    {
        proof {
            use_type_invariant(self);
        }
        self.inner.is_empty()
    }

    /// Returns the number of values in the tree.
    pub fn len(&self) -> (r: usize)
        ensures
            r == self@.len(),
    {
        proof {
            use_type_invariant(self);
        }
        self.inner.len()
    }

    /// Removes the last value, returning `true` if one was removed and
    /// `false` if the tree was already empty.
    pub fn pop(&mut self) -> (r: bool)
        ensures
            r == (old(self)@.len() > 0),
            r ==> final(self)@ == old(self)@.drop_last(),
            !r ==> final(self)@ == old(self)@,
    {
        let (mut inner, values) = self.take_parts();
        let ghost a = values@;
        let r = inner.pop().is_some();
        let ghost b = if r {
            a.drop_last()
        } else {
            a
        };
        proof {
            assert forall|k: int| 0 <= k < inner@.len() implies #[trigger] inner@[k].as_int()
                == node_sum(b, k) by {
                lemma_node_start_le(k as usize);
                lemma_range_sum_agree(a, b, node_start(k as usize) as int, k + 1);
            }
        }
        *self = BITree { inner, values: Ghost(b) };
        r
    }

    /// Moves the stored nodes and the logical array out of the tree,
    /// leaving it empty.
    fn take_parts(&mut self) -> (r: (Vec<T>, Ghost<Seq<int>>))
        ensures
            r.1@ == old(self)@,
            r.0@.len() == r.1@.len(),
            forall|k: int|
                0 <= k < r.0@.len() ==> #[trigger] r.0@[k].as_int() == node_sum(r.1@, k),
    {
        let mut tree = BITree::new();
        std::mem::swap(&mut tree, self);
        proof {
            use_type_invariant(&tree);
        }
        let BITree { inner, values } = tree;
        (inner, values)
    }

    /// Adds (or, with `subtract`, subtracts) the prefix sum of
    /// `[0..index)` into `sum`, walking down the tree.
    fn walk_prefix(&self, index: usize, sum: &mut T, subtract: bool)
        requires
            index <= self@.len(),
            prefix_walk_fits::<T>(self@, index as int, index, old(sum).as_int(), subtract),
        ensures
            final(sum).as_int() == if subtract {
                old(sum).as_int() - range_sum(self@, 0, index as int)
            } else {
                old(sum).as_int() + range_sum(self@, 0, index as int)
            },
    {
        proof {
            use_type_invariant(self);
        }
        let ghost a = self.values@;
        let ghost start = sum.as_int();
        let mut current_idx = index;
        while current_idx > 0
            invariant
                self.wf(),
                a == self@,
                current_idx <= index <= a.len(),
                prefix_walk_fits::<T>(a, index as int, current_idx, start, subtract),
                sum.as_int() == if subtract {
                    start - range_sum(a, current_idx as int, index as int)
                } else {
                    start + range_sum(a, current_idx as int, index as int)
                },
            decreases current_idx,
        {
            proof {
                lemma_prefix_step(current_idx);
                let next = current_idx & ((current_idx - 1) as usize);
                lemma_range_sum_split(a, next as int, current_idx as int, index as int);
                assert(self.inner@[current_idx - 1].as_int() == node_sum(a, current_idx - 1));
            }
            if subtract {
                sum.sub_in_place(&self.inner[current_idx - 1]);
            } else {
                sum.add_in_place(&self.inner[current_idx - 1]);
            }
            current_idx = current_idx & (current_idx - 1);
        }
    }

    /// Adds `diff` to (or, with `subtract`, subtracts it from) every node
    /// that covers `index`, walking up the tree.
    fn walk_update(&mut self, index: usize, diff: T, subtract: bool)
        requires
            index < old(self)@.len(),
            update_fits::<T>(old(self)@, index as int, diff.as_int(), subtract),
        ensures
            final(self)@ == updated(old(self)@, index as int, diff.as_int(), subtract),
    {
        let (mut inner, values) = self.take_parts();
        let ghost a = values@;
        let ghost d = diff.as_int();
        let n = inner.len();
        let mut current_idx = index;
        proof {
            lemma_node_start_le(index);
        }
        while current_idx < n
            invariant
                inner@.len() == n == a.len(),
                index <= current_idx,
                index < n,
                diff.as_int() == d,
                update_fits::<T>(a, index as int, d, subtract),
                current_idx < n ==> covers(current_idx as int, index as int),
                forall|k: int|
                    0 <= k < n ==> #[trigger] inner@[k].as_int() == node_sum(a, k) + (if covers(
                        k,
                        index as int,
                    ) && k < current_idx {
                        if subtract {
                            -d
                        } else {
                            d
                        }
                    } else {
                        0
                    }),
            decreases usize::MAX - current_idx,
        {
            let ghost c = current_idx;
            proof {
                lemma_below_not_max(c, n);
                lemma_parent(c);
            }
            if subtract {
                inner[current_idx].sub_in_place(&diff);
            } else {
                inner[current_idx].add_in_place(&diff);
            }
            current_idx = current_idx | (current_idx + 1);
            proof {
                assert forall|k: int| c < k < current_idx implies !covers(k, index as int) by {
                    lemma_between_parent(c, k as usize);
                }
                if current_idx < n {
                    lemma_below_not_max(current_idx, n);
                }
            }
        }
        let ghost b = updated(a, index as int, d, subtract);
        proof {
            assert forall|k: int| 0 <= k < n implies #[trigger] inner@[k].as_int()
                == node_sum(b, k) by {
                lemma_node_start_le(k as usize);
                lemma_range_sum_update(
                    a,
                    index as int,
                    b[index as int],
                    node_start(k as usize) as int,
                    k + 1,
                );
            }
        }
        *self = BITree { inner, values: Ghost(b) };
    }

    /// Adds `diff` to the value at `index`.
    pub fn add_at(&mut self, index: usize, diff: T)
        requires
            index < old(self)@.len(),
            update_fits::<T>(old(self)@, index as int, diff.as_int(), false),
        ensures
            final(self)@ == old(self)@.update(index as int, old(self)@[index as int] + diff.as_int()),
    {
        self.walk_update(index, diff, false);
    }

    /// Subtracts `diff` from the value at `index`.
    pub fn sub_at(&mut self, index: usize, diff: T)
        requires
            index < old(self)@.len(),
            update_fits::<T>(old(self)@, index as int, diff.as_int(), true),
        ensures
            final(self)@ == old(self)@.update(index as int, old(self)@[index as int] - diff.as_int()),
    {
        self.walk_update(index, diff, true);
    }

    /// Appends a value to the end of the tree, in amortised *O*(log *n*).
    pub fn push(&mut self, value: T)
        requires
            old(self)@.len() < usize::MAX,
            push_fits::<T>(old(self)@, value.as_int()),
        ensures
            final(self)@ == old(self)@.push(value.as_int()),
    {
        let (mut inner, values) = self.take_parts();
        let ghost a = values@;
        let ghost v = value.as_int();
        let mut value = value;
        let n = inner.len();
        let t = (n as u64).trailing_ones();
        proof {
            vstd::std_specs::bits::axiom_u64_trailing_ones(n as u64);
            lemma_below_not_max(n, (n + 1) as usize);
            lemma_trailing_ones(n, t as u64);
            lemma_clear_low_ends(n, t as usize);
            assert(clear_low(n, 0) == n) by (bit_vector);
        }
        let t = t as usize;
        let mut i: usize = 0;
        while i < t
            invariant
                inner@.len() == n,
                forall|k: int|
                    0 <= k < n ==> #[trigger] inner@[k].as_int() == node_sum(a, k),
                n == a.len(),
                n < usize::MAX,
                t < usize::BITS,
                i <= t,
                low_ones(n, t),
                push_fits::<T>(a, v),
                value.as_int() == v + child_sum(a, n as int, clear_low(n, i) as int, n as int),
                child_sum(a, n as int, clear_low(n, i) as int, n as int) == range_sum(
                    a,
                    clear_low(n, i) as int,
                    n as int,
                ),
            decreases t - i,
        {
            proof {
                lemma_below_not_max(n, (n + 1) as usize);
                lemma_low_ones_fewer(n, (i + 1) as usize, t);
                lemma_child(n, i);
                let c = n & !(1usize << i);
                let lo = clear_low(n, (i + 1) as usize) as int;
                let mid = clear_low(n, i) as int;
                lemma_node_start_le(c);
                assert forall|d: int| lo <= d < c implies #[trigger] child_part(a, n as int, d)
                    == 0 by {
                    lemma_below_not_max(c, n);
                    lemma_inside_parent(c, d as usize);
                }
                lemma_child_sum_none(a, n as int, lo, c as int);
                lemma_child_sum_split(a, n as int, lo, mid, n as int);
                lemma_range_sum_split(a, lo, mid, n as int);
                assert(inner@[c as int].as_int() == node_sum(a, c as int));
            }
            let child = n & !(1usize << i);
            value.add_in_place(&inner[child]);
            i = i + 1;
        }
        inner.push(value);
        let ghost b = a.push(v);
        proof {
            lemma_node_start_le(n);
            lemma_range_sum_agree(a, b, node_start(n) as int, n as int);
            assert(node_sum(b, n as int) == range_sum(b, node_start(n) as int, n as int) + v);
            assert forall|k: int| 0 <= k < n + 1 implies #[trigger] inner@[k].as_int()
                == node_sum(b, k) by {
                lemma_node_start_le(k as usize);
                if k < n {
                    lemma_range_sum_agree(a, b, node_start(k as usize) as int, k + 1);
                }
            }
        }
        *self = BITree { inner, values: Ghost(b) };
    }

    /// Walks the tree from the top, with steps from the largest power of two
    /// at most the length down to one, to the position `pos` that the search
    /// for the target held in `remainder` reaches ([`search_position`]):
    /// `prefix_sum(pos)` is at most the target (unless `pos` is zero) and
    /// `prefix_sum(pos + 1)` is above it. The consumed sums are subtracted
    /// from `remainder`, which afterwards holds `target - prefix_sum(pos)`.
    ///
    /// When no value is negative the prefix sums never decrease, and `pos`
    /// is the largest position whose prefix sum is at most the target (or
    /// zero if there is none).
    pub fn sub_binary_search(&self, remainder: &mut T) -> (pos: usize)
        requires
            search_fits::<T>(self@, old(remainder).as_int()),
        ensures
            pos == search_position(self@, old(remainder).as_int()),
            search_result(self@, old(remainder).as_int(), pos as int),
            final(remainder).as_int() == old(remainder).as_int() - range_sum(self@, 0, pos as int),
    {
        proof {
            use_type_invariant(self);
        }
        let ghost a = self.values@;
        let ghost target = remainder.as_int();
        let n = self.inner.len();
        let mut pos: usize = 0;
        let mut mask = highest_power_of_two(n);
        proof {
            assert(0usize & (((2 * mask) - 1) as usize) == 0) by (bit_vector);
        }
        while mask > 0
            invariant
                self.wf(),
                a == self@,
                n == a.len(),
                pos <= n,
                descend_fits::<T>(a, target, pos as int, mask as nat),
                descend(a, target, pos as int, mask as nat) == search_position(a, target),
                remainder.as_int() == target - range_sum(a, 0, pos as int),
                pos > 0 ==> range_sum(a, 0, pos as int) <= target,
                mask > 0 ==> {
                    &&& mask & ((mask - 1) as usize) == 0
                    &&& (((2 * mask) - 1) as usize) == 2 * mask - 1
                    &&& pos & (((2 * mask) - 1) as usize) == 0
                    &&& pos + 2 * mask <= n ==> range_sum(a, 0, pos + 2 * mask) > target
                    &&& pos + 2 * mask - 1 <= usize::MAX
                },
                mask == 0 ==> (pos + 1 <= n ==> range_sum(a, 0, pos + 1) > target),
            decreases mask,
        {
            let ghost old_pos = pos;
            let next = pos + mask;
            if next <= n {
                proof {
                    lemma_search_node(pos, mask, n);
                    lemma_range_sum_split(a, 0, pos as int, next as int);
                    assert(self.inner@[next - 1].as_int() == node_sum(a, next - 1));
                }
                let value = &self.inner[next - 1];
                if !remainder.less_than(value) {
                    pos = next;
                    remainder.sub_in_place(value);
                }
            }
            proof {
                lemma_halve_mask(old_pos, mask);
                assert(mask >> 1 == mask / 2) by (bit_vector);
                if pos != old_pos {
                    lemma_search_node(old_pos, mask, n);
                }
            }
            mask = mask >> 1;
        }
        pos
    }

    /// Binary-searches the prefix sums `[prefix_sum(0), ..., prefix_sum(n)]`
    /// for `target`: `Ok(k)` when `prefix_sum(k) == target`, and `Err(k)`
    /// when `target` lies strictly between `prefix_sum(k - 1)` and
    /// `prefix_sum(k)` (below all of them for `Err(0)`, above all of them
    /// for `Err(n + 1)`).
    pub fn binary_search(&self, target: T) -> (r: Result<usize, usize>)
        requires
            self@.len() < usize::MAX,
            search_fits::<T>(self@, target.as_int()),
        ensures
            r == binary_search_answer(self@, target.as_int()),
            binary_search_result(self@, target.as_int(), r),
    {
        let mut target = target;
        let pos = self.sub_binary_search(&mut target);
        let zero = T::zero();
        if target.less_than(&zero) {
            Err(pos)
        } else if zero.less_than(&target) {
            Err(pos + 1)
        } else {
            Ok(pos)
        }
    }

    /// Adds the prefix sum of `[0..index)` into `sum`.
    ///
    /// When `index` is `0`, `sum` is left unchanged.
    pub fn add_prefix_sum(&self, index: usize, sum: &mut T)
        requires
            index <= self@.len(),
            prefix_walk_fits::<T>(self@, index as int, index, old(sum).as_int(), false),
        ensures
            final(sum).as_int() == old(sum).as_int() + range_sum(self@, 0, index as int),
    {
        self.walk_prefix(index, sum, false);
    }

    /// Subtracts the prefix sum of `[0..index)` from `sum`.
    ///
    /// When `index` is `0`, `sum` is left unchanged.
    pub fn sub_prefix_sum(&self, index: usize, sum: &mut T)
        requires
            index <= self@.len(),
            prefix_walk_fits::<T>(self@, index as int, index, old(sum).as_int(), true),
        ensures
            final(sum).as_int() == old(sum).as_int() - range_sum(self@, 0, index as int),
    {
        self.walk_prefix(index, sum, true);
    }

    /// Returns the prefix sum of `[0..index)`; zero when `index` is `0`.
    pub fn prefix_sum(&self, index: usize) -> (r: T)
        requires
            index <= self@.len(),
            prefix_walk_fits::<T>(self@, index as int, index, 0, false),
        ensures
            r.as_int() == range_sum(self@, 0, index as int),
    {
        let mut sum = T::zero();
        self.add_prefix_sum(index, &mut sum);
        sum
    }
}

/// Turns the values in `inner` into the node sums over them, in place.
fn build_nodes<T: TreeValue>(inner: &mut Vec<T>)
    requires
        rebuild_fits::<T>(ints(old(inner)@)),
    ensures
        final(inner)@.len() == old(inner)@.len(),
        forall|k: int|
            0 <= k < final(inner)@.len() ==> #[trigger] final(inner)@[k].as_int() == node_sum(
                ints(old(inner)@),
                k,
            ),
{
    let ghost a = ints(inner@);
    let n = inner.len();
    let mut i: usize = 0;
    while i < n
        invariant
            inner@.len() == n == a.len(),
            i <= n,
            rebuild_fits::<T>(a),
            forall|k: int|
                0 <= k < n ==> #[trigger] inner@[k].as_int() == a[k] + child_sum(
                    a,
                    k,
                    0,
                    if i < k {
                        i as int
                    } else {
                        k
                    },
                ),
        decreases n - i,
    {
        proof {
            lemma_below_not_max(i, n);
            lemma_parent(i);
            lemma_children_tile(a, i);
        }
        let p = i | (i + 1);
        if p < n {
            proof {
                lemma_child_sum_split(a, p as int, 0, i as int, i + 1);
                assert(child_part(a, p as int, i as int) == node_sum(a, i as int));
                assert(fits::<T>(a[p as int] + child_sum(a, p as int, 0, i + 1)));
            }
            let mut node = T::zero();
            std::mem::swap(&mut node, &mut inner[p]);
            node.add_in_place(&inner[i]);
            inner[p] = node;
        }
        proof {
            assert forall|k: int| 0 <= k < n implies #[trigger] inner@[k].as_int() == a[k]
                + child_sum(
                a,
                k,
                0,
                if i + 1 < k {
                    i + 1
                } else {
                    k
                },
            ) by {
                if i < k {
                    lemma_child_sum_split(a, k, 0, i as int, i + 1);
                }
            }
        }
        i = i + 1;
    }
    proof {
        assert forall|k: int| 0 <= k < n implies #[trigger] inner@[k].as_int() == node_sum(
            a,
            k,
        ) by {
            lemma_below_not_max(k as usize, n);
            lemma_children_tile(a, k as usize);
        }
    }
}

/// Turns the node sums over `a` held in `inner` back into the values of
/// `a`, in place.
fn restore_values<T: TreeValue>(inner: &mut Vec<T>, Ghost(a): Ghost<Seq<int>>)
    requires
        old(inner)@.len() == a.len(),
        forall|k: int|
            0 <= k < a.len() ==> #[trigger] old(inner)@[k].as_int() == node_sum(a, k),
        rebuild_fits::<T>(a),
    ensures
        ints(final(inner)@) == a,
{
    let n = inner.len();
    proof {
        assert forall|k: int| 0 <= k < n implies #[trigger] inner@[k].as_int() == a[k]
            + child_sum(a, k, 0, k) by {
            lemma_below_not_max(k as usize, n);
            lemma_children_tile(a, k as usize);
        }
    }
    let mut i: usize = n;
    while i > 0
        invariant
            inner@.len() == n == a.len(),
            i <= n,
            rebuild_fits::<T>(a),
            forall|k: int|
                0 <= k < n ==> #[trigger] inner@[k].as_int() == a[k] + child_sum(
                    a,
                    k,
                    0,
                    if i < k {
                        i as int
                    } else {
                        k
                    },
                ),
        decreases i,
    {
        i = i - 1;
        proof {
            lemma_below_not_max(i, n);
            lemma_parent(i);
            lemma_children_tile(a, i);
        }
        let p = i | (i + 1);
        if p < n {
            proof {
                lemma_child_sum_split(a, p as int, 0, i as int, i + 1);
                assert(child_part(a, p as int, i as int) == node_sum(a, i as int));
                assert(fits::<T>(a[p as int] + child_sum(a, p as int, 0, i as int)));
            }
            let mut node = T::zero();
            std::mem::swap(&mut node, &mut inner[p]);
            node.sub_in_place(&inner[i]);
            inner[p] = node;
        }
        proof {
            assert forall|k: int| 0 <= k < n implies #[trigger] inner@[k].as_int() == a[k]
                + child_sum(
                a,
                k,
                0,
                if i < k {
                    i as int
                } else {
                    k
                },
            ) by {
                if i < k {
                    lemma_child_sum_split(a, k, 0, i as int, i + 1);
                }
            }
        }
    }
    assert(ints(inner@) =~= a);
}

impl<T: TreeValue> BITree<T> {
    /// Builds a tree over the values in `values`, reusing their allocation,
    /// in *O*(*n*).
    pub fn from_vec(values: Vec<T>) -> (r: Self)
        requires
            rebuild_fits::<T>(ints(values@)),
        ensures
            r@ == ints(values@),
    {
        let ghost a = ints(values@);
        let mut inner = values;
        build_nodes(&mut inner);
        BITree { inner, values: Ghost(a) }
    }

    /// Recovers the values of the logical array, reusing the tree's
    /// allocation, in *O*(*n*).
    pub fn into_vec(self) -> (r: Vec<T>)
        requires
            rebuild_fits::<T>(self@),
        ensures
            ints(r@) == self@,
    {
        proof {
            use_type_invariant(&self);
        }
        let BITree { inner, values } = self;
        let mut inner = inner;
        restore_values(&mut inner, values);
        inner
    }

    /// Consumes the tree and yields the values of the logical array in
    /// order (and, from the back, in reverse order).
    pub fn into_iter(self) -> (r: std::vec::IntoIter<T>)
        requires
            rebuild_fits::<T>(self@),
        ensures
            ints(vstd::std_specs::iter::IteratorSpec::remaining(&r)) == self@,
    {
        let values = self.into_vec();
        proof {
            broadcast use vstd::std_specs::vec::axiom_spec_into_iter;
        }
        values.into_iter()
    }
}

impl<T: TreeValue> Clone for BITree<T> {
    /// A copy of the tree, standing for the same logical array.
    fn clone(&self) -> (r: Self)
        ensures
            r@ == self@,
    {
        proof {
            use_type_invariant(self);
        }
        let n = self.inner.len();
        let mut inner: Vec<T> = Vec::with_capacity(n);
        let mut i: usize = 0;
        while i < n
            invariant
                self.wf(),
                n == self.inner@.len(),
                i <= n,
                inner@.len() == i,
                forall|k: int| 0 <= k < i ==> #[trigger] inner@[k].as_int() == self.inner@[k].as_int(),
            decreases n - i,
        {
            inner.push(self.inner[i].duplicate());
            i = i + 1;
        }
        BITree { inner, values: Ghost(self.values@) }
    }
}

impl<T: TreeValue> PartialEq for BITree<T> {
    /// Two trees are equal when they stand for the same logical array,
    /// which is when they store the same nodes.
    fn eq(&self, other: &Self) -> (r: bool) {
        proof {
            use_type_invariant(self);
            use_type_invariant(other);
        }
        let n = self.inner.len();
        if n != other.inner.len() {
            return false;
        }
        let mut i: usize = 0;
        while i < n
            invariant
                self.wf(),
                other.wf(),
                n == self.inner@.len() == other.inner@.len(),
                i <= n,
                forall|k: int|
                    0 <= k < i ==> #[trigger] self.inner@[k].as_int() == other.inner@[k].as_int(),
            decreases n - i,
        {
            if self.inner[i].less_than(&other.inner[i]) || other.inner[i].less_than(&self.inner[i]) {
                return false;
            }
            i = i + 1;
        }
        proof {
            let nodes = ints(self.inner@);
            assert(nodes =~= ints(other.inner@));
            law_nodes_determine_values(self.values@, nodes);
            law_nodes_determine_values(other.values@, nodes);
        }
        true
    }
}

impl<T: TreeValue> PartialEqSpecImpl for BITree<T> {
    open spec fn obeys_eq_spec() -> bool {
        true
    }

    open spec fn eq_spec(&self, other: &Self) -> bool {
        self@ == other@
    }
}

impl<T: TreeValue> Eq for BITree<T> {

}

impl<T: TreeValue> Default for BITree<T> {
    /// Creates an empty tree.
    fn default() -> (r: Self)
        ensures
            r@ == Seq::<int>::empty(),
    {
        Self::new()
    }
}

} // verus!
