# bitree

A binary indexed tree (Fenwick tree) written in Verus: prefix sums and
point updates over a sequence of numbers in *O*(log *n*), with the contract
of every operation proved.

A `BITree<T>` stands for a logical array `a[0..n]` of integers (its view)
and stores, at index `k`, the sum of `a[k & (k + 1)..=k]`. The element
type implements `TreeValue`, which gives each value an exact integer
meaning and a range; it is implemented for all primitive integer types.

Layout:

- `src/tree.rs`: the tree, its operations and the range conditions they
  need (a condition is exactly the set of intermediate sums that the
  operation computes).
- `src/value.rs`: the `TreeValue` trait and its integer implementations.
- `src/sums.rs`: range sums, node sums, and the proof that the children of
  a node tile its range.
- `src/bits.rs`: bit-vector facts about `k & (k + 1)` and `k | (k + 1)`.
- `src/laws.rs`: properties across operations (updates shift exactly the
  covering prefix sums, restoring gives back the built values, the search
  behaves like a sorted binary search when no value is negative, ...).
- `src/bounds.rs`: sufficient conditions, for arrays with no negative
  values, under which the range conditions hold.
- `app/`: serialization with serde, through a copy of the tree that holds
  its stored nodes.
