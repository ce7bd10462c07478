//! The values a tree can hold: a number with an exact integer meaning and a
//! bounded range, with in-place addition and subtraction.

use vstd::prelude::*;

verus! {

/// A value that a [`crate::BITree`] can sum.
///
/// Every value stands for an integer, `as_int`, between `min_int()` and
/// `max_int()`; addition and subtraction in place are exact as long as the
/// result stays in that range.
pub trait TreeValue: Sized {
    /// The integer that this value stands for.
    spec fn as_int(&self) -> int;

    /// The smallest integer a value can stand for.
    spec fn min_int() -> int;

    /// The largest integer a value can stand for.
    spec fn max_int() -> int;

    /// Every value lies in the range, and the range holds zero.
    proof fn lemma_in_range(v: &Self)
        ensures
            Self::min_int() <= v.as_int() <= Self::max_int(),
            Self::min_int() <= 0 <= Self::max_int(),
    ;

    /// Two values that stand for the same integer are the same value.
    proof fn lemma_same_int(a: &Self, b: &Self)
        ensures
            a.as_int() == b.as_int() ==> a == b,
    ;

    /// The value that stands for zero.
    fn zero() -> (r: Self)
        ensures
            r.as_int() == 0,
    ;

    /// A copy of this value.
    fn duplicate(&self) -> (r: Self)
        ensures
            r.as_int() == self.as_int(),
    ;

    /// Adds `other` into `self`.
    fn add_in_place(&mut self, other: &Self)
        requires
            Self::min_int() <= old(self).as_int() + other.as_int() <= Self::max_int(),
        ensures
            final(self).as_int() == old(self).as_int() + other.as_int(),
    ;

    /// Subtracts `other` from `self`.
    fn sub_in_place(&mut self, other: &Self)
        requires
            Self::min_int() <= old(self).as_int() - other.as_int() <= Self::max_int(),
        ensures
            final(self).as_int() == old(self).as_int() - other.as_int(),
    ;

    /// Whether `self` is strictly below `other`.
    fn less_than(&self, other: &Self) -> (r: bool)
        ensures
            r == (self.as_int() < other.as_int()),
    ;
}

/// Whether an integer can be held by a value of type `T`.
pub open spec fn fits<T: TreeValue>(x: int) -> bool {
    T::min_int() <= x <= T::max_int()
}

impl TreeValue for u8 {
    open spec fn as_int(&self) -> int {
        *self as int
    }

    open spec fn min_int() -> int {
        u8::MIN as int
    }

    open spec fn max_int() -> int {
        u8::MAX as int
    }

    proof fn lemma_in_range(v: &Self) {
    }

    proof fn lemma_same_int(a: &Self, b: &Self) {
    }

    fn zero() -> (r: Self) {
        0
    }

    fn duplicate(&self) -> (r: Self) {
        *self
    }

    fn add_in_place(&mut self, other: &Self) {
        *self = *self + *other;
    }

    fn sub_in_place(&mut self, other: &Self) {
        *self = *self - *other;
    }

    fn less_than(&self, other: &Self) -> (r: bool) {
        *self < *other
    }
}

impl TreeValue for u16 {
    open spec fn as_int(&self) -> int {
        *self as int
    }

    open spec fn min_int() -> int {
        u16::MIN as int
    }

    open spec fn max_int() -> int {
        u16::MAX as int
    }

    proof fn lemma_in_range(v: &Self) {
    }

    proof fn lemma_same_int(a: &Self, b: &Self) {
    }

    fn zero() -> (r: Self) {
        0
    }

    fn duplicate(&self) -> (r: Self) {
        *self
    }

    fn add_in_place(&mut self, other: &Self) {
        *self = *self + *other;
    }

    fn sub_in_place(&mut self, other: &Self) {
        *self = *self - *other;
    }

    fn less_than(&self, other: &Self) -> (r: bool) {
        *self < *other
    }
}

impl TreeValue for u32 {
    open spec fn as_int(&self) -> int {
        *self as int
    }

    open spec fn min_int() -> int {
        u32::MIN as int
    }

    open spec fn max_int() -> int {
        u32::MAX as int
    }

    proof fn lemma_in_range(v: &Self) {
    }

    proof fn lemma_same_int(a: &Self, b: &Self) {
    }

    fn zero() -> (r: Self) {
        0
    }

    fn duplicate(&self) -> (r: Self) {
        *self
    }

    fn add_in_place(&mut self, other: &Self) {
        *self = *self + *other;
    }

    fn sub_in_place(&mut self, other: &Self) {
        *self = *self - *other;
    }

    fn less_than(&self, other: &Self) -> (r: bool) {
        *self < *other
    }
}

impl TreeValue for u64 {
    open spec fn as_int(&self) -> int {
        *self as int
    }

    open spec fn min_int() -> int {
        u64::MIN as int
    }

    open spec fn max_int() -> int {
        u64::MAX as int
    }

    proof fn lemma_in_range(v: &Self) {
    }

    proof fn lemma_same_int(a: &Self, b: &Self) {
    }

    fn zero() -> (r: Self) {
        0
    }

    fn duplicate(&self) -> (r: Self) {
        *self
    }

    fn add_in_place(&mut self, other: &Self) {
        *self = *self + *other;
    }

    fn sub_in_place(&mut self, other: &Self) {
        *self = *self - *other;
    }

    fn less_than(&self, other: &Self) -> (r: bool) {
        *self < *other
    }
}

impl TreeValue for u128 {
    open spec fn as_int(&self) -> int {
        *self as int
    }

    open spec fn min_int() -> int {
        u128::MIN as int
    }

    open spec fn max_int() -> int {
        u128::MAX as int
    }

    proof fn lemma_in_range(v: &Self) {
    }

    proof fn lemma_same_int(a: &Self, b: &Self) {
    }

    fn zero() -> (r: Self) {
        0
    }

    fn duplicate(&self) -> (r: Self) {
        *self
    }

    fn add_in_place(&mut self, other: &Self) {
        *self = *self + *other;
    }

    fn sub_in_place(&mut self, other: &Self) {
        *self = *self - *other;
    }

    fn less_than(&self, other: &Self) -> (r: bool) {
        *self < *other
    }
}

impl TreeValue for usize {
    open spec fn as_int(&self) -> int {
        *self as int
    }

    open spec fn min_int() -> int {
        usize::MIN as int
    }

    open spec fn max_int() -> int {
        usize::MAX as int
    }

    proof fn lemma_in_range(v: &Self) {
    }

    proof fn lemma_same_int(a: &Self, b: &Self) {
    }

    fn zero() -> (r: Self) {
        0
    }

    fn duplicate(&self) -> (r: Self) {
        *self
    }

    fn add_in_place(&mut self, other: &Self) {
        *self = *self + *other;
    }

    fn sub_in_place(&mut self, other: &Self) {
        *self = *self - *other;
    }

    fn less_than(&self, other: &Self) -> (r: bool) {
        *self < *other
    }
}

impl TreeValue for i8 {
    open spec fn as_int(&self) -> int {
        *self as int
    }

    open spec fn min_int() -> int {
        i8::MIN as int
    }

    open spec fn max_int() -> int {
        i8::MAX as int
    }

    proof fn lemma_in_range(v: &Self) {
    }

    proof fn lemma_same_int(a: &Self, b: &Self) {
    }

    fn zero() -> (r: Self) {
        0
    }

    fn duplicate(&self) -> (r: Self) {
        *self
    }

    fn add_in_place(&mut self, other: &Self) {
        *self = *self + *other;
    }

    fn sub_in_place(&mut self, other: &Self) {
        *self = *self - *other;
    }

    fn less_than(&self, other: &Self) -> (r: bool) {
        *self < *other
    }
}

impl TreeValue for i16 {
    open spec fn as_int(&self) -> int {
        *self as int
    }

    open spec fn min_int() -> int {
        i16::MIN as int
    }

    open spec fn max_int() -> int {
        i16::MAX as int
    }

    proof fn lemma_in_range(v: &Self) {
    }

    proof fn lemma_same_int(a: &Self, b: &Self) {
    }

    fn zero() -> (r: Self) {
        0
    }

    fn duplicate(&self) -> (r: Self) {
        *self
    }

    fn add_in_place(&mut self, other: &Self) {
        *self = *self + *other;
    }

    fn sub_in_place(&mut self, other: &Self) {
        *self = *self - *other;
    }

    fn less_than(&self, other: &Self) -> (r: bool) {
        *self < *other
    }
}

impl TreeValue for i32 {
    open spec fn as_int(&self) -> int {
        *self as int
    }

    open spec fn min_int() -> int {
        i32::MIN as int
    }

    open spec fn max_int() -> int {
        i32::MAX as int
    }

    proof fn lemma_in_range(v: &Self) {
    }

    proof fn lemma_same_int(a: &Self, b: &Self) {
    }

    fn zero() -> (r: Self) {
        0
    }

    fn duplicate(&self) -> (r: Self) {
        *self
    }

    fn add_in_place(&mut self, other: &Self) {
        *self = *self + *other;
    }

    fn sub_in_place(&mut self, other: &Self) {
        *self = *self - *other;
    }

    fn less_than(&self, other: &Self) -> (r: bool) {
        *self < *other
    }
}

impl TreeValue for i64 {
    open spec fn as_int(&self) -> int {
        *self as int
    }

    open spec fn min_int() -> int {
        i64::MIN as int
    }

    open spec fn max_int() -> int {
        i64::MAX as int
    }

    proof fn lemma_in_range(v: &Self) {
    }

    proof fn lemma_same_int(a: &Self, b: &Self) {
    }

    fn zero() -> (r: Self) {
        0
    }

    fn duplicate(&self) -> (r: Self) {
        *self
    }

    fn add_in_place(&mut self, other: &Self) {
        *self = *self + *other;
    }

    fn sub_in_place(&mut self, other: &Self) {
        *self = *self - *other;
    }

    fn less_than(&self, other: &Self) -> (r: bool) {
        *self < *other
    }
}

impl TreeValue for i128 {
    open spec fn as_int(&self) -> int {
        *self as int
    }

    open spec fn min_int() -> int {
        i128::MIN as int
    }

    open spec fn max_int() -> int {
        i128::MAX as int
    }

    proof fn lemma_in_range(v: &Self) {
    }

    proof fn lemma_same_int(a: &Self, b: &Self) {
    }

    fn zero() -> (r: Self) {
        0
    }

    fn duplicate(&self) -> (r: Self) {
        *self
    }

    fn add_in_place(&mut self, other: &Self) {
        *self = *self + *other;
    }

    fn sub_in_place(&mut self, other: &Self) {
        *self = *self - *other;
    }

    fn less_than(&self, other: &Self) -> (r: bool) {
        *self < *other
    }
}

impl TreeValue for isize {
    open spec fn as_int(&self) -> int {
        *self as int
    }

    open spec fn min_int() -> int {
        isize::MIN as int
    }

    open spec fn max_int() -> int {
        isize::MAX as int
    }

    proof fn lemma_in_range(v: &Self) {
    }

    proof fn lemma_same_int(a: &Self, b: &Self) {
    }

    fn zero() -> (r: Self) {
        0
    }

    fn duplicate(&self) -> (r: Self) {
        *self
    }

    fn add_in_place(&mut self, other: &Self) {
        *self = *self + *other;
    }

    fn sub_in_place(&mut self, other: &Self) {
        *self = *self - *other;
    }

    fn less_than(&self, other: &Self) -> (r: bool) {
        *self < *other
    }
}

} // verus!
