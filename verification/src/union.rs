//! Bit-set wrapper that acts like the set union of its two operands.

use vstd::prelude::*;

use crate::intersection::Intersection;
use crate::ops::idx_in_range;
use crate::ops::BitComplement;
use crate::ops::BitDifference;
use crate::ops::BitEmpty;
use crate::ops::BitFull;
use crate::ops::BitIntersection;
use crate::ops::BitSearch;
use crate::ops::BitSet;
use crate::ops::BitSetLimit;
use crate::ops::BitTest;
use crate::ops::BitTestNone;
use crate::ops::BitUnion;
use crate::ops::BitUnset;
use crate::ops::BitUnsetLimit;

verus! {

/// Bit-set wrapper that acts like the set union of its two operands.
///
/// A bit is set in it exactly when the bit is set in either operand.
#[derive(Clone, Copy, Debug, Default, PartialEq, Eq, Hash)]
pub struct Union<T, U>(pub T, pub U);

impl<T, U> Union<T, U> {
    /// Swap the sets of the union.
    ///
    /// Dispatch of the composition operators is driven by the left operand's
    /// concrete type, so swapping can change which concrete result type a
    /// later operation produces without changing what is set.
    pub fn swap_sets(self) -> (r: Union<U, T>)
        ensures
            r.0 == self.1,
            r.1 == self.0,
    {
        Union(self.1, self.0)
    }
}

impl<T: BitTest, U: BitTest> BitTest for Union<T, U> {
    open spec fn wf(&self) -> bool {
        self.0.wf() && self.1.wf()
    }

    open spec fn spec_test(&self, i: int) -> bool {
        self.0.spec_test(i) || self.1.spec_test(i)
    }

    fn test(&self, idx: usize) -> (r: bool) {
        self.0.test(idx) || self.1.test(idx)
    }
}

impl<T: BitEmpty, U: BitEmpty> BitEmpty for Union<T, U> {
    fn empty() -> (r: Self) {
        Union(T::empty(), U::empty())
    }
}

impl<T: BitFull, U: BitEmpty> BitFull for Union<T, U> {
    fn full() -> (r: Self) {
        Union(T::full(), U::empty())
    }
}

impl<T: BitTestNone, U: BitTestNone> BitTestNone for Union<T, U> {
    fn test_none(&self) -> (r: bool) {
        let r = self.0.test_none() && self.1.test_none();
        proof {
            if !r {
                if !(forall|i: int| idx_in_range(i) ==> !self.0.spec_test(i)) {
                    let k = choose|i: int| idx_in_range(i) && self.0.spec_test(i);
                    assert(self.spec_test(k));
                } else {
                    let k = choose|i: int| idx_in_range(i) && self.1.spec_test(i);
                    assert(self.spec_test(k));
                }
            }
        }
        r
    }
}

impl<T: BitSetLimit, U: BitSetLimit> BitSetLimit for Union<T, U> {
    open spec fn spec_max_set_index() -> int {
        if T::spec_max_set_index() > U::spec_max_set_index() {
            T::spec_max_set_index()
        } else {
            U::spec_max_set_index()
        }
    }

    proof fn lemma_max_set_index_in_range() {
        T::lemma_max_set_index_in_range();
        U::lemma_max_set_index_in_range();
    }

    proof fn lemma_beyond_limit_unset(&self, i: int) {
        self.0.lemma_beyond_limit_unset(i);
        self.1.lemma_beyond_limit_unset(i);
    }

    fn max_set_index() -> (r: usize) {
        crate::max(T::max_set_index(), U::max_set_index())
    }
}

impl<T: BitSet, U: BitSet> BitSet for Union<T, U> {
    open spec fn spec_can_set(i: int) -> bool {
        if i <= T::spec_max_set_index() {
            T::spec_can_set(i)
        } else {
            U::spec_can_set(i)
        }
    }

    fn set_unchecked(&mut self, idx: usize) {
        if idx <= T::max_set_index() {
            self.0.set_unchecked(idx);
        } else {
            self.1.set_unchecked(idx);
        }
    }
}

impl<T: BitUnsetLimit, U: BitUnsetLimit> BitUnsetLimit for Union<T, U> {
    open spec fn spec_max_unset_index() -> int {
        if T::spec_max_unset_index() > U::spec_max_unset_index() {
            U::spec_max_unset_index()
        } else {
            T::spec_max_unset_index()
        }
    }

    proof fn lemma_max_unset_index_in_range() {
        T::lemma_max_unset_index_in_range();
        U::lemma_max_unset_index_in_range();
    }

    proof fn lemma_beyond_limit_set(&self, i: int) {
        if i > T::spec_max_unset_index() {
            self.0.lemma_beyond_limit_set(i);
        } else {
            self.1.lemma_beyond_limit_set(i);
        }
    }

    fn max_unset_index() -> (r: usize) {
        crate::min(T::max_unset_index(), U::max_unset_index())
    }
}

impl<T: BitUnset, U: BitUnset> BitUnset for Union<T, U> {
    open spec fn spec_can_unset(i: int) -> bool {
        T::spec_can_unset(i) && U::spec_can_unset(i)
    }

    fn unset_unchecked(&mut self, idx: usize) {
        self.0.unset_unchecked(idx);
        self.1.unset_unchecked(idx);
    }
}

impl<T: BitSearch, U: BitSearch> BitSearch for Union<T, U> {
    fn find_first_set(&self, lower_bound: usize) -> (r: Option<usize>) {
        let t = self.0.find_first_set(lower_bound);
        let u = self.1.find_first_set(lower_bound);
        match (t, u) {
            (None, None) => None,
            (Some(t), None) => Some(t),
            (None, Some(u)) => Some(u),
            (Some(t), Some(u)) => if t <= u {
                Some(t)
            } else {
                Some(u)
            },
        }
    }
}

impl<T: BitComplement, U: BitComplement> BitComplement for Union<T, U> {
    type Output = Intersection<T::Output, U::Output>;

    /// The rewrite `complement(a.union(b)) ==
    /// complement(a).intersection(complement(b))`.
    fn complement(self) -> (r: Self::Output) {
        Intersection(self.0.complement(), self.1.complement())
    }
}

impl<T: BitUnion<Y>, U: BitTest, Y: BitTest> BitUnion<Y> for Union<T, U> {
    type Output = Union<<T as BitUnion<Y>>::Output, U>;

    /// The rewrite `a.union(b).union(y) == a.union(y).union(b)`: the new
    /// operand is folded into the left branch instead of nesting a wrapper.
    fn union(self, rhs: Y) -> (r: Self::Output) {
        Union(self.0.union(rhs), self.1)
    }
}

impl<T: BitIntersection<Y>, U: BitIntersection<Y>, Y: BitTest + Copy> BitIntersection<
    Y,
> for Union<T, U> {
    type Output = Union<<T as BitIntersection<Y>>::Output, <U as BitIntersection<Y>>::Output>;

    /// The rewrite `a.union(b).intersection(y) ==
    /// a.intersection(y).union(b.intersection(y))`.
    fn intersection(self, rhs: Y) -> (r: Self::Output) {
        Union(self.0.intersection(rhs), self.1.intersection(rhs))
    }
}

impl<T: BitDifference<Y>, U: BitDifference<Y>, Y: BitTest + Copy> BitDifference<
    Y,
> for Union<T, U> {
    type Output = Union<<T as BitDifference<Y>>::Output, <U as BitDifference<Y>>::Output>;

    /// The rewrite `a.union(b).difference(y) ==
    /// a.difference(y).union(b.difference(y))`.
    fn difference(self, rhs: Y) -> (r: Self::Output) {
        Union(self.0.difference(rhs), self.1.difference(rhs))
    }
}

} // verus!
