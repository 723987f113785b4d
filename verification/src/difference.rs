//! Bit-set wrapper that acts like the set difference of its two operands.

use vstd::prelude::*;

use crate::ops::idx_in_range;
use crate::ops::BitComplement;
use crate::ops::BitDifference;
use crate::ops::BitEmpty;
use crate::ops::BitFull;
use crate::ops::BitIntersection;
use crate::ops::BitSearch;
use crate::ops::BitSet;
use crate::ops::BitSetLimit;
use crate::ops::BitSubset;
use crate::ops::BitTest;
use crate::ops::BitTestAll;
use crate::ops::BitTestNone;
use crate::ops::BitUnion;
use crate::ops::BitUnset;
use crate::ops::BitUnsetLimit;
use crate::union::Union;

verus! {

/// Bit-set wrapper that acts like the set difference of its two operands.
///
/// A bit is set in it exactly when the bit is set in the left operand and
/// unset in the right one.
#[derive(Clone, Copy, Debug, Default, PartialEq, Eq, Hash)]
pub struct Difference<T, U>(pub T, pub U);

impl<T: BitTest, U: BitTest> BitTest for Difference<T, U> {
    open spec fn wf(&self) -> bool {
        self.0.wf() && self.1.wf()
    }

    open spec fn spec_test(&self, i: int) -> bool {
        self.0.spec_test(i) && !self.1.spec_test(i)
    }

    fn test(&self, idx: usize) -> (r: bool) {
        self.0.test(idx) && !self.1.test(idx)
    }
}

impl<T: BitEmpty, U: BitEmpty> BitEmpty for Difference<T, U> {
    fn empty() -> (r: Self) {
        Difference(T::empty(), U::empty())
    }
}

impl<T: BitFull, U: BitEmpty> BitFull for Difference<T, U> {
    fn full() -> (r: Self) {
        Difference(T::full(), U::empty())
    }
}

impl<T: BitSubset<U>, U: BitTest> BitTestNone for Difference<T, U> {
    fn test_none(&self) -> (r: bool) {
        let r = self.0.is_subset_of(&self.1);
        proof {
            if !r {
                let k = choose|i: int|
                    idx_in_range(i) && self.0.spec_test(i) && !self.1.spec_test(i);
                assert(self.spec_test(k));
            }
        }
        r
    }
}

impl<T: BitTestAll, U: BitTestNone> BitTestAll for Difference<T, U> {
    fn test_all(&self) -> (r: bool) {
        let r = self.0.test_all() && self.1.test_none();
        proof {
            if !r {
                if !(forall|i: int| idx_in_range(i) ==> self.0.spec_test(i)) {
                    let k = choose|i: int| idx_in_range(i) && !self.0.spec_test(i);
                    assert(!self.spec_test(k));
                } else {
                    let k = choose|i: int| idx_in_range(i) && self.1.spec_test(i);
                    assert(!self.spec_test(k));
                }
            }
        }
        r
    }
}

impl<T: BitSetLimit, U: BitUnsetLimit> BitSetLimit for Difference<T, U> {
    open spec fn spec_max_set_index() -> int {
        if T::spec_max_set_index() > U::spec_max_unset_index() {
            U::spec_max_unset_index()
        } else {
            T::spec_max_set_index()
        }
    }

    proof fn lemma_max_set_index_in_range() {
        T::lemma_max_set_index_in_range();
        U::lemma_max_unset_index_in_range();
    }

    proof fn lemma_beyond_limit_unset(&self, i: int) {
        if i > T::spec_max_set_index() {
            self.0.lemma_beyond_limit_unset(i);
        } else {
            self.1.lemma_beyond_limit_set(i);
        }
    }

    fn max_set_index() -> (r: usize) {
        crate::min(T::max_set_index(), U::max_unset_index())
    }
}

impl<T: BitSet, U: BitUnset> BitSet for Difference<T, U> {
    open spec fn spec_can_set(i: int) -> bool {
        T::spec_can_set(i) && U::spec_can_unset(i)
    }

    fn set_unchecked(&mut self, idx: usize) {
        self.0.set_unchecked(idx);
        self.1.unset_unchecked(idx);
    }
}

impl<T: BitUnsetLimit, U: BitSetLimit> BitUnsetLimit for Difference<T, U> {
    open spec fn spec_max_unset_index() -> int {
        if T::spec_max_unset_index() > U::spec_max_set_index() {
            T::spec_max_unset_index()
        } else {
            U::spec_max_set_index()
        }
    }

    proof fn lemma_max_unset_index_in_range() {
        T::lemma_max_unset_index_in_range();
        U::lemma_max_set_index_in_range();
    }

    proof fn lemma_beyond_limit_set(&self, i: int) {
        self.0.lemma_beyond_limit_set(i);
        self.1.lemma_beyond_limit_unset(i);
    }

    fn max_unset_index() -> (r: usize) {
        crate::max(T::max_unset_index(), U::max_set_index())
    }
}

impl<T: BitUnset, U: BitSet> BitUnset for Difference<T, U> {
    open spec fn spec_can_unset(i: int) -> bool {
        if i <= T::spec_max_unset_index() {
            T::spec_can_unset(i)
        } else {
            U::spec_can_set(i)
        }
    }

    fn unset_unchecked(&mut self, idx: usize) {
        if idx <= T::max_unset_index() {
            self.0.unset_unchecked(idx);
        } else {
            self.1.set_unchecked(idx);
        }
    }
}

impl<T: BitSearch, U: BitTest> BitSearch for Difference<T, U> {
    fn find_first_set(&self, lower_bound: usize) -> (r: Option<usize>) {
        let mut idx = match self.0.find_first_set(lower_bound) {
            None => {
                return None;
            },
            Some(v) => v,
        };
        loop
            invariant
                self.wf(),
                lower_bound <= idx,
                self.0.spec_test(idx as int),
                forall|i: int| lower_bound as int <= i < idx as int ==> !self.spec_test(i),
            decreases usize::MAX - idx,
        {
            if !self.1.test(idx) {
                return Some(idx);
            } else if idx < usize::MAX {
                idx = match self.0.find_first_set(idx + 1) {
                    None => {
                        return None;
                    },
                    Some(v) => v,
                };
            } else {
                return None;
            }
        }
    }
}

impl<T: BitComplement, U: BitTest> BitComplement for Difference<T, U> {
    type Output = Union<T::Output, U>;

    /// The rewrite `complement(a.difference(b)) == complement(a).union(b)`.
    fn complement(self) -> (r: Self::Output) {
        Union(self.0.complement(), self.1)
    }
}

impl<T: BitTest, U: BitTest, Y: BitTest> BitUnion<Y> for Difference<T, U> {
    type Output = Union<Difference<T, U>, Y>;

    /// A union over a difference has no simplification: the result nests a
    /// plain wrapper.
    fn union(self, rhs: Y) -> (r: Self::Output) {
        Union(self, rhs)
    }
}

impl<T: BitIntersection<Y>, U: BitTest, Y: BitTest> BitIntersection<Y> for Difference<T, U> {
    type Output = Difference<<T as BitIntersection<Y>>::Output, U>;

    /// The rewrite `a.difference(b).intersection(y) ==
    /// a.intersection(y).difference(b)`.
    fn intersection(self, rhs: Y) -> (r: Self::Output) {
        Difference(self.0.intersection(rhs), self.1)
    }
}

impl<T: BitDifference<Y>, U: BitTest, Y: BitTest> BitDifference<Y> for Difference<T, U> {
    type Output = Difference<<T as BitDifference<Y>>::Output, U>;

    /// The rewrite `a.difference(b).difference(y) ==
    /// a.difference(y).difference(b)`.
    fn difference(self, rhs: Y) -> (r: Self::Output) {
        Difference(self.0.difference(rhs), self.1)
    }
}

/// A subset test agrees with the emptiness of the difference: `a` is a
/// subset of `b` exactly when `a.difference(b)` tests no bit.
pub proof fn lemma_subset_iff_difference_none<T: BitTest, U: BitTest>(a: T, b: U)
    ensures
        (forall|i: int| idx_in_range(i) && a.spec_test(i) ==> b.spec_test(i)) == (forall|i: int|
            idx_in_range(i) ==> !Difference(a, b).spec_test(i)),
{
    let subset = forall|i: int| idx_in_range(i) && a.spec_test(i) ==> b.spec_test(i);
    let none = forall|i: int| idx_in_range(i) ==> !Difference(a, b).spec_test(i);
    if subset {
        assert forall|i: int| idx_in_range(i) implies !Difference(a, b).spec_test(i) by {
            if a.spec_test(i) {
                assert(b.spec_test(i));
            }
        }
    }
    if none {
        assert forall|i: int| idx_in_range(i) && a.spec_test(i) implies b.spec_test(i) by {
            assert(!Difference(a, b).spec_test(i));
        }
    }
}

} // verus!
