//! `Option<T>` as a bit-set: `None` is an unallocated, all-unset value.
//!
//! This is the adapter that gives an empty deep segment of a recursively
//! layered bit-set its O(1) cost: a `None` check instead of an allocation.
//! Unsetting hands the slot back to `None` as soon as the wrapped bit-set
//! becomes empty.

use vstd::prelude::*;

use crate::ops::idx_in_range;
use crate::ops::BitComplement;
use crate::ops::BitDifference;
use crate::ops::BitDisjoint;
use crate::ops::BitEmpty;
use crate::ops::BitFull;
use crate::ops::BitIntersection;
use crate::ops::BitSearch;
use crate::ops::BitSet;
use crate::ops::BitSetLimit;
use crate::ops::BitSubset;
use crate::ops::BitTest;
use crate::ops::BitTestAll;
use crate::ops::BitTestNone;
use crate::ops::BitUnset;
use crate::ops::BitUnsetLimit;

verus! {

impl<T: BitTest> BitTest for Option<T> {
    open spec fn wf(&self) -> bool {
        match self {
            None => true,
            Some(bits) => bits.wf(),
        }
    }

    open spec fn spec_test(&self, i: int) -> bool {
        match self {
            None => false,
            Some(bits) => bits.spec_test(i),
        }
    }

    fn test(&self, idx: usize) -> (r: bool) {
        match self {
            None => false,
            Some(bits) => bits.test(idx),
        }
    }
}

impl<T: BitTest> BitEmpty for Option<T> {
    fn empty() -> (r: Self) {
        None
    }
}

impl<T: BitFull> BitFull for Option<T> {
    fn full() -> (r: Self) {
        Some(T::full())
    }
}

impl<T: BitTestNone> BitTestNone for Option<T> {
    fn test_none(&self) -> (r: bool) {
        match self {
            None => true,
            Some(bits) => {
                let r = bits.test_none();
                proof {
                    if !r {
                        let k = choose|i: int| idx_in_range(i) && bits.spec_test(i);
                        assert(self.spec_test(k));
                    }
                }
                r
            },
        }
    }
}

impl<T: BitTestAll> BitTestAll for Option<T> {
    fn test_all(&self) -> (r: bool) {
        match self {
            None => {
                proof {
                    assert(!self.spec_test(0));
                }
                false
            },
            Some(bits) => {
                let r = bits.test_all();
                proof {
                    if !r {
                        let k = choose|i: int| idx_in_range(i) && !bits.spec_test(i);
                        assert(!self.spec_test(k));
                    }
                }
                r
            },
        }
    }
}

impl<T: BitSetLimit> BitSetLimit for Option<T> {
    open spec fn spec_max_set_index() -> int {
        T::spec_max_set_index()
    }

    proof fn lemma_max_set_index_in_range() {
        T::lemma_max_set_index_in_range();
    }

    proof fn lemma_beyond_limit_unset(&self, i: int) {
        match self {
            None => {},
            Some(bits) => bits.lemma_beyond_limit_unset(i),
        }
    }

    fn max_set_index() -> (r: usize) {
        T::max_set_index()
    }
}

impl<T: BitSet + BitEmpty> BitSet for Option<T> {
    open spec fn spec_can_set(i: int) -> bool {
        T::spec_can_set(i)
    }

    fn set_unchecked(&mut self, idx: usize) {
        let mut bits = match self.take() {
            None => T::empty(),
            Some(bits) => bits,
        };
        bits.set_unchecked(idx);
        *self = Some(bits);
    }
}

impl<T: BitUnsetLimit> BitUnsetLimit for Option<T> {
    /// A `None` slot keeps every bit unset, so no index can be promised to
    /// be "always set": the unset limit is unbounded, and unsetting an index
    /// a `None` slot cannot hold is a no-op.
    open spec fn spec_max_unset_index() -> int {
        usize::MAX as int
    }

    proof fn lemma_max_unset_index_in_range() {
    }

    proof fn lemma_beyond_limit_set(&self, i: int) {
    }

    fn max_unset_index() -> (r: usize) {
        usize::MAX
    }
}

impl<T: BitUnset + BitTestNone> BitUnset for Option<T> {
    open spec fn spec_can_unset(i: int) -> bool {
        T::spec_can_unset(i)
    }

    fn unset_unchecked(&mut self, idx: usize) {
        match self.take() {
            None => {},
            Some(mut bits) => {
                bits.unset_unchecked(idx);
                if !bits.test_none() {
                    *self = Some(bits);
                }
            },
        }
    }
}

impl<T: BitSearch> BitSearch for Option<T> {
    fn find_first_set(&self, lower_bound: usize) -> (r: Option<usize>) {
        match self {
            None => None,
            Some(bits) => bits.find_first_set(lower_bound),
        }
    }
}

impl<T: BitComplement> BitComplement for Option<T> where T::Output: BitFull {
    type Output = Option<T::Output>;

    fn complement(self) -> (r: Self::Output) {
        match self {
            None => Some(<T::Output as BitFull>::full()),
            Some(bits) => Some(bits.complement()),
        }
    }
}

impl<T: BitIntersection<U>, U: BitTest> BitIntersection<U> for Option<T> {
    type Output = Option<<T as BitIntersection<U>>::Output>;

    fn intersection(self, rhs: U) -> (r: Self::Output) {
        match self {
            None => None,
            Some(lhs) => Some(lhs.intersection(rhs)),
        }
    }
}

impl<T: BitDifference<U>, U: BitTest> BitDifference<U> for Option<T> {
    type Output = Option<<T as BitDifference<U>>::Output>;

    fn difference(self, rhs: U) -> (r: Self::Output) {
        match self {
            None => None,
            Some(lhs) => Some(lhs.difference(rhs)),
        }
    }
}

impl<T: BitSubset<U>, U: BitTest> BitSubset<U> for Option<T> {
    fn is_subset_of(&self, rhs: &U) -> (r: bool) {
        match self {
            None => true,
            Some(lhs) => {
                let r = lhs.is_subset_of(rhs);
                proof {
                    if !r {
                        let k = choose|i: int|
                            idx_in_range(i) && lhs.spec_test(i) && !rhs.spec_test(i);
                        assert(self.spec_test(k));
                    }
                }
                r
            },
        }
    }
}

impl<T: BitDisjoint<U>, U: BitTest> BitDisjoint<U> for Option<T> {
    fn is_disjoint(&self, rhs: &U) -> (r: bool) {
        match self {
            None => true,
            Some(lhs) => {
                let r = lhs.is_disjoint(rhs);
                proof {
                    if !r {
                        let k = choose|i: int|
                            idx_in_range(i) && lhs.spec_test(i) && rhs.spec_test(i);
                        assert(self.spec_test(k));
                    }
                }
                r
            },
        }
    }
}

} // verus!
