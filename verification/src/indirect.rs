//! Adapters letting references and owned heap handles satisfy the same
//! capability contracts as the values they point at, by pure delegation.

use vstd::prelude::*;

use crate::complement::Complement;
use crate::difference::Difference;
use crate::intersection::Intersection;
use crate::ops::idx_in_range;
use crate::ops::BitComplement;
use crate::ops::BitDifference;
use crate::ops::BitDisjoint;
use crate::ops::BitEmpty;
use crate::ops::BitFull;
use crate::ops::BitIntersection;
use crate::ops::BitSearch;
use crate::ops::BitSet;
use crate::ops::BitSetLimit;
use crate::ops::BitSubset;
use crate::ops::BitTest;
use crate::ops::BitTestAll;
use crate::ops::BitTestNone;
use crate::ops::BitUnion;
use crate::ops::BitUnset;
use crate::ops::BitUnsetLimit;
use crate::union::Union;

verus! {

impl<T: BitTest> BitTest for Box<T> {
    open spec fn wf(&self) -> bool {
        (**self).wf()
    }

    open spec fn spec_test(&self, i: int) -> bool {
        (**self).spec_test(i)
    }

    fn test(&self, idx: usize) -> (r: bool) {
        (**self).test(idx)
    }
}

impl<T: BitEmpty> BitEmpty for Box<T> {
    fn empty() -> (r: Self) {
        Box::new(T::empty())
    }
}

impl<T: BitFull> BitFull for Box<T> {
    fn full() -> (r: Self) {
        Box::new(T::full())
    }
}

impl<T: BitTestNone> BitTestNone for Box<T> {
    fn test_none(&self) -> (r: bool) {
        let r = (**self).test_none();
        proof {
            if !r {
                let k = choose|i: int| idx_in_range(i) && (**self).spec_test(i);
                assert(self.spec_test(k));
            }
        }
        r
    }
}

impl<T: BitTestAll> BitTestAll for Box<T> {
    fn test_all(&self) -> (r: bool) {
        let r = (**self).test_all();
        proof {
            if !r {
                let k = choose|i: int| idx_in_range(i) && !(**self).spec_test(i);
                assert(!self.spec_test(k));
            }
        }
        r
    }
}

impl<T: BitSetLimit> BitSetLimit for Box<T> {
    open spec fn spec_max_set_index() -> int {
        T::spec_max_set_index()
    }

    proof fn lemma_max_set_index_in_range() {
        T::lemma_max_set_index_in_range();
    }

    proof fn lemma_beyond_limit_unset(&self, i: int) {
        (**self).lemma_beyond_limit_unset(i);
    }

    fn max_set_index() -> (r: usize) {
        T::max_set_index()
    }
}

impl<T: BitSet> BitSet for Box<T> {
    open spec fn spec_can_set(i: int) -> bool {
        T::spec_can_set(i)
    }

    fn set_unchecked(&mut self, idx: usize) {
        (**self).set_unchecked(idx)
    }
}

impl<T: BitUnsetLimit> BitUnsetLimit for Box<T> {
    open spec fn spec_max_unset_index() -> int {
        T::spec_max_unset_index()
    }

    proof fn lemma_max_unset_index_in_range() {
        T::lemma_max_unset_index_in_range();
    }

    proof fn lemma_beyond_limit_set(&self, i: int) {
        (**self).lemma_beyond_limit_set(i);
    }

    fn max_unset_index() -> (r: usize) {
        T::max_unset_index()
    }
}

impl<T: BitUnset> BitUnset for Box<T> {
    open spec fn spec_can_unset(i: int) -> bool {
        T::spec_can_unset(i)
    }

    fn unset_unchecked(&mut self, idx: usize) {
        (**self).unset_unchecked(idx)
    }
}

impl<T: BitSearch> BitSearch for Box<T> {
    fn find_first_set(&self, lower_bound: usize) -> (r: Option<usize>) {
        (**self).find_first_set(lower_bound)
    }
}

impl<T: BitTest> BitComplement for Box<T> {
    type Output = Complement<Self>;

    fn complement(self) -> (r: Complement<Self>) {
        Complement(self)
    }
}

impl<T: BitTest, U: BitTest> BitUnion<U> for Box<T> {
    type Output = Union<Self, U>;

    fn union(self, rhs: U) -> (r: Union<Self, U>) {
        Union(self, rhs)
    }
}

impl<T: BitTest, U: BitTest> BitIntersection<U> for Box<T> {
    type Output = Intersection<Self, U>;

    fn intersection(self, rhs: U) -> (r: Intersection<Self, U>) {
        Intersection(self, rhs)
    }
}

impl<T: BitTest, U: BitTest> BitDifference<U> for Box<T> {
    type Output = Difference<Self, U>;

    fn difference(self, rhs: U) -> (r: Difference<Self, U>) {
        Difference(self, rhs)
    }
}

impl<T: BitSubset<U>, U: BitTest> BitSubset<U> for Box<T> {
    fn is_subset_of(&self, rhs: &U) -> (r: bool) {
        (**self).is_subset_of(rhs)
    }
}

impl<T: BitDisjoint<U>, U: BitTest> BitDisjoint<U> for Box<T> {
    fn is_disjoint(&self, rhs: &U) -> (r: bool) {
        (**self).is_disjoint(rhs)
    }
}

impl<T: BitTest> BitTest for &T {
    open spec fn wf(&self) -> bool {
        (**self).wf()
    }

    open spec fn spec_test(&self, i: int) -> bool {
        (**self).spec_test(i)
    }

    fn test(&self, idx: usize) -> (r: bool) {
        (**self).test(idx)
    }
}

impl<T: BitTestNone> BitTestNone for &T {
    fn test_none(&self) -> (r: bool) {
        let r = (**self).test_none();
        proof {
            if !r {
                let k = choose|i: int| idx_in_range(i) && (**self).spec_test(i);
                assert(self.spec_test(k));
            }
        }
        r
    }
}

impl<T: BitTestAll> BitTestAll for &T {
    fn test_all(&self) -> (r: bool) {
        let r = (**self).test_all();
        proof {
            if !r {
                let k = choose|i: int| idx_in_range(i) && !(**self).spec_test(i);
                assert(!self.spec_test(k));
            }
        }
        r
    }
}

impl<T: BitSetLimit> BitSetLimit for &T {
    open spec fn spec_max_set_index() -> int {
        T::spec_max_set_index()
    }

    proof fn lemma_max_set_index_in_range() {
        T::lemma_max_set_index_in_range();
    }

    proof fn lemma_beyond_limit_unset(&self, i: int) {
        (**self).lemma_beyond_limit_unset(i);
    }

    fn max_set_index() -> (r: usize) {
        T::max_set_index()
    }
}

impl<T: BitUnsetLimit> BitUnsetLimit for &T {
    open spec fn spec_max_unset_index() -> int {
        T::spec_max_unset_index()
    }

    proof fn lemma_max_unset_index_in_range() {
        T::lemma_max_unset_index_in_range();
    }

    proof fn lemma_beyond_limit_set(&self, i: int) {
        (**self).lemma_beyond_limit_set(i);
    }

    fn max_unset_index() -> (r: usize) {
        T::max_unset_index()
    }
}

impl<T: BitSearch> BitSearch for &T {
    fn find_first_set(&self, lower_bound: usize) -> (r: Option<usize>) {
        (**self).find_first_set(lower_bound)
    }
}

impl<T: BitTest> BitComplement for &T {
    type Output = Complement<Self>;

    fn complement(self) -> (r: Complement<Self>) {
        Complement(self)
    }
}

impl<T: BitTest, U: BitTest> BitUnion<U> for &T {
    type Output = Union<Self, U>;

    fn union(self, rhs: U) -> (r: Union<Self, U>) {
        Union(self, rhs)
    }
}

impl<T: BitTest, U: BitTest> BitIntersection<U> for &T {
    type Output = Intersection<Self, U>;

    fn intersection(self, rhs: U) -> (r: Intersection<Self, U>) {
        Intersection(self, rhs)
    }
}

impl<T: BitTest, U: BitTest> BitDifference<U> for &T {
    type Output = Difference<Self, U>;

    fn difference(self, rhs: U) -> (r: Difference<Self, U>) {
        Difference(self, rhs)
    }
}

impl<T: BitSubset<U>, U: BitTest> BitSubset<U> for &T {
    fn is_subset_of(&self, rhs: &U) -> (r: bool) {
        (**self).is_subset_of(rhs)
    }
}

impl<T: BitDisjoint<U>, U: BitTest> BitDisjoint<U> for &T {
    fn is_disjoint(&self, rhs: &U) -> (r: bool) {
        (**self).is_disjoint(rhs)
    }
}

} // verus!
