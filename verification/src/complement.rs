//! Bit-set wrapper that acts like the set complement.

use vstd::prelude::*;

use crate::ops::idx_in_range;
use crate::ops::BitComplement;
use crate::ops::BitDifference;
use crate::ops::BitDisjoint;
use crate::ops::BitEmpty;
use crate::ops::BitFull;
use crate::ops::BitIntersection;
use crate::ops::BitSearch;
use crate::ops::BitSet;
use crate::ops::BitSetLimit;
use crate::ops::BitSubset;
use crate::ops::BitTest;
use crate::ops::BitTestAll;
use crate::ops::BitTestNone;
use crate::ops::BitUnion;
use crate::ops::BitUnset;
use crate::ops::BitUnsetLimit;
use crate::intersection::Intersection;
use crate::union::Union;

verus! {

/// Bit-set wrapper that acts like the set complement.
///
/// Effectively inverses all bits in the underlying bit-set.
#[derive(Clone, Copy, Debug, Default, PartialEq, Eq, Hash)]
pub struct Complement<T>(pub T);

impl<T> Complement<T> {
    /// Borrows the wrapped bit-set.
    pub fn inner(&self) -> (r: &T)
        ensures
            *r == self.0,
    {
        &self.0
    }

    /// Mutably borrows the wrapped bit-set.
    pub fn inner_mut(&mut self) -> (r: &mut T)
        ensures
            *r == old(self).0,
            final(self).0 == *final(r),
    {
        &mut self.0
    }

    /// Unwraps the wrapped bit-set.
    pub fn into_inner(self) -> (r: T)
        ensures
            r == self.0,
    {
        self.0
    }
}

impl<T> Complement<Complement<T>> {
    /// Convenience function to unwrap a double `Complement` wrapper, which
    /// must yield a bitset with the same bits set.
    pub fn double_complement_unwrap(self) -> (r: T)
        ensures
            r == self.0.0,
    {
        self.0.0
    }
}

impl<T: BitTest> BitTest for Complement<T> {
    open spec fn wf(&self) -> bool {
        self.0.wf()
    }

    open spec fn spec_test(&self, i: int) -> bool {
        !self.0.spec_test(i)
    }

    fn test(&self, idx: usize) -> (r: bool) {
        !self.0.test(idx)
    }
}

impl<T: BitFull> BitEmpty for Complement<T> {
    fn empty() -> (r: Self) {
        Complement(T::full())
    }
}

impl<T: BitEmpty> BitFull for Complement<T> {
    fn full() -> (r: Self) {
        Complement(T::empty())
    }
}

impl<T: BitTestAll> BitTestNone for Complement<T> {
    fn test_none(&self) -> (r: bool) {
        let r = self.0.test_all();
        proof {
            if !r {
                let k = choose|i: int| idx_in_range(i) && !self.0.spec_test(i);
                assert(idx_in_range(k) && self.spec_test(k));
            }
        }
        r
    }
}

impl<T: BitTestNone> BitTestAll for Complement<T> {
    fn test_all(&self) -> (r: bool) {
        let r = self.0.test_none();
        proof {
            if !r {
                let k = choose|i: int| idx_in_range(i) && self.0.spec_test(i);
                assert(idx_in_range(k) && !self.spec_test(k));
            }
        }
        r
    }
}

impl<T: BitUnsetLimit> BitSetLimit for Complement<T> {
    open spec fn spec_max_set_index() -> int {
        T::spec_max_unset_index()
    }

    proof fn lemma_max_set_index_in_range() {
        T::lemma_max_unset_index_in_range();
    }

    proof fn lemma_beyond_limit_unset(&self, i: int) {
        self.0.lemma_beyond_limit_set(i);
    }

    fn max_set_index() -> (r: usize) {
        T::max_unset_index()
    }
}

impl<T: BitUnset> BitSet for Complement<T> {
    open spec fn spec_can_set(i: int) -> bool {
        T::spec_can_unset(i)
    }

    fn set_unchecked(&mut self, idx: usize) {
        self.0.unset_unchecked(idx)
    }
}

impl<T: BitSetLimit> BitUnsetLimit for Complement<T> {
    open spec fn spec_max_unset_index() -> int {
        T::spec_max_set_index()
    }

    proof fn lemma_max_unset_index_in_range() {
        T::lemma_max_set_index_in_range();
    }

    proof fn lemma_beyond_limit_set(&self, i: int) {
        self.0.lemma_beyond_limit_unset(i);
    }

    fn max_unset_index() -> (r: usize) {
        T::max_set_index()
    }
}

impl<T: BitSet> BitUnset for Complement<T> {
    open spec fn spec_can_unset(i: int) -> bool {
        T::spec_can_set(i)
    }

    fn unset_unchecked(&mut self, idx: usize) {
        self.0.set_unchecked(idx)
    }
}

impl<T: BitSearch> BitSearch for Complement<Complement<T>> {
    fn find_first_set(&self, lower_bound: usize) -> (r: Option<usize>) {
        let r = self.inner().inner().find_first_set(lower_bound);
        proof {
            assert(forall|i: int| self.spec_test(i) == self.0.0.spec_test(i));
        }
        r
    }
}

impl<T: BitTest> BitComplement for Complement<T> {
    type Output = T;

    /// The double-complement rewrite: complementing a complement hands the
    /// original wrapped value back.
    fn complement(self) -> (r: T) {
        self.0
    }
}

impl<T: BitDifference<U>, U: BitTest> BitUnion<U> for Complement<T> {
    type Output = Complement<<T as BitDifference<U>>::Output>;

    /// The rewrite `complement(a).union(b) == complement(a.difference(b))`.
    fn union(self, rhs: U) -> (r: Self::Output) {
        Complement(self.0.difference(rhs))
    }
}

impl<T: BitTest, U: BitDifference<T>> BitIntersection<U> for Complement<T> {
    type Output = <U as BitDifference<T>>::Output;

    /// The rewrite `complement(a).intersection(b) == b.difference(a)`.
    fn intersection(self, rhs: U) -> (r: Self::Output) {
        rhs.difference(self.0)
    }
}

impl<T: BitUnion<U>, U: BitTest> BitDifference<U> for Complement<T> {
    type Output = Complement<<T as BitUnion<U>>::Output>;

    /// The rewrite `complement(a).difference(b) == complement(a.union(b))`.
    fn difference(self, rhs: U) -> (r: Self::Output) {
        Complement(self.0.union(rhs))
    }
}

impl<T: BitTest, U: BitSubset<T>> BitDisjoint<U> for Complement<T> {
    fn is_disjoint(&self, rhs: &U) -> (r: bool) {
        rhs.is_subset_of(&self.0)
    }
}

/// Complementing twice is the identity on the membership predicate: a double
/// complement tests identically to the wrapped value, at every index.
pub proof fn lemma_double_complement_tests_identical<T: BitTest>(x: T, i: int)
    ensures
        Complement(Complement(x)).spec_test(i) == x.spec_test(i),
{
}

/// De Morgan: the complement of a union tests identically to the
/// intersection of the two complements, at every index.
pub proof fn lemma_de_morgan_union<T: BitTest, U: BitTest>(x: T, y: U, i: int)
    ensures
        Complement(Union(x, y)).spec_test(i) == Intersection(
            Complement(x),
            Complement(y),
        ).spec_test(i),
{
}

/// De Morgan: the complement of an intersection tests identically to the
/// union of the two complements, at every index.
pub proof fn lemma_de_morgan_intersection<T: BitTest, U: BitTest>(x: T, y: U, i: int)
    ensures
        Complement(Intersection(x, y)).spec_test(i) == Union(
            Complement(x),
            Complement(y),
        ).spec_test(i),
{
}

} // verus!
