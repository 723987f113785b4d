//! Bit-set wrapper that acts like the set intersection of its two operands.

use vstd::prelude::*;

use crate::ops::idx_in_range;
use crate::ops::BitComplement;
use crate::ops::BitDifference;
use crate::ops::BitDisjoint;
use crate::ops::BitEmpty;
use crate::ops::BitFull;
use crate::ops::BitIntersection;
use crate::ops::BitSearch;
use crate::ops::BitSet;
use crate::ops::BitSetLimit;
use crate::ops::BitTest;
use crate::ops::BitTestAll;
use crate::ops::BitTestNone;
use crate::ops::BitUnion;
use crate::ops::BitUnset;
use crate::ops::BitUnsetLimit;
use crate::union::Union;

verus! {

/// Bit-set wrapper that acts like the set intersection of its two operands.
///
/// A bit is set in it exactly when the bit is set in both operands.
#[derive(Clone, Copy, Debug, Default, PartialEq, Eq, Hash)]
pub struct Intersection<T, U>(pub T, pub U);

impl<T, U> Intersection<T, U> {
    /// Swap the sets of the intersection.
    ///
    /// Dispatch of the composition operators is driven by the left operand's
    /// concrete type, so swapping can change which concrete result type a
    /// later operation produces without changing what is set.
    pub fn swap_sets(self) -> (r: Intersection<U, T>)
        ensures
            r.0 == self.1,
            r.1 == self.0,
    {
        Intersection(self.1, self.0)
    }
}

impl<T: BitTest, U: BitTest> BitTest for Intersection<T, U> {
    open spec fn wf(&self) -> bool {
        self.0.wf() && self.1.wf()
    }

    open spec fn spec_test(&self, i: int) -> bool {
        self.0.spec_test(i) && self.1.spec_test(i)
    }

    fn test(&self, idx: usize) -> (r: bool) {
        self.0.test(idx) && self.1.test(idx)
    }
}

impl<T: BitEmpty, U: BitEmpty> BitEmpty for Intersection<T, U> {
    fn empty() -> (r: Self) {
        Intersection(T::empty(), U::empty())
    }
}

impl<T: BitFull, U: BitFull> BitFull for Intersection<T, U> {
    fn full() -> (r: Self) {
        Intersection(T::full(), U::full())
    }
}

impl<T: BitDisjoint<U>, U: BitTest> BitTestNone for Intersection<T, U> {
    fn test_none(&self) -> (r: bool) {
        let r = self.0.is_disjoint(&self.1);
        proof {
            if !r {
                let k = choose|i: int|
                    idx_in_range(i) && self.0.spec_test(i) && self.1.spec_test(i);
                assert(self.spec_test(k));
            }
        }
        r
    }
}

impl<T: BitTestAll, U: BitTestAll> BitTestAll for Intersection<T, U> {
    fn test_all(&self) -> (r: bool) {
        let r = self.0.test_all() && self.1.test_all();
        proof {
            if !r {
                if !(forall|i: int| idx_in_range(i) ==> self.0.spec_test(i)) {
                    let k = choose|i: int| idx_in_range(i) && !self.0.spec_test(i);
                    assert(!self.spec_test(k));
                } else {
                    let k = choose|i: int| idx_in_range(i) && !self.1.spec_test(i);
                    assert(!self.spec_test(k));
                }
            }
        }
        r
    }
}

impl<T: BitSetLimit, U: BitSetLimit> BitSetLimit for Intersection<T, U> {
    open spec fn spec_max_set_index() -> int {
        if T::spec_max_set_index() > U::spec_max_set_index() {
            U::spec_max_set_index()
        } else {
            T::spec_max_set_index()
        }
    }

    proof fn lemma_max_set_index_in_range() {
        T::lemma_max_set_index_in_range();
        U::lemma_max_set_index_in_range();
    }

    proof fn lemma_beyond_limit_unset(&self, i: int) {
        if i > T::spec_max_set_index() {
            self.0.lemma_beyond_limit_unset(i);
        } else {
            self.1.lemma_beyond_limit_unset(i);
        }
    }

    fn max_set_index() -> (r: usize) {
        crate::min(T::max_set_index(), U::max_set_index())
    }
}

impl<T: BitSet, U: BitSet> BitSet for Intersection<T, U> {
    open spec fn spec_can_set(i: int) -> bool {
        T::spec_can_set(i) && U::spec_can_set(i)
    }

    fn set_unchecked(&mut self, idx: usize) {
        self.0.set_unchecked(idx);
        self.1.set_unchecked(idx);
    }
}

impl<T: BitUnsetLimit, U: BitUnsetLimit> BitUnsetLimit for Intersection<T, U> {
    open spec fn spec_max_unset_index() -> int {
        if T::spec_max_unset_index() > U::spec_max_unset_index() {
            T::spec_max_unset_index()
        } else {
            U::spec_max_unset_index()
        }
    }

    proof fn lemma_max_unset_index_in_range() {
        T::lemma_max_unset_index_in_range();
        U::lemma_max_unset_index_in_range();
    }

    proof fn lemma_beyond_limit_set(&self, i: int) {
        self.0.lemma_beyond_limit_set(i);
        self.1.lemma_beyond_limit_set(i);
    }

    fn max_unset_index() -> (r: usize) {
        crate::max(T::max_unset_index(), U::max_unset_index())
    }
}

impl<T: BitUnset, U: BitUnset> BitUnset for Intersection<T, U> {
    open spec fn spec_can_unset(i: int) -> bool {
        if i <= T::spec_max_unset_index() {
            T::spec_can_unset(i)
        } else {
            U::spec_can_unset(i)
        }
    }

    fn unset_unchecked(&mut self, idx: usize) {
        if idx <= T::max_unset_index() {
            self.0.unset_unchecked(idx);
        } else {
            self.1.unset_unchecked(idx);
        }
    }
}

impl<T: BitSearch, U: BitSearch> BitSearch for Intersection<T, U> {
    fn find_first_set(&self, lower_bound: usize) -> (r: Option<usize>) {
        let mut t = match self.0.find_first_set(lower_bound) {
            None => {
                return None;
            },
            Some(v) => v,
        };
        let mut u = match self.1.find_first_set(lower_bound) {
            None => {
                return None;
            },
            Some(v) => v,
        };
        loop
            invariant
                self.wf(),
                lower_bound <= t,
                lower_bound <= u,
                self.0.spec_test(t as int),
                self.1.spec_test(u as int),
                forall|i: int|
                    lower_bound as int <= i < (if t > u {
                        t as int
                    } else {
                        u as int
                    }) ==> !self.spec_test(i),
            decreases (usize::MAX - t) + (usize::MAX - u),
        {
            if t == u {
                return Some(t);
            } else if t < u {
                t = match self.0.find_first_set(t + 1) {
                    None => {
                        return None;
                    },
                    Some(v) => v,
                };
            } else {
                u = match self.1.find_first_set(u + 1) {
                    None => {
                        return None;
                    },
                    Some(v) => v,
                };
            }
        }
    }
}

impl<T: BitComplement, U: BitComplement> BitComplement for Intersection<T, U> {
    type Output = Union<T::Output, U::Output>;

    /// The rewrite `complement(a.intersection(b)) ==
    /// complement(a).union(complement(b))`.
    fn complement(self) -> (r: Self::Output) {
        Union(self.0.complement(), self.1.complement())
    }
}

impl<T: BitUnion<Y>, U: BitUnion<Y>, Y: BitTest + Copy> BitUnion<Y> for Intersection<T, U> {
    type Output = Intersection<<T as BitUnion<Y>>::Output, <U as BitUnion<Y>>::Output>;

    /// The rewrite `a.intersection(b).union(y) ==
    /// a.union(y).intersection(b.union(y))`.
    fn union(self, rhs: Y) -> (r: Self::Output) {
        Intersection(self.0.union(rhs), self.1.union(rhs))
    }
}

impl<T: BitIntersection<Y>, U: BitTest, Y: BitTest> BitIntersection<Y> for Intersection<T, U> {
    type Output = Intersection<<T as BitIntersection<Y>>::Output, U>;

    /// The rewrite `a.intersection(b).intersection(y) ==
    /// a.intersection(y).intersection(b)`.
    fn intersection(self, rhs: Y) -> (r: Self::Output) {
        Intersection(self.0.intersection(rhs), self.1)
    }
}

impl<T: BitDifference<Y>, U: BitTest, Y: BitTest> BitDifference<Y> for Intersection<T, U> {
    type Output = Intersection<<T as BitDifference<Y>>::Output, U>;

    /// The rewrite `a.intersection(b).difference(y) ==
    /// a.difference(y).intersection(b)`.
    fn difference(self, rhs: Y) -> (r: Self::Output) {
        Intersection(self.0.difference(rhs), self.1)
    }
}

/// A disjointness test agrees with the emptiness of the intersection: `a`
/// and `b` are disjoint exactly when `a.intersection(b)` tests no bit.
pub proof fn lemma_disjoint_iff_intersection_none<T: BitTest, U: BitTest>(a: T, b: U)
    ensures
        (forall|i: int| idx_in_range(i) ==> !(a.spec_test(i) && b.spec_test(i))) == (forall|i: int|
            idx_in_range(i) ==> !Intersection(a, b).spec_test(i)),
{
    let disjoint = forall|i: int| idx_in_range(i) ==> !(a.spec_test(i) && b.spec_test(i));
    let none = forall|i: int| idx_in_range(i) ==> !Intersection(a, b).spec_test(i);
    if disjoint {
        assert forall|i: int| idx_in_range(i) implies !Intersection(a, b).spec_test(i) by {
            assert(!(a.spec_test(i) && b.spec_test(i)));
        }
    }
    if none {
        assert forall|i: int| idx_in_range(i) implies !(a.spec_test(i) && b.spec_test(i)) by {
            assert(!Intersection(a, b).spec_test(i));
        }
    }
}

} // verus!
