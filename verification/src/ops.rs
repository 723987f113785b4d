//! Traits to define operations on bit-sets.
//!
//! Every trait hangs off [`BitTest`], which carries the mathematical model:
//! a well-formedness predicate `wf` and the membership predicate `spec_test`.
//! All other contracts are stated over that predicate, quantified over the
//! indexes an exec `usize` can address.

use vstd::prelude::*;

verus! {

/// True for the bit indexes that an exec `usize` argument can address.
#[verifier::inline]
pub open spec fn idx_in_range(i: int) -> bool {
    0 <= i <= usize::MAX as int
}

/// Test single bit.
/// This trait should be implemented for all bit-sets; it carries the model
/// every other contract is stated over.
pub trait BitTest {
    /// Well-formedness of the value; constructors establish it and every
    /// operation preserves it.
    spec fn wf(&self) -> bool;

    /// The set of bits, as a membership predicate over indexes.
    spec fn spec_test(&self, i: int) -> bool;

    /// Tests if the bit at the specified index is set.
    /// Indexes outside the representable range answer `false`, never an error.
    fn test(&self, idx: usize) -> (r: bool)
        requires
            self.wf(),
        ensures
            r == self.spec_test(idx as int),
    ;
}

/// Constructor of the all-unset bitset.
pub trait BitEmpty: BitTest + Sized {
    /// Returns an empty bitset for which all bits are unset.
    fn empty() -> (r: Self)
        ensures
            r.wf(),
            forall|i: int| idx_in_range(i) ==> !r.spec_test(i),
    ;
}

/// Constructor of the all-set bitset.
pub trait BitFull: BitTest + Sized {
    /// Returns a full bitset for which every representable bit is set.
    fn full() -> (r: Self)
        ensures
            r.wf(),
            forall|i: int| idx_in_range(i) ==> r.spec_test(i),
    ;
}

/// Test whether no bit is set.
pub trait BitTestNone: BitTest {
    /// Tests if no bit is set.
    fn test_none(&self) -> (r: bool)
        requires
            self.wf(),
        ensures
            r == (forall|i: int| idx_in_range(i) ==> !self.spec_test(i)),
    ;
}

/// Test whether every bit is set.
pub trait BitTestAll: BitTest {
    /// Tests if every representable bit is set.
    fn test_all(&self) -> (r: bool)
        requires
            self.wf(),
        ensures
            r == (forall|i: int| idx_in_range(i) ==> self.spec_test(i)),
    ;
}

/// Trait to define a static limit on set bits.
pub trait BitSetLimit: BitTest {
    /// Largest possible bit index that can be set.
    /// Unbounded bit-sets specify `usize::MAX`.
    spec fn spec_max_set_index() -> int;

    /// The limit fits in a `usize`.
    proof fn lemma_max_set_index_in_range()
        ensures
            idx_in_range(Self::spec_max_set_index()),
    ;

    /// Any index larger than the limit is always unset.
    proof fn lemma_beyond_limit_unset(&self, i: int)
        requires
            self.wf(),
            idx_in_range(i),
            i > Self::spec_max_set_index(),
        ensures
            !self.spec_test(i),
    ;

    /// The limit, as a runtime-queried value.
    fn max_set_index() -> (r: usize)
        ensures
            r as int == Self::spec_max_set_index(),
    ;
}

/// Sets single bit.
/// This trait should be implemented for all mutable bit-sets.
pub trait BitSet: BitSetLimit {
    /// The indexes this type can set. For a plain bitset this is every index
    /// up to [`BitSetLimit::spec_max_set_index`]; a composite narrows it to
    /// what both operands can absorb.
    spec fn spec_can_set(i: int) -> bool;

    /// Sets the bit at the specified index.
    /// An out-of-range index would have to abort; the precondition
    /// [`BitSet::spec_can_set`] rules it out before the call.
    fn set(&mut self, idx: usize)
        requires
            old(self).wf(),
            Self::spec_can_set(idx as int),
        ensures
            final(self).wf(),
            forall|i: int|
                idx_in_range(i) ==> final(self).spec_test(i) == (old(self).spec_test(i) || i
                    == idx as int),
    {
        self.set_unchecked(idx)
    }

    /// Sets the bit at the specified index: the hot path of [`BitSet::set`],
    /// with the same precondition instead of a runtime check.
    fn set_unchecked(&mut self, idx: usize)
        requires
            old(self).wf(),
            Self::spec_can_set(idx as int),
        ensures
            final(self).wf(),
            forall|i: int|
                idx_in_range(i) ==> final(self).spec_test(i) == (old(self).spec_test(i) || i
                    == idx as int),
    ;
}

/// Trait to define a static limit on unset bits.
pub trait BitUnsetLimit: BitTest {
    /// Largest possible bit index that can be unset.
    /// Unbounded bit-sets specify `usize::MAX`.
    spec fn spec_max_unset_index() -> int;

    /// The limit fits in a `usize`.
    proof fn lemma_max_unset_index_in_range()
        ensures
            idx_in_range(Self::spec_max_unset_index()),
    ;

    /// Any index larger than the limit is always set.
    proof fn lemma_beyond_limit_set(&self, i: int)
        requires
            self.wf(),
            idx_in_range(i),
            i > Self::spec_max_unset_index(),
        ensures
            self.spec_test(i),
    ;

    /// The limit, as a runtime-queried value.
    fn max_unset_index() -> (r: usize)
        ensures
            r as int == Self::spec_max_unset_index(),
    ;
}

/// Unset single bit.
/// This trait should be implemented for mutable bit-sets that support
/// resetting bits.
pub trait BitUnset: BitUnsetLimit {
    /// The indexes this type can unset.
    spec fn spec_can_unset(i: int) -> bool;

    /// Unsets the bit at the specified index.
    /// An out-of-range index would have to abort; the precondition
    /// [`BitUnset::spec_can_unset`] rules it out before the call.
    fn unset(&mut self, idx: usize)
        requires
            old(self).wf(),
            Self::spec_can_unset(idx as int),
        ensures
            final(self).wf(),
            forall|i: int|
                idx_in_range(i) ==> final(self).spec_test(i) == (old(self).spec_test(i) && i
                    != idx as int),
    {
        self.unset_unchecked(idx)
    }

    /// Unsets the bit at the specified index: the hot path of
    /// [`BitUnset::unset`], with the same precondition instead of a runtime
    /// check.
    fn unset_unchecked(&mut self, idx: usize)
        requires
            old(self).wf(),
            Self::spec_can_unset(idx as int),
        ensures
            final(self).wf(),
            forall|i: int|
                idx_in_range(i) ==> final(self).spec_test(i) == (old(self).spec_test(i) && i
                    != idx as int),
    ;
}

/// Search for set bits.
pub trait BitSearch: BitTest {
    /// Searches for the first set bit starting with `lower_bound`.
    /// Returns `Some` of the smallest set index at or above the bound, and
    /// `None` exactly when no index at or above the bound is set.
    fn find_first_set(&self, lower_bound: usize) -> (r: Option<usize>)
        requires
            self.wf(),
        ensures
            match r {
                Some(found) => lower_bound <= found && self.spec_test(found as int) && forall|
                    i: int,
                |
                    lower_bound as int <= i < found as int ==> !self.spec_test(i),
                None => forall|i: int|
                    lower_bound as int <= i && idx_in_range(i) ==> !self.spec_test(i),
            },
    ;

    /// Searches for a set bit in the given half-open range.
    /// Returns `Some` of the smallest set index in it, and `None` exactly
    /// when the range holds no set index.
    fn find_set_in_range(&self, range: core::ops::Range<usize>) -> (r: Option<usize>)
        requires
            self.wf(),
        ensures
            match r {
                Some(found) => range.start <= found && found < range.end && self.spec_test(
                    found as int,
                ) && forall|i: int| range.start as int <= i < found as int ==> !self.spec_test(i),
                None => forall|i: int|
                    range.start as int <= i < range.end as int ==> !self.spec_test(i),
            },
    {
        match self.find_first_set(range.start) {
            Some(found) => if found < range.end {
                Some(found)
            } else {
                proof {
                    assert forall|i: int|
                        range.start as int <= i < range.end as int implies !self.spec_test(
                        i,
                    ) by {
                        assert(range.start as int <= i < found as int);
                    }
                }
                None
            },
            None => None,
        }
    }
}

/// Trait to get the dual set to the given one.
pub trait BitComplement: BitTest + Sized {
    type Output: BitTest;

    /// Returns a bit-set whose set bits are exactly the unset bits of `self`.
    fn complement(self) -> (r: Self::Output)
        requires
            self.wf(),
        ensures
            r.wf(),
            forall|i: int| idx_in_range(i) ==> r.spec_test(i) == !self.spec_test(i),
    ;
}

/// Union of bit-sets.
pub trait BitUnion<Rhs: BitTest = Self>: BitTest + Sized {
    type Output: BitTest;

    /// Returns a bit-set with a bit set for each index that has the bit set
    /// in either of the two arguments.
    fn union(self, rhs: Rhs) -> (r: Self::Output)
        requires
            self.wf(),
            rhs.wf(),
        ensures
            r.wf(),
            forall|i: int|
                idx_in_range(i) ==> r.spec_test(i) == (self.spec_test(i) || rhs.spec_test(i)),
    ;
}

/// Intersection of bit-sets.
pub trait BitIntersection<Rhs: BitTest = Self>: BitTest + Sized {
    type Output: BitTest;

    /// Returns a bit-set with a bit set for each index that has the bit set
    /// in both of the two arguments.
    fn intersection(self, rhs: Rhs) -> (r: Self::Output)
        requires
            self.wf(),
            rhs.wf(),
        ensures
            r.wf(),
            forall|i: int|
                idx_in_range(i) ==> r.spec_test(i) == (self.spec_test(i) && rhs.spec_test(i)),
    ;
}

/// Difference between two bit-sets.
pub trait BitDifference<Rhs: BitTest = Self>: BitTest + Sized {
    type Output: BitTest;

    /// Returns a bit-set with a bit set for each index that has the bit set
    /// in `self` but not in `rhs`.
    fn difference(self, rhs: Rhs) -> (r: Self::Output)
        requires
            self.wf(),
            rhs.wf(),
        ensures
            r.wf(),
            forall|i: int|
                idx_in_range(i) ==> r.spec_test(i) == (self.spec_test(i) && !rhs.spec_test(i)),
    ;
}

/// Tests any of the following equivalent properties:
/// - one bit-set is a subset of another.
/// - all bits that are set in one bit-set are set in another.
/// - `self - rhs` is empty.
pub trait BitSubset<Rhs: BitTest = Self>: BitTest {
    /// Returns true if `self` is a subset of `rhs`.
    fn is_subset_of(&self, rhs: &Rhs) -> (r: bool)
        requires
            self.wf(),
            rhs.wf(),
        ensures
            r == (forall|i: int| idx_in_range(i) && self.spec_test(i) ==> rhs.spec_test(i)),
    ;
}

/// Tests any of the following equivalent properties:
/// - two bit-sets are disjoint.
/// - all bits that are set in one bit-set are unset in the other and vice
///   versa.
/// - their intersection is empty.
pub trait BitDisjoint<Rhs: BitTest = Self>: BitTest {
    /// Returns true if `self` is disjoint with `rhs`.
    fn is_disjoint(&self, rhs: &Rhs) -> (r: bool)
        requires
            self.wf(),
            rhs.wf(),
        ensures
            r == (forall|i: int|
                idx_in_range(i) ==> !(self.spec_test(i) && rhs.spec_test(i))),
    ;
}

/// A bit-set that supports all operations.
pub trait UltimateBitSet: Sized + BitEmpty + BitFull + BitTest + BitTestNone + BitTestAll + BitSet + BitUnset + BitSearch + BitComplement + BitUnion + BitIntersection + BitDifference + BitSubset + BitDisjoint {

}

impl<T> UltimateBitSet for T where
    T: BitEmpty + BitFull + BitTest + BitTestNone + BitTestAll + BitSet + BitUnset + BitSearch
        + BitComplement + BitUnion + BitIntersection + BitDifference + BitSubset + BitDisjoint
    {

}

/// Indexes above the static limit never test true, so "no set index at or
/// above the bound" agrees with "no set index between the bound and the
/// limit": a search that returns `None` has inspected exactly the window
/// `[lower_bound, max_set_index]`.
pub proof fn lemma_search_none_window<S: BitSetLimit>(s: &S, lower_bound: usize)
    requires
        s.wf(),
    ensures
        (forall|i: int| lower_bound as int <= i && idx_in_range(i) ==> !s.spec_test(i)) == (forall|
            i: int,
        |
            lower_bound as int <= i <= S::spec_max_set_index() ==> !s.spec_test(i)),
{
    S::lemma_max_set_index_in_range();
    if forall|i: int| lower_bound as int <= i <= S::spec_max_set_index() ==> !s.spec_test(i) {
        assert forall|i: int|
            lower_bound as int <= i && idx_in_range(i) implies !s.spec_test(i) by {
            if i > S::spec_max_set_index() {
                s.lemma_beyond_limit_unset(i);
            }
        }
    }
}

/// The mutation round trip: any step meeting the [`BitSet::set`] contract
/// makes the index test true, and a following step meeting the
/// [`BitUnset::unset`] contract for the same index makes it test false
/// again, while every other index keeps its original value.
pub proof fn lemma_set_unset_round_trip<S: BitTest>(s0: S, s1: S, s2: S, idx: int)
    requires
        idx_in_range(idx),
        forall|j: int| idx_in_range(j) ==> s1.spec_test(j) == (s0.spec_test(j) || j == idx),
        forall|j: int| idx_in_range(j) ==> s2.spec_test(j) == (s1.spec_test(j) && j != idx),
    ensures
        s1.spec_test(idx),
        !s2.spec_test(idx),
        forall|j: int| idx_in_range(j) && j != idx ==> s2.spec_test(j) == s0.spec_test(j),
{
}

} // verus!
