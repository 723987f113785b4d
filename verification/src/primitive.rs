//! Leaf bit-sets: fixed-width unsigned words and the one-bit `bool`.

use vstd::arithmetic::div_mod::lemma_div_is_ordered;
use vstd::prelude::*;

use crate::arith::lemma_div_below;
use crate::arith::lemma_parts;
use crate::arith::lemma_recompose;
use crate::arith::span_fits;
use crate::arith::span_fits_exec;
use crate::complement::Complement;
use crate::ops::idx_in_range;
use crate::ops::BitComplement;
use crate::ops::BitDifference;
use crate::ops::BitDisjoint;
use crate::ops::BitEmpty;
use crate::ops::BitIntersection;
use crate::ops::BitSearch;
use crate::ops::BitSet;
use crate::ops::BitSetLimit;
use crate::ops::BitSubset;
use crate::ops::BitTest;
use crate::ops::BitTestAll;
use crate::ops::BitTestNone;
use crate::ops::BitUnion;
use crate::ops::BitUnset;
use crate::ops::BitUnsetLimit;

verus! {

broadcast use vstd::array::group_array_axioms;

proof fn lemma_u8_bit_or(a: u8, b: u8, j: u8)
    by (bit_vector)
    requires
        j < 8,
    ensures
        ((((a | b) >> j) & 1u8) == 1u8) == ((((a >> j) & 1u8) == 1u8) || (((b >> j) & 1u8)
            == 1u8)),
{
}

proof fn lemma_u8_bit_and(a: u8, b: u8, j: u8)
    by (bit_vector)
    requires
        j < 8,
    ensures
        ((((a & b) >> j) & 1u8) == 1u8) == ((((a >> j) & 1u8) == 1u8) && (((b >> j) & 1u8)
            == 1u8)),
{
}

proof fn lemma_u8_bit_not(a: u8, j: u8)
    by (bit_vector)
    requires
        j < 8,
    ensures
        ((((!a) >> j) & 1u8) == 1u8) == ((((a >> j) & 1u8) == 1u8) == false),
{
}

proof fn lemma_u8_bit_set(a: u8, k: u8, j: u8)
    by (bit_vector)
    requires
        j < 8,
        k < 8,
    ensures
        ((((a | (1u8 << k)) >> j) & 1u8) == 1u8) == ((((a >> j) & 1u8) == 1u8) || j == k),
{
}

proof fn lemma_u8_bit_unset(a: u8, k: u8, j: u8)
    by (bit_vector)
    requires
        j < 8,
        k < 8,
    ensures
        ((((a & !(1u8 << k)) >> j) & 1u8) == 1u8) == ((((a >> j) & 1u8) == 1u8) && j != k),
{
}

proof fn lemma_u8_zero_bit(j: u8)
    by (bit_vector)
    ensures
        ((0u8 >> j) & 1u8) != 1u8,
{
}

proof fn lemma_u8_nonzero_bit(a: u8, n: u8) -> (j: u8)
    requires
        n < 8,
        (a >> n) != 0,
    ensures
        n <= j < 8,
        ((a >> j) & 1u8) == 1u8,
    decreases 8 - n,
{
    if ((a >> n) & 1u8) == 1u8 {
        n
    } else {
        assert(n < 7 && (a >> ((n + 1) as u8)) != 0) by (bit_vector)
            requires
                n < 8,
                (a >> n) != 0,
                ((a >> n) & 1u8) != 1u8,
        ;
        lemma_u8_nonzero_bit(a, (n + 1) as u8)
    }
}

proof fn lemma_u8_nonzero_has_bit(a: u8) -> (j: u8)
    requires
        a != 0,
    ensures
        j < 8,
        ((a >> j) & 1u8) == 1u8,
{
    assert((a >> 0u8) != 0) by (bit_vector)
        requires
            a != 0,
    ;
    lemma_u8_nonzero_bit(a, 0)
}

impl BitTest for u8 {
    open spec fn wf(&self) -> bool {
        true
    }

    open spec fn spec_test(&self, i: int) -> bool {
        0 <= i < 8 && ((*self >> (i as u8)) & 1u8) == 1u8
    }

    fn test(&self, idx: usize) -> (r: bool) {
        if idx < 8 {
            ((*self >> (idx as u8)) & 1u8) == 1u8
        } else {
            false
        }
    }
}

impl BitEmpty for u8 {
    fn empty() -> (r: Self) {
        proof {
            assert forall|i: int| idx_in_range(i) implies !(0u8).spec_test(i) by {
                if 0 <= i < 8 {
                    lemma_u8_zero_bit(i as u8);
                }
            }
        }
        0
    }
}

impl BitTestAll for u8 {
    fn test_all(&self) -> (r: bool) {
        // A fixed-width word never covers every representable index: the bit
        // just past the width is always unset.
        proof {
            assert(!self.spec_test(8));
        }
        false
    }
}

impl BitTestNone for u8 {
    fn test_none(&self) -> (r: bool) {
        let r = *self == 0;
        proof {
            if r {
                assert forall|i: int| idx_in_range(i) implies !self.spec_test(i) by {
                    if 0 <= i < 8 {
                        lemma_u8_zero_bit(i as u8);
                    }
                }
            } else {
                let k = lemma_u8_nonzero_has_bit(*self);
                assert(self.spec_test(k as int));
            }
        }
        r
    }
}

impl BitSetLimit for u8 {
    open spec fn spec_max_set_index() -> int {
        7
    }

    proof fn lemma_max_set_index_in_range() {
    }

    proof fn lemma_beyond_limit_unset(&self, i: int) {
    }

    fn max_set_index() -> (r: usize) {
        7
    }
}

impl BitSet for u8 {
    open spec fn spec_can_set(i: int) -> bool {
        0 <= i < 8
    }

    fn set_unchecked(&mut self, idx: usize) {
        *self = *self | (1u8 << (idx as u8));
        proof {
            assert forall|i: int|
                idx_in_range(i) implies self.spec_test(i) == (old(self).spec_test(i) || i
                == idx as int) by {
                if 0 <= i < 8 {
                    lemma_u8_bit_set(*old(self), idx as u8, i as u8);
                }
            }
        }
    }
}

impl BitUnsetLimit for u8 {
    open spec fn spec_max_unset_index() -> int {
        usize::MAX as int
    }

    proof fn lemma_max_unset_index_in_range() {
    }

    proof fn lemma_beyond_limit_set(&self, i: int) {
    }

    fn max_unset_index() -> (r: usize) {
        usize::MAX
    }
}

impl BitUnset for u8 {
    open spec fn spec_can_unset(i: int) -> bool {
        true
    }

    fn unset_unchecked(&mut self, idx: usize) {
        if idx < 8 {
            *self = *self & !(1u8 << (idx as u8));
            proof {
                assert forall|i: int|
                    idx_in_range(i) implies self.spec_test(i) == (old(self).spec_test(i) && i
                    != idx as int) by {
                    if 0 <= i < 8 {
                        lemma_u8_bit_unset(*old(self), idx as u8, i as u8);
                    }
                }
            }
        }
    }
}

impl BitSearch for u8 {
    fn find_first_set(&self, lower_bound: usize) -> (r: Option<usize>) {
        let mut k: usize = lower_bound;
        while k < 8
            invariant
                lower_bound <= k,
                forall|i: int| lower_bound as int <= i < k as int ==> !self.spec_test(i),
            decreases 8 - k,
        {
            if ((*self >> (k as u8)) & 1u8) == 1u8 {
                return Some(k);
            }
            k = k + 1;
        }
        None
    }
}

impl BitComplement for u8 {
    type Output = Complement<u8>;

    fn complement(self) -> (r: Complement<Self>) {
        Complement(self)
    }
}

impl BitUnion for u8 {
    type Output = Self;

    fn union(self, rhs: Self) -> (r: Self) {
        let r = self | rhs;
        proof {
            assert forall|i: int|
                idx_in_range(i) implies r.spec_test(i) == (self.spec_test(i) || rhs.spec_test(
                i,
            )) by {
                if 0 <= i < 8 {
                    lemma_u8_bit_or(self, rhs, i as u8);
                }
            }
        }
        r
    }
}

impl BitUnion<Complement<u8>> for u8 {
    type Output = Complement<Self>;

    /// The rewrite `a.union(complement(b)) == complement(b.difference(a))`,
    /// computed eagerly on the wrapped word.
    fn union(self, rhs: Complement<Self>) -> (r: Complement<Self>) {
        let inner = rhs.0 & !self;
        proof {
            assert forall|i: int|
                idx_in_range(i) implies (!inner.spec_test(i)) == (self.spec_test(i)
                || !rhs.0.spec_test(i)) by {
                if 0 <= i < 8 {
                    lemma_u8_bit_and(rhs.0, !self, i as u8);
                    lemma_u8_bit_not(self, i as u8);
                }
            }
        }
        Complement(inner)
    }
}

impl BitIntersection for u8 {
    type Output = Self;

    fn intersection(self, rhs: Self) -> (r: Self) {
        let r = self & rhs;
        proof {
            assert forall|i: int|
                idx_in_range(i) implies r.spec_test(i) == (self.spec_test(i) && rhs.spec_test(
                i,
            )) by {
                if 0 <= i < 8 {
                    lemma_u8_bit_and(self, rhs, i as u8);
                }
            }
        }
        r
    }
}

impl BitIntersection<Complement<u8>> for u8 {
    type Output = Self;

    /// The rewrite `a.intersection(complement(b)) == a.difference(b)`,
    /// computed eagerly on the wrapped word.
    fn intersection(self, rhs: Complement<Self>) -> (r: Self) {
        let r = self & !rhs.0;
        proof {
            assert forall|i: int|
                idx_in_range(i) implies r.spec_test(i) == (self.spec_test(i)
                && !rhs.0.spec_test(i)) by {
                if 0 <= i < 8 {
                    lemma_u8_bit_and(self, !rhs.0, i as u8);
                    lemma_u8_bit_not(rhs.0, i as u8);
                }
            }
        }
        r
    }
}

impl BitDifference for u8 {
    type Output = Self;

    fn difference(self, rhs: Self) -> (r: Self) {
        let r = self & !rhs;
        proof {
            assert forall|i: int|
                idx_in_range(i) implies r.spec_test(i) == (self.spec_test(i) && !rhs.spec_test(
                i,
            )) by {
                if 0 <= i < 8 {
                    lemma_u8_bit_and(self, !rhs, i as u8);
                    lemma_u8_bit_not(rhs, i as u8);
                }
            }
        }
        r
    }
}

impl BitDifference<Complement<u8>> for u8 {
    type Output = Self;

    /// The rewrite `a.difference(complement(b)) == a.intersection(b)`,
    /// computed eagerly on the wrapped word.
    fn difference(self, rhs: Complement<Self>) -> (r: Self) {
        let r = self & rhs.0;
        proof {
            assert forall|i: int|
                idx_in_range(i) implies r.spec_test(i) == (self.spec_test(i) && rhs.0.spec_test(
                i,
            )) by {
                if 0 <= i < 8 {
                    lemma_u8_bit_and(self, rhs.0, i as u8);
                }
            }
        }
        r
    }
}

impl BitSubset for u8 {
    fn is_subset_of(&self, rhs: &Self) -> (r: bool) {
        let d = *self & !*rhs;
        let r = d == 0;
        proof {
            if r {
                assert forall|i: int|
                    idx_in_range(i) && self.spec_test(i) implies rhs.spec_test(i) by {
                    lemma_u8_bit_and(*self, !*rhs, i as u8);
                    lemma_u8_bit_not(*rhs, i as u8);
                    lemma_u8_zero_bit(i as u8);
                }
            } else {
                let k = lemma_u8_nonzero_has_bit(d);
                lemma_u8_bit_and(*self, !*rhs, k);
                lemma_u8_bit_not(*rhs, k);
                assert(self.spec_test(k as int) && !rhs.spec_test(k as int));
            }
        }
        r
    }
}

impl BitSubset<Complement<u8>> for u8 {
    fn is_subset_of(&self, rhs: &Complement<Self>) -> (r: bool) {
        let d = *self & rhs.0;
        let r = d == 0;
        proof {
            if r {
                assert forall|i: int|
                    idx_in_range(i) && self.spec_test(i) implies rhs.spec_test(i) by {
                    lemma_u8_bit_and(*self, rhs.0, i as u8);
                    lemma_u8_zero_bit(i as u8);
                }
            } else {
                let k = lemma_u8_nonzero_has_bit(d);
                lemma_u8_bit_and(*self, rhs.0, k);
                assert(self.spec_test(k as int) && !rhs.spec_test(k as int));
            }
        }
        r
    }
}

impl BitDisjoint for u8 {
    fn is_disjoint(&self, rhs: &Self) -> (r: bool) {
        let d = *self & *rhs;
        let r = d == 0;
        proof {
            if r {
                assert forall|i: int|
                    idx_in_range(i) implies !(self.spec_test(i) && rhs.spec_test(i)) by {
                    if 0 <= i < 8 {
                        lemma_u8_bit_and(*self, *rhs, i as u8);
                        lemma_u8_zero_bit(i as u8);
                    }
                }
            } else {
                let k = lemma_u8_nonzero_has_bit(d);
                lemma_u8_bit_and(*self, *rhs, k);
                assert(self.spec_test(k as int) && rhs.spec_test(k as int));
            }
        }
        r
    }
}

impl BitDisjoint<Complement<u8>> for u8 {
    fn is_disjoint(&self, rhs: &Complement<Self>) -> (r: bool) {
        let d = *self & !rhs.0;
        let r = d == 0;
        proof {
            if r {
                assert forall|i: int|
                    idx_in_range(i) implies !(self.spec_test(i) && rhs.spec_test(i)) by {
                    if 0 <= i < 8 {
                        lemma_u8_bit_and(*self, !rhs.0, i as u8);
                        lemma_u8_bit_not(rhs.0, i as u8);
                        lemma_u8_zero_bit(i as u8);
                    }
                }
            } else {
                let k = lemma_u8_nonzero_has_bit(d);
                lemma_u8_bit_and(*self, !rhs.0, k);
                lemma_u8_bit_not(rhs.0, k);
                assert(self.spec_test(k as int) && rhs.spec_test(k as int));
            }
        }
        r
    }
}

proof fn lemma_u16_bit_or(a: u16, b: u16, j: u16)
    by (bit_vector)
    requires
        j < 16,
    ensures
        ((((a | b) >> j) & 1u16) == 1u16) == ((((a >> j) & 1u16) == 1u16) || (((b >> j) & 1u16)
            == 1u16)),
{
}

proof fn lemma_u16_bit_and(a: u16, b: u16, j: u16)
    by (bit_vector)
    requires
        j < 16,
    ensures
        ((((a & b) >> j) & 1u16) == 1u16) == ((((a >> j) & 1u16) == 1u16) && (((b >> j) & 1u16)
            == 1u16)),
{
}

proof fn lemma_u16_bit_not(a: u16, j: u16)
    by (bit_vector)
    requires
        j < 16,
    ensures
        ((((!a) >> j) & 1u16) == 1u16) == ((((a >> j) & 1u16) == 1u16) == false),
{
}

proof fn lemma_u16_bit_set(a: u16, k: u16, j: u16)
    by (bit_vector)
    requires
        j < 16,
        k < 16,
    ensures
        ((((a | (1u16 << k)) >> j) & 1u16) == 1u16) == ((((a >> j) & 1u16) == 1u16) || j == k),
{
}

proof fn lemma_u16_bit_unset(a: u16, k: u16, j: u16)
    by (bit_vector)
    requires
        j < 16,
        k < 16,
    ensures
        ((((a & !(1u16 << k)) >> j) & 1u16) == 1u16) == ((((a >> j) & 1u16) == 1u16) && j != k),
{
}

proof fn lemma_u16_zero_bit(j: u16)
    by (bit_vector)
    ensures
        ((0u16 >> j) & 1u16) != 1u16,
{
}

proof fn lemma_u16_nonzero_bit(a: u16, n: u16) -> (j: u16)
    requires
        n < 16,
        (a >> n) != 0,
    ensures
        n <= j < 16,
        ((a >> j) & 1u16) == 1u16,
    decreases 16 - n,
{
    if ((a >> n) & 1u16) == 1u16 {
        n
    } else {
        assert(n < 15 && (a >> ((n + 1) as u16)) != 0) by (bit_vector)
            requires
                n < 16,
                (a >> n) != 0,
                ((a >> n) & 1u16) != 1u16,
        ;
        lemma_u16_nonzero_bit(a, (n + 1) as u16)
    }
}

proof fn lemma_u16_nonzero_has_bit(a: u16) -> (j: u16)
    requires
        a != 0,
    ensures
        j < 16,
        ((a >> j) & 1u16) == 1u16,
{
    assert((a >> 0u16) != 0) by (bit_vector)
        requires
            a != 0,
    ;
    lemma_u16_nonzero_bit(a, 0)
}

impl BitTest for u16 {
    open spec fn wf(&self) -> bool {
        true
    }

    open spec fn spec_test(&self, i: int) -> bool {
        0 <= i < 16 && ((*self >> (i as u16)) & 1u16) == 1u16
    }

    fn test(&self, idx: usize) -> (r: bool) {
        if idx < 16 {
            ((*self >> (idx as u16)) & 1u16) == 1u16
        } else {
            false
        }
    }
}

impl BitEmpty for u16 {
    fn empty() -> (r: Self) {
        proof {
            assert forall|i: int| idx_in_range(i) implies !(0u16).spec_test(i) by {
                if 0 <= i < 16 {
                    lemma_u16_zero_bit(i as u16);
                }
            }
        }
        0
    }
}

impl BitTestAll for u16 {
    fn test_all(&self) -> (r: bool) {
        // A fixed-width word never covers every representable index: the bit
        // just past the width is always unset.
        proof {
            assert(!self.spec_test(16));
        }
        false
    }
}

impl BitTestNone for u16 {
    fn test_none(&self) -> (r: bool) {
        let r = *self == 0;
        proof {
            if r {
                assert forall|i: int| idx_in_range(i) implies !self.spec_test(i) by {
                    if 0 <= i < 16 {
                        lemma_u16_zero_bit(i as u16);
                    }
                }
            } else {
                let k = lemma_u16_nonzero_has_bit(*self);
                assert(self.spec_test(k as int));
            }
        }
        r
    }
}

impl BitSetLimit for u16 {
    open spec fn spec_max_set_index() -> int {
        15
    }

    proof fn lemma_max_set_index_in_range() {
    }

    proof fn lemma_beyond_limit_unset(&self, i: int) {
    }

    fn max_set_index() -> (r: usize) {
        15
    }
}

impl BitSet for u16 {
    open spec fn spec_can_set(i: int) -> bool {
        0 <= i < 16
    }

    fn set_unchecked(&mut self, idx: usize) {
        *self = *self | (1u16 << (idx as u16));
        proof {
            assert forall|i: int|
                idx_in_range(i) implies self.spec_test(i) == (old(self).spec_test(i) || i
                == idx as int) by {
                if 0 <= i < 16 {
                    lemma_u16_bit_set(*old(self), idx as u16, i as u16);
                }
            }
        }
    }
}

impl BitUnsetLimit for u16 {
    open spec fn spec_max_unset_index() -> int {
        usize::MAX as int
    }

    proof fn lemma_max_unset_index_in_range() {
    }

    proof fn lemma_beyond_limit_set(&self, i: int) {
    }

    fn max_unset_index() -> (r: usize) {
        usize::MAX
    }
}

impl BitUnset for u16 {
    open spec fn spec_can_unset(i: int) -> bool {
        true
    }

    fn unset_unchecked(&mut self, idx: usize) {
        if idx < 16 {
            *self = *self & !(1u16 << (idx as u16));
            proof {
                assert forall|i: int|
                    idx_in_range(i) implies self.spec_test(i) == (old(self).spec_test(i) && i
                    != idx as int) by {
                    if 0 <= i < 16 {
                        lemma_u16_bit_unset(*old(self), idx as u16, i as u16);
                    }
                }
            }
        }
    }
}

impl BitSearch for u16 {
    fn find_first_set(&self, lower_bound: usize) -> (r: Option<usize>) {
        let mut k: usize = lower_bound;
        while k < 16
            invariant
                lower_bound <= k,
                forall|i: int| lower_bound as int <= i < k as int ==> !self.spec_test(i),
            decreases 16 - k,
        {
            if ((*self >> (k as u16)) & 1u16) == 1u16 {
                return Some(k);
            }
            k = k + 1;
        }
        None
    }
}

impl BitComplement for u16 {
    type Output = Complement<u16>;

    fn complement(self) -> (r: Complement<Self>) {
        Complement(self)
    }
}

impl BitUnion for u16 {
    type Output = Self;

    fn union(self, rhs: Self) -> (r: Self) {
        let r = self | rhs;
        proof {
            assert forall|i: int|
                idx_in_range(i) implies r.spec_test(i) == (self.spec_test(i) || rhs.spec_test(
                i,
            )) by {
                if 0 <= i < 16 {
                    lemma_u16_bit_or(self, rhs, i as u16);
                }
            }
        }
        r
    }
}

impl BitUnion<Complement<u16>> for u16 {
    type Output = Complement<Self>;

    /// The rewrite `a.union(complement(b)) == complement(b.difference(a))`,
    /// computed eagerly on the wrapped word.
    fn union(self, rhs: Complement<Self>) -> (r: Complement<Self>) {
        let inner = rhs.0 & !self;
        proof {
            assert forall|i: int|
                idx_in_range(i) implies (!inner.spec_test(i)) == (self.spec_test(i)
                || !rhs.0.spec_test(i)) by {
                if 0 <= i < 16 {
                    lemma_u16_bit_and(rhs.0, !self, i as u16);
                    lemma_u16_bit_not(self, i as u16);
                }
            }
        }
        Complement(inner)
    }
}

impl BitIntersection for u16 {
    type Output = Self;

    fn intersection(self, rhs: Self) -> (r: Self) {
        let r = self & rhs;
        proof {
            assert forall|i: int|
                idx_in_range(i) implies r.spec_test(i) == (self.spec_test(i) && rhs.spec_test(
                i,
            )) by {
                if 0 <= i < 16 {
                    lemma_u16_bit_and(self, rhs, i as u16);
                }
            }
        }
        r
    }
}

impl BitIntersection<Complement<u16>> for u16 {
    type Output = Self;

    /// The rewrite `a.intersection(complement(b)) == a.difference(b)`,
    /// computed eagerly on the wrapped word.
    fn intersection(self, rhs: Complement<Self>) -> (r: Self) {
        let r = self & !rhs.0;
        proof {
            assert forall|i: int|
                idx_in_range(i) implies r.spec_test(i) == (self.spec_test(i)
                && !rhs.0.spec_test(i)) by {
                if 0 <= i < 16 {
                    lemma_u16_bit_and(self, !rhs.0, i as u16);
                    lemma_u16_bit_not(rhs.0, i as u16);
                }
            }
        }
        r
    }
}

impl BitDifference for u16 {
    type Output = Self;

    fn difference(self, rhs: Self) -> (r: Self) {
        let r = self & !rhs;
        proof {
            assert forall|i: int|
                idx_in_range(i) implies r.spec_test(i) == (self.spec_test(i) && !rhs.spec_test(
                i,
            )) by {
                if 0 <= i < 16 {
                    lemma_u16_bit_and(self, !rhs, i as u16);
                    lemma_u16_bit_not(rhs, i as u16);
                }
            }
        }
        r
    }
}

impl BitDifference<Complement<u16>> for u16 {
    type Output = Self;

    /// The rewrite `a.difference(complement(b)) == a.intersection(b)`,
    /// computed eagerly on the wrapped word.
    fn difference(self, rhs: Complement<Self>) -> (r: Self) {
        let r = self & rhs.0;
        proof {
            assert forall|i: int|
                idx_in_range(i) implies r.spec_test(i) == (self.spec_test(i) && rhs.0.spec_test(
                i,
            )) by {
                if 0 <= i < 16 {
                    lemma_u16_bit_and(self, rhs.0, i as u16);
                }
            }
        }
        r
    }
}

impl BitSubset for u16 {
    fn is_subset_of(&self, rhs: &Self) -> (r: bool) {
        let d = *self & !*rhs;
        let r = d == 0;
        proof {
            if r {
                assert forall|i: int|
                    idx_in_range(i) && self.spec_test(i) implies rhs.spec_test(i) by {
                    lemma_u16_bit_and(*self, !*rhs, i as u16);
                    lemma_u16_bit_not(*rhs, i as u16);
                    lemma_u16_zero_bit(i as u16);
                }
            } else {
                let k = lemma_u16_nonzero_has_bit(d);
                lemma_u16_bit_and(*self, !*rhs, k);
                lemma_u16_bit_not(*rhs, k);
                assert(self.spec_test(k as int) && !rhs.spec_test(k as int));
            }
        }
        r
    }
}

impl BitSubset<Complement<u16>> for u16 {
    fn is_subset_of(&self, rhs: &Complement<Self>) -> (r: bool) {
        let d = *self & rhs.0;
        let r = d == 0;
        proof {
            if r {
                assert forall|i: int|
                    idx_in_range(i) && self.spec_test(i) implies rhs.spec_test(i) by {
                    lemma_u16_bit_and(*self, rhs.0, i as u16);
                    lemma_u16_zero_bit(i as u16);
                }
            } else {
                let k = lemma_u16_nonzero_has_bit(d);
                lemma_u16_bit_and(*self, rhs.0, k);
                assert(self.spec_test(k as int) && !rhs.spec_test(k as int));
            }
        }
        r
    }
}

impl BitDisjoint for u16 {
    fn is_disjoint(&self, rhs: &Self) -> (r: bool) {
        let d = *self & *rhs;
        let r = d == 0;
        proof {
            if r {
                assert forall|i: int|
                    idx_in_range(i) implies !(self.spec_test(i) && rhs.spec_test(i)) by {
                    if 0 <= i < 16 {
                        lemma_u16_bit_and(*self, *rhs, i as u16);
                        lemma_u16_zero_bit(i as u16);
                    }
                }
            } else {
                let k = lemma_u16_nonzero_has_bit(d);
                lemma_u16_bit_and(*self, *rhs, k);
                assert(self.spec_test(k as int) && rhs.spec_test(k as int));
            }
        }
        r
    }
}

impl BitDisjoint<Complement<u16>> for u16 {
    fn is_disjoint(&self, rhs: &Complement<Self>) -> (r: bool) {
        let d = *self & !rhs.0;
        let r = d == 0;
        proof {
            if r {
                assert forall|i: int|
                    idx_in_range(i) implies !(self.spec_test(i) && rhs.spec_test(i)) by {
                    if 0 <= i < 16 {
                        lemma_u16_bit_and(*self, !rhs.0, i as u16);
                        lemma_u16_bit_not(rhs.0, i as u16);
                        lemma_u16_zero_bit(i as u16);
                    }
                }
            } else {
                let k = lemma_u16_nonzero_has_bit(d);
                lemma_u16_bit_and(*self, !rhs.0, k);
                lemma_u16_bit_not(rhs.0, k);
                assert(self.spec_test(k as int) && rhs.spec_test(k as int));
            }
        }
        r
    }
}

proof fn lemma_u32_bit_or(a: u32, b: u32, j: u32)
    by (bit_vector)
    requires
        j < 32,
    ensures
        ((((a | b) >> j) & 1u32) == 1u32) == ((((a >> j) & 1u32) == 1u32) || (((b >> j) & 1u32)
            == 1u32)),
{
}

proof fn lemma_u32_bit_and(a: u32, b: u32, j: u32)
    by (bit_vector)
    requires
        j < 32,
    ensures
        ((((a & b) >> j) & 1u32) == 1u32) == ((((a >> j) & 1u32) == 1u32) && (((b >> j) & 1u32)
            == 1u32)),
{
}

proof fn lemma_u32_bit_not(a: u32, j: u32)
    by (bit_vector)
    requires
        j < 32,
    ensures
        ((((!a) >> j) & 1u32) == 1u32) == ((((a >> j) & 1u32) == 1u32) == false),
{
}

proof fn lemma_u32_bit_set(a: u32, k: u32, j: u32)
    by (bit_vector)
    requires
        j < 32,
        k < 32,
    ensures
        ((((a | (1u32 << k)) >> j) & 1u32) == 1u32) == ((((a >> j) & 1u32) == 1u32) || j == k),
{
}

proof fn lemma_u32_bit_unset(a: u32, k: u32, j: u32)
    by (bit_vector)
    requires
        j < 32,
        k < 32,
    ensures
        ((((a & !(1u32 << k)) >> j) & 1u32) == 1u32) == ((((a >> j) & 1u32) == 1u32) && j != k),
{
}

proof fn lemma_u32_zero_bit(j: u32)
    by (bit_vector)
    ensures
        ((0u32 >> j) & 1u32) != 1u32,
{
}

proof fn lemma_u32_nonzero_bit(a: u32, n: u32) -> (j: u32)
    requires
        n < 32,
        (a >> n) != 0,
    ensures
        n <= j < 32,
        ((a >> j) & 1u32) == 1u32,
    decreases 32 - n,
{
    if ((a >> n) & 1u32) == 1u32 {
        n
    } else {
        assert(n < 31 && (a >> ((n + 1) as u32)) != 0) by (bit_vector)
            requires
                n < 32,
                (a >> n) != 0,
                ((a >> n) & 1u32) != 1u32,
        ;
        lemma_u32_nonzero_bit(a, (n + 1) as u32)
    }
}

proof fn lemma_u32_nonzero_has_bit(a: u32) -> (j: u32)
    requires
        a != 0,
    ensures
        j < 32,
        ((a >> j) & 1u32) == 1u32,
{
    assert((a >> 0u32) != 0) by (bit_vector)
        requires
            a != 0,
    ;
    lemma_u32_nonzero_bit(a, 0)
}

impl BitTest for u32 {
    open spec fn wf(&self) -> bool {
        true
    }

    open spec fn spec_test(&self, i: int) -> bool {
        0 <= i < 32 && ((*self >> (i as u32)) & 1u32) == 1u32
    }

    fn test(&self, idx: usize) -> (r: bool) {
        if idx < 32 {
            ((*self >> (idx as u32)) & 1u32) == 1u32
        } else {
            false
        }
    }
}

impl BitEmpty for u32 {
    fn empty() -> (r: Self) {
        proof {
            assert forall|i: int| idx_in_range(i) implies !(0u32).spec_test(i) by {
                if 0 <= i < 32 {
                    lemma_u32_zero_bit(i as u32);
                }
            }
        }
        0
    }
}

impl BitTestAll for u32 {
    fn test_all(&self) -> (r: bool) {
        // A fixed-width word never covers every representable index: the bit
        // just past the width is always unset.
        proof {
            assert(!self.spec_test(32));
        }
        false
    }
}

impl BitTestNone for u32 {
    fn test_none(&self) -> (r: bool) {
        let r = *self == 0;
        proof {
            if r {
                assert forall|i: int| idx_in_range(i) implies !self.spec_test(i) by {
                    if 0 <= i < 32 {
                        lemma_u32_zero_bit(i as u32);
                    }
                }
            } else {
                let k = lemma_u32_nonzero_has_bit(*self);
                assert(self.spec_test(k as int));
            }
        }
        r
    }
}

impl BitSetLimit for u32 {
    open spec fn spec_max_set_index() -> int {
        31
    }

    proof fn lemma_max_set_index_in_range() {
    }

    proof fn lemma_beyond_limit_unset(&self, i: int) {
    }

    fn max_set_index() -> (r: usize) {
        31
    }
}

impl BitSet for u32 {
    open spec fn spec_can_set(i: int) -> bool {
        0 <= i < 32
    }

    fn set_unchecked(&mut self, idx: usize) {
        *self = *self | (1u32 << (idx as u32));
        proof {
            assert forall|i: int|
                idx_in_range(i) implies self.spec_test(i) == (old(self).spec_test(i) || i
                == idx as int) by {
                if 0 <= i < 32 {
                    lemma_u32_bit_set(*old(self), idx as u32, i as u32);
                }
            }
        }
    }
}

impl BitUnsetLimit for u32 {
    open spec fn spec_max_unset_index() -> int {
        usize::MAX as int
    }

    proof fn lemma_max_unset_index_in_range() {
    }

    proof fn lemma_beyond_limit_set(&self, i: int) {
    }

    fn max_unset_index() -> (r: usize) {
        usize::MAX
    }
}

impl BitUnset for u32 {
    open spec fn spec_can_unset(i: int) -> bool {
        true
    }

    fn unset_unchecked(&mut self, idx: usize) {
        if idx < 32 {
            *self = *self & !(1u32 << (idx as u32));
            proof {
                assert forall|i: int|
                    idx_in_range(i) implies self.spec_test(i) == (old(self).spec_test(i) && i
                    != idx as int) by {
                    if 0 <= i < 32 {
                        lemma_u32_bit_unset(*old(self), idx as u32, i as u32);
                    }
                }
            }
        }
    }
}

impl BitSearch for u32 {
    fn find_first_set(&self, lower_bound: usize) -> (r: Option<usize>) {
        let mut k: usize = lower_bound;
        while k < 32
            invariant
                lower_bound <= k,
                forall|i: int| lower_bound as int <= i < k as int ==> !self.spec_test(i),
            decreases 32 - k,
        {
            if ((*self >> (k as u32)) & 1u32) == 1u32 {
                return Some(k);
            }
            k = k + 1;
        }
        None
    }
}

impl BitComplement for u32 {
    type Output = Complement<u32>;

    fn complement(self) -> (r: Complement<Self>) {
        Complement(self)
    }
}

impl BitUnion for u32 {
    type Output = Self;

    fn union(self, rhs: Self) -> (r: Self) {
        let r = self | rhs;
        proof {
            assert forall|i: int|
                idx_in_range(i) implies r.spec_test(i) == (self.spec_test(i) || rhs.spec_test(
                i,
            )) by {
                if 0 <= i < 32 {
                    lemma_u32_bit_or(self, rhs, i as u32);
                }
            }
        }
        r
    }
}

impl BitUnion<Complement<u32>> for u32 {
    type Output = Complement<Self>;

    /// The rewrite `a.union(complement(b)) == complement(b.difference(a))`,
    /// computed eagerly on the wrapped word.
    fn union(self, rhs: Complement<Self>) -> (r: Complement<Self>) {
        let inner = rhs.0 & !self;
        proof {
            assert forall|i: int|
                idx_in_range(i) implies (!inner.spec_test(i)) == (self.spec_test(i)
                || !rhs.0.spec_test(i)) by {
                if 0 <= i < 32 {
                    lemma_u32_bit_and(rhs.0, !self, i as u32);
                    lemma_u32_bit_not(self, i as u32);
                }
            }
        }
        Complement(inner)
    }
}

impl BitIntersection for u32 {
    type Output = Self;

    fn intersection(self, rhs: Self) -> (r: Self) {
        let r = self & rhs;
        proof {
            assert forall|i: int|
                idx_in_range(i) implies r.spec_test(i) == (self.spec_test(i) && rhs.spec_test(
                i,
            )) by {
                if 0 <= i < 32 {
                    lemma_u32_bit_and(self, rhs, i as u32);
                }
            }
        }
        r
    }
}

impl BitIntersection<Complement<u32>> for u32 {
    type Output = Self;

    /// The rewrite `a.intersection(complement(b)) == a.difference(b)`,
    /// computed eagerly on the wrapped word.
    fn intersection(self, rhs: Complement<Self>) -> (r: Self) {
        let r = self & !rhs.0;
        proof {
            assert forall|i: int|
                idx_in_range(i) implies r.spec_test(i) == (self.spec_test(i)
                && !rhs.0.spec_test(i)) by {
                if 0 <= i < 32 {
                    lemma_u32_bit_and(self, !rhs.0, i as u32);
                    lemma_u32_bit_not(rhs.0, i as u32);
                }
            }
        }
        r
    }
}

impl BitDifference for u32 {
    type Output = Self;

    fn difference(self, rhs: Self) -> (r: Self) {
        let r = self & !rhs;
        proof {
            assert forall|i: int|
                idx_in_range(i) implies r.spec_test(i) == (self.spec_test(i) && !rhs.spec_test(
                i,
            )) by {
                if 0 <= i < 32 {
                    lemma_u32_bit_and(self, !rhs, i as u32);
                    lemma_u32_bit_not(rhs, i as u32);
                }
            }
        }
        r
    }
}

impl BitDifference<Complement<u32>> for u32 {
    type Output = Self;

    /// The rewrite `a.difference(complement(b)) == a.intersection(b)`,
    /// computed eagerly on the wrapped word.
    fn difference(self, rhs: Complement<Self>) -> (r: Self) {
        let r = self & rhs.0;
        proof {
            assert forall|i: int|
                idx_in_range(i) implies r.spec_test(i) == (self.spec_test(i) && rhs.0.spec_test(
                i,
            )) by {
                if 0 <= i < 32 {
                    lemma_u32_bit_and(self, rhs.0, i as u32);
                }
            }
        }
        r
    }
}

impl BitSubset for u32 {
    fn is_subset_of(&self, rhs: &Self) -> (r: bool) {
        let d = *self & !*rhs;
        let r = d == 0;
        proof {
            if r {
                assert forall|i: int|
                    idx_in_range(i) && self.spec_test(i) implies rhs.spec_test(i) by {
                    lemma_u32_bit_and(*self, !*rhs, i as u32);
                    lemma_u32_bit_not(*rhs, i as u32);
                    lemma_u32_zero_bit(i as u32);
                }
            } else {
                let k = lemma_u32_nonzero_has_bit(d);
                lemma_u32_bit_and(*self, !*rhs, k);
                lemma_u32_bit_not(*rhs, k);
                assert(self.spec_test(k as int) && !rhs.spec_test(k as int));
            }
        }
        r
    }
}

impl BitSubset<Complement<u32>> for u32 {
    fn is_subset_of(&self, rhs: &Complement<Self>) -> (r: bool) {
        let d = *self & rhs.0;
        let r = d == 0;
        proof {
            if r {
                assert forall|i: int|
                    idx_in_range(i) && self.spec_test(i) implies rhs.spec_test(i) by {
                    lemma_u32_bit_and(*self, rhs.0, i as u32);
                    lemma_u32_zero_bit(i as u32);
                }
            } else {
                let k = lemma_u32_nonzero_has_bit(d);
                lemma_u32_bit_and(*self, rhs.0, k);
                assert(self.spec_test(k as int) && !rhs.spec_test(k as int));
            }
        }
        r
    }
}

impl BitDisjoint for u32 {
    fn is_disjoint(&self, rhs: &Self) -> (r: bool) {
        let d = *self & *rhs;
        let r = d == 0;
        proof {
            if r {
                assert forall|i: int|
                    idx_in_range(i) implies !(self.spec_test(i) && rhs.spec_test(i)) by {
                    if 0 <= i < 32 {
                        lemma_u32_bit_and(*self, *rhs, i as u32);
                        lemma_u32_zero_bit(i as u32);
                    }
                }
            } else {
                let k = lemma_u32_nonzero_has_bit(d);
                lemma_u32_bit_and(*self, *rhs, k);
                assert(self.spec_test(k as int) && rhs.spec_test(k as int));
            }
        }
        r
    }
}

impl BitDisjoint<Complement<u32>> for u32 {
    fn is_disjoint(&self, rhs: &Complement<Self>) -> (r: bool) {
        let d = *self & !rhs.0;
        let r = d == 0;
        proof {
            if r {
                assert forall|i: int|
                    idx_in_range(i) implies !(self.spec_test(i) && rhs.spec_test(i)) by {
                    if 0 <= i < 32 {
                        lemma_u32_bit_and(*self, !rhs.0, i as u32);
                        lemma_u32_bit_not(rhs.0, i as u32);
                        lemma_u32_zero_bit(i as u32);
                    }
                }
            } else {
                let k = lemma_u32_nonzero_has_bit(d);
                lemma_u32_bit_and(*self, !rhs.0, k);
                lemma_u32_bit_not(rhs.0, k);
                assert(self.spec_test(k as int) && rhs.spec_test(k as int));
            }
        }
        r
    }
}

proof fn lemma_u64_bit_or(a: u64, b: u64, j: u64)
    by (bit_vector)
    requires
        j < 64,
    ensures
        ((((a | b) >> j) & 1u64) == 1u64) == ((((a >> j) & 1u64) == 1u64) || (((b >> j) & 1u64)
            == 1u64)),
{
}

proof fn lemma_u64_bit_and(a: u64, b: u64, j: u64)
    by (bit_vector)
    requires
        j < 64,
    ensures
        ((((a & b) >> j) & 1u64) == 1u64) == ((((a >> j) & 1u64) == 1u64) && (((b >> j) & 1u64)
            == 1u64)),
{
}

proof fn lemma_u64_bit_not(a: u64, j: u64)
    by (bit_vector)
    requires
        j < 64,
    ensures
        ((((!a) >> j) & 1u64) == 1u64) == ((((a >> j) & 1u64) == 1u64) == false),
{
}

proof fn lemma_u64_bit_set(a: u64, k: u64, j: u64)
    by (bit_vector)
    requires
        j < 64,
        k < 64,
    ensures
        ((((a | (1u64 << k)) >> j) & 1u64) == 1u64) == ((((a >> j) & 1u64) == 1u64) || j == k),
{
}

proof fn lemma_u64_bit_unset(a: u64, k: u64, j: u64)
    by (bit_vector)
    requires
        j < 64,
        k < 64,
    ensures
        ((((a & !(1u64 << k)) >> j) & 1u64) == 1u64) == ((((a >> j) & 1u64) == 1u64) && j != k),
{
}

proof fn lemma_u64_zero_bit(j: u64)
    by (bit_vector)
    ensures
        ((0u64 >> j) & 1u64) != 1u64,
{
}

proof fn lemma_u64_nonzero_bit(a: u64, n: u64) -> (j: u64)
    requires
        n < 64,
        (a >> n) != 0,
    ensures
        n <= j < 64,
        ((a >> j) & 1u64) == 1u64,
    decreases 64 - n,
{
    if ((a >> n) & 1u64) == 1u64 {
        n
    } else {
        assert(n < 63 && (a >> ((n + 1) as u64)) != 0) by (bit_vector)
            requires
                n < 64,
                (a >> n) != 0,
                ((a >> n) & 1u64) != 1u64,
        ;
        lemma_u64_nonzero_bit(a, (n + 1) as u64)
    }
}

proof fn lemma_u64_nonzero_has_bit(a: u64) -> (j: u64)
    requires
        a != 0,
    ensures
        j < 64,
        ((a >> j) & 1u64) == 1u64,
{
    assert((a >> 0u64) != 0) by (bit_vector)
        requires
            a != 0,
    ;
    lemma_u64_nonzero_bit(a, 0)
}

impl BitTest for u64 {
    open spec fn wf(&self) -> bool {
        true
    }

    open spec fn spec_test(&self, i: int) -> bool {
        0 <= i < 64 && ((*self >> (i as u64)) & 1u64) == 1u64
    }

    fn test(&self, idx: usize) -> (r: bool) {
        if idx < 64 {
            ((*self >> (idx as u64)) & 1u64) == 1u64
        } else {
            false
        }
    }
}

impl BitEmpty for u64 {
    fn empty() -> (r: Self) {
        proof {
            assert forall|i: int| idx_in_range(i) implies !(0u64).spec_test(i) by {
                if 0 <= i < 64 {
                    lemma_u64_zero_bit(i as u64);
                }
            }
        }
        0
    }
}

impl BitTestAll for u64 {
    fn test_all(&self) -> (r: bool) {
        // A fixed-width word never covers every representable index: the bit
        // just past the width is always unset.
        proof {
            assert(!self.spec_test(64));
        }
        false
    }
}

impl BitTestNone for u64 {
    fn test_none(&self) -> (r: bool) {
        let r = *self == 0;
        proof {
            if r {
                assert forall|i: int| idx_in_range(i) implies !self.spec_test(i) by {
                    if 0 <= i < 64 {
                        lemma_u64_zero_bit(i as u64);
                    }
                }
            } else {
                let k = lemma_u64_nonzero_has_bit(*self);
                assert(self.spec_test(k as int));
            }
        }
        r
    }
}

impl BitSetLimit for u64 {
    open spec fn spec_max_set_index() -> int {
        63
    }

    proof fn lemma_max_set_index_in_range() {
    }

    proof fn lemma_beyond_limit_unset(&self, i: int) {
    }

    fn max_set_index() -> (r: usize) {
        63
    }
}

impl BitSet for u64 {
    open spec fn spec_can_set(i: int) -> bool {
        0 <= i < 64
    }

    fn set_unchecked(&mut self, idx: usize) {
        *self = *self | (1u64 << (idx as u64));
        proof {
            assert forall|i: int|
                idx_in_range(i) implies self.spec_test(i) == (old(self).spec_test(i) || i
                == idx as int) by {
                if 0 <= i < 64 {
                    lemma_u64_bit_set(*old(self), idx as u64, i as u64);
                }
            }
        }
    }
}

impl BitUnsetLimit for u64 {
    open spec fn spec_max_unset_index() -> int {
        usize::MAX as int
    }

    proof fn lemma_max_unset_index_in_range() {
    }

    proof fn lemma_beyond_limit_set(&self, i: int) {
    }

    fn max_unset_index() -> (r: usize) {
        usize::MAX
    }
}

impl BitUnset for u64 {
    open spec fn spec_can_unset(i: int) -> bool {
        true
    }

    fn unset_unchecked(&mut self, idx: usize) {
        if idx < 64 {
            *self = *self & !(1u64 << (idx as u64));
            proof {
                assert forall|i: int|
                    idx_in_range(i) implies self.spec_test(i) == (old(self).spec_test(i) && i
                    != idx as int) by {
                    if 0 <= i < 64 {
                        lemma_u64_bit_unset(*old(self), idx as u64, i as u64);
                    }
                }
            }
        }
    }
}

impl BitSearch for u64 {
    fn find_first_set(&self, lower_bound: usize) -> (r: Option<usize>) {
        let mut k: usize = lower_bound;
        while k < 64
            invariant
                lower_bound <= k,
                forall|i: int| lower_bound as int <= i < k as int ==> !self.spec_test(i),
            decreases 64 - k,
        {
            if ((*self >> (k as u64)) & 1u64) == 1u64 {
                return Some(k);
            }
            k = k + 1;
        }
        None
    }
}

impl BitComplement for u64 {
    type Output = Complement<u64>;

    fn complement(self) -> (r: Complement<Self>) {
        Complement(self)
    }
}

impl BitUnion for u64 {
    type Output = Self;

    fn union(self, rhs: Self) -> (r: Self) {
        let r = self | rhs;
        proof {
            assert forall|i: int|
                idx_in_range(i) implies r.spec_test(i) == (self.spec_test(i) || rhs.spec_test(
                i,
            )) by {
                if 0 <= i < 64 {
                    lemma_u64_bit_or(self, rhs, i as u64);
                }
            }
        }
        r
    }
}

impl BitUnion<Complement<u64>> for u64 {
    type Output = Complement<Self>;

    /// The rewrite `a.union(complement(b)) == complement(b.difference(a))`,
    /// computed eagerly on the wrapped word.
    fn union(self, rhs: Complement<Self>) -> (r: Complement<Self>) {
        let inner = rhs.0 & !self;
        proof {
            assert forall|i: int|
                idx_in_range(i) implies (!inner.spec_test(i)) == (self.spec_test(i)
                || !rhs.0.spec_test(i)) by {
                if 0 <= i < 64 {
                    lemma_u64_bit_and(rhs.0, !self, i as u64);
                    lemma_u64_bit_not(self, i as u64);
                }
            }
        }
        Complement(inner)
    }
}

impl BitIntersection for u64 {
    type Output = Self;

    fn intersection(self, rhs: Self) -> (r: Self) {
        let r = self & rhs;
        proof {
            assert forall|i: int|
                idx_in_range(i) implies r.spec_test(i) == (self.spec_test(i) && rhs.spec_test(
                i,
            )) by {
                if 0 <= i < 64 {
                    lemma_u64_bit_and(self, rhs, i as u64);
                }
            }
        }
        r
    }
}

impl BitIntersection<Complement<u64>> for u64 {
    type Output = Self;

    /// The rewrite `a.intersection(complement(b)) == a.difference(b)`,
    /// computed eagerly on the wrapped word.
    fn intersection(self, rhs: Complement<Self>) -> (r: Self) {
        let r = self & !rhs.0;
        proof {
            assert forall|i: int|
                idx_in_range(i) implies r.spec_test(i) == (self.spec_test(i)
                && !rhs.0.spec_test(i)) by {
                if 0 <= i < 64 {
                    lemma_u64_bit_and(self, !rhs.0, i as u64);
                    lemma_u64_bit_not(rhs.0, i as u64);
                }
            }
        }
        r
    }
}

impl BitDifference for u64 {
    type Output = Self;

    fn difference(self, rhs: Self) -> (r: Self) {
        let r = self & !rhs;
        proof {
            assert forall|i: int|
                idx_in_range(i) implies r.spec_test(i) == (self.spec_test(i) && !rhs.spec_test(
                i,
            )) by {
                if 0 <= i < 64 {
                    lemma_u64_bit_and(self, !rhs, i as u64);
                    lemma_u64_bit_not(rhs, i as u64);
                }
            }
        }
        r
    }
}

impl BitDifference<Complement<u64>> for u64 {
    type Output = Self;

    /// The rewrite `a.difference(complement(b)) == a.intersection(b)`,
    /// computed eagerly on the wrapped word.
    fn difference(self, rhs: Complement<Self>) -> (r: Self) {
        let r = self & rhs.0;
        proof {
            assert forall|i: int|
                idx_in_range(i) implies r.spec_test(i) == (self.spec_test(i) && rhs.0.spec_test(
                i,
            )) by {
                if 0 <= i < 64 {
                    lemma_u64_bit_and(self, rhs.0, i as u64);
                }
            }
        }
        r
    }
}

impl BitSubset for u64 {
    fn is_subset_of(&self, rhs: &Self) -> (r: bool) {
        let d = *self & !*rhs;
        let r = d == 0;
        proof {
            if r {
                assert forall|i: int|
                    idx_in_range(i) && self.spec_test(i) implies rhs.spec_test(i) by {
                    lemma_u64_bit_and(*self, !*rhs, i as u64);
                    lemma_u64_bit_not(*rhs, i as u64);
                    lemma_u64_zero_bit(i as u64);
                }
            } else {
                let k = lemma_u64_nonzero_has_bit(d);
                lemma_u64_bit_and(*self, !*rhs, k);
                lemma_u64_bit_not(*rhs, k);
                assert(self.spec_test(k as int) && !rhs.spec_test(k as int));
            }
        }
        r
    }
}

impl BitSubset<Complement<u64>> for u64 {
    fn is_subset_of(&self, rhs: &Complement<Self>) -> (r: bool) {
        let d = *self & rhs.0;
        let r = d == 0;
        proof {
            if r {
                assert forall|i: int|
                    idx_in_range(i) && self.spec_test(i) implies rhs.spec_test(i) by {
                    lemma_u64_bit_and(*self, rhs.0, i as u64);
                    lemma_u64_zero_bit(i as u64);
                }
            } else {
                let k = lemma_u64_nonzero_has_bit(d);
                lemma_u64_bit_and(*self, rhs.0, k);
                assert(self.spec_test(k as int) && !rhs.spec_test(k as int));
            }
        }
        r
    }
}

impl BitDisjoint for u64 {
    fn is_disjoint(&self, rhs: &Self) -> (r: bool) {
        let d = *self & *rhs;
        let r = d == 0;
        proof {
            if r {
                assert forall|i: int|
                    idx_in_range(i) implies !(self.spec_test(i) && rhs.spec_test(i)) by {
                    if 0 <= i < 64 {
                        lemma_u64_bit_and(*self, *rhs, i as u64);
                        lemma_u64_zero_bit(i as u64);
                    }
                }
            } else {
                let k = lemma_u64_nonzero_has_bit(d);
                lemma_u64_bit_and(*self, *rhs, k);
                assert(self.spec_test(k as int) && rhs.spec_test(k as int));
            }
        }
        r
    }
}

impl BitDisjoint<Complement<u64>> for u64 {
    fn is_disjoint(&self, rhs: &Complement<Self>) -> (r: bool) {
        let d = *self & !rhs.0;
        let r = d == 0;
        proof {
            if r {
                assert forall|i: int|
                    idx_in_range(i) implies !(self.spec_test(i) && rhs.spec_test(i)) by {
                    if 0 <= i < 64 {
                        lemma_u64_bit_and(*self, !rhs.0, i as u64);
                        lemma_u64_bit_not(rhs.0, i as u64);
                        lemma_u64_zero_bit(i as u64);
                    }
                }
            } else {
                let k = lemma_u64_nonzero_has_bit(d);
                lemma_u64_bit_and(*self, !rhs.0, k);
                lemma_u64_bit_not(rhs.0, k);
                assert(self.spec_test(k as int) && rhs.spec_test(k as int));
            }
        }
        r
    }
}

proof fn lemma_u128_bit_or(a: u128, b: u128, j: u128)
    by (bit_vector)
    requires
        j < 128,
    ensures
        ((((a | b) >> j) & 1u128) == 1u128) == ((((a >> j) & 1u128) == 1u128) || (((b >> j) & 1u128)
            == 1u128)),
{
}

proof fn lemma_u128_bit_and(a: u128, b: u128, j: u128)
    by (bit_vector)
    requires
        j < 128,
    ensures
        ((((a & b) >> j) & 1u128) == 1u128) == ((((a >> j) & 1u128) == 1u128) && (((b >> j) & 1u128)
            == 1u128)),
{
}

proof fn lemma_u128_bit_not(a: u128, j: u128)
    by (bit_vector)
    requires
        j < 128,
    ensures
        ((((!a) >> j) & 1u128) == 1u128) == ((((a >> j) & 1u128) == 1u128) == false),
{
}

proof fn lemma_u128_bit_set(a: u128, k: u128, j: u128)
    by (bit_vector)
    requires
        j < 128,
        k < 128,
    ensures
        ((((a | (1u128 << k)) >> j) & 1u128) == 1u128) == ((((a >> j) & 1u128) == 1u128) || j == k),
{
}

proof fn lemma_u128_bit_unset(a: u128, k: u128, j: u128)
    by (bit_vector)
    requires
        j < 128,
        k < 128,
    ensures
        ((((a & !(1u128 << k)) >> j) & 1u128) == 1u128) == ((((a >> j) & 1u128) == 1u128) && j != k),
{
}

proof fn lemma_u128_zero_bit(j: u128)
    by (bit_vector)
    ensures
        ((0u128 >> j) & 1u128) != 1u128,
{
}

proof fn lemma_u128_nonzero_bit(a: u128, n: u128) -> (j: u128)
    requires
        n < 128,
        (a >> n) != 0,
    ensures
        n <= j < 128,
        ((a >> j) & 1u128) == 1u128,
    decreases 128 - n,
{
    if ((a >> n) & 1u128) == 1u128 {
        n
    } else {
        assert(n < 127 && (a >> ((n + 1) as u128)) != 0) by (bit_vector)
            requires
                n < 128,
                (a >> n) != 0,
                ((a >> n) & 1u128) != 1u128,
        ;
        lemma_u128_nonzero_bit(a, (n + 1) as u128)
    }
}

proof fn lemma_u128_nonzero_has_bit(a: u128) -> (j: u128)
    requires
        a != 0,
    ensures
        j < 128,
        ((a >> j) & 1u128) == 1u128,
{
    assert((a >> 0u128) != 0) by (bit_vector)
        requires
            a != 0,
    ;
    lemma_u128_nonzero_bit(a, 0)
}

impl BitTest for u128 {
    open spec fn wf(&self) -> bool {
        true
    }

    open spec fn spec_test(&self, i: int) -> bool {
        0 <= i < 128 && ((*self >> (i as u128)) & 1u128) == 1u128
    }

    fn test(&self, idx: usize) -> (r: bool) {
        if idx < 128 {
            ((*self >> (idx as u128)) & 1u128) == 1u128
        } else {
            false
        }
    }
}

impl BitEmpty for u128 {
    fn empty() -> (r: Self) {
        proof {
            assert forall|i: int| idx_in_range(i) implies !(0u128).spec_test(i) by {
                if 0 <= i < 128 {
                    lemma_u128_zero_bit(i as u128);
                }
            }
        }
        0
    }
}

impl BitTestAll for u128 {
    fn test_all(&self) -> (r: bool) {
        // A fixed-width word never covers every representable index: the bit
        // just past the width is always unset.
        proof {
            assert(!self.spec_test(128));
        }
        false
    }
}

impl BitTestNone for u128 {
    fn test_none(&self) -> (r: bool) {
        let r = *self == 0;
        proof {
            if r {
                assert forall|i: int| idx_in_range(i) implies !self.spec_test(i) by {
                    if 0 <= i < 128 {
                        lemma_u128_zero_bit(i as u128);
                    }
                }
            } else {
                let k = lemma_u128_nonzero_has_bit(*self);
                assert(self.spec_test(k as int));
            }
        }
        r
    }
}

impl BitSetLimit for u128 {
    open spec fn spec_max_set_index() -> int {
        127
    }

    proof fn lemma_max_set_index_in_range() {
    }

    proof fn lemma_beyond_limit_unset(&self, i: int) {
    }

    fn max_set_index() -> (r: usize) {
        127
    }
}

impl BitSet for u128 {
    open spec fn spec_can_set(i: int) -> bool {
        0 <= i < 128
    }

    fn set_unchecked(&mut self, idx: usize) {
        *self = *self | (1u128 << (idx as u128));
        proof {
            assert forall|i: int|
                idx_in_range(i) implies self.spec_test(i) == (old(self).spec_test(i) || i
                == idx as int) by {
                if 0 <= i < 128 {
                    lemma_u128_bit_set(*old(self), idx as u128, i as u128);
                }
            }
        }
    }
}

impl BitUnsetLimit for u128 {
    open spec fn spec_max_unset_index() -> int {
        usize::MAX as int
    }

    proof fn lemma_max_unset_index_in_range() {
    }

    proof fn lemma_beyond_limit_set(&self, i: int) {
    }

    fn max_unset_index() -> (r: usize) {
        usize::MAX
    }
}

impl BitUnset for u128 {
    open spec fn spec_can_unset(i: int) -> bool {
        true
    }

    fn unset_unchecked(&mut self, idx: usize) {
        if idx < 128 {
            *self = *self & !(1u128 << (idx as u128));
            proof {
                assert forall|i: int|
                    idx_in_range(i) implies self.spec_test(i) == (old(self).spec_test(i) && i
                    != idx as int) by {
                    if 0 <= i < 128 {
                        lemma_u128_bit_unset(*old(self), idx as u128, i as u128);
                    }
                }
            }
        }
    }
}

impl BitSearch for u128 {
    fn find_first_set(&self, lower_bound: usize) -> (r: Option<usize>) {
        let mut k: usize = lower_bound;
        while k < 128
            invariant
                lower_bound <= k,
                forall|i: int| lower_bound as int <= i < k as int ==> !self.spec_test(i),
            decreases 128 - k,
        {
            if ((*self >> (k as u128)) & 1u128) == 1u128 {
                return Some(k);
            }
            k = k + 1;
        }
        None
    }
}

impl BitComplement for u128 {
    type Output = Complement<u128>;

    fn complement(self) -> (r: Complement<Self>) {
        Complement(self)
    }
}

impl BitUnion for u128 {
    type Output = Self;

    fn union(self, rhs: Self) -> (r: Self) {
        let r = self | rhs;
        proof {
            assert forall|i: int|
                idx_in_range(i) implies r.spec_test(i) == (self.spec_test(i) || rhs.spec_test(
                i,
            )) by {
                if 0 <= i < 128 {
                    lemma_u128_bit_or(self, rhs, i as u128);
                }
            }
        }
        r
    }
}

impl BitUnion<Complement<u128>> for u128 {
    type Output = Complement<Self>;

    /// The rewrite `a.union(complement(b)) == complement(b.difference(a))`,
    /// computed eagerly on the wrapped word.
    fn union(self, rhs: Complement<Self>) -> (r: Complement<Self>) {
        let inner = rhs.0 & !self;
        proof {
            assert forall|i: int|
                idx_in_range(i) implies (!inner.spec_test(i)) == (self.spec_test(i)
                || !rhs.0.spec_test(i)) by {
                if 0 <= i < 128 {
                    lemma_u128_bit_and(rhs.0, !self, i as u128);
                    lemma_u128_bit_not(self, i as u128);
                }
            }
        }
        Complement(inner)
    }
}

impl BitIntersection for u128 {
    type Output = Self;

    fn intersection(self, rhs: Self) -> (r: Self) {
        let r = self & rhs;
        proof {
            assert forall|i: int|
                idx_in_range(i) implies r.spec_test(i) == (self.spec_test(i) && rhs.spec_test(
                i,
            )) by {
                if 0 <= i < 128 {
                    lemma_u128_bit_and(self, rhs, i as u128);
                }
            }
        }
        r
    }
}

impl BitIntersection<Complement<u128>> for u128 {
    type Output = Self;

    /// The rewrite `a.intersection(complement(b)) == a.difference(b)`,
    /// computed eagerly on the wrapped word.
    fn intersection(self, rhs: Complement<Self>) -> (r: Self) {
        let r = self & !rhs.0;
        proof {
            assert forall|i: int|
                idx_in_range(i) implies r.spec_test(i) == (self.spec_test(i)
                && !rhs.0.spec_test(i)) by {
                if 0 <= i < 128 {
                    lemma_u128_bit_and(self, !rhs.0, i as u128);
                    lemma_u128_bit_not(rhs.0, i as u128);
                }
            }
        }
        r
    }
}

impl BitDifference for u128 {
    type Output = Self;

    fn difference(self, rhs: Self) -> (r: Self) {
        let r = self & !rhs;
        proof {
            assert forall|i: int|
                idx_in_range(i) implies r.spec_test(i) == (self.spec_test(i) && !rhs.spec_test(
                i,
            )) by {
                if 0 <= i < 128 {
                    lemma_u128_bit_and(self, !rhs, i as u128);
                    lemma_u128_bit_not(rhs, i as u128);
                }
            }
        }
        r
    }
}

impl BitDifference<Complement<u128>> for u128 {
    type Output = Self;

    /// The rewrite `a.difference(complement(b)) == a.intersection(b)`,
    /// computed eagerly on the wrapped word.
    fn difference(self, rhs: Complement<Self>) -> (r: Self) {
        let r = self & rhs.0;
        proof {
            assert forall|i: int|
                idx_in_range(i) implies r.spec_test(i) == (self.spec_test(i) && rhs.0.spec_test(
                i,
            )) by {
                if 0 <= i < 128 {
                    lemma_u128_bit_and(self, rhs.0, i as u128);
                }
            }
        }
        r
    }
}

impl BitSubset for u128 {
    fn is_subset_of(&self, rhs: &Self) -> (r: bool) {
        let d = *self & !*rhs;
        let r = d == 0;
        proof {
            if r {
                assert forall|i: int|
                    idx_in_range(i) && self.spec_test(i) implies rhs.spec_test(i) by {
                    lemma_u128_bit_and(*self, !*rhs, i as u128);
                    lemma_u128_bit_not(*rhs, i as u128);
                    lemma_u128_zero_bit(i as u128);
                }
            } else {
                let k = lemma_u128_nonzero_has_bit(d);
                lemma_u128_bit_and(*self, !*rhs, k);
                lemma_u128_bit_not(*rhs, k);
                assert(self.spec_test(k as int) && !rhs.spec_test(k as int));
            }
        }
        r
    }
}

impl BitSubset<Complement<u128>> for u128 {
    fn is_subset_of(&self, rhs: &Complement<Self>) -> (r: bool) {
        let d = *self & rhs.0;
        let r = d == 0;
        proof {
            if r {
                assert forall|i: int|
                    idx_in_range(i) && self.spec_test(i) implies rhs.spec_test(i) by {
                    lemma_u128_bit_and(*self, rhs.0, i as u128);
                    lemma_u128_zero_bit(i as u128);
                }
            } else {
                let k = lemma_u128_nonzero_has_bit(d);
                lemma_u128_bit_and(*self, rhs.0, k);
                assert(self.spec_test(k as int) && !rhs.spec_test(k as int));
            }
        }
        r
    }
}

impl BitDisjoint for u128 {
    fn is_disjoint(&self, rhs: &Self) -> (r: bool) {
        let d = *self & *rhs;
        let r = d == 0;
        proof {
            if r {
                assert forall|i: int|
                    idx_in_range(i) implies !(self.spec_test(i) && rhs.spec_test(i)) by {
                    if 0 <= i < 128 {
                        lemma_u128_bit_and(*self, *rhs, i as u128);
                        lemma_u128_zero_bit(i as u128);
                    }
                }
            } else {
                let k = lemma_u128_nonzero_has_bit(d);
                lemma_u128_bit_and(*self, *rhs, k);
                assert(self.spec_test(k as int) && rhs.spec_test(k as int));
            }
        }
        r
    }
}

impl BitDisjoint<Complement<u128>> for u128 {
    fn is_disjoint(&self, rhs: &Complement<Self>) -> (r: bool) {
        let d = *self & !rhs.0;
        let r = d == 0;
        proof {
            if r {
                assert forall|i: int|
                    idx_in_range(i) implies !(self.spec_test(i) && rhs.spec_test(i)) by {
                    if 0 <= i < 128 {
                        lemma_u128_bit_and(*self, !rhs.0, i as u128);
                        lemma_u128_bit_not(rhs.0, i as u128);
                        lemma_u128_zero_bit(i as u128);
                    }
                }
            } else {
                let k = lemma_u128_nonzero_has_bit(d);
                lemma_u128_bit_and(*self, !rhs.0, k);
                lemma_u128_bit_not(rhs.0, k);
                assert(self.spec_test(k as int) && rhs.spec_test(k as int));
            }
        }
        r
    }
}

impl BitTest for bool {
    open spec fn wf(&self) -> bool {
        true
    }

    open spec fn spec_test(&self, i: int) -> bool {
        i == 0 && *self
    }

    fn test(&self, idx: usize) -> (r: bool) {
        if idx == 0 {
            *self
        } else {
            false
        }
    }
}

impl BitEmpty for bool {
    fn empty() -> (r: Self) {
        false
    }
}

impl BitTestAll for bool {
    fn test_all(&self) -> (r: bool) {
        // A single bit never covers every representable index.
        proof {
            assert(!self.spec_test(1));
        }
        false
    }
}

impl BitTestNone for bool {
    fn test_none(&self) -> (r: bool) {
        proof {
            if *self {
                assert(self.spec_test(0));
            }
        }
        !*self
    }
}

impl BitSetLimit for bool {
    open spec fn spec_max_set_index() -> int {
        0
    }

    proof fn lemma_max_set_index_in_range() {
    }

    proof fn lemma_beyond_limit_unset(&self, i: int) {
    }

    fn max_set_index() -> (r: usize) {
        0
    }
}

impl BitSet for bool {
    open spec fn spec_can_set(i: int) -> bool {
        i == 0
    }

    fn set_unchecked(&mut self, idx: usize) {
        *self = true;
    }
}

impl BitUnsetLimit for bool {
    open spec fn spec_max_unset_index() -> int {
        usize::MAX as int
    }

    proof fn lemma_max_unset_index_in_range() {
    }

    proof fn lemma_beyond_limit_set(&self, i: int) {
    }

    fn max_unset_index() -> (r: usize) {
        usize::MAX
    }
}

impl BitUnset for bool {
    open spec fn spec_can_unset(i: int) -> bool {
        true
    }

    fn unset_unchecked(&mut self, idx: usize) {
        if idx == 0 {
            *self = false;
        }
    }
}

impl BitSearch for bool {
    fn find_first_set(&self, lower_bound: usize) -> (r: Option<usize>) {
        if lower_bound == 0 && *self {
            Some(0)
        } else {
            None
        }
    }
}

impl BitComplement for bool {
    type Output = Complement<bool>;

    fn complement(self) -> (r: Complement<Self>) {
        Complement(self)
    }
}

impl BitUnion for bool {
    type Output = Self;

    fn union(self, rhs: Self) -> (r: Self) {
        self || rhs
    }
}

impl BitUnion<Complement<bool>> for bool {
    type Output = Complement<Self>;

    /// The rewrite `a.union(complement(b)) == complement(b.difference(a))`,
    /// computed eagerly on the wrapped bit.
    fn union(self, rhs: Complement<Self>) -> (r: Complement<Self>) {
        Complement(rhs.0 && !self)
    }
}

impl BitIntersection for bool {
    type Output = Self;

    fn intersection(self, rhs: Self) -> (r: Self) {
        self && rhs
    }
}

impl BitIntersection<Complement<bool>> for bool {
    type Output = Self;

    /// The rewrite `a.intersection(complement(b)) == a.difference(b)`,
    /// computed eagerly on the wrapped bit.
    fn intersection(self, rhs: Complement<Self>) -> (r: Self) {
        self && !rhs.0
    }
}

impl BitDifference for bool {
    type Output = Self;

    fn difference(self, rhs: Self) -> (r: Self) {
        self && !rhs
    }
}

impl BitDifference<Complement<bool>> for bool {
    type Output = Self;

    /// The rewrite `a.difference(complement(b)) == a.intersection(b)`,
    /// computed eagerly on the wrapped bit.
    fn difference(self, rhs: Complement<Self>) -> (r: Self) {
        self && rhs.0
    }
}

impl BitSubset for bool {
    fn is_subset_of(&self, rhs: &Self) -> (r: bool) {
        let r = !*self || *rhs;
        proof {
            if !r {
                assert(self.spec_test(0) && !rhs.spec_test(0));
            }
        }
        r
    }
}

impl BitSubset<Complement<bool>> for bool {
    fn is_subset_of(&self, rhs: &Complement<Self>) -> (r: bool) {
        let r = !*self || !rhs.0;
        proof {
            if !r {
                assert(self.spec_test(0) && !rhs.spec_test(0));
            }
        }
        r
    }
}

impl BitDisjoint for bool {
    fn is_disjoint(&self, rhs: &Self) -> (r: bool) {
        let r = !*self || !*rhs;
        proof {
            if !r {
                assert(self.spec_test(0) && rhs.spec_test(0));
            }
        }
        r
    }
}

impl BitDisjoint<Complement<bool>> for bool {
    fn is_disjoint(&self, rhs: &Complement<Self>) -> (r: bool) {
        let r = !*self || rhs.0;
        proof {
            if !r {
                assert(self.spec_test(0) && rhs.spec_test(0));
            }
        }
        r
    }
}

impl<const N: usize> BitTest for [u8; N] {
    open spec fn wf(&self) -> bool {
        true
    }

    open spec fn spec_test(&self, i: int) -> bool {
        &&& span_fits(N as int, 8)
        &&& 0 <= i
        &&& i / 8 < N as int
        &&& self@[i / 8].spec_test(i % 8)
    }

    fn test(&self, idx: usize) -> (r: bool) {
        if !span_fits_exec(N, 8) {
            return false;
        }
        let t = idx / 8;
        proof {
            lemma_parts(idx as int, 8);
        }
        if t >= N {
            return false;
        }
        let b = idx % 8;
        self[t].test(b)
    }
}

impl<const N: usize> BitEmpty for [u8; N] {
    fn empty() -> (r: Self) {
        let r = [0u8; N];
        proof {
            assert forall|i: int| idx_in_range(i) implies !r.spec_test(i) by {
                if 0 <= i && i / 8 < N as int {
                    lemma_parts(i, 8);
                    lemma_u8_zero_bit((i % 8) as u8);
                }
            }
        }
        r
    }
}

impl<const N: usize> BitTestAll for [u8; N] {
    fn test_all(&self) -> (r: bool) {
        // The array never covers every representable index: either its span
        // stops short of `usize::MAX`, or the span itself does not fit.
        proof {
            if span_fits(N as int, 8) {
                lemma_recompose(N as int, 0, 8);
                assert(!self.spec_test((N as int) * 8));
                assert(idx_in_range((N as int) * 8));
            } else {
                assert(!self.spec_test(0));
            }
        }
        false
    }
}

impl<const N: usize> BitTestNone for [u8; N] {
    fn test_none(&self) -> (r: bool) {
        if !span_fits_exec(N, 8) {
            return true;
        }
        let mut t: usize = 0;
        while t < N
            invariant
                t <= N,
                span_fits(N as int, 8),
                forall|i: int| 0 <= i < t as int * 8 ==> !self.spec_test(i),
            decreases N - t,
        {
            let w = self[t];
            if w != 0 {
                proof {
                    let k = lemma_u8_nonzero_has_bit(w);
                    lemma_recompose(t as int, k as int, 8);
                    assert(self.spec_test(t as int * 8 + k as int));
                    assert(idx_in_range(t as int * 8 + k as int));
                }
                return false;
            }
            proof {
                assert forall|i: int| 0 <= i < (t as int + 1) * 8 implies !self.spec_test(i) by {
                    if t as int * 8 <= i {
                        lemma_parts(i, 8);
                        lemma_div_below(i, t as int, 8);
                        lemma_u8_zero_bit((i % 8) as u8);
                    }
                }
            }
            t = t + 1;
        }
        proof {
            assert forall|i: int| idx_in_range(i) implies !self.spec_test(i) by {
                if 0 <= i && i / 8 < N as int {
                    lemma_parts(i, 8);
                }
            }
        }
        true
    }
}

impl<const N: usize> BitSetLimit for [u8; N] {
    open spec fn spec_max_set_index() -> int {
        if N as int == 0 {
            0
        } else if span_fits(N as int, 8) {
            N as int * 8 - 1
        } else {
            usize::MAX as int
        }
    }

    proof fn lemma_max_set_index_in_range() {
    }

    proof fn lemma_beyond_limit_unset(&self, i: int) {
        if self.spec_test(i) {
            lemma_parts(i, 8);
        }
    }

    fn max_set_index() -> (r: usize) {
        if N == 0 {
            return 0;
        }
        if !span_fits_exec(N, 8) {
            return usize::MAX;
        }
        (N - 1) * 8 + 7
    }
}

impl<const N: usize> BitSet for [u8; N] {
    open spec fn spec_can_set(i: int) -> bool {
        &&& span_fits(N as int, 8)
        &&& 0 <= i
        &&& i / 8 < N as int
    }

    fn set_unchecked(&mut self, idx: usize) {
        let t = idx / 8;
        let b = idx % 8;
        proof {
            lemma_parts(idx as int, 8);
        }
        let mut w = self[t];
        w.set_unchecked(b);
        self[t] = w;
        proof {
            assert forall|i: int|
                idx_in_range(i) implies self.spec_test(i) == (old(self).spec_test(i) || i
                == idx as int) by {
                lemma_parts(i, 8);
                let ti = i / 8;
                let bi = i % 8;
                if ti == t as int {
                    assert(self@[ti] == w);
                    assert((ti == t as int && bi == b as int) ==> i == idx as int);
                } else {
                    if 0 <= ti < N as int {
                        assert(self@[ti] == old(self)@[ti]);
                    }
                    assert(i != idx as int);
                }
            }
        }
    }
}

impl<const N: usize> BitUnsetLimit for [u8; N] {
    open spec fn spec_max_unset_index() -> int {
        usize::MAX as int
    }

    proof fn lemma_max_unset_index_in_range() {
    }

    proof fn lemma_beyond_limit_set(&self, i: int) {
    }

    fn max_unset_index() -> (r: usize) {
        usize::MAX
    }
}

impl<const N: usize> BitUnset for [u8; N] {
    open spec fn spec_can_unset(i: int) -> bool {
        true
    }

    fn unset_unchecked(&mut self, idx: usize) {
        let t = idx / 8;
        proof {
            lemma_parts(idx as int, 8);
        }
        if t >= N {
            return ;
        }
        let b = idx % 8;
        let mut w = self[t];
        w.unset_unchecked(b);
        self[t] = w;
        proof {
            assert forall|i: int|
                idx_in_range(i) implies self.spec_test(i) == (old(self).spec_test(i) && i
                != idx as int) by {
                lemma_parts(i, 8);
                let ti = i / 8;
                let bi = i % 8;
                if ti == t as int {
                    assert(self@[ti] == w);
                    assert((ti == t as int && bi == b as int) ==> i == idx as int);
                } else {
                    if 0 <= ti < N as int {
                        assert(self@[ti] == old(self)@[ti]);
                    }
                    assert(i != idx as int);
                }
            }
        }
    }
}

impl<const N: usize> BitSearch for [u8; N] {
    fn find_first_set(&self, lower_bound: usize) -> (r: Option<usize>) {
        if !span_fits_exec(N, 8) {
            return None;
        }
        let mut t = lower_bound / 8;
        let mut b = lower_bound % 8;
        proof {
            lemma_parts(lower_bound as int, 8);
        }
        if t >= N {
            proof {
                assert forall|i: int|
                    lower_bound as int <= i && idx_in_range(i) implies !self.spec_test(i) by {
                    lemma_parts(i, 8);
                    lemma_div_is_ordered(lower_bound as int, i, 8);
                }
            }
            return None;
        }
        while t < N
            invariant
                span_fits(N as int, 8),
                t <= N,
                b < 8,
                lower_bound as int <= t as int * 8 + b as int,
                forall|i: int|
                    lower_bound as int <= i < t as int * 8 + b as int ==> !self.spec_test(i),
            decreases N - t,
        {
            match self[t].find_first_set(b) {
                Some(x) => {
                    proof {
                        lemma_recompose(t as int, x as int, 8);
                        assert forall|i: int|
                            lower_bound as int <= i < t as int * 8 + x as int implies !self.spec_test(
                            i,
                        ) by {
                            if t as int * 8 + b as int <= i {
                                lemma_parts(i, 8);
                                lemma_div_below(i, t as int, 8);
                            }
                        }
                    }
                    return Some(t * 8 + x);
                },
                None => {
                    proof {
                        assert forall|i: int|
                            lower_bound as int <= i < (t as int + 1) * 8 implies !self.spec_test(
                            i,
                        ) by {
                            if t as int * 8 + b as int <= i {
                                lemma_parts(i, 8);
                                lemma_div_below(i, t as int, 8);
                            }
                        }
                    }
                    t = t + 1;
                    b = 0;
                },
            }
        }
        proof {
            assert forall|i: int|
                lower_bound as int <= i && idx_in_range(i) implies !self.spec_test(i) by {
                if 0 <= i && i / 8 < N as int {
                    lemma_parts(i, 8);
                }
            }
        }
        None
    }
}

impl<const N: usize> BitComplement for [u8; N] {
    type Output = Complement<Self>;

    fn complement(self) -> (r: Complement<Self>) {
        Complement(self)
    }
}

impl<const N: usize> BitUnion for [u8; N] {
    type Output = Self;

    fn union(self, rhs: Self) -> (r: Self) {
        let mut r = self;
        let mut t: usize = 0;
        while t < N
            invariant
                t <= N,
                forall|k: int| t as int <= k < N as int ==> r@[k] == self@[k],
                forall|k: int|
                    0 <= k < t as int ==> forall|j: int|
                        idx_in_range(j) ==> ((#[trigger] r@[k]).spec_test(j) == (
                        self@[k].spec_test(j) || rhs@[k].spec_test(j))),
            decreases N - t,
        {
            let w = self[t].union(rhs[t]);
            r[t] = w;
            t = t + 1;
        }
        proof {
            assert forall|i: int|
                idx_in_range(i) implies r.spec_test(i) == (self.spec_test(i) || rhs.spec_test(
                i,
            )) by {
                if 0 <= i {
                    lemma_parts(i, 8);
                }
            }
        }
        r
    }
}

impl<const N: usize> BitUnion<Complement<[u8; N]>> for [u8; N] {
    type Output = Complement<Self>;

    /// The rewrite `a.union(complement(b)) == complement(b.difference(a))`,
    /// computed eagerly word by word.
    fn union(self, rhs: Complement<Self>) -> (r: Complement<Self>) {
        let mut inner = rhs.0;
        let mut t: usize = 0;
        while t < N
            invariant
                t <= N,
                forall|k: int| t as int <= k < N as int ==> inner@[k] == rhs.0@[k],
                forall|k: int|
                    0 <= k < t as int ==> forall|j: int|
                        idx_in_range(j) ==> ((#[trigger] inner@[k]).spec_test(j) == (
                        rhs.0@[k].spec_test(j) && !self@[k].spec_test(j))),
            decreases N - t,
        {
            let w = rhs.0[t].difference(self[t]);
            inner[t] = w;
            t = t + 1;
        }
        proof {
            assert forall|i: int|
                idx_in_range(i) implies (!inner.spec_test(i)) == (self.spec_test(i)
                || !rhs.0.spec_test(i)) by {
                if 0 <= i {
                    lemma_parts(i, 8);
                }
            }
        }
        Complement(inner)
    }
}

impl<const N: usize> BitIntersection for [u8; N] {
    type Output = Self;

    fn intersection(self, rhs: Self) -> (r: Self) {
        let mut r = self;
        let mut t: usize = 0;
        while t < N
            invariant
                t <= N,
                forall|k: int| t as int <= k < N as int ==> r@[k] == self@[k],
                forall|k: int|
                    0 <= k < t as int ==> forall|j: int|
                        idx_in_range(j) ==> ((#[trigger] r@[k]).spec_test(j) == (
                        self@[k].spec_test(j) && rhs@[k].spec_test(j))),
            decreases N - t,
        {
            let w = self[t].intersection(rhs[t]);
            r[t] = w;
            t = t + 1;
        }
        proof {
            assert forall|i: int|
                idx_in_range(i) implies r.spec_test(i) == (self.spec_test(i) && rhs.spec_test(
                i,
            )) by {
                if 0 <= i {
                    lemma_parts(i, 8);
                }
            }
        }
        r
    }
}

impl<const N: usize> BitIntersection<Complement<[u8; N]>> for [u8; N] {
    type Output = Self;

    /// The rewrite `a.intersection(complement(b)) == a.difference(b)`,
    /// computed eagerly word by word.
    fn intersection(self, rhs: Complement<Self>) -> (r: Self) {
        let mut r = self;
        let mut t: usize = 0;
        while t < N
            invariant
                t <= N,
                forall|k: int| t as int <= k < N as int ==> r@[k] == self@[k],
                forall|k: int|
                    0 <= k < t as int ==> forall|j: int|
                        idx_in_range(j) ==> ((#[trigger] r@[k]).spec_test(j) == (
                        self@[k].spec_test(j) && !rhs.0@[k].spec_test(j))),
            decreases N - t,
        {
            let w = self[t].difference(rhs.0[t]);
            r[t] = w;
            t = t + 1;
        }
        proof {
            assert forall|i: int|
                idx_in_range(i) implies r.spec_test(i) == (self.spec_test(i) && rhs.spec_test(
                i,
            )) by {
                if 0 <= i {
                    lemma_parts(i, 8);
                }
            }
        }
        r
    }
}

impl<const N: usize> BitDifference for [u8; N] {
    type Output = Self;

    fn difference(self, rhs: Self) -> (r: Self) {
        let mut r = self;
        let mut t: usize = 0;
        while t < N
            invariant
                t <= N,
                forall|k: int| t as int <= k < N as int ==> r@[k] == self@[k],
                forall|k: int|
                    0 <= k < t as int ==> forall|j: int|
                        idx_in_range(j) ==> ((#[trigger] r@[k]).spec_test(j) == (
                        self@[k].spec_test(j) && !rhs@[k].spec_test(j))),
            decreases N - t,
        {
            let w = self[t].difference(rhs[t]);
            r[t] = w;
            t = t + 1;
        }
        proof {
            assert forall|i: int|
                idx_in_range(i) implies r.spec_test(i) == (self.spec_test(i) && !rhs.spec_test(
                i,
            )) by {
                if 0 <= i {
                    lemma_parts(i, 8);
                }
            }
        }
        r
    }
}

impl<const N: usize> BitDifference<Complement<[u8; N]>> for [u8; N] {
    type Output = Self;

    /// The rewrite `a.difference(complement(b)) == a.intersection(b)`,
    /// computed eagerly word by word.
    fn difference(self, rhs: Complement<Self>) -> (r: Self) {
        let mut r = self;
        let mut t: usize = 0;
        while t < N
            invariant
                t <= N,
                forall|k: int| t as int <= k < N as int ==> r@[k] == self@[k],
                forall|k: int|
                    0 <= k < t as int ==> forall|j: int|
                        idx_in_range(j) ==> ((#[trigger] r@[k]).spec_test(j) == (
                        self@[k].spec_test(j) && rhs.0@[k].spec_test(j))),
            decreases N - t,
        {
            let w = self[t].intersection(rhs.0[t]);
            r[t] = w;
            t = t + 1;
        }
        proof {
            assert forall|i: int|
                idx_in_range(i) implies r.spec_test(i) == (self.spec_test(i) && !rhs.spec_test(
                i,
            )) by {
                if 0 <= i {
                    lemma_parts(i, 8);
                }
            }
        }
        r
    }
}

impl<const N: usize> BitSubset for [u8; N] {
    fn is_subset_of(&self, rhs: &Self) -> (r: bool) {
        if !span_fits_exec(N, 8) {
            return true;
        }
        let mut t: usize = 0;
        while t < N
            invariant
                span_fits(N as int, 8),
                t <= N,
                forall|i: int|
                    0 <= i < t as int * 8 && self.spec_test(i) ==> rhs.spec_test(i),
            decreases N - t,
        {
            if !self[t].is_subset_of(&rhs[t]) {
                proof {
                    let k = choose|j: int|
                        idx_in_range(j) && self@[t as int].spec_test(j) && !rhs@[t as int].spec_test(j);
                    if k > 7 {
                        self@[t as int].lemma_beyond_limit_unset(k);
                    }
                    lemma_recompose(t as int, k, 8);
                    assert(self.spec_test(t as int * 8 + k) && !rhs.spec_test(t as int * 8 + k));
                    assert(idx_in_range(t as int * 8 + k));
                }
                return false;
            }
            proof {
                assert forall|i: int|
                    0 <= i < (t as int + 1) * 8 && self.spec_test(i) implies rhs.spec_test(
                    i,
                ) by {
                    if t as int * 8 <= i {
                        lemma_parts(i, 8);
                        lemma_div_below(i, t as int, 8);
                    }
                }
            }
            t = t + 1;
        }
        proof {
            assert forall|i: int|
                idx_in_range(i) && self.spec_test(i) implies rhs.spec_test(i) by {
                lemma_parts(i, 8);
            }
        }
        true
    }
}

impl<const N: usize> BitSubset<Complement<[u8; N]>> for [u8; N] {
    fn is_subset_of(&self, rhs: &Complement<Self>) -> (r: bool) {
        if !span_fits_exec(N, 8) {
            return true;
        }
        let mut t: usize = 0;
        while t < N
            invariant
                span_fits(N as int, 8),
                t <= N,
                forall|i: int|
                    0 <= i < t as int * 8 && self.spec_test(i) ==> !rhs.0.spec_test(i),
            decreases N - t,
        {
            if !self[t].is_disjoint(&rhs.0[t]) {
                proof {
                    let k = choose|j: int|
                        idx_in_range(j) && self@[t as int].spec_test(j) && rhs.0@[t as int].spec_test(j);
                    if k > 7 {
                        self@[t as int].lemma_beyond_limit_unset(k);
                    }
                    lemma_recompose(t as int, k, 8);
                    assert(self.spec_test(t as int * 8 + k) && rhs.0.spec_test(t as int * 8 + k));
                    assert(idx_in_range(t as int * 8 + k));
                }
                return false;
            }
            proof {
                assert forall|i: int|
                    0 <= i < (t as int + 1) * 8 && self.spec_test(i) implies !rhs.0.spec_test(
                    i,
                ) by {
                    if t as int * 8 <= i {
                        lemma_parts(i, 8);
                        lemma_div_below(i, t as int, 8);
                    }
                }
            }
            t = t + 1;
        }
        proof {
            assert forall|i: int|
                idx_in_range(i) && self.spec_test(i) implies rhs.spec_test(i) by {
                lemma_parts(i, 8);
            }
        }
        true
    }
}

impl<const N: usize> BitDisjoint for [u8; N] {
    fn is_disjoint(&self, rhs: &Self) -> (r: bool) {
        if !span_fits_exec(N, 8) {
            return true;
        }
        let mut t: usize = 0;
        while t < N
            invariant
                span_fits(N as int, 8),
                t <= N,
                forall|i: int|
                    0 <= i < t as int * 8 ==> !(self.spec_test(i) && rhs.spec_test(i)),
            decreases N - t,
        {
            if !self[t].is_disjoint(&rhs[t]) {
                proof {
                    let k = choose|j: int|
                        idx_in_range(j) && self@[t as int].spec_test(j) && rhs@[t as int].spec_test(j);
                    if k > 7 {
                        self@[t as int].lemma_beyond_limit_unset(k);
                    }
                    lemma_recompose(t as int, k, 8);
                    assert(self.spec_test(t as int * 8 + k) && rhs.spec_test(t as int * 8 + k));
                    assert(idx_in_range(t as int * 8 + k));
                }
                return false;
            }
            proof {
                assert forall|i: int|
                    0 <= i < (t as int + 1) * 8 implies !(self.spec_test(i) && rhs.spec_test(
                    i,
                )) by {
                    if t as int * 8 <= i && self.spec_test(i) {
                        lemma_parts(i, 8);
                        lemma_div_below(i, t as int, 8);
                    }
                }
            }
            t = t + 1;
        }
        proof {
            assert forall|i: int|
                idx_in_range(i) implies !(self.spec_test(i) && rhs.spec_test(i)) by {
                if self.spec_test(i) {
                    lemma_parts(i, 8);
                }
            }
        }
        true
    }
}

impl<const N: usize> BitDisjoint<Complement<[u8; N]>> for [u8; N] {
    fn is_disjoint(&self, rhs: &Complement<Self>) -> (r: bool) {
        if !span_fits_exec(N, 8) {
            return true;
        }
        let mut t: usize = 0;
        while t < N
            invariant
                span_fits(N as int, 8),
                t <= N,
                forall|i: int|
                    0 <= i < t as int * 8 && self.spec_test(i) ==> rhs.0.spec_test(i),
            decreases N - t,
        {
            if !self[t].is_subset_of(&rhs.0[t]) {
                proof {
                    let k = choose|j: int|
                        idx_in_range(j) && self@[t as int].spec_test(j) && !rhs.0@[t as int].spec_test(j);
                    if k > 7 {
                        self@[t as int].lemma_beyond_limit_unset(k);
                    }
                    lemma_recompose(t as int, k, 8);
                    assert(self.spec_test(t as int * 8 + k) && !rhs.0.spec_test(t as int * 8 + k));
                    assert(idx_in_range(t as int * 8 + k));
                }
                return false;
            }
            proof {
                assert forall|i: int|
                    0 <= i < (t as int + 1) * 8 && self.spec_test(i) implies rhs.0.spec_test(
                    i,
                ) by {
                    if t as int * 8 <= i {
                        lemma_parts(i, 8);
                        lemma_div_below(i, t as int, 8);
                    }
                }
            }
            t = t + 1;
        }
        proof {
            assert forall|i: int|
                idx_in_range(i) implies !(self.spec_test(i) && rhs.spec_test(i)) by {
                if self.spec_test(i) {
                    lemma_parts(i, 8);
                }
            }
        }
        true
    }
}

impl<const N: usize> BitTest for [u16; N] {
    open spec fn wf(&self) -> bool {
        true
    }

    open spec fn spec_test(&self, i: int) -> bool {
        &&& span_fits(N as int, 16)
        &&& 0 <= i
        &&& i / 16 < N as int
        &&& self@[i / 16].spec_test(i % 16)
    }

    fn test(&self, idx: usize) -> (r: bool) {
        if !span_fits_exec(N, 16) {
            return false;
        }
        let t = idx / 16;
        proof {
            lemma_parts(idx as int, 16);
        }
        if t >= N {
            return false;
        }
        let b = idx % 16;
        self[t].test(b)
    }
}

impl<const N: usize> BitEmpty for [u16; N] {
    fn empty() -> (r: Self) {
        let r = [0u16; N];
        proof {
            assert forall|i: int| idx_in_range(i) implies !r.spec_test(i) by {
                if 0 <= i && i / 16 < N as int {
                    lemma_parts(i, 16);
                    lemma_u16_zero_bit((i % 16) as u16);
                }
            }
        }
        r
    }
}

impl<const N: usize> BitTestAll for [u16; N] {
    fn test_all(&self) -> (r: bool) {
        // The array never covers every representable index: either its span
        // stops short of `usize::MAX`, or the span itself does not fit.
        proof {
            if span_fits(N as int, 16) {
                lemma_recompose(N as int, 0, 16);
                assert(!self.spec_test((N as int) * 16));
                assert(idx_in_range((N as int) * 16));
            } else {
                assert(!self.spec_test(0));
            }
        }
        false
    }
}

impl<const N: usize> BitTestNone for [u16; N] {
    fn test_none(&self) -> (r: bool) {
        if !span_fits_exec(N, 16) {
            return true;
        }
        let mut t: usize = 0;
        while t < N
            invariant
                t <= N,
                span_fits(N as int, 16),
                forall|i: int| 0 <= i < t as int * 16 ==> !self.spec_test(i),
            decreases N - t,
        {
            let w = self[t];
            if w != 0 {
                proof {
                    let k = lemma_u16_nonzero_has_bit(w);
                    lemma_recompose(t as int, k as int, 16);
                    assert(self.spec_test(t as int * 16 + k as int));
                    assert(idx_in_range(t as int * 16 + k as int));
                }
                return false;
            }
            proof {
                assert forall|i: int| 0 <= i < (t as int + 1) * 16 implies !self.spec_test(i) by {
                    if t as int * 16 <= i {
                        lemma_parts(i, 16);
                        lemma_div_below(i, t as int, 16);
                        lemma_u16_zero_bit((i % 16) as u16);
                    }
                }
            }
            t = t + 1;
        }
        proof {
            assert forall|i: int| idx_in_range(i) implies !self.spec_test(i) by {
                if 0 <= i && i / 16 < N as int {
                    lemma_parts(i, 16);
                }
            }
        }
        true
    }
}

impl<const N: usize> BitSetLimit for [u16; N] {
    open spec fn spec_max_set_index() -> int {
        if N as int == 0 {
            0
        } else if span_fits(N as int, 16) {
            N as int * 16 - 1
        } else {
            usize::MAX as int
        }
    }

    proof fn lemma_max_set_index_in_range() {
    }

    proof fn lemma_beyond_limit_unset(&self, i: int) {
        if self.spec_test(i) {
            lemma_parts(i, 16);
        }
    }

    fn max_set_index() -> (r: usize) {
        if N == 0 {
            return 0;
        }
        if !span_fits_exec(N, 16) {
            return usize::MAX;
        }
        (N - 1) * 16 + 15
    }
}

impl<const N: usize> BitSet for [u16; N] {
    open spec fn spec_can_set(i: int) -> bool {
        &&& span_fits(N as int, 16)
        &&& 0 <= i
        &&& i / 16 < N as int
    }

    fn set_unchecked(&mut self, idx: usize) {
        let t = idx / 16;
        let b = idx % 16;
        proof {
            lemma_parts(idx as int, 16);
        }
        let mut w = self[t];
        w.set_unchecked(b);
        self[t] = w;
        proof {
            assert forall|i: int|
                idx_in_range(i) implies self.spec_test(i) == (old(self).spec_test(i) || i
                == idx as int) by {
                lemma_parts(i, 16);
                let ti = i / 16;
                let bi = i % 16;
                if ti == t as int {
                    assert(self@[ti] == w);
                    assert((ti == t as int && bi == b as int) ==> i == idx as int);
                } else {
                    if 0 <= ti < N as int {
                        assert(self@[ti] == old(self)@[ti]);
                    }
                    assert(i != idx as int);
                }
            }
        }
    }
}

impl<const N: usize> BitUnsetLimit for [u16; N] {
    open spec fn spec_max_unset_index() -> int {
        usize::MAX as int
    }

    proof fn lemma_max_unset_index_in_range() {
    }

    proof fn lemma_beyond_limit_set(&self, i: int) {
    }

    fn max_unset_index() -> (r: usize) {
        usize::MAX
    }
}

impl<const N: usize> BitUnset for [u16; N] {
    open spec fn spec_can_unset(i: int) -> bool {
        true
    }

    fn unset_unchecked(&mut self, idx: usize) {
        let t = idx / 16;
        proof {
            lemma_parts(idx as int, 16);
        }
        if t >= N {
            return ;
        }
        let b = idx % 16;
        let mut w = self[t];
        w.unset_unchecked(b);
        self[t] = w;
        proof {
            assert forall|i: int|
                idx_in_range(i) implies self.spec_test(i) == (old(self).spec_test(i) && i
                != idx as int) by {
                lemma_parts(i, 16);
                let ti = i / 16;
                let bi = i % 16;
                if ti == t as int {
                    assert(self@[ti] == w);
                    assert((ti == t as int && bi == b as int) ==> i == idx as int);
                } else {
                    if 0 <= ti < N as int {
                        assert(self@[ti] == old(self)@[ti]);
                    }
                    assert(i != idx as int);
                }
            }
        }
    }
}

impl<const N: usize> BitSearch for [u16; N] {
    fn find_first_set(&self, lower_bound: usize) -> (r: Option<usize>) {
        if !span_fits_exec(N, 16) {
            return None;
        }
        let mut t = lower_bound / 16;
        let mut b = lower_bound % 16;
        proof {
            lemma_parts(lower_bound as int, 16);
        }
        if t >= N {
            proof {
                assert forall|i: int|
                    lower_bound as int <= i && idx_in_range(i) implies !self.spec_test(i) by {
                    lemma_parts(i, 16);
                    lemma_div_is_ordered(lower_bound as int, i, 16);
                }
            }
            return None;
        }
        while t < N
            invariant
                span_fits(N as int, 16),
                t <= N,
                b < 16,
                lower_bound as int <= t as int * 16 + b as int,
                forall|i: int|
                    lower_bound as int <= i < t as int * 16 + b as int ==> !self.spec_test(i),
            decreases N - t,
        {
            match self[t].find_first_set(b) {
                Some(x) => {
                    proof {
                        lemma_recompose(t as int, x as int, 16);
                        assert forall|i: int|
                            lower_bound as int <= i < t as int * 16 + x as int implies !self.spec_test(
                            i,
                        ) by {
                            if t as int * 16 + b as int <= i {
                                lemma_parts(i, 16);
                                lemma_div_below(i, t as int, 16);
                            }
                        }
                    }
                    return Some(t * 16 + x);
                },
                None => {
                    proof {
                        assert forall|i: int|
                            lower_bound as int <= i < (t as int + 1) * 16 implies !self.spec_test(
                            i,
                        ) by {
                            if t as int * 16 + b as int <= i {
                                lemma_parts(i, 16);
                                lemma_div_below(i, t as int, 16);
                            }
                        }
                    }
                    t = t + 1;
                    b = 0;
                },
            }
        }
        proof {
            assert forall|i: int|
                lower_bound as int <= i && idx_in_range(i) implies !self.spec_test(i) by {
                if 0 <= i && i / 16 < N as int {
                    lemma_parts(i, 16);
                }
            }
        }
        None
    }
}

impl<const N: usize> BitComplement for [u16; N] {
    type Output = Complement<Self>;

    fn complement(self) -> (r: Complement<Self>) {
        Complement(self)
    }
}

impl<const N: usize> BitUnion for [u16; N] {
    type Output = Self;

    fn union(self, rhs: Self) -> (r: Self) {
        let mut r = self;
        let mut t: usize = 0;
        while t < N
            invariant
                t <= N,
                forall|k: int| t as int <= k < N as int ==> r@[k] == self@[k],
                forall|k: int|
                    0 <= k < t as int ==> forall|j: int|
                        idx_in_range(j) ==> ((#[trigger] r@[k]).spec_test(j) == (
                        self@[k].spec_test(j) || rhs@[k].spec_test(j))),
            decreases N - t,
        {
            let w = self[t].union(rhs[t]);
            r[t] = w;
            t = t + 1;
        }
        proof {
            assert forall|i: int|
                idx_in_range(i) implies r.spec_test(i) == (self.spec_test(i) || rhs.spec_test(
                i,
            )) by {
                if 0 <= i {
                    lemma_parts(i, 16);
                }
            }
        }
        r
    }
}

impl<const N: usize> BitUnion<Complement<[u16; N]>> for [u16; N] {
    type Output = Complement<Self>;

    /// The rewrite `a.union(complement(b)) == complement(b.difference(a))`,
    /// computed eagerly word by word.
    fn union(self, rhs: Complement<Self>) -> (r: Complement<Self>) {
        let mut inner = rhs.0;
        let mut t: usize = 0;
        while t < N
            invariant
                t <= N,
                forall|k: int| t as int <= k < N as int ==> inner@[k] == rhs.0@[k],
                forall|k: int|
                    0 <= k < t as int ==> forall|j: int|
                        idx_in_range(j) ==> ((#[trigger] inner@[k]).spec_test(j) == (
                        rhs.0@[k].spec_test(j) && !self@[k].spec_test(j))),
            decreases N - t,
        {
            let w = rhs.0[t].difference(self[t]);
            inner[t] = w;
            t = t + 1;
        }
        proof {
            assert forall|i: int|
                idx_in_range(i) implies (!inner.spec_test(i)) == (self.spec_test(i)
                || !rhs.0.spec_test(i)) by {
                if 0 <= i {
                    lemma_parts(i, 16);
                }
            }
        }
        Complement(inner)
    }
}

impl<const N: usize> BitIntersection for [u16; N] {
    type Output = Self;

    fn intersection(self, rhs: Self) -> (r: Self) {
        let mut r = self;
        let mut t: usize = 0;
        while t < N
            invariant
                t <= N,
                forall|k: int| t as int <= k < N as int ==> r@[k] == self@[k],
                forall|k: int|
                    0 <= k < t as int ==> forall|j: int|
                        idx_in_range(j) ==> ((#[trigger] r@[k]).spec_test(j) == (
                        self@[k].spec_test(j) && rhs@[k].spec_test(j))),
            decreases N - t,
        {
            let w = self[t].intersection(rhs[t]);
            r[t] = w;
            t = t + 1;
        }
        proof {
            assert forall|i: int|
                idx_in_range(i) implies r.spec_test(i) == (self.spec_test(i) && rhs.spec_test(
                i,
            )) by {
                if 0 <= i {
                    lemma_parts(i, 16);
                }
            }
        }
        r
    }
}

impl<const N: usize> BitIntersection<Complement<[u16; N]>> for [u16; N] {
    type Output = Self;

    /// The rewrite `a.intersection(complement(b)) == a.difference(b)`,
    /// computed eagerly word by word.
    fn intersection(self, rhs: Complement<Self>) -> (r: Self) {
        let mut r = self;
        let mut t: usize = 0;
        while t < N
            invariant
                t <= N,
                forall|k: int| t as int <= k < N as int ==> r@[k] == self@[k],
                forall|k: int|
                    0 <= k < t as int ==> forall|j: int|
                        idx_in_range(j) ==> ((#[trigger] r@[k]).spec_test(j) == (
                        self@[k].spec_test(j) && !rhs.0@[k].spec_test(j))),
            decreases N - t,
        {
            let w = self[t].difference(rhs.0[t]);
            r[t] = w;
            t = t + 1;
        }
        proof {
            assert forall|i: int|
                idx_in_range(i) implies r.spec_test(i) == (self.spec_test(i) && rhs.spec_test(
                i,
            )) by {
                if 0 <= i {
                    lemma_parts(i, 16);
                }
            }
        }
        r
    }
}

impl<const N: usize> BitDifference for [u16; N] {
    type Output = Self;

    fn difference(self, rhs: Self) -> (r: Self) {
        let mut r = self;
        let mut t: usize = 0;
        while t < N
            invariant
                t <= N,
                forall|k: int| t as int <= k < N as int ==> r@[k] == self@[k],
                forall|k: int|
                    0 <= k < t as int ==> forall|j: int|
                        idx_in_range(j) ==> ((#[trigger] r@[k]).spec_test(j) == (
                        self@[k].spec_test(j) && !rhs@[k].spec_test(j))),
            decreases N - t,
        {
            let w = self[t].difference(rhs[t]);
            r[t] = w;
            t = t + 1;
        }
        proof {
            assert forall|i: int|
                idx_in_range(i) implies r.spec_test(i) == (self.spec_test(i) && !rhs.spec_test(
                i,
            )) by {
                if 0 <= i {
                    lemma_parts(i, 16);
                }
            }
        }
        r
    }
}

impl<const N: usize> BitDifference<Complement<[u16; N]>> for [u16; N] {
    type Output = Self;

    /// The rewrite `a.difference(complement(b)) == a.intersection(b)`,
    /// computed eagerly word by word.
    fn difference(self, rhs: Complement<Self>) -> (r: Self) {
        let mut r = self;
        let mut t: usize = 0;
        while t < N
            invariant
                t <= N,
                forall|k: int| t as int <= k < N as int ==> r@[k] == self@[k],
                forall|k: int|
                    0 <= k < t as int ==> forall|j: int|
                        idx_in_range(j) ==> ((#[trigger] r@[k]).spec_test(j) == (
                        self@[k].spec_test(j) && rhs.0@[k].spec_test(j))),
            decreases N - t,
        {
            let w = self[t].intersection(rhs.0[t]);
            r[t] = w;
            t = t + 1;
        }
        proof {
            assert forall|i: int|
                idx_in_range(i) implies r.spec_test(i) == (self.spec_test(i) && !rhs.spec_test(
                i,
            )) by {
                if 0 <= i {
                    lemma_parts(i, 16);
                }
            }
        }
        r
    }
}

impl<const N: usize> BitSubset for [u16; N] {
    fn is_subset_of(&self, rhs: &Self) -> (r: bool) {
        if !span_fits_exec(N, 16) {
            return true;
        }
        let mut t: usize = 0;
        while t < N
            invariant
                span_fits(N as int, 16),
                t <= N,
                forall|i: int|
                    0 <= i < t as int * 16 && self.spec_test(i) ==> rhs.spec_test(i),
            decreases N - t,
        {
            if !self[t].is_subset_of(&rhs[t]) {
                proof {
                    let k = choose|j: int|
                        idx_in_range(j) && self@[t as int].spec_test(j) && !rhs@[t as int].spec_test(j);
                    if k > 15 {
                        self@[t as int].lemma_beyond_limit_unset(k);
                    }
                    lemma_recompose(t as int, k, 16);
                    assert(self.spec_test(t as int * 16 + k) && !rhs.spec_test(t as int * 16 + k));
                    assert(idx_in_range(t as int * 16 + k));
                }
                return false;
            }
            proof {
                assert forall|i: int|
                    0 <= i < (t as int + 1) * 16 && self.spec_test(i) implies rhs.spec_test(
                    i,
                ) by {
                    if t as int * 16 <= i {
                        lemma_parts(i, 16);
                        lemma_div_below(i, t as int, 16);
                    }
                }
            }
            t = t + 1;
        }
        proof {
            assert forall|i: int|
                idx_in_range(i) && self.spec_test(i) implies rhs.spec_test(i) by {
                lemma_parts(i, 16);
            }
        }
        true
    }
}

impl<const N: usize> BitSubset<Complement<[u16; N]>> for [u16; N] {
    fn is_subset_of(&self, rhs: &Complement<Self>) -> (r: bool) {
        if !span_fits_exec(N, 16) {
            return true;
        }
        let mut t: usize = 0;
        while t < N
            invariant
                span_fits(N as int, 16),
                t <= N,
                forall|i: int|
                    0 <= i < t as int * 16 && self.spec_test(i) ==> !rhs.0.spec_test(i),
            decreases N - t,
        {
            if !self[t].is_disjoint(&rhs.0[t]) {
                proof {
                    let k = choose|j: int|
                        idx_in_range(j) && self@[t as int].spec_test(j) && rhs.0@[t as int].spec_test(j);
                    if k > 15 {
                        self@[t as int].lemma_beyond_limit_unset(k);
                    }
                    lemma_recompose(t as int, k, 16);
                    assert(self.spec_test(t as int * 16 + k) && rhs.0.spec_test(t as int * 16 + k));
                    assert(idx_in_range(t as int * 16 + k));
                }
                return false;
            }
            proof {
                assert forall|i: int|
                    0 <= i < (t as int + 1) * 16 && self.spec_test(i) implies !rhs.0.spec_test(
                    i,
                ) by {
                    if t as int * 16 <= i {
                        lemma_parts(i, 16);
                        lemma_div_below(i, t as int, 16);
                    }
                }
            }
            t = t + 1;
        }
        proof {
            assert forall|i: int|
                idx_in_range(i) && self.spec_test(i) implies rhs.spec_test(i) by {
                lemma_parts(i, 16);
            }
        }
        true
    }
}

impl<const N: usize> BitDisjoint for [u16; N] {
    fn is_disjoint(&self, rhs: &Self) -> (r: bool) {
        if !span_fits_exec(N, 16) {
            return true;
        }
        let mut t: usize = 0;
        while t < N
            invariant
                span_fits(N as int, 16),
                t <= N,
                forall|i: int|
                    0 <= i < t as int * 16 ==> !(self.spec_test(i) && rhs.spec_test(i)),
            decreases N - t,
        {
            if !self[t].is_disjoint(&rhs[t]) {
                proof {
                    let k = choose|j: int|
                        idx_in_range(j) && self@[t as int].spec_test(j) && rhs@[t as int].spec_test(j);
                    if k > 15 {
                        self@[t as int].lemma_beyond_limit_unset(k);
                    }
                    lemma_recompose(t as int, k, 16);
                    assert(self.spec_test(t as int * 16 + k) && rhs.spec_test(t as int * 16 + k));
                    assert(idx_in_range(t as int * 16 + k));
                }
                return false;
            }
            proof {
                assert forall|i: int|
                    0 <= i < (t as int + 1) * 16 implies !(self.spec_test(i) && rhs.spec_test(
                    i,
                )) by {
                    if t as int * 16 <= i && self.spec_test(i) {
                        lemma_parts(i, 16);
                        lemma_div_below(i, t as int, 16);
                    }
                }
            }
            t = t + 1;
        }
        proof {
            assert forall|i: int|
                idx_in_range(i) implies !(self.spec_test(i) && rhs.spec_test(i)) by {
                if self.spec_test(i) {
                    lemma_parts(i, 16);
                }
            }
        }
        true
    }
}

impl<const N: usize> BitDisjoint<Complement<[u16; N]>> for [u16; N] {
    fn is_disjoint(&self, rhs: &Complement<Self>) -> (r: bool) {
        if !span_fits_exec(N, 16) {
            return true;
        }
        let mut t: usize = 0;
        while t < N
            invariant
                span_fits(N as int, 16),
                t <= N,
                forall|i: int|
                    0 <= i < t as int * 16 && self.spec_test(i) ==> rhs.0.spec_test(i),
            decreases N - t,
        {
            if !self[t].is_subset_of(&rhs.0[t]) {
                proof {
                    let k = choose|j: int|
                        idx_in_range(j) && self@[t as int].spec_test(j) && !rhs.0@[t as int].spec_test(j);
                    if k > 15 {
                        self@[t as int].lemma_beyond_limit_unset(k);
                    }
                    lemma_recompose(t as int, k, 16);
                    assert(self.spec_test(t as int * 16 + k) && !rhs.0.spec_test(t as int * 16 + k));
                    assert(idx_in_range(t as int * 16 + k));
                }
                return false;
            }
            proof {
                assert forall|i: int|
                    0 <= i < (t as int + 1) * 16 && self.spec_test(i) implies rhs.0.spec_test(
                    i,
                ) by {
                    if t as int * 16 <= i {
                        lemma_parts(i, 16);
                        lemma_div_below(i, t as int, 16);
                    }
                }
            }
            t = t + 1;
        }
        proof {
            assert forall|i: int|
                idx_in_range(i) implies !(self.spec_test(i) && rhs.spec_test(i)) by {
                if self.spec_test(i) {
                    lemma_parts(i, 16);
                }
            }
        }
        true
    }
}

impl<const N: usize> BitTest for [u32; N] {
    open spec fn wf(&self) -> bool {
        true
    }

    open spec fn spec_test(&self, i: int) -> bool {
        &&& span_fits(N as int, 32)
        &&& 0 <= i
        &&& i / 32 < N as int
        &&& self@[i / 32].spec_test(i % 32)
    }

    fn test(&self, idx: usize) -> (r: bool) {
        if !span_fits_exec(N, 32) {
            return false;
        }
        let t = idx / 32;
        proof {
            lemma_parts(idx as int, 32);
        }
        if t >= N {
            return false;
        }
        let b = idx % 32;
        self[t].test(b)
    }
}

impl<const N: usize> BitEmpty for [u32; N] {
    fn empty() -> (r: Self) {
        let r = [0u32; N];
        proof {
            assert forall|i: int| idx_in_range(i) implies !r.spec_test(i) by {
                if 0 <= i && i / 32 < N as int {
                    lemma_parts(i, 32);
                    lemma_u32_zero_bit((i % 32) as u32);
                }
            }
        }
        r
    }
}

impl<const N: usize> BitTestAll for [u32; N] {
    fn test_all(&self) -> (r: bool) {
        // The array never covers every representable index: either its span
        // stops short of `usize::MAX`, or the span itself does not fit.
        proof {
            if span_fits(N as int, 32) {
                lemma_recompose(N as int, 0, 32);
                assert(!self.spec_test((N as int) * 32));
                assert(idx_in_range((N as int) * 32));
            } else {
                assert(!self.spec_test(0));
            }
        }
        false
    }
}

impl<const N: usize> BitTestNone for [u32; N] {
    fn test_none(&self) -> (r: bool) {
        if !span_fits_exec(N, 32) {
            return true;
        }
        let mut t: usize = 0;
        while t < N
            invariant
                t <= N,
                span_fits(N as int, 32),
                forall|i: int| 0 <= i < t as int * 32 ==> !self.spec_test(i),
            decreases N - t,
        {
            let w = self[t];
            if w != 0 {
                proof {
                    let k = lemma_u32_nonzero_has_bit(w);
                    lemma_recompose(t as int, k as int, 32);
                    assert(self.spec_test(t as int * 32 + k as int));
                    assert(idx_in_range(t as int * 32 + k as int));
                }
                return false;
            }
            proof {
                assert forall|i: int| 0 <= i < (t as int + 1) * 32 implies !self.spec_test(i) by {
                    if t as int * 32 <= i {
                        lemma_parts(i, 32);
                        lemma_div_below(i, t as int, 32);
                        lemma_u32_zero_bit((i % 32) as u32);
                    }
                }
            }
            t = t + 1;
        }
        proof {
            assert forall|i: int| idx_in_range(i) implies !self.spec_test(i) by {
                if 0 <= i && i / 32 < N as int {
                    lemma_parts(i, 32);
                }
            }
        }
        true
    }
}

impl<const N: usize> BitSetLimit for [u32; N] {
    open spec fn spec_max_set_index() -> int {
        if N as int == 0 {
            0
        } else if span_fits(N as int, 32) {
            N as int * 32 - 1
        } else {
            usize::MAX as int
        }
    }

    proof fn lemma_max_set_index_in_range() {
    }

    proof fn lemma_beyond_limit_unset(&self, i: int) {
        if self.spec_test(i) {
            lemma_parts(i, 32);
        }
    }

    fn max_set_index() -> (r: usize) {
        if N == 0 {
            return 0;
        }
        if !span_fits_exec(N, 32) {
            return usize::MAX;
        }
        (N - 1) * 32 + 31
    }
}

impl<const N: usize> BitSet for [u32; N] {
    open spec fn spec_can_set(i: int) -> bool {
        &&& span_fits(N as int, 32)
        &&& 0 <= i
        &&& i / 32 < N as int
    }

    fn set_unchecked(&mut self, idx: usize) {
        let t = idx / 32;
        let b = idx % 32;
        proof {
            lemma_parts(idx as int, 32);
        }
        let mut w = self[t];
        w.set_unchecked(b);
        self[t] = w;
        proof {
            assert forall|i: int|
                idx_in_range(i) implies self.spec_test(i) == (old(self).spec_test(i) || i
                == idx as int) by {
                lemma_parts(i, 32);
                let ti = i / 32;
                let bi = i % 32;
                if ti == t as int {
                    assert(self@[ti] == w);
                    assert((ti == t as int && bi == b as int) ==> i == idx as int);
                } else {
                    if 0 <= ti < N as int {
                        assert(self@[ti] == old(self)@[ti]);
                    }
                    assert(i != idx as int);
                }
            }
        }
    }
}

impl<const N: usize> BitUnsetLimit for [u32; N] {
    open spec fn spec_max_unset_index() -> int {
        usize::MAX as int
    }

    proof fn lemma_max_unset_index_in_range() {
    }

    proof fn lemma_beyond_limit_set(&self, i: int) {
    }

    fn max_unset_index() -> (r: usize) {
        usize::MAX
    }
}

impl<const N: usize> BitUnset for [u32; N] {
    open spec fn spec_can_unset(i: int) -> bool {
        true
    }

    fn unset_unchecked(&mut self, idx: usize) {
        let t = idx / 32;
        proof {
            lemma_parts(idx as int, 32);
        }
        if t >= N {
            return ;
        }
        let b = idx % 32;
        let mut w = self[t];
        w.unset_unchecked(b);
        self[t] = w;
        proof {
            assert forall|i: int|
                idx_in_range(i) implies self.spec_test(i) == (old(self).spec_test(i) && i
                != idx as int) by {
                lemma_parts(i, 32);
                let ti = i / 32;
                let bi = i % 32;
                if ti == t as int {
                    assert(self@[ti] == w);
                    assert((ti == t as int && bi == b as int) ==> i == idx as int);
                } else {
                    if 0 <= ti < N as int {
                        assert(self@[ti] == old(self)@[ti]);
                    }
                    assert(i != idx as int);
                }
            }
        }
    }
}

impl<const N: usize> BitSearch for [u32; N] {
    fn find_first_set(&self, lower_bound: usize) -> (r: Option<usize>) {
        if !span_fits_exec(N, 32) {
            return None;
        }
        let mut t = lower_bound / 32;
        let mut b = lower_bound % 32;
        proof {
            lemma_parts(lower_bound as int, 32);
        }
        if t >= N {
            proof {
                assert forall|i: int|
                    lower_bound as int <= i && idx_in_range(i) implies !self.spec_test(i) by {
                    lemma_parts(i, 32);
                    lemma_div_is_ordered(lower_bound as int, i, 32);
                }
            }
            return None;
        }
        while t < N
            invariant
                span_fits(N as int, 32),
                t <= N,
                b < 32,
                lower_bound as int <= t as int * 32 + b as int,
                forall|i: int|
                    lower_bound as int <= i < t as int * 32 + b as int ==> !self.spec_test(i),
            decreases N - t,
        {
            match self[t].find_first_set(b) {
                Some(x) => {
                    proof {
                        lemma_recompose(t as int, x as int, 32);
                        assert forall|i: int|
                            lower_bound as int <= i < t as int * 32 + x as int implies !self.spec_test(
                            i,
                        ) by {
                            if t as int * 32 + b as int <= i {
                                lemma_parts(i, 32);
                                lemma_div_below(i, t as int, 32);
                            }
                        }
                    }
                    return Some(t * 32 + x);
                },
                None => {
                    proof {
                        assert forall|i: int|
                            lower_bound as int <= i < (t as int + 1) * 32 implies !self.spec_test(
                            i,
                        ) by {
                            if t as int * 32 + b as int <= i {
                                lemma_parts(i, 32);
                                lemma_div_below(i, t as int, 32);
                            }
                        }
                    }
                    t = t + 1;
                    b = 0;
                },
            }
        }
        proof {
            assert forall|i: int|
                lower_bound as int <= i && idx_in_range(i) implies !self.spec_test(i) by {
                if 0 <= i && i / 32 < N as int {
                    lemma_parts(i, 32);
                }
            }
        }
        None
    }
}

impl<const N: usize> BitComplement for [u32; N] {
    type Output = Complement<Self>;

    fn complement(self) -> (r: Complement<Self>) {
        Complement(self)
    }
}

impl<const N: usize> BitUnion for [u32; N] {
    type Output = Self;

    fn union(self, rhs: Self) -> (r: Self) {
        let mut r = self;
        let mut t: usize = 0;
        while t < N
            invariant
                t <= N,
                forall|k: int| t as int <= k < N as int ==> r@[k] == self@[k],
                forall|k: int|
                    0 <= k < t as int ==> forall|j: int|
                        idx_in_range(j) ==> ((#[trigger] r@[k]).spec_test(j) == (
                        self@[k].spec_test(j) || rhs@[k].spec_test(j))),
            decreases N - t,
        {
            let w = self[t].union(rhs[t]);
            r[t] = w;
            t = t + 1;
        }
        proof {
            assert forall|i: int|
                idx_in_range(i) implies r.spec_test(i) == (self.spec_test(i) || rhs.spec_test(
                i,
            )) by {
                if 0 <= i {
                    lemma_parts(i, 32);
                }
            }
        }
        r
    }
}

impl<const N: usize> BitUnion<Complement<[u32; N]>> for [u32; N] {
    type Output = Complement<Self>;

    /// The rewrite `a.union(complement(b)) == complement(b.difference(a))`,
    /// computed eagerly word by word.
    fn union(self, rhs: Complement<Self>) -> (r: Complement<Self>) {
        let mut inner = rhs.0;
        let mut t: usize = 0;
        while t < N
            invariant
                t <= N,
                forall|k: int| t as int <= k < N as int ==> inner@[k] == rhs.0@[k],
                forall|k: int|
                    0 <= k < t as int ==> forall|j: int|
                        idx_in_range(j) ==> ((#[trigger] inner@[k]).spec_test(j) == (
                        rhs.0@[k].spec_test(j) && !self@[k].spec_test(j))),
            decreases N - t,
        {
            let w = rhs.0[t].difference(self[t]);
            inner[t] = w;
            t = t + 1;
        }
        proof {
            assert forall|i: int|
                idx_in_range(i) implies (!inner.spec_test(i)) == (self.spec_test(i)
                || !rhs.0.spec_test(i)) by {
                if 0 <= i {
                    lemma_parts(i, 32);
                }
            }
        }
        Complement(inner)
    }
}

impl<const N: usize> BitIntersection for [u32; N] {
    type Output = Self;

    fn intersection(self, rhs: Self) -> (r: Self) {
        let mut r = self;
        let mut t: usize = 0;
        while t < N
            invariant
                t <= N,
                forall|k: int| t as int <= k < N as int ==> r@[k] == self@[k],
                forall|k: int|
                    0 <= k < t as int ==> forall|j: int|
                        idx_in_range(j) ==> ((#[trigger] r@[k]).spec_test(j) == (
                        self@[k].spec_test(j) && rhs@[k].spec_test(j))),
            decreases N - t,
        {
            let w = self[t].intersection(rhs[t]);
            r[t] = w;
            t = t + 1;
        }
        proof {
            assert forall|i: int|
                idx_in_range(i) implies r.spec_test(i) == (self.spec_test(i) && rhs.spec_test(
                i,
            )) by {
                if 0 <= i {
                    lemma_parts(i, 32);
                }
            }
        }
        r
    }
}

impl<const N: usize> BitIntersection<Complement<[u32; N]>> for [u32; N] {
    type Output = Self;

    /// The rewrite `a.intersection(complement(b)) == a.difference(b)`,
    /// computed eagerly word by word.
    fn intersection(self, rhs: Complement<Self>) -> (r: Self) {
        let mut r = self;
        let mut t: usize = 0;
        while t < N
            invariant
                t <= N,
                forall|k: int| t as int <= k < N as int ==> r@[k] == self@[k],
                forall|k: int|
                    0 <= k < t as int ==> forall|j: int|
                        idx_in_range(j) ==> ((#[trigger] r@[k]).spec_test(j) == (
                        self@[k].spec_test(j) && !rhs.0@[k].spec_test(j))),
            decreases N - t,
        {
            let w = self[t].difference(rhs.0[t]);
            r[t] = w;
            t = t + 1;
        }
        proof {
            assert forall|i: int|
                idx_in_range(i) implies r.spec_test(i) == (self.spec_test(i) && rhs.spec_test(
                i,
            )) by {
                if 0 <= i {
                    lemma_parts(i, 32);
                }
            }
        }
        r
    }
}

impl<const N: usize> BitDifference for [u32; N] {
    type Output = Self;

    fn difference(self, rhs: Self) -> (r: Self) {
        let mut r = self;
        let mut t: usize = 0;
        while t < N
            invariant
                t <= N,
                forall|k: int| t as int <= k < N as int ==> r@[k] == self@[k],
                forall|k: int|
                    0 <= k < t as int ==> forall|j: int|
                        idx_in_range(j) ==> ((#[trigger] r@[k]).spec_test(j) == (
                        self@[k].spec_test(j) && !rhs@[k].spec_test(j))),
            decreases N - t,
        {
            let w = self[t].difference(rhs[t]);
            r[t] = w;
            t = t + 1;
        }
        proof {
            assert forall|i: int|
                idx_in_range(i) implies r.spec_test(i) == (self.spec_test(i) && !rhs.spec_test(
                i,
            )) by {
                if 0 <= i {
                    lemma_parts(i, 32);
                }
            }
        }
        r
    }
}

impl<const N: usize> BitDifference<Complement<[u32; N]>> for [u32; N] {
    type Output = Self;

    /// The rewrite `a.difference(complement(b)) == a.intersection(b)`,
    /// computed eagerly word by word.
    fn difference(self, rhs: Complement<Self>) -> (r: Self) {
        let mut r = self;
        let mut t: usize = 0;
        while t < N
            invariant
                t <= N,
                forall|k: int| t as int <= k < N as int ==> r@[k] == self@[k],
                forall|k: int|
                    0 <= k < t as int ==> forall|j: int|
                        idx_in_range(j) ==> ((#[trigger] r@[k]).spec_test(j) == (
                        self@[k].spec_test(j) && rhs.0@[k].spec_test(j))),
            decreases N - t,
        {
            let w = self[t].intersection(rhs.0[t]);
            r[t] = w;
            t = t + 1;
        }
        proof {
            assert forall|i: int|
                idx_in_range(i) implies r.spec_test(i) == (self.spec_test(i) && !rhs.spec_test(
                i,
            )) by {
                if 0 <= i {
                    lemma_parts(i, 32);
                }
            }
        }
        r
    }
}

impl<const N: usize> BitSubset for [u32; N] {
    fn is_subset_of(&self, rhs: &Self) -> (r: bool) {
        if !span_fits_exec(N, 32) {
            return true;
        }
        let mut t: usize = 0;
        while t < N
            invariant
                span_fits(N as int, 32),
                t <= N,
                forall|i: int|
                    0 <= i < t as int * 32 && self.spec_test(i) ==> rhs.spec_test(i),
            decreases N - t,
        {
            if !self[t].is_subset_of(&rhs[t]) {
                proof {
                    let k = choose|j: int|
                        idx_in_range(j) && self@[t as int].spec_test(j) && !rhs@[t as int].spec_test(j);
                    if k > 31 {
                        self@[t as int].lemma_beyond_limit_unset(k);
                    }
                    lemma_recompose(t as int, k, 32);
                    assert(self.spec_test(t as int * 32 + k) && !rhs.spec_test(t as int * 32 + k));
                    assert(idx_in_range(t as int * 32 + k));
                }
                return false;
            }
            proof {
                assert forall|i: int|
                    0 <= i < (t as int + 1) * 32 && self.spec_test(i) implies rhs.spec_test(
                    i,
                ) by {
                    if t as int * 32 <= i {
                        lemma_parts(i, 32);
                        lemma_div_below(i, t as int, 32);
                    }
                }
            }
            t = t + 1;
        }
        proof {
            assert forall|i: int|
                idx_in_range(i) && self.spec_test(i) implies rhs.spec_test(i) by {
                lemma_parts(i, 32);
            }
        }
        true
    }
}

impl<const N: usize> BitSubset<Complement<[u32; N]>> for [u32; N] {
    fn is_subset_of(&self, rhs: &Complement<Self>) -> (r: bool) {
        if !span_fits_exec(N, 32) {
            return true;
        }
        let mut t: usize = 0;
        while t < N
            invariant
                span_fits(N as int, 32),
                t <= N,
                forall|i: int|
                    0 <= i < t as int * 32 && self.spec_test(i) ==> !rhs.0.spec_test(i),
            decreases N - t,
        {
            if !self[t].is_disjoint(&rhs.0[t]) {
                proof {
                    let k = choose|j: int|
                        idx_in_range(j) && self@[t as int].spec_test(j) && rhs.0@[t as int].spec_test(j);
                    if k > 31 {
                        self@[t as int].lemma_beyond_limit_unset(k);
                    }
                    lemma_recompose(t as int, k, 32);
                    assert(self.spec_test(t as int * 32 + k) && rhs.0.spec_test(t as int * 32 + k));
                    assert(idx_in_range(t as int * 32 + k));
                }
                return false;
            }
            proof {
                assert forall|i: int|
                    0 <= i < (t as int + 1) * 32 && self.spec_test(i) implies !rhs.0.spec_test(
                    i,
                ) by {
                    if t as int * 32 <= i {
                        lemma_parts(i, 32);
                        lemma_div_below(i, t as int, 32);
                    }
                }
            }
            t = t + 1;
        }
        proof {
            assert forall|i: int|
                idx_in_range(i) && self.spec_test(i) implies rhs.spec_test(i) by {
                lemma_parts(i, 32);
            }
        }
        true
    }
}

impl<const N: usize> BitDisjoint for [u32; N] {
    fn is_disjoint(&self, rhs: &Self) -> (r: bool) {
        if !span_fits_exec(N, 32) {
            return true;
        }
        let mut t: usize = 0;
        while t < N
            invariant
                span_fits(N as int, 32),
                t <= N,
                forall|i: int|
                    0 <= i < t as int * 32 ==> !(self.spec_test(i) && rhs.spec_test(i)),
            decreases N - t,
        {
            if !self[t].is_disjoint(&rhs[t]) {
                proof {
                    let k = choose|j: int|
                        idx_in_range(j) && self@[t as int].spec_test(j) && rhs@[t as int].spec_test(j);
                    if k > 31 {
                        self@[t as int].lemma_beyond_limit_unset(k);
                    }
                    lemma_recompose(t as int, k, 32);
                    assert(self.spec_test(t as int * 32 + k) && rhs.spec_test(t as int * 32 + k));
                    assert(idx_in_range(t as int * 32 + k));
                }
                return false;
            }
            proof {
                assert forall|i: int|
                    0 <= i < (t as int + 1) * 32 implies !(self.spec_test(i) && rhs.spec_test(
                    i,
                )) by {
                    if t as int * 32 <= i && self.spec_test(i) {
                        lemma_parts(i, 32);
                        lemma_div_below(i, t as int, 32);
                    }
                }
            }
            t = t + 1;
        }
        proof {
            assert forall|i: int|
                idx_in_range(i) implies !(self.spec_test(i) && rhs.spec_test(i)) by {
                if self.spec_test(i) {
                    lemma_parts(i, 32);
                }
            }
        }
        true
    }
}

impl<const N: usize> BitDisjoint<Complement<[u32; N]>> for [u32; N] {
    fn is_disjoint(&self, rhs: &Complement<Self>) -> (r: bool) {
        if !span_fits_exec(N, 32) {
            return true;
        }
        let mut t: usize = 0;
        while t < N
            invariant
                span_fits(N as int, 32),
                t <= N,
                forall|i: int|
                    0 <= i < t as int * 32 && self.spec_test(i) ==> rhs.0.spec_test(i),
            decreases N - t,
        {
            if !self[t].is_subset_of(&rhs.0[t]) {
                proof {
                    let k = choose|j: int|
                        idx_in_range(j) && self@[t as int].spec_test(j) && !rhs.0@[t as int].spec_test(j);
                    if k > 31 {
                        self@[t as int].lemma_beyond_limit_unset(k);
                    }
                    lemma_recompose(t as int, k, 32);
                    assert(self.spec_test(t as int * 32 + k) && !rhs.0.spec_test(t as int * 32 + k));
                    assert(idx_in_range(t as int * 32 + k));
                }
                return false;
            }
            proof {
                assert forall|i: int|
                    0 <= i < (t as int + 1) * 32 && self.spec_test(i) implies rhs.0.spec_test(
                    i,
                ) by {
                    if t as int * 32 <= i {
                        lemma_parts(i, 32);
                        lemma_div_below(i, t as int, 32);
                    }
                }
            }
            t = t + 1;
        }
        proof {
            assert forall|i: int|
                idx_in_range(i) implies !(self.spec_test(i) && rhs.spec_test(i)) by {
                if self.spec_test(i) {
                    lemma_parts(i, 32);
                }
            }
        }
        true
    }
}

impl<const N: usize> BitTest for [u64; N] {
    open spec fn wf(&self) -> bool {
        true
    }

    open spec fn spec_test(&self, i: int) -> bool {
        &&& span_fits(N as int, 64)
        &&& 0 <= i
        &&& i / 64 < N as int
        &&& self@[i / 64].spec_test(i % 64)
    }

    fn test(&self, idx: usize) -> (r: bool) {
        if !span_fits_exec(N, 64) {
            return false;
        }
        let t = idx / 64;
        proof {
            lemma_parts(idx as int, 64);
        }
        if t >= N {
            return false;
        }
        let b = idx % 64;
        self[t].test(b)
    }
}

impl<const N: usize> BitEmpty for [u64; N] {
    fn empty() -> (r: Self) {
        let r = [0u64; N];
        proof {
            assert forall|i: int| idx_in_range(i) implies !r.spec_test(i) by {
                if 0 <= i && i / 64 < N as int {
                    lemma_parts(i, 64);
                    lemma_u64_zero_bit((i % 64) as u64);
                }
            }
        }
        r
    }
}

impl<const N: usize> BitTestAll for [u64; N] {
    fn test_all(&self) -> (r: bool) {
        // The array never covers every representable index: either its span
        // stops short of `usize::MAX`, or the span itself does not fit.
        proof {
            if span_fits(N as int, 64) {
                lemma_recompose(N as int, 0, 64);
                assert(!self.spec_test((N as int) * 64));
                assert(idx_in_range((N as int) * 64));
            } else {
                assert(!self.spec_test(0));
            }
        }
        false
    }
}

impl<const N: usize> BitTestNone for [u64; N] {
    fn test_none(&self) -> (r: bool) {
        if !span_fits_exec(N, 64) {
            return true;
        }
        let mut t: usize = 0;
        while t < N
            invariant
                t <= N,
                span_fits(N as int, 64),
                forall|i: int| 0 <= i < t as int * 64 ==> !self.spec_test(i),
            decreases N - t,
        {
            let w = self[t];
            if w != 0 {
                proof {
                    let k = lemma_u64_nonzero_has_bit(w);
                    lemma_recompose(t as int, k as int, 64);
                    assert(self.spec_test(t as int * 64 + k as int));
                    assert(idx_in_range(t as int * 64 + k as int));
                }
                return false;
            }
            proof {
                assert forall|i: int| 0 <= i < (t as int + 1) * 64 implies !self.spec_test(i) by {
                    if t as int * 64 <= i {
                        lemma_parts(i, 64);
                        lemma_div_below(i, t as int, 64);
                        lemma_u64_zero_bit((i % 64) as u64);
                    }
                }
            }
            t = t + 1;
        }
        proof {
            assert forall|i: int| idx_in_range(i) implies !self.spec_test(i) by {
                if 0 <= i && i / 64 < N as int {
                    lemma_parts(i, 64);
                }
            }
        }
        true
    }
}

impl<const N: usize> BitSetLimit for [u64; N] {
    open spec fn spec_max_set_index() -> int {
        if N as int == 0 {
            0
        } else if span_fits(N as int, 64) {
            N as int * 64 - 1
        } else {
            usize::MAX as int
        }
    }

    proof fn lemma_max_set_index_in_range() {
    }

    proof fn lemma_beyond_limit_unset(&self, i: int) {
        if self.spec_test(i) {
            lemma_parts(i, 64);
        }
    }

    fn max_set_index() -> (r: usize) {
        if N == 0 {
            return 0;
        }
        if !span_fits_exec(N, 64) {
            return usize::MAX;
        }
        (N - 1) * 64 + 63
    }
}

impl<const N: usize> BitSet for [u64; N] {
    open spec fn spec_can_set(i: int) -> bool {
        &&& span_fits(N as int, 64)
        &&& 0 <= i
        &&& i / 64 < N as int
    }

    fn set_unchecked(&mut self, idx: usize) {
        let t = idx / 64;
        let b = idx % 64;
        proof {
            lemma_parts(idx as int, 64);
        }
        let mut w = self[t];
        w.set_unchecked(b);
        self[t] = w;
        proof {
            assert forall|i: int|
                idx_in_range(i) implies self.spec_test(i) == (old(self).spec_test(i) || i
                == idx as int) by {
                lemma_parts(i, 64);
                let ti = i / 64;
                let bi = i % 64;
                if ti == t as int {
                    assert(self@[ti] == w);
                    assert((ti == t as int && bi == b as int) ==> i == idx as int);
                } else {
                    if 0 <= ti < N as int {
                        assert(self@[ti] == old(self)@[ti]);
                    }
                    assert(i != idx as int);
                }
            }
        }
    }
}

impl<const N: usize> BitUnsetLimit for [u64; N] {
    open spec fn spec_max_unset_index() -> int {
        usize::MAX as int
    }

    proof fn lemma_max_unset_index_in_range() {
    }

    proof fn lemma_beyond_limit_set(&self, i: int) {
    }

    fn max_unset_index() -> (r: usize) {
        usize::MAX
    }
}

impl<const N: usize> BitUnset for [u64; N] {
    open spec fn spec_can_unset(i: int) -> bool {
        true
    }

    fn unset_unchecked(&mut self, idx: usize) {
        let t = idx / 64;
        proof {
            lemma_parts(idx as int, 64);
        }
        if t >= N {
            return ;
        }
        let b = idx % 64;
        let mut w = self[t];
        w.unset_unchecked(b);
        self[t] = w;
        proof {
            assert forall|i: int|
                idx_in_range(i) implies self.spec_test(i) == (old(self).spec_test(i) && i
                != idx as int) by {
                lemma_parts(i, 64);
                let ti = i / 64;
                let bi = i % 64;
                if ti == t as int {
                    assert(self@[ti] == w);
                    assert((ti == t as int && bi == b as int) ==> i == idx as int);
                } else {
                    if 0 <= ti < N as int {
                        assert(self@[ti] == old(self)@[ti]);
                    }
                    assert(i != idx as int);
                }
            }
        }
    }
}

impl<const N: usize> BitSearch for [u64; N] {
    fn find_first_set(&self, lower_bound: usize) -> (r: Option<usize>) {
        if !span_fits_exec(N, 64) {
            return None;
        }
        let mut t = lower_bound / 64;
        let mut b = lower_bound % 64;
        proof {
            lemma_parts(lower_bound as int, 64);
        }
        if t >= N {
            proof {
                assert forall|i: int|
                    lower_bound as int <= i && idx_in_range(i) implies !self.spec_test(i) by {
                    lemma_parts(i, 64);
                    lemma_div_is_ordered(lower_bound as int, i, 64);
                }
            }
            return None;
        }
        while t < N
            invariant
                span_fits(N as int, 64),
                t <= N,
                b < 64,
                lower_bound as int <= t as int * 64 + b as int,
                forall|i: int|
                    lower_bound as int <= i < t as int * 64 + b as int ==> !self.spec_test(i),
            decreases N - t,
        {
            match self[t].find_first_set(b) {
                Some(x) => {
                    proof {
                        lemma_recompose(t as int, x as int, 64);
                        assert forall|i: int|
                            lower_bound as int <= i < t as int * 64 + x as int implies !self.spec_test(
                            i,
                        ) by {
                            if t as int * 64 + b as int <= i {
                                lemma_parts(i, 64);
                                lemma_div_below(i, t as int, 64);
                            }
                        }
                    }
                    return Some(t * 64 + x);
                },
                None => {
                    proof {
                        assert forall|i: int|
                            lower_bound as int <= i < (t as int + 1) * 64 implies !self.spec_test(
                            i,
                        ) by {
                            if t as int * 64 + b as int <= i {
                                lemma_parts(i, 64);
                                lemma_div_below(i, t as int, 64);
                            }
                        }
                    }
                    t = t + 1;
                    b = 0;
                },
            }
        }
        proof {
            assert forall|i: int|
                lower_bound as int <= i && idx_in_range(i) implies !self.spec_test(i) by {
                if 0 <= i && i / 64 < N as int {
                    lemma_parts(i, 64);
                }
            }
        }
        None
    }
}

impl<const N: usize> BitComplement for [u64; N] {
    type Output = Complement<Self>;

    fn complement(self) -> (r: Complement<Self>) {
        Complement(self)
    }
}

impl<const N: usize> BitUnion for [u64; N] {
    type Output = Self;

    fn union(self, rhs: Self) -> (r: Self) {
        let mut r = self;
        let mut t: usize = 0;
        while t < N
            invariant
                t <= N,
                forall|k: int| t as int <= k < N as int ==> r@[k] == self@[k],
                forall|k: int|
                    0 <= k < t as int ==> forall|j: int|
                        idx_in_range(j) ==> ((#[trigger] r@[k]).spec_test(j) == (
                        self@[k].spec_test(j) || rhs@[k].spec_test(j))),
            decreases N - t,
        {
            let w = self[t].union(rhs[t]);
            r[t] = w;
            t = t + 1;
        }
        proof {
            assert forall|i: int|
                idx_in_range(i) implies r.spec_test(i) == (self.spec_test(i) || rhs.spec_test(
                i,
            )) by {
                if 0 <= i {
                    lemma_parts(i, 64);
                }
            }
        }
        r
    }
}

impl<const N: usize> BitUnion<Complement<[u64; N]>> for [u64; N] {
    type Output = Complement<Self>;

    /// The rewrite `a.union(complement(b)) == complement(b.difference(a))`,
    /// computed eagerly word by word.
    fn union(self, rhs: Complement<Self>) -> (r: Complement<Self>) {
        let mut inner = rhs.0;
        let mut t: usize = 0;
        while t < N
            invariant
                t <= N,
                forall|k: int| t as int <= k < N as int ==> inner@[k] == rhs.0@[k],
                forall|k: int|
                    0 <= k < t as int ==> forall|j: int|
                        idx_in_range(j) ==> ((#[trigger] inner@[k]).spec_test(j) == (
                        rhs.0@[k].spec_test(j) && !self@[k].spec_test(j))),
            decreases N - t,
        {
            let w = rhs.0[t].difference(self[t]);
            inner[t] = w;
            t = t + 1;
        }
        proof {
            assert forall|i: int|
                idx_in_range(i) implies (!inner.spec_test(i)) == (self.spec_test(i)
                || !rhs.0.spec_test(i)) by {
                if 0 <= i {
                    lemma_parts(i, 64);
                }
            }
        }
        Complement(inner)
    }
}

impl<const N: usize> BitIntersection for [u64; N] {
    type Output = Self;

    fn intersection(self, rhs: Self) -> (r: Self) {
        let mut r = self;
        let mut t: usize = 0;
        while t < N
            invariant
                t <= N,
                forall|k: int| t as int <= k < N as int ==> r@[k] == self@[k],
                forall|k: int|
                    0 <= k < t as int ==> forall|j: int|
                        idx_in_range(j) ==> ((#[trigger] r@[k]).spec_test(j) == (
                        self@[k].spec_test(j) && rhs@[k].spec_test(j))),
            decreases N - t,
        {
            let w = self[t].intersection(rhs[t]);
            r[t] = w;
            t = t + 1;
        }
        proof {
            assert forall|i: int|
                idx_in_range(i) implies r.spec_test(i) == (self.spec_test(i) && rhs.spec_test(
                i,
            )) by {
                if 0 <= i {
                    lemma_parts(i, 64);
                }
            }
        }
        r
    }
}

impl<const N: usize> BitIntersection<Complement<[u64; N]>> for [u64; N] {
    type Output = Self;

    /// The rewrite `a.intersection(complement(b)) == a.difference(b)`,
    /// computed eagerly word by word.
    fn intersection(self, rhs: Complement<Self>) -> (r: Self) {
        let mut r = self;
        let mut t: usize = 0;
        while t < N
            invariant
                t <= N,
                forall|k: int| t as int <= k < N as int ==> r@[k] == self@[k],
                forall|k: int|
                    0 <= k < t as int ==> forall|j: int|
                        idx_in_range(j) ==> ((#[trigger] r@[k]).spec_test(j) == (
                        self@[k].spec_test(j) && !rhs.0@[k].spec_test(j))),
            decreases N - t,
        {
            let w = self[t].difference(rhs.0[t]);
            r[t] = w;
            t = t + 1;
        }
        proof {
            assert forall|i: int|
                idx_in_range(i) implies r.spec_test(i) == (self.spec_test(i) && rhs.spec_test(
                i,
            )) by {
                if 0 <= i {
                    lemma_parts(i, 64);
                }
            }
        }
        r
    }
}

impl<const N: usize> BitDifference for [u64; N] {
    type Output = Self;

    fn difference(self, rhs: Self) -> (r: Self) {
        let mut r = self;
        let mut t: usize = 0;
        while t < N
            invariant
                t <= N,
                forall|k: int| t as int <= k < N as int ==> r@[k] == self@[k],
                forall|k: int|
                    0 <= k < t as int ==> forall|j: int|
                        idx_in_range(j) ==> ((#[trigger] r@[k]).spec_test(j) == (
                        self@[k].spec_test(j) && !rhs@[k].spec_test(j))),
            decreases N - t,
        {
            let w = self[t].difference(rhs[t]);
            r[t] = w;
            t = t + 1;
        }
        proof {
            assert forall|i: int|
                idx_in_range(i) implies r.spec_test(i) == (self.spec_test(i) && !rhs.spec_test(
                i,
            )) by {
                if 0 <= i {
                    lemma_parts(i, 64);
                }
            }
        }
        r
    }
}

impl<const N: usize> BitDifference<Complement<[u64; N]>> for [u64; N] {
    type Output = Self;

    /// The rewrite `a.difference(complement(b)) == a.intersection(b)`,
    /// computed eagerly word by word.
    fn difference(self, rhs: Complement<Self>) -> (r: Self) {
        let mut r = self;
        let mut t: usize = 0;
        while t < N
            invariant
                t <= N,
                forall|k: int| t as int <= k < N as int ==> r@[k] == self@[k],
                forall|k: int|
                    0 <= k < t as int ==> forall|j: int|
                        idx_in_range(j) ==> ((#[trigger] r@[k]).spec_test(j) == (
                        self@[k].spec_test(j) && rhs.0@[k].spec_test(j))),
            decreases N - t,
        {
            let w = self[t].intersection(rhs.0[t]);
            r[t] = w;
            t = t + 1;
        }
        proof {
            assert forall|i: int|
                idx_in_range(i) implies r.spec_test(i) == (self.spec_test(i) && !rhs.spec_test(
                i,
            )) by {
                if 0 <= i {
                    lemma_parts(i, 64);
                }
            }
        }
        r
    }
}

impl<const N: usize> BitSubset for [u64; N] {
    fn is_subset_of(&self, rhs: &Self) -> (r: bool) {
        if !span_fits_exec(N, 64) {
            return true;
        }
        let mut t: usize = 0;
        while t < N
            invariant
                span_fits(N as int, 64),
                t <= N,
                forall|i: int|
                    0 <= i < t as int * 64 && self.spec_test(i) ==> rhs.spec_test(i),
            decreases N - t,
        {
            if !self[t].is_subset_of(&rhs[t]) {
                proof {
                    let k = choose|j: int|
                        idx_in_range(j) && self@[t as int].spec_test(j) && !rhs@[t as int].spec_test(j);
                    if k > 63 {
                        self@[t as int].lemma_beyond_limit_unset(k);
                    }
                    lemma_recompose(t as int, k, 64);
                    assert(self.spec_test(t as int * 64 + k) && !rhs.spec_test(t as int * 64 + k));
                    assert(idx_in_range(t as int * 64 + k));
                }
                return false;
            }
            proof {
                assert forall|i: int|
                    0 <= i < (t as int + 1) * 64 && self.spec_test(i) implies rhs.spec_test(
                    i,
                ) by {
                    if t as int * 64 <= i {
                        lemma_parts(i, 64);
                        lemma_div_below(i, t as int, 64);
                    }
                }
            }
            t = t + 1;
        }
        proof {
            assert forall|i: int|
                idx_in_range(i) && self.spec_test(i) implies rhs.spec_test(i) by {
                lemma_parts(i, 64);
            }
        }
        true
    }
}

impl<const N: usize> BitSubset<Complement<[u64; N]>> for [u64; N] {
    fn is_subset_of(&self, rhs: &Complement<Self>) -> (r: bool) {
        if !span_fits_exec(N, 64) {
            return true;
        }
        let mut t: usize = 0;
        while t < N
            invariant
                span_fits(N as int, 64),
                t <= N,
                forall|i: int|
                    0 <= i < t as int * 64 && self.spec_test(i) ==> !rhs.0.spec_test(i),
            decreases N - t,
        {
            if !self[t].is_disjoint(&rhs.0[t]) {
                proof {
                    let k = choose|j: int|
                        idx_in_range(j) && self@[t as int].spec_test(j) && rhs.0@[t as int].spec_test(j);
                    if k > 63 {
                        self@[t as int].lemma_beyond_limit_unset(k);
                    }
                    lemma_recompose(t as int, k, 64);
                    assert(self.spec_test(t as int * 64 + k) && rhs.0.spec_test(t as int * 64 + k));
                    assert(idx_in_range(t as int * 64 + k));
                }
                return false;
            }
            proof {
                assert forall|i: int|
                    0 <= i < (t as int + 1) * 64 && self.spec_test(i) implies !rhs.0.spec_test(
                    i,
                ) by {
                    if t as int * 64 <= i {
                        lemma_parts(i, 64);
                        lemma_div_below(i, t as int, 64);
                    }
                }
            }
            t = t + 1;
        }
        proof {
            assert forall|i: int|
                idx_in_range(i) && self.spec_test(i) implies rhs.spec_test(i) by {
                lemma_parts(i, 64);
            }
        }
        true
    }
}

impl<const N: usize> BitDisjoint for [u64; N] {
    fn is_disjoint(&self, rhs: &Self) -> (r: bool) {
        if !span_fits_exec(N, 64) {
            return true;
        }
        let mut t: usize = 0;
        while t < N
            invariant
                span_fits(N as int, 64),
                t <= N,
                forall|i: int|
                    0 <= i < t as int * 64 ==> !(self.spec_test(i) && rhs.spec_test(i)),
            decreases N - t,
        {
            if !self[t].is_disjoint(&rhs[t]) {
                proof {
                    let k = choose|j: int|
                        idx_in_range(j) && self@[t as int].spec_test(j) && rhs@[t as int].spec_test(j);
                    if k > 63 {
                        self@[t as int].lemma_beyond_limit_unset(k);
                    }
                    lemma_recompose(t as int, k, 64);
                    assert(self.spec_test(t as int * 64 + k) && rhs.spec_test(t as int * 64 + k));
                    assert(idx_in_range(t as int * 64 + k));
                }
                return false;
            }
            proof {
                assert forall|i: int|
                    0 <= i < (t as int + 1) * 64 implies !(self.spec_test(i) && rhs.spec_test(
                    i,
                )) by {
                    if t as int * 64 <= i && self.spec_test(i) {
                        lemma_parts(i, 64);
                        lemma_div_below(i, t as int, 64);
                    }
                }
            }
            t = t + 1;
        }
        proof {
            assert forall|i: int|
                idx_in_range(i) implies !(self.spec_test(i) && rhs.spec_test(i)) by {
                if self.spec_test(i) {
                    lemma_parts(i, 64);
                }
            }
        }
        true
    }
}

impl<const N: usize> BitDisjoint<Complement<[u64; N]>> for [u64; N] {
    fn is_disjoint(&self, rhs: &Complement<Self>) -> (r: bool) {
        if !span_fits_exec(N, 64) {
            return true;
        }
        let mut t: usize = 0;
        while t < N
            invariant
                span_fits(N as int, 64),
                t <= N,
                forall|i: int|
                    0 <= i < t as int * 64 && self.spec_test(i) ==> rhs.0.spec_test(i),
            decreases N - t,
        {
            if !self[t].is_subset_of(&rhs.0[t]) {
                proof {
                    let k = choose|j: int|
                        idx_in_range(j) && self@[t as int].spec_test(j) && !rhs.0@[t as int].spec_test(j);
                    if k > 63 {
                        self@[t as int].lemma_beyond_limit_unset(k);
                    }
                    lemma_recompose(t as int, k, 64);
                    assert(self.spec_test(t as int * 64 + k) && !rhs.0.spec_test(t as int * 64 + k));
                    assert(idx_in_range(t as int * 64 + k));
                }
                return false;
            }
            proof {
                assert forall|i: int|
                    0 <= i < (t as int + 1) * 64 && self.spec_test(i) implies rhs.0.spec_test(
                    i,
                ) by {
                    if t as int * 64 <= i {
                        lemma_parts(i, 64);
                        lemma_div_below(i, t as int, 64);
                    }
                }
            }
            t = t + 1;
        }
        proof {
            assert forall|i: int|
                idx_in_range(i) implies !(self.spec_test(i) && rhs.spec_test(i)) by {
                if self.spec_test(i) {
                    lemma_parts(i, 64);
                }
            }
        }
        true
    }
}

impl<const N: usize> BitTest for [u128; N] {
    open spec fn wf(&self) -> bool {
        true
    }

    open spec fn spec_test(&self, i: int) -> bool {
        &&& span_fits(N as int, 128)
        &&& 0 <= i
        &&& i / 128 < N as int
        &&& self@[i / 128].spec_test(i % 128)
    }

    fn test(&self, idx: usize) -> (r: bool) {
        if !span_fits_exec(N, 128) {
            return false;
        }
        let t = idx / 128;
        proof {
            lemma_parts(idx as int, 128);
        }
        if t >= N {
            return false;
        }
        let b = idx % 128;
        self[t].test(b)
    }
}

impl<const N: usize> BitEmpty for [u128; N] {
    fn empty() -> (r: Self) {
        let r = [0u128; N];
        proof {
            assert forall|i: int| idx_in_range(i) implies !r.spec_test(i) by {
                if 0 <= i && i / 128 < N as int {
                    lemma_parts(i, 128);
                    lemma_u128_zero_bit((i % 128) as u128);
                }
            }
        }
        r
    }
}

impl<const N: usize> BitTestAll for [u128; N] {
    fn test_all(&self) -> (r: bool) {
        // The array never covers every representable index: either its span
        // stops short of `usize::MAX`, or the span itself does not fit.
        proof {
            if span_fits(N as int, 128) {
                lemma_recompose(N as int, 0, 128);
                assert(!self.spec_test((N as int) * 128));
                assert(idx_in_range((N as int) * 128));
            } else {
                assert(!self.spec_test(0));
            }
        }
        false
    }
}

impl<const N: usize> BitTestNone for [u128; N] {
    fn test_none(&self) -> (r: bool) {
        if !span_fits_exec(N, 128) {
            return true;
        }
        let mut t: usize = 0;
        while t < N
            invariant
                t <= N,
                span_fits(N as int, 128),
                forall|i: int| 0 <= i < t as int * 128 ==> !self.spec_test(i),
            decreases N - t,
        {
            let w = self[t];
            if w != 0 {
                proof {
                    let k = lemma_u128_nonzero_has_bit(w);
                    lemma_recompose(t as int, k as int, 128);
                    assert(self.spec_test(t as int * 128 + k as int));
                    assert(idx_in_range(t as int * 128 + k as int));
                }
                return false;
            }
            proof {
                assert forall|i: int| 0 <= i < (t as int + 1) * 128 implies !self.spec_test(i) by {
                    if t as int * 128 <= i {
                        lemma_parts(i, 128);
                        lemma_div_below(i, t as int, 128);
                        lemma_u128_zero_bit((i % 128) as u128);
                    }
                }
            }
            t = t + 1;
        }
        proof {
            assert forall|i: int| idx_in_range(i) implies !self.spec_test(i) by {
                if 0 <= i && i / 128 < N as int {
                    lemma_parts(i, 128);
                }
            }
        }
        true
    }
}

impl<const N: usize> BitSetLimit for [u128; N] {
    open spec fn spec_max_set_index() -> int {
        if N as int == 0 {
            0
        } else if span_fits(N as int, 128) {
            N as int * 128 - 1
        } else {
            usize::MAX as int
        }
    }

    proof fn lemma_max_set_index_in_range() {
    }

    proof fn lemma_beyond_limit_unset(&self, i: int) {
        if self.spec_test(i) {
            lemma_parts(i, 128);
        }
    }

    fn max_set_index() -> (r: usize) {
        if N == 0 {
            return 0;
        }
        if !span_fits_exec(N, 128) {
            return usize::MAX;
        }
        (N - 1) * 128 + 127
    }
}

impl<const N: usize> BitSet for [u128; N] {
    open spec fn spec_can_set(i: int) -> bool {
        &&& span_fits(N as int, 128)
        &&& 0 <= i
        &&& i / 128 < N as int
    }

    fn set_unchecked(&mut self, idx: usize) {
        let t = idx / 128;
        let b = idx % 128;
        proof {
            lemma_parts(idx as int, 128);
        }
        let mut w = self[t];
        w.set_unchecked(b);
        self[t] = w;
        proof {
            assert forall|i: int|
                idx_in_range(i) implies self.spec_test(i) == (old(self).spec_test(i) || i
                == idx as int) by {
                lemma_parts(i, 128);
                let ti = i / 128;
                let bi = i % 128;
                if ti == t as int {
                    assert(self@[ti] == w);
                    assert((ti == t as int && bi == b as int) ==> i == idx as int);
                } else {
                    if 0 <= ti < N as int {
                        assert(self@[ti] == old(self)@[ti]);
                    }
                    assert(i != idx as int);
                }
            }
        }
    }
}

impl<const N: usize> BitUnsetLimit for [u128; N] {
    open spec fn spec_max_unset_index() -> int {
        usize::MAX as int
    }

    proof fn lemma_max_unset_index_in_range() {
    }

    proof fn lemma_beyond_limit_set(&self, i: int) {
    }

    fn max_unset_index() -> (r: usize) {
        usize::MAX
    }
}

impl<const N: usize> BitUnset for [u128; N] {
    open spec fn spec_can_unset(i: int) -> bool {
        true
    }

    fn unset_unchecked(&mut self, idx: usize) {
        let t = idx / 128;
        proof {
            lemma_parts(idx as int, 128);
        }
        if t >= N {
            return ;
        }
        let b = idx % 128;
        let mut w = self[t];
        w.unset_unchecked(b);
        self[t] = w;
        proof {
            assert forall|i: int|
                idx_in_range(i) implies self.spec_test(i) == (old(self).spec_test(i) && i
                != idx as int) by {
                lemma_parts(i, 128);
                let ti = i / 128;
                let bi = i % 128;
                if ti == t as int {
                    assert(self@[ti] == w);
                    assert((ti == t as int && bi == b as int) ==> i == idx as int);
                } else {
                    if 0 <= ti < N as int {
                        assert(self@[ti] == old(self)@[ti]);
                    }
                    assert(i != idx as int);
                }
            }
        }
    }
}

impl<const N: usize> BitSearch for [u128; N] {
    fn find_first_set(&self, lower_bound: usize) -> (r: Option<usize>) {
        if !span_fits_exec(N, 128) {
            return None;
        }
        let mut t = lower_bound / 128;
        let mut b = lower_bound % 128;
        proof {
            lemma_parts(lower_bound as int, 128);
        }
        if t >= N {
            proof {
                assert forall|i: int|
                    lower_bound as int <= i && idx_in_range(i) implies !self.spec_test(i) by {
                    lemma_parts(i, 128);
                    lemma_div_is_ordered(lower_bound as int, i, 128);
                }
            }
            return None;
        }
        while t < N
            invariant
                span_fits(N as int, 128),
                t <= N,
                b < 128,
                lower_bound as int <= t as int * 128 + b as int,
                forall|i: int|
                    lower_bound as int <= i < t as int * 128 + b as int ==> !self.spec_test(i),
            decreases N - t,
        {
            match self[t].find_first_set(b) {
                Some(x) => {
                    proof {
                        lemma_recompose(t as int, x as int, 128);
                        assert forall|i: int|
                            lower_bound as int <= i < t as int * 128 + x as int implies !self.spec_test(
                            i,
                        ) by {
                            if t as int * 128 + b as int <= i {
                                lemma_parts(i, 128);
                                lemma_div_below(i, t as int, 128);
                            }
                        }
                    }
                    return Some(t * 128 + x);
                },
                None => {
                    proof {
                        assert forall|i: int|
                            lower_bound as int <= i < (t as int + 1) * 128 implies !self.spec_test(
                            i,
                        ) by {
                            if t as int * 128 + b as int <= i {
                                lemma_parts(i, 128);
                                lemma_div_below(i, t as int, 128);
                            }
                        }
                    }
                    t = t + 1;
                    b = 0;
                },
            }
        }
        proof {
            assert forall|i: int|
                lower_bound as int <= i && idx_in_range(i) implies !self.spec_test(i) by {
                if 0 <= i && i / 128 < N as int {
                    lemma_parts(i, 128);
                }
            }
        }
        None
    }
}

impl<const N: usize> BitComplement for [u128; N] {
    type Output = Complement<Self>;

    fn complement(self) -> (r: Complement<Self>) {
        Complement(self)
    }
}

impl<const N: usize> BitUnion for [u128; N] {
    type Output = Self;

    fn union(self, rhs: Self) -> (r: Self) {
        let mut r = self;
        let mut t: usize = 0;
        while t < N
            invariant
                t <= N,
                forall|k: int| t as int <= k < N as int ==> r@[k] == self@[k],
                forall|k: int|
                    0 <= k < t as int ==> forall|j: int|
                        idx_in_range(j) ==> ((#[trigger] r@[k]).spec_test(j) == (
                        self@[k].spec_test(j) || rhs@[k].spec_test(j))),
            decreases N - t,
        {
            let w = self[t].union(rhs[t]);
            r[t] = w;
            t = t + 1;
        }
        proof {
            assert forall|i: int|
                idx_in_range(i) implies r.spec_test(i) == (self.spec_test(i) || rhs.spec_test(
                i,
            )) by {
                if 0 <= i {
                    lemma_parts(i, 128);
                }
            }
        }
        r
    }
}

impl<const N: usize> BitUnion<Complement<[u128; N]>> for [u128; N] {
    type Output = Complement<Self>;

    /// The rewrite `a.union(complement(b)) == complement(b.difference(a))`,
    /// computed eagerly word by word.
    fn union(self, rhs: Complement<Self>) -> (r: Complement<Self>) {
        let mut inner = rhs.0;
        let mut t: usize = 0;
        while t < N
            invariant
                t <= N,
                forall|k: int| t as int <= k < N as int ==> inner@[k] == rhs.0@[k],
                forall|k: int|
                    0 <= k < t as int ==> forall|j: int|
                        idx_in_range(j) ==> ((#[trigger] inner@[k]).spec_test(j) == (
                        rhs.0@[k].spec_test(j) && !self@[k].spec_test(j))),
            decreases N - t,
        {
            let w = rhs.0[t].difference(self[t]);
            inner[t] = w;
            t = t + 1;
        }
        proof {
            assert forall|i: int|
                idx_in_range(i) implies (!inner.spec_test(i)) == (self.spec_test(i)
                || !rhs.0.spec_test(i)) by {
                if 0 <= i {
                    lemma_parts(i, 128);
                }
            }
        }
        Complement(inner)
    }
}

impl<const N: usize> BitIntersection for [u128; N] {
    type Output = Self;

    fn intersection(self, rhs: Self) -> (r: Self) {
        let mut r = self;
        let mut t: usize = 0;
        while t < N
            invariant
                t <= N,
                forall|k: int| t as int <= k < N as int ==> r@[k] == self@[k],
                forall|k: int|
                    0 <= k < t as int ==> forall|j: int|
                        idx_in_range(j) ==> ((#[trigger] r@[k]).spec_test(j) == (
                        self@[k].spec_test(j) && rhs@[k].spec_test(j))),
            decreases N - t,
        {
            let w = self[t].intersection(rhs[t]);
            r[t] = w;
            t = t + 1;
        }
        proof {
            assert forall|i: int|
                idx_in_range(i) implies r.spec_test(i) == (self.spec_test(i) && rhs.spec_test(
                i,
            )) by {
                if 0 <= i {
                    lemma_parts(i, 128);
                }
            }
        }
        r
    }
}

impl<const N: usize> BitIntersection<Complement<[u128; N]>> for [u128; N] {
    type Output = Self;

    /// The rewrite `a.intersection(complement(b)) == a.difference(b)`,
    /// computed eagerly word by word.
    fn intersection(self, rhs: Complement<Self>) -> (r: Self) {
        let mut r = self;
        let mut t: usize = 0;
        while t < N
            invariant
                t <= N,
                forall|k: int| t as int <= k < N as int ==> r@[k] == self@[k],
                forall|k: int|
                    0 <= k < t as int ==> forall|j: int|
                        idx_in_range(j) ==> ((#[trigger] r@[k]).spec_test(j) == (
                        self@[k].spec_test(j) && !rhs.0@[k].spec_test(j))),
            decreases N - t,
        {
            let w = self[t].difference(rhs.0[t]);
            r[t] = w;
            t = t + 1;
        }
        proof {
            assert forall|i: int|
                idx_in_range(i) implies r.spec_test(i) == (self.spec_test(i) && rhs.spec_test(
                i,
            )) by {
                if 0 <= i {
                    lemma_parts(i, 128);
                }
            }
        }
        r
    }
}

impl<const N: usize> BitDifference for [u128; N] {
    type Output = Self;

    fn difference(self, rhs: Self) -> (r: Self) {
        let mut r = self;
        let mut t: usize = 0;
        while t < N
            invariant
                t <= N,
                forall|k: int| t as int <= k < N as int ==> r@[k] == self@[k],
                forall|k: int|
                    0 <= k < t as int ==> forall|j: int|
                        idx_in_range(j) ==> ((#[trigger] r@[k]).spec_test(j) == (
                        self@[k].spec_test(j) && !rhs@[k].spec_test(j))),
            decreases N - t,
        {
            let w = self[t].difference(rhs[t]);
            r[t] = w;
            t = t + 1;
        }
        proof {
            assert forall|i: int|
                idx_in_range(i) implies r.spec_test(i) == (self.spec_test(i) && !rhs.spec_test(
                i,
            )) by {
                if 0 <= i {
                    lemma_parts(i, 128);
                }
            }
        }
        r
    }
}

impl<const N: usize> BitDifference<Complement<[u128; N]>> for [u128; N] {
    type Output = Self;

    /// The rewrite `a.difference(complement(b)) == a.intersection(b)`,
    /// computed eagerly word by word.
    fn difference(self, rhs: Complement<Self>) -> (r: Self) {
        let mut r = self;
        let mut t: usize = 0;
        while t < N
            invariant
                t <= N,
                forall|k: int| t as int <= k < N as int ==> r@[k] == self@[k],
                forall|k: int|
                    0 <= k < t as int ==> forall|j: int|
                        idx_in_range(j) ==> ((#[trigger] r@[k]).spec_test(j) == (
                        self@[k].spec_test(j) && rhs.0@[k].spec_test(j))),
            decreases N - t,
        {
            let w = self[t].intersection(rhs.0[t]);
            r[t] = w;
            t = t + 1;
        }
        proof {
            assert forall|i: int|
                idx_in_range(i) implies r.spec_test(i) == (self.spec_test(i) && !rhs.spec_test(
                i,
            )) by {
                if 0 <= i {
                    lemma_parts(i, 128);
                }
            }
        }
        r
    }
}

impl<const N: usize> BitSubset for [u128; N] {
    fn is_subset_of(&self, rhs: &Self) -> (r: bool) {
        if !span_fits_exec(N, 128) {
            return true;
        }
        let mut t: usize = 0;
        while t < N
            invariant
                span_fits(N as int, 128),
                t <= N,
                forall|i: int|
                    0 <= i < t as int * 128 && self.spec_test(i) ==> rhs.spec_test(i),
            decreases N - t,
        {
            if !self[t].is_subset_of(&rhs[t]) {
                proof {
                    let k = choose|j: int|
                        idx_in_range(j) && self@[t as int].spec_test(j) && !rhs@[t as int].spec_test(j);
                    if k > 127 {
                        self@[t as int].lemma_beyond_limit_unset(k);
                    }
                    lemma_recompose(t as int, k, 128);
                    assert(self.spec_test(t as int * 128 + k) && !rhs.spec_test(t as int * 128 + k));
                    assert(idx_in_range(t as int * 128 + k));
                }
                return false;
            }
            proof {
                assert forall|i: int|
                    0 <= i < (t as int + 1) * 128 && self.spec_test(i) implies rhs.spec_test(
                    i,
                ) by {
                    if t as int * 128 <= i {
                        lemma_parts(i, 128);
                        lemma_div_below(i, t as int, 128);
                    }
                }
            }
            t = t + 1;
        }
        proof {
            assert forall|i: int|
                idx_in_range(i) && self.spec_test(i) implies rhs.spec_test(i) by {
                lemma_parts(i, 128);
            }
        }
        true
    }
}

impl<const N: usize> BitSubset<Complement<[u128; N]>> for [u128; N] {
    fn is_subset_of(&self, rhs: &Complement<Self>) -> (r: bool) {
        if !span_fits_exec(N, 128) {
            return true;
        }
        let mut t: usize = 0;
        while t < N
            invariant
                span_fits(N as int, 128),
                t <= N,
                forall|i: int|
                    0 <= i < t as int * 128 && self.spec_test(i) ==> !rhs.0.spec_test(i),
            decreases N - t,
        {
            if !self[t].is_disjoint(&rhs.0[t]) {
                proof {
                    let k = choose|j: int|
                        idx_in_range(j) && self@[t as int].spec_test(j) && rhs.0@[t as int].spec_test(j);
                    if k > 127 {
                        self@[t as int].lemma_beyond_limit_unset(k);
                    }
                    lemma_recompose(t as int, k, 128);
                    assert(self.spec_test(t as int * 128 + k) && rhs.0.spec_test(t as int * 128 + k));
                    assert(idx_in_range(t as int * 128 + k));
                }
                return false;
            }
            proof {
                assert forall|i: int|
                    0 <= i < (t as int + 1) * 128 && self.spec_test(i) implies !rhs.0.spec_test(
                    i,
                ) by {
                    if t as int * 128 <= i {
                        lemma_parts(i, 128);
                        lemma_div_below(i, t as int, 128);
                    }
                }
            }
            t = t + 1;
        }
        proof {
            assert forall|i: int|
                idx_in_range(i) && self.spec_test(i) implies rhs.spec_test(i) by {
                lemma_parts(i, 128);
            }
        }
        true
    }
}

impl<const N: usize> BitDisjoint for [u128; N] {
    fn is_disjoint(&self, rhs: &Self) -> (r: bool) {
        if !span_fits_exec(N, 128) {
            return true;
        }
        let mut t: usize = 0;
        while t < N
            invariant
                span_fits(N as int, 128),
                t <= N,
                forall|i: int|
                    0 <= i < t as int * 128 ==> !(self.spec_test(i) && rhs.spec_test(i)),
            decreases N - t,
        {
            if !self[t].is_disjoint(&rhs[t]) {
                proof {
                    let k = choose|j: int|
                        idx_in_range(j) && self@[t as int].spec_test(j) && rhs@[t as int].spec_test(j);
                    if k > 127 {
                        self@[t as int].lemma_beyond_limit_unset(k);
                    }
                    lemma_recompose(t as int, k, 128);
                    assert(self.spec_test(t as int * 128 + k) && rhs.spec_test(t as int * 128 + k));
                    assert(idx_in_range(t as int * 128 + k));
                }
                return false;
            }
            proof {
                assert forall|i: int|
                    0 <= i < (t as int + 1) * 128 implies !(self.spec_test(i) && rhs.spec_test(
                    i,
                )) by {
                    if t as int * 128 <= i && self.spec_test(i) {
                        lemma_parts(i, 128);
                        lemma_div_below(i, t as int, 128);
                    }
                }
            }
            t = t + 1;
        }
        proof {
            assert forall|i: int|
                idx_in_range(i) implies !(self.spec_test(i) && rhs.spec_test(i)) by {
                if self.spec_test(i) {
                    lemma_parts(i, 128);
                }
            }
        }
        true
    }
}

impl<const N: usize> BitDisjoint<Complement<[u128; N]>> for [u128; N] {
    fn is_disjoint(&self, rhs: &Complement<Self>) -> (r: bool) {
        if !span_fits_exec(N, 128) {
            return true;
        }
        let mut t: usize = 0;
        while t < N
            invariant
                span_fits(N as int, 128),
                t <= N,
                forall|i: int|
                    0 <= i < t as int * 128 && self.spec_test(i) ==> rhs.0.spec_test(i),
            decreases N - t,
        {
            if !self[t].is_subset_of(&rhs.0[t]) {
                proof {
                    let k = choose|j: int|
                        idx_in_range(j) && self@[t as int].spec_test(j) && !rhs.0@[t as int].spec_test(j);
                    if k > 127 {
                        self@[t as int].lemma_beyond_limit_unset(k);
                    }
                    lemma_recompose(t as int, k, 128);
                    assert(self.spec_test(t as int * 128 + k) && !rhs.0.spec_test(t as int * 128 + k));
                    assert(idx_in_range(t as int * 128 + k));
                }
                return false;
            }
            proof {
                assert forall|i: int|
                    0 <= i < (t as int + 1) * 128 && self.spec_test(i) implies rhs.0.spec_test(
                    i,
                ) by {
                    if t as int * 128 <= i {
                        lemma_parts(i, 128);
                        lemma_div_below(i, t as int, 128);
                    }
                }
            }
            t = t + 1;
        }
        proof {
            assert forall|i: int|
                idx_in_range(i) implies !(self.spec_test(i) && rhs.spec_test(i)) by {
                if self.spec_test(i) {
                    lemma_parts(i, 128);
                }
            }
        }
        true
    }
}

} // verus!
