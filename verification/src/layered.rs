//! Two-tier hierarchical bit-set: a top occupancy summary over a fixed
//! sequence of bottom segments.
//!
//! Segment `t` covers the indexes `[t * cap, (t + 1) * cap)`, where `cap` is
//! the bottom type's segment capacity. The top value keeps one bit per
//! segment, set exactly when that segment holds at least one set bit; the
//! search uses it to skip whole empty segments in O(1) each.

use vstd::arithmetic::div_mod::lemma_div_is_ordered;
use vstd::prelude::*;

use crate::arith::lemma_div_below;
use crate::arith::lemma_parts;
use crate::arith::lemma_recompose;

use crate::complement::Complement;
use crate::difference::Difference;
use crate::intersection::Intersection;
use crate::ops::idx_in_range;
use crate::ops::BitComplement;
use crate::ops::BitDifference;
use crate::ops::BitEmpty;
use crate::ops::BitIntersection;
use crate::ops::BitSearch;
use crate::ops::BitSet;
use crate::ops::BitSetLimit;
use crate::ops::BitTest;
use crate::ops::BitTestNone;
use crate::ops::BitUnion;
use crate::ops::BitUnset;
use crate::ops::BitUnsetLimit;
use crate::union::Union;

verus! {

/// Capacity of one bottom segment: how many indexes it covers.
pub open spec fn seg_capacity<B: BitSetLimit>() -> int {
    B::spec_max_set_index() + 1
}

/// True when the segment holds at least one set bit.
pub open spec fn seg_occupied<B: BitSetLimit>(s: B) -> bool {
    exists|b: int| 0 <= b < seg_capacity::<B>() && s.spec_test(b)
}

/// True when the segment geometry fits the platform's index width, so that
/// the capacity and every covered index are exec-computable.
pub open spec fn geometry_ok<B: BitSetLimit, const N: usize>() -> bool {
    &&& B::spec_max_set_index() < usize::MAX as int
    &&& (N as int) * seg_capacity::<B>() <= usize::MAX as int + 1
}

/// Two-tier hierarchical bit-set: a top occupancy summary and `N` bottom
/// segments.
#[derive(Clone, Debug)]
pub struct Layered<T, B, const N: usize> {
    top: T,
    bottom: Vec<B>,
}

impl<T: BitTest, B: BitSetLimit, const N: usize> BitTest for Layered<T, B, N> {
    closed spec fn wf(&self) -> bool {
        &&& self.top.wf()
        &&& self.bottom@.len() == N
        &&& forall|k: int| 0 <= k < N ==> (#[trigger] self.bottom@[k]).wf()
        &&& forall|j: int|
            idx_in_range(j) ==> (#[trigger] self.top.spec_test(j) == (j < N as int
                && seg_occupied::<B>(self.bottom@[j])))
    }

    closed spec fn spec_test(&self, i: int) -> bool {
        &&& geometry_ok::<B, N>()
        &&& 0 <= i
        &&& i / seg_capacity::<B>() < self.bottom@.len()
        &&& self.bottom@[i / seg_capacity::<B>()].spec_test(i % seg_capacity::<B>())
    }

    fn test(&self, idx: usize) -> (r: bool) {
        let m = B::max_set_index();
        if m == usize::MAX {
            return false;
        }
        let cap = m + 1;
        if N > 0 {
            let p = match (N - 1).checked_mul(cap) {
                None => {
                    proof {
                        assert((N as int) * (cap as int) == (N as int - 1) * (cap as int)
                            + cap as int) by (nonlinear_arith);
                    }
                    return false;
                },
                Some(p) => p,
            };
            if p > usize::MAX - m {
                proof {
                    assert((N as int) * (cap as int) == (N as int - 1) * (cap as int)
                        + cap as int) by (nonlinear_arith);
                }
                return false;
            }
            proof {
                assert((N as int) * (cap as int) == (N as int - 1) * (cap as int)
                    + cap as int) by (nonlinear_arith);
            }
        } else {
            proof {
                assert((N as int) * (cap as int) == 0) by (nonlinear_arith)
                    requires
                        N as int == 0,
                ;
            }
        }
        let t = idx / cap;
        proof {
            lemma_parts(idx as int, cap as int);
        }
        if t >= self.bottom.len() {
            return false;
        }
        let b = idx % cap;
        self.bottom[t].test(b)
    }
}

impl<T: BitEmpty, B: BitEmpty + BitSetLimit, const N: usize> BitEmpty for Layered<T, B, N> {
    fn empty() -> (r: Self) {
        let top = T::empty();
        let mut bottom: Vec<B> = Vec::new();
        while bottom.len() < N
            invariant
                bottom@.len() <= N,
                forall|k: int|
                    0 <= k < bottom@.len() ==> (#[trigger] bottom@[k]).wf() && forall|i: int|
                        idx_in_range(i) ==> !bottom@[k].spec_test(i),
            decreases N - bottom@.len(),
        {
            bottom.push(B::empty());
        }
        let r = Layered { top, bottom };
        proof {
            B::lemma_max_set_index_in_range();
            assert forall|j: int| idx_in_range(j) implies r.top.spec_test(j) == (j < N as int
                && seg_occupied::<B>(r.bottom@[j])) by {
                if 0 <= j < N as int {
                    assert(!seg_occupied::<B>(r.bottom@[j]));
                }
            }
        }
        r
    }
}

impl<T: BitTestNone, B: BitSetLimit, const N: usize> BitTestNone for Layered<T, B, N> {
    fn test_none(&self) -> (r: bool) {
        proof {
            B::lemma_max_set_index_in_range();
        }
        let m = B::max_set_index();
        if m == usize::MAX {
            return true;
        }
        let cap = m + 1;
        if N > 0 {
            let within = match (N - 1).checked_mul(cap) {
                None => false,
                Some(p) => p <= usize::MAX - m,
            };
            proof {
                assert((N as int) * (cap as int) == (N as int - 1) * (cap as int) + cap as int)
                    by (nonlinear_arith);
            }
            if !within {
                return true;
            }
        } else {
            proof {
                assert((N as int) * (cap as int) == 0) by (nonlinear_arith)
                    requires
                        N as int == 0,
                ;
            }
        }
        let r = self.top.test_none();
        proof {
            let capg = seg_capacity::<B>();
            if r {
                assert forall|i: int| idx_in_range(i) implies !self.spec_test(i) by {
                    lemma_parts(i, capg);
                    if self.spec_test(i) {
                        assert(seg_occupied::<B>(self.bottom@[i / capg]));
                        assert(self.top.spec_test(i / capg));
                    }
                }
            } else {
                let j = choose|j: int| idx_in_range(j) && self.top.spec_test(j);
                assert(0 <= j < N as int && seg_occupied::<B>(self.bottom@[j]));
                let b = choose|b: int| 0 <= b < capg && self.bottom@[j].spec_test(b);
                lemma_recompose(j, b, capg);
                assert(j * capg + b <= (N as int - 1) * capg + (capg - 1)) by (nonlinear_arith)
                    requires
                        0 <= j <= N as int - 1,
                        0 <= b <= capg - 1,
                        capg > 0,
                ;
                assert((N as int) * capg == (N as int - 1) * capg + capg) by (nonlinear_arith);
                assert(idx_in_range(j * capg + b));
                assert(self.spec_test(j * capg + b));
            }
        }
        r
    }
}

impl<T: BitSetLimit, B: BitSetLimit, const N: usize> BitSetLimit for Layered<T, B, N> {
    open spec fn spec_max_set_index() -> int {
        let top_dim = if T::spec_max_set_index() > N as int - 1 {
            T::spec_max_set_index()
        } else {
            N as int - 1
        };
        let raw = top_dim * seg_capacity::<B>() + B::spec_max_set_index();
        if raw > usize::MAX as int {
            usize::MAX as int
        } else {
            raw
        }
    }

    proof fn lemma_max_set_index_in_range() {
        T::lemma_max_set_index_in_range();
        B::lemma_max_set_index_in_range();
        let top_dim = if T::spec_max_set_index() > N as int - 1 {
            T::spec_max_set_index()
        } else {
            N as int - 1
        };
        assert(top_dim * seg_capacity::<B>() >= 0) by (nonlinear_arith)
            requires
                top_dim >= 0,
                seg_capacity::<B>() > 0,
        ;
    }

    proof fn lemma_beyond_limit_unset(&self, i: int) {
        B::lemma_max_set_index_in_range();
        T::lemma_max_set_index_in_range();
        let cap = seg_capacity::<B>();
        let top_dim = if T::spec_max_set_index() > N as int - 1 {
            T::spec_max_set_index()
        } else {
            N as int - 1
        };
        if self.spec_test(i) {
            let ti = i / cap;
            let bi = i % cap;
            lemma_parts(i, cap);
            if bi > B::spec_max_set_index() {
                self.bottom@[ti].lemma_beyond_limit_unset(bi);
            }
            assert(i == ti * cap + bi);
            assert(ti <= top_dim);
            assert(ti * cap <= top_dim * cap) by (nonlinear_arith)
                requires
                    0 <= ti <= top_dim,
                    cap > 0,
            ;
            assert(i <= top_dim * cap + B::spec_max_set_index());
            assert(false);
        }
    }

    fn max_set_index() -> (r: usize) {
        let m = B::max_set_index();
        proof {
            T::lemma_max_set_index_in_range();
            B::lemma_max_set_index_in_range();
        }
        if m == usize::MAX {
            proof {
                let top_dim = if T::spec_max_set_index() > N as int - 1 {
                    T::spec_max_set_index()
                } else {
                    N as int - 1
                };
                assert(top_dim * seg_capacity::<B>() >= 0) by (nonlinear_arith)
                    requires
                        top_dim >= 0,
                        seg_capacity::<B>() > 0,
                ;
            }
            return usize::MAX;
        }
        let cap = m + 1;
        let tm = T::max_set_index();
        let top_dim = if N == 0 {
            tm
        } else {
            crate::max(tm, N - 1)
        };
        match top_dim.checked_mul(cap) {
            None => usize::MAX,
            Some(p) => match p.checked_add(m) {
                None => usize::MAX,
                Some(r) => r,
            },
        }
    }
}

impl<T: BitSet, B: BitSet, const N: usize> BitSet for Layered<T, B, N> {
    open spec fn spec_can_set(i: int) -> bool {
        &&& geometry_ok::<B, N>()
        &&& 0 <= i
        &&& i / seg_capacity::<B>() < N as int
        &&& T::spec_can_set(i / seg_capacity::<B>())
        &&& B::spec_can_set(i % seg_capacity::<B>())
    }

    fn set_unchecked(&mut self, idx: usize) {
        proof {
            B::lemma_max_set_index_in_range();
            lemma_parts(idx as int, seg_capacity::<B>());
        }
        let m = B::max_set_index();
        let cap = m + 1;
        let t = idx / cap;
        let b = idx % cap;
        self.top.set_unchecked(t);
        self.bottom[t].set_unchecked(b);
        proof {
            let capg = seg_capacity::<B>();
            let tg = idx as int / capg;
            let bg = idx as int % capg;
            let newseg = self.bottom@[tg];
            assert forall|k: int| 0 <= k < N implies (#[trigger] self.bottom@[k]).wf() by {
                if k != tg {
                    assert(self.bottom@[k] == old(self).bottom@[k]);
                }
            }
            assert forall|j: int| idx_in_range(j) implies (self.top.spec_test(j) == (j
                < N as int && seg_occupied::<B>(self.bottom@[j]))) by {
                if j == tg {
                    assert(newseg.spec_test(bg));
                    assert(seg_occupied::<B>(newseg));
                } else {
                    if 0 <= j < N {
                        assert(self.bottom@[j] == old(self).bottom@[j]);
                    }
                }
            }
            assert forall|i: int|
                idx_in_range(i) implies self.spec_test(i) == (old(self).spec_test(i) || i
                == idx as int) by {
                lemma_parts(i, capg);
                let ti = i / capg;
                let bi = i % capg;
                if ti == tg {
                    assert(self.bottom@[ti] == newseg);
                    assert(newseg.spec_test(bi) == (old(self).bottom@[ti].spec_test(bi) || bi
                        == bg));
                    assert((ti == tg && bi == bg) ==> i == idx as int);
                } else {
                    if 0 <= ti < N {
                        assert(self.bottom@[ti] == old(self).bottom@[ti]);
                    }
                    assert(i != idx as int);
                }
            }
        }
    }
}

impl<T: BitTest, B: BitSetLimit, const N: usize> BitUnsetLimit for Layered<T, B, N> {
    open spec fn spec_max_unset_index() -> int {
        usize::MAX as int
    }

    proof fn lemma_max_unset_index_in_range() {
    }

    proof fn lemma_beyond_limit_set(&self, i: int) {
    }

    fn max_unset_index() -> (r: usize) {
        usize::MAX
    }
}

impl<T: BitUnset, B: BitUnset + BitSetLimit + BitTestNone, const N: usize> BitUnset for Layered<
    T,
    B,
    N,
> {
    open spec fn spec_can_unset(i: int) -> bool {
        &&& geometry_ok::<B, N>()
        &&& 0 <= i
        &&& (i / seg_capacity::<B>() < N as int ==> (T::spec_can_unset(i / seg_capacity::<B>())
            && B::spec_can_unset(i % seg_capacity::<B>())))
    }

    fn unset_unchecked(&mut self, idx: usize) {
        proof {
            B::lemma_max_set_index_in_range();
            lemma_parts(idx as int, seg_capacity::<B>());
        }
        let m = B::max_set_index();
        let cap = m + 1;
        let t = idx / cap;
        if t >= self.bottom.len() {
            return ;
        }
        let b = idx % cap;
        self.bottom[t].unset_unchecked(b);
        let empty_now = self.bottom[t].test_none();
        if empty_now {
            self.top.unset_unchecked(t);
        }
        proof {
            let capg = seg_capacity::<B>();
            let tg = idx as int / capg;
            let bg = idx as int % capg;
            let oldseg = old(self).bottom@[tg];
            let newseg = self.bottom@[tg];
            assert forall|k: int| 0 <= k < N implies (#[trigger] self.bottom@[k]).wf() by {
                if k != tg {
                    assert(self.bottom@[k] == old(self).bottom@[k]);
                }
            }
            assert forall|j: int| idx_in_range(j) implies (self.top.spec_test(j) == (j
                < N as int && seg_occupied::<B>(self.bottom@[j]))) by {
                if j == tg {
                    if empty_now {
                        assert(!seg_occupied::<B>(newseg));
                    } else {
                        let k = choose|i: int| idx_in_range(i) && newseg.spec_test(i);
                        if k > B::spec_max_set_index() {
                            newseg.lemma_beyond_limit_unset(k);
                        }
                        assert(seg_occupied::<B>(newseg));
                        assert(oldseg.spec_test(k));
                        assert(seg_occupied::<B>(oldseg));
                    }
                } else {
                    if 0 <= j < N {
                        assert(self.bottom@[j] == old(self).bottom@[j]);
                    }
                }
            }
            assert forall|i: int|
                idx_in_range(i) implies self.spec_test(i) == (old(self).spec_test(i) && i
                != idx as int) by {
                lemma_parts(i, capg);
                let ti = i / capg;
                let bi = i % capg;
                if ti == tg {
                    assert(self.bottom@[ti] == newseg);
                    assert(newseg.spec_test(bi) == (old(self).bottom@[ti].spec_test(bi) && bi
                        != bg));
                    assert((ti == tg && bi == bg) ==> i == idx as int);
                } else {
                    if 0 <= ti < N {
                        assert(self.bottom@[ti] == old(self).bottom@[ti]);
                    }
                    assert(i != idx as int);
                }
            }
        }
    }
}

impl<T: BitSearch, B: BitSearch + BitSetLimit, const N: usize> Layered<T, B, N> {
    /// Scans the top occupancy index from segment `t_from` for the first
    /// occupied segment, then scans that segment from offset zero.
    fn search_top_from(&self, t_from: usize) -> (r: Option<usize>)
        requires
            self.wf(),
            geometry_ok::<B, N>(),
        ensures
            match r {
                Some(found) => t_from as int * seg_capacity::<B>() <= found as int
                    && self.spec_test(found as int) && forall|i: int|
                    t_from as int * seg_capacity::<B>() <= i < found as int ==> !self.spec_test(i),
                None => forall|i: int|
                    t_from as int * seg_capacity::<B>() <= i && idx_in_range(i)
                        ==> !self.spec_test(i),
            },
    {
        proof {
            B::lemma_max_set_index_in_range();
        }
        let m = B::max_set_index();
        let cap = m + 1;
        let ghost capg = seg_capacity::<B>();
        match self.top.find_first_set(t_from) {
            None => {
                proof {
                    assert forall|i: int|
                        t_from as int * capg <= i && idx_in_range(i) implies !self.spec_test(
                        i,
                    ) by {
                        lemma_parts(i, capg);
                        lemma_recompose(t_from as int, 0, capg);
                        lemma_div_is_ordered(t_from as int * capg, i, capg);
                        vstd::arithmetic::div_mod::lemma_div_nonincreasing(i, capg);
                        if self.spec_test(i) {
                            assert(seg_occupied::<B>(self.bottom@[i / capg]));
                            assert(self.top.spec_test(i / capg));
                        }
                    }
                }
                None
            },
            Some(ts) => {
                proof {
                    assert(self.top.spec_test(ts as int));
                    assert(ts < N);
                }
                match self.bottom[ts].find_first_set(0) {
                    None => {
                        proof {
                            assert(seg_occupied::<B>(self.bottom@[ts as int]));
                            let b = choose|b: int|
                                0 <= b < capg && self.bottom@[ts as int].spec_test(b);
                            assert(!self.bottom@[ts as int].spec_test(b));
                            assert(false);
                        }
                        None
                    },
                    Some(b) => {
                        proof {
                            if b as int > B::spec_max_set_index() {
                                self.bottom@[ts as int].lemma_beyond_limit_unset(b as int);
                            }
                            assert(ts as int * capg + b as int <= (N as int - 1) * capg
                                + B::spec_max_set_index()) by (nonlinear_arith)
                                requires
                                    0 <= ts as int <= N as int - 1,
                                    0 <= b as int <= B::spec_max_set_index(),
                                    capg > 0,
                            ;
                            assert((N as int) * capg == (N as int - 1) * capg + capg)
                                by (nonlinear_arith);
                        }
                        let found = ts * cap + b;
                        proof {
                            lemma_recompose(ts as int, b as int, capg);
                            assert(self.spec_test(found as int));
                            assert(ts as int * capg <= found as int);
                            assert(t_from as int * capg <= ts as int * capg) by (nonlinear_arith)
                                requires
                                    t_from as int <= ts as int,
                                    capg > 0,
                            ;
                            assert forall|i: int|
                                t_from as int * capg <= i < found as int implies !self.spec_test(
                                i,
                            ) by {
                                if 0 <= i {
                                    lemma_parts(i, capg);
                                    let ti = i / capg;
                                    assert((ts as int + 1) * capg == ts as int * capg + capg)
                                        by (nonlinear_arith);
                                    lemma_div_below(i, ts as int, capg);
                                    vstd::arithmetic::div_mod::lemma_div_nonincreasing(i, capg);
                                    if ti < ts as int {
                                        lemma_recompose(t_from as int, 0, capg);
                                        lemma_div_is_ordered(t_from as int * capg, i, capg);
                                        if self.spec_test(i) {
                                            assert(seg_occupied::<B>(self.bottom@[ti]));
                                            assert(self.top.spec_test(ti));
                                        }
                                    } else {
                                        assert(ti == ts as int);
                                        assert(i % capg < b as int);
                                    }
                                }
                            }
                        }
                        Some(found)
                    },
                }
            },
        }
    }
}

impl<T: BitSearch, B: BitSearch + BitSetLimit, const N: usize> BitSearch for Layered<T, B, N> {
    fn find_first_set(&self, lower_bound: usize) -> (r: Option<usize>) {
        proof {
            B::lemma_max_set_index_in_range();
        }
        let m = B::max_set_index();
        if m == usize::MAX {
            return None;
        }
        let cap = m + 1;
        if N == 0 {
            proof {
                assert forall|i: int|
                    lower_bound as int <= i && idx_in_range(i) implies !self.spec_test(i) by {
                    if 0 <= i {
                        lemma_parts(i, cap as int);
                    }
                }
            }
            return None;
        }
        let p = match (N - 1).checked_mul(cap) {
            None => {
                proof {
                    assert((N as int) * (cap as int) == (N as int - 1) * (cap as int)
                        + cap as int) by (nonlinear_arith);
                }
                return None;
            },
            Some(p) => p,
        };
        if p > usize::MAX - m {
            proof {
                assert((N as int) * (cap as int) == (N as int - 1) * (cap as int) + cap as int)
                    by (nonlinear_arith);
            }
            return None;
        }
        proof {
            assert((N as int) * (cap as int) == (N as int - 1) * (cap as int) + cap as int)
                by (nonlinear_arith);
        }
        let ghost capg = seg_capacity::<B>();
        let t0 = lower_bound / cap;
        let b0 = lower_bound % cap;
        proof {
            lemma_parts(lower_bound as int, capg);
        }
        if t0 >= self.bottom.len() {
            proof {
                assert forall|i: int|
                    lower_bound as int <= i && idx_in_range(i) implies !self.spec_test(i) by {
                    lemma_parts(i, capg);
                    lemma_div_is_ordered(lower_bound as int, i, capg);
                }
            }
            return None;
        }
        if b0 == 0 {
            let r = self.search_top_from(t0);
            proof {
                assert(lower_bound as int == t0 as int * capg);
            }
            r
        } else {
            match self.top.find_first_set(t0) {
                None => {
                    proof {
                        assert forall|i: int|
                            lower_bound as int <= i && idx_in_range(i) implies !self.spec_test(
                            i,
                        ) by {
                            lemma_parts(i, capg);
                            lemma_div_is_ordered(lower_bound as int, i, capg);
                            vstd::arithmetic::div_mod::lemma_div_nonincreasing(i, capg);
                            if self.spec_test(i) {
                                assert(seg_occupied::<B>(self.bottom@[i / capg]));
                                assert(self.top.spec_test(i / capg));
                            }
                        }
                    }
                    None
                },
                Some(ts) => {
                    if ts == t0 {
                        match self.bottom[t0].find_first_set(b0) {
                            Some(b) => {
                                proof {
                                    assert(self.top.spec_test(t0 as int));
                                    if b as int > B::spec_max_set_index() {
                                        self.bottom@[t0 as int].lemma_beyond_limit_unset(b as int);
                                    }
                                    assert(t0 as int * capg + b as int <= (N as int - 1) * capg
                                        + B::spec_max_set_index()) by (nonlinear_arith)
                                        requires
                                            0 <= t0 as int <= N as int - 1,
                                            0 <= b as int <= B::spec_max_set_index(),
                                            capg > 0,
                                    ;
                                }
                                let found = t0 * cap + b;
                                proof {
                                    lemma_recompose(t0 as int, b as int, capg);
                                    assert(self.spec_test(found as int));
                                    assert forall|i: int|
                                        lower_bound as int <= i
                                            < found as int implies !self.spec_test(i) by {
                                        lemma_parts(i, capg);
                                        let ti = i / capg;
                                        lemma_div_is_ordered(lower_bound as int, i, capg);
                                        assert((t0 as int + 1) * capg == t0 as int * capg + capg)
                                            by (nonlinear_arith);
                                        lemma_div_below(i, t0 as int, capg);
                                        assert(ti == t0 as int);
                                        assert(b0 as int <= i % capg < b as int);
                                    }
                                }
                                Some(found)
                            },
                            None => {
                                let r = self.search_top_from(t0 + 1);
                                proof {
                                    assert((t0 as int + 1) * capg == t0 as int * capg + capg)
                                        by (nonlinear_arith);
                                    assert forall|i: int|
                                        lower_bound as int <= i < (t0 as int + 1)
                                            * capg implies !self.spec_test(i) by {
                                        lemma_parts(i, capg);
                                        lemma_div_is_ordered(lower_bound as int, i, capg);
                                        lemma_div_below(i, t0 as int, capg);
                                        assert(i / capg == t0 as int);
                                        assert(b0 as int <= i % capg);
                                    }
                                }
                                r
                            },
                        }
                    } else {
                        let r = self.search_top_from(ts);
                        proof {
                            assert((t0 as int + 1) * capg == t0 as int * capg + capg)
                                by (nonlinear_arith);
                            assert((t0 as int + 1) * capg <= ts as int * capg) by (nonlinear_arith)
                                requires
                                    t0 as int + 1 <= ts as int,
                                    capg > 0,
                            ;
                            assert forall|i: int|
                                lower_bound as int <= i < ts as int * capg implies !self.spec_test(
                                i,
                            ) by {
                                lemma_parts(i, capg);
                                let ti = i / capg;
                                lemma_div_is_ordered(lower_bound as int, i, capg);
                                lemma_div_below(i, ts as int - 1, capg);
                                assert((ts as int - 1 + 1) * capg == ts as int * capg);
                                vstd::arithmetic::div_mod::lemma_div_nonincreasing(i, capg);
                                if self.spec_test(i) {
                                    assert(seg_occupied::<B>(self.bottom@[ti]));
                                    assert(self.top.spec_test(ti));
                                }
                            }
                        }
                        r
                    }
                },
            }
        }
    }
}

impl<T: BitTest, B: BitSetLimit, const N: usize> BitComplement for Layered<T, B, N> {
    type Output = Complement<Self>;

    fn complement(self) -> (r: Complement<Self>) {
        Complement(self)
    }
}

impl<T: BitTest, B: BitSetLimit, U: BitTest, const N: usize> BitUnion<U> for Layered<T, B, N> {
    type Output = Union<Self, U>;

    fn union(self, rhs: U) -> (r: Union<Self, U>) {
        Union(self, rhs)
    }
}

impl<T: BitTest, B: BitSetLimit, U: BitTest, const N: usize> BitIntersection<U> for Layered<
    T,
    B,
    N,
> {
    type Output = Intersection<Self, U>;

    fn intersection(self, rhs: U) -> (r: Intersection<Self, U>) {
        Intersection(self, rhs)
    }
}

impl<T: BitTest, B: BitSetLimit, U: BitTest, const N: usize> BitDifference<U> for Layered<
    T,
    B,
    N,
> {
    type Output = Difference<Self, U>;

    fn difference(self, rhs: U) -> (r: Difference<Self, U>) {
        Difference(self, rhs)
    }
}

impl<T: BitTest, B: BitSetLimit, const N: usize> Layered<T, B, N> {
    /// Whether the top occupancy bit of segment `t` is set.
    pub closed spec fn spec_top_bit(&self, t: int) -> bool {
        self.top.spec_test(t)
    }
}

/// Top accuracy: in a well-formed layered value the top bit of segment `t`
/// is set exactly when some index that the segment covers tests true. Every
/// constructor establishes well-formedness and every mutation preserves it,
/// so in particular after an unset that leaves a segment empty the
/// segment's top bit is clear.
pub proof fn lemma_top_tracks_segments<T: BitTest, B: BitSetLimit, const N: usize>(
    l: &Layered<T, B, N>,
    t: int,
)
    requires
        l.wf(),
        geometry_ok::<B, N>(),
        idx_in_range(t),
    ensures
        l.spec_top_bit(t) == exists|i: int|
            t * seg_capacity::<B>() <= i < (t + 1) * seg_capacity::<B>() && l.spec_test(i),
{
    let cap = seg_capacity::<B>();
    B::lemma_max_set_index_in_range();
    assert((t + 1) * cap == t * cap + cap) by (nonlinear_arith);
    if l.spec_top_bit(t) {
        assert(0 <= t < N as int && seg_occupied::<B>(l.bottom@[t]));
        let b = choose|b: int| 0 <= b < cap && l.bottom@[t].spec_test(b);
        lemma_recompose(t, b, cap);
        assert(l.spec_test(t * cap + b));
    } else {
        assert forall|i: int| t * cap <= i < (t + 1) * cap implies !l.spec_test(i) by {
            if l.spec_test(i) {
                lemma_parts(i, cap);
                lemma_recompose(t, i - t * cap, cap);
                assert(seg_occupied::<B>(l.bottom@[t]));
                assert(l.top.spec_test(t));
            }
        }
    }
}

} // verus!
