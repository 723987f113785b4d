//! Division and span facts shared by the segmented bit-set layouts.

use vstd::arithmetic::div_mod::lemma_div_is_ordered;
use vstd::arithmetic::div_mod::lemma_div_pos_is_pos;
use vstd::arithmetic::div_mod::lemma_fundamental_div_mod;
use vstd::arithmetic::div_mod::lemma_fundamental_div_mod_converse;
use vstd::arithmetic::div_mod::lemma_mod_division_less_than_divisor;
use vstd::prelude::*;

verus! {

pub(crate) proof fn lemma_parts(i: int, cap: int)
    requires
        0 <= i,
        0 < cap,
    ensures
        i == (i / cap) * cap + (i % cap),
        0 <= i % cap < cap,
        0 <= i / cap,
{
    lemma_fundamental_div_mod(i, cap);
    vstd::arithmetic::mul::lemma_mul_is_commutative(cap, i / cap);
    lemma_mod_division_less_than_divisor(i, cap);
    lemma_div_pos_is_pos(i, cap);
}

pub(crate) proof fn lemma_recompose(t: int, b: int, cap: int)
    requires
        0 <= t,
        0 <= b < cap,
    ensures
        (t * cap + b) / cap == t,
        (t * cap + b) % cap == b,
{
    lemma_fundamental_div_mod_converse(t * cap + b, cap, t, b);
}

pub(crate) proof fn lemma_div_below(i: int, x: int, cap: int)
    requires
        0 <= i,
        0 <= x,
        cap > 0,
        i < (x + 1) * cap,
    ensures
        i / cap <= x,
{
    lemma_recompose(x, cap - 1, cap);
    assert((x + 1) * cap == x * cap + cap) by (nonlinear_arith);
    lemma_div_is_ordered(i, x * cap + (cap - 1), cap);
}

/// Whether `n` segments of `w` indexes each stay within the platform's index
/// width, so that every covered index fits a `usize`.
pub open spec fn span_fits(n: int, w: int) -> bool {
    n * w <= usize::MAX as int
}

pub(crate) fn span_fits_exec(n: usize, w: usize) -> (r: bool)
    requires
        1 <= w,
    ensures
        r == span_fits(n as int, w as int),
{
    if n == 0 {
        proof {
            assert(0int * (w as int) == 0) by (nonlinear_arith);
        }
        true
    } else {
        proof {
            assert((n as int) * (w as int) == (n as int - 1) * (w as int) + w as int)
                by (nonlinear_arith);
        }
        match (n - 1).checked_mul(w) {
            None => false,
            Some(p) => p <= usize::MAX - w,
        }
    }
}

} // verus!
