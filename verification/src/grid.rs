//! Positions in a grid that is stored row by row.
use vstd::arithmetic::div_mod::{lemma_fundamental_div_mod, lemma_fundamental_div_mod_converse};
use vstd::arithmetic::mul::lemma_mul_is_commutative;
use vstd::prelude::*;

verus! {

/// A position determines its row and its column.
pub proof fn lemma_place(w: int, x: int, y: int, i: int)
    requires
        0 <= x < w,
        0 <= y,
        0 <= i,
    ensures
        i == y * w + x <==> (i / w == y && i % w == x),
        0 <= i / w,
{
    if i == y * w + x {
        lemma_fundamental_div_mod_converse(i, w, y, x);
    }
    lemma_fundamental_div_mod(i, w);
    lemma_mul_is_commutative(w, i / w);
    assert(0 <= i / w) by (nonlinear_arith)
        requires
            0 <= i,
            0 < w,
    ;
}

/// A position below `w * h` has its column below `w` and its row below `h`.
pub proof fn lemma_row_in_grid(w: int, h: int, i: int)
    requires
        0 < w,
        0 <= i < w * h,
    ensures
        0 <= i / w < h,
        0 <= i % w < w,
{
    lemma_fundamental_div_mod(i, w);
    assert(i / w < h) by (nonlinear_arith)
        requires
            i == w * (i / w) + i % w,
            0 <= i % w,
            0 < w,
            i < w * h,
    ;
    assert(0 <= i / w) by (nonlinear_arith)
        requires
            0 <= i,
            0 < w,
    ;
}

} // verus!
