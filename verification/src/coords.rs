//! Arithmetic facts about row-major indexing that the grid and the pixel
//! buffer proofs share.

use vstd::prelude::*;
use vstd::arithmetic::div_mod::{
    lemma_fundamental_div_mod,
    lemma_fundamental_div_mod_converse,
    lemma_mod_bound,
    lemma_div_pos_is_pos,
};

verus! {

/// A row-major index lies inside the buffer.
pub proof fn lemma_rc_bound(w: int, h: int, cx: int, cy: int) by (nonlinear_arith)
    requires
        0 <= cx < w,
        0 <= cy < h,
    ensures
        0 <= cy * w + cx < h * w,
        h * w == w * h,
{
}

/// Row-major indexing is injective on in-range coordinates.
pub proof fn lemma_rc_inj(w: int, cx1: int, cy1: int, cx2: int, cy2: int) by (nonlinear_arith)
    requires
        0 <= cx1 < w,
        0 <= cx2 < w,
        cy1 * w + cx1 == cy2 * w + cx2,
    ensures
        cx1 == cx2,
        cy1 == cy2,
{
}

/// Every in-range index decomposes into its row and column.
pub proof fn lemma_rc_decomp(w: int, i: int)
    requires
        0 < w,
        0 <= i,
    ensures
        i == (i / w) * w + (i % w),
        0 <= i % w < w,
        0 <= i / w,
{
    lemma_fundamental_div_mod(i, w);
    lemma_mod_bound(i, w);
    lemma_div_pos_is_pos(i, w);
    vstd::arithmetic::mul::lemma_mul_is_commutative(w, i / w);
}

/// An offset within the block starting at `c * k` divides back to `c`.
pub proof fn lemma_block_div(k: int, c: int, a: int)
    requires
        0 < k,
        c * k <= a < c * k + k,
    ensures
        a / k == c,
        a % k == a - c * k,
{
    lemma_fundamental_div_mod_converse(a, k, c, a - c * k);
}

/// A value is at least `k` times its `k`-quotient.
pub proof fn lemma_div_mul_le(a: int, k: int)
    requires
        0 < k,
        0 <= a,
    ensures
        (a / k) * k <= a,
        0 <= a / k,
{
    lemma_fundamental_div_mod(a, k);
    lemma_mod_bound(a, k);
    lemma_div_pos_is_pos(a, k);
    vstd::arithmetic::mul::lemma_mul_is_commutative(k, a / k);
}

} // verus!
