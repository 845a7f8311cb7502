//! Small facts about the row-major layered index used by the tile grid.
use vstd::prelude::*;

verus! {

/// A cell of a `w` by `h` layer lies before the end of the layer.
pub proof fn lemma_cell_in_layer(x: int, y: int, w: int, h: int)
    requires
        0 <= x < w,
        0 <= y < h,
    ensures
        0 <= y * w + x < w * h,
        y * w + x + 1 <= w * h,
{
    assert(y * w <= (h - 1) * w) by (nonlinear_arith)
        requires
            0 <= y < h,
            0 <= w,
    ;
    assert((h - 1) * w == h * w - w) by (nonlinear_arith);
    assert(h * w == w * h) by (nonlinear_arith);
    assert(0 <= y * w) by (nonlinear_arith)
        requires
            0 <= y,
            0 <= w,
    ;
}

/// Multiplication by a non-negative factor keeps order.
pub proof fn lemma_mul_mono(a: int, b: int, c: int)
    requires
        a <= b,
        0 <= c,
    ensures
        a * c <= b * c,
{
    assert(a * c <= b * c) by (nonlinear_arith)
        requires
            a <= b,
            0 <= c,
    ;
}

/// An offset inside block `l` of size `n` lies before block `l2` when `l < l2`.
pub proof fn lemma_block_before(l: int, l2: int, n: int, off: int)
    requires
        0 <= l < l2,
        0 <= off < n,
    ensures
        l * n + off < l2 * n,
        l * n + n <= l2 * n,
        0 <= l * n,
{
    lemma_mul_mono(l + 1, l2, n);
    assert((l + 1) * n == l * n + n) by (nonlinear_arith);
    assert(0 <= l * n) by (nonlinear_arith)
        requires
            0 <= l,
            0 <= n,
    ;
}

/// Products of non-negative numbers are non-negative.
pub proof fn lemma_mul_nonneg(a: int, b: int)
    requires
        0 <= a,
        0 <= b,
    ensures
        0 <= a * b,
{
    assert(0 <= a * b) by (nonlinear_arith)
        requires
            0 <= a,
            0 <= b,
    ;
}

/// `q < len / n` means that block `q` of size `n` ends inside `len`.
pub proof fn lemma_block_within(q: int, n: int, len: int)
    requires
        0 < n,
        0 <= len,
        0 <= q < len / n,
    ensures
        q * n + n <= len,
{
    let d = len / n;
    assert(len == d * n + len % n) by (nonlinear_arith)
        requires
            0 < n,
            d == len / n,
    ;
    assert(0 <= len % n) by (nonlinear_arith)
        requires
            0 < n,
    ;
    lemma_mul_mono(q + 1, d, n);
    assert((q + 1) * n == q * n + n) by (nonlinear_arith);
}

} // verus!
