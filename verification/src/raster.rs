//! Byte layout of 4-byte-per-pixel images stored row by row.

use vstd::prelude::*;

verus! {

/// Column of the canvas pixel that byte `i` belongs to.
pub open spec fn pixel_x(i: int, cw: int) -> int {
    (i / 4) % cw
}

/// Row of the canvas pixel that byte `i` belongs to.
pub open spec fn pixel_y(i: int, cw: int) -> int {
    (i / 4) / cw
}

/// Every byte index splits into a pixel (column, row) and a channel.
pub proof fn lemma_pixel_index(i: int, cw: int, ch: int)
    requires
        i >= 0,
        cw > 0,
    ensures
        0 <= pixel_x(i, cw) < cw,
        0 <= pixel_y(i, cw),
        0 <= i % 4 < 4,
        i == (pixel_y(i, cw) * cw + pixel_x(i, cw)) * 4 + i % 4,
        i < cw * ch * 4 ==> pixel_y(i, cw) < ch,
{
    let p = i / 4;
    vstd::arithmetic::div_mod::lemma_fundamental_div_mod(i, 4);
    vstd::arithmetic::div_mod::lemma_fundamental_div_mod(p, cw);
    vstd::arithmetic::div_mod::lemma_mod_pos_bound(p, cw);
    vstd::arithmetic::div_mod::lemma_div_pos_is_pos(p, cw);
    let y = pixel_y(i, cw);
    let x = pixel_x(i, cw);
    assert(p == y * cw + x) by (nonlinear_arith)
        requires
            p == cw * y + x,
    ;
    if i < cw * ch * 4 && y >= ch {
        assert(y * cw >= ch * cw) by (nonlinear_arith)
            requires
                y >= ch,
                cw > 0,
        ;
        assert(false) by (nonlinear_arith)
            requires
                i == (y * cw + x) * 4 + i % 4,
                i < cw * ch * 4,
                y * cw >= ch * cw,
                x >= 0,
                i % 4 >= 0,
        ;
    }
}

/// The bytes of pixel (`x`, `y`) are `(y·cw + x)·4 + k` for `k < 4`.
pub proof fn lemma_index_of_pixel(x: int, y: int, k: int, cw: int)
    requires
        0 <= x < cw,
        0 <= y,
        0 <= k < 4,
    ensures
        pixel_x((y * cw + x) * 4 + k, cw) == x,
        pixel_y((y * cw + x) * 4 + k, cw) == y,
        ((y * cw + x) * 4 + k) % 4 == k,
{
    let i = (y * cw + x) * 4 + k;
    vstd::arithmetic::div_mod::lemma_fundamental_div_mod_converse(i, 4, y * cw + x, k);
    vstd::arithmetic::div_mod::lemma_fundamental_div_mod_converse(y * cw + x, cw, y, x);
}

} // verus!
