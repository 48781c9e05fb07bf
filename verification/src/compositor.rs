//! The compositor: blends the most recent frame of each visible source into
//! one canvas frame.
//!
//! 1. Allocate a zeroed (black) BGRA32 canvas of the scene's canvas size.
//! 2. Go through the scene items in ascending z-order.
//! 3. Blit each visible item that has a frame into its destination
//!    rectangle, with nearest-neighbour scaling and alpha blending.
//! 4. Return the composited frame.

use std::collections::HashMap;
use vstd::prelude::*;

use crate::scene::{ScaleMode, Scene, SceneItem, SourceId, Transform};
use crate::raster::{lemma_index_of_pixel, lemma_pixel_index, pixel_x, pixel_y};
use crate::types::{is_packed, PixelFormat, Timestamp, VideoFrame};

verus! {

broadcast use vstd::std_specs::hash::group_hash_axioms;

// ── Destination size ─────────────────────────────────────────────────────────
//
// Sizes are computed in exact integer arithmetic: a size that keeps the
// source's aspect ratio is the exact quotient rounded down (floor), not a
// quotient of rounded floating-point aspect ratios, so it can be one pixel
// larger than such a quotient where that rounding falls just below a whole
// number. A size that does not fit in `usize` saturates at `usize::MAX`. A source
// with a zero dimension has an aspect ratio of zero, infinity, or none at
// all; the functions below give the size the aspect-ratio rule yields in
// each of these cases.

/// `x`, or `usize::MAX` where `x` is larger.
pub open spec fn saturate(x: int) -> int {
    if x > usize::MAX {
        usize::MAX as int
    } else {
        x
    }
}

/// The source (`sw` x `sh`) is strictly wider, in aspect ratio, than the box
/// (`bw` x `bh`).
pub open spec fn wider_than_box(sw: int, sh: int, bw: int, bh: int) -> bool {
    if sh > 0 && bh > 0 {
        sw * bh > bw * sh
    } else if sh > 0 {
        false
    } else if sw > 0 {
        bh > 0
    } else {
        false
    }
}

/// The height that keeps the source's aspect ratio at width `bw`: the exact
/// floor of `bw · sh / sw`.
pub open spec fn height_for_width(bw: int, sw: int, sh: int) -> int {
    if sh > 0 && sw > 0 {
        saturate(bw * sh / sw)
    } else if sh > 0 {
        if bw > 0 {
            usize::MAX as int
        } else {
            0
        }
    } else {
        0
    }
}

/// The width that keeps the source's aspect ratio at height `bh`: the exact
/// floor of `bh · sw / sh`.
pub open spec fn width_for_height(bh: int, sw: int, sh: int) -> int {
    if sh > 0 {
        saturate(bh * sw / sh)
    } else if sw > 0 {
        if bh > 0 {
            usize::MAX as int
        } else {
            0
        }
    } else {
        0
    }
}

/// The destination (width, height) of a `sw` x `sh` source placed with `t`.
pub open spec fn dst_size(sw: u32, sh: u32, t: Transform) -> (int, int) {
    let bw = t.width as int;
    let bh = t.height as int;
    match t.scale_mode {
        ScaleMode::Stretch => (bw, bh),
        ScaleMode::Unscaled => (sw as int, sh as int),
        ScaleMode::Fit => {
            if wider_than_box(sw as int, sh as int, bw, bh) {
                (bw, height_for_width(bw, sw as int, sh as int))
            } else {
                (width_for_height(bh, sw as int, sh as int), bh)
            }
        },
        ScaleMode::Fill => {
            if wider_than_box(sw as int, sh as int, bw, bh) {
                (width_for_height(bh, sw as int, sh as int), bh)
            } else {
                (bw, height_for_width(bw, sw as int, sh as int))
            }
        },
    }
}

proof fn lemma_product_fits(a: int, b: int)
    requires
        0 <= a <= usize::MAX,
        0 <= b <= u32::MAX,
    ensures
        0 <= a * b <= u128::MAX,
{
    assert(a * b <= usize::MAX * u32::MAX) by (nonlinear_arith)
        requires
            0 <= a <= usize::MAX,
            0 <= b <= u32::MAX,
    ;
    assert(usize::MAX * u32::MAX <= u128::MAX) by (nonlinear_arith)
        requires
            usize::MAX <= u64::MAX,
    ;
    assert(0 <= a * b) by (nonlinear_arith)
        requires
            0 <= a,
            0 <= b,
    ;
}

fn saturating_to_usize(x: u128) -> (r: usize)
    ensures
        r == saturate(x as int),
{
    if x > usize::MAX as u128 {
        usize::MAX
    } else {
        x as usize
    }
}

fn exec_wider_than_box(sw: u32, sh: u32, bw: usize, bh: usize) -> (r: bool)
    ensures
        r == wider_than_box(sw as int, sh as int, bw as int, bh as int),
{
    if sh > 0 && bh > 0 {
        proof {
            lemma_product_fits(bh as int, sw as int);
            lemma_product_fits(bw as int, sh as int);
            assert((bh as int) * (sw as int) == (sw as int) * (bh as int)) by (nonlinear_arith);
        }
        (bh as u128) * (sw as u128) > (bw as u128) * (sh as u128)
    } else if sh > 0 {
        false
    } else if sw > 0 {
        bh > 0
    } else {
        false
    }
}

fn exec_height_for_width(bw: usize, sw: u32, sh: u32) -> (r: usize)
    ensures
        r == height_for_width(bw as int, sw as int, sh as int),
{
    if sh > 0 && sw > 0 {
        proof {
            lemma_product_fits(bw as int, sh as int);
        }
        saturating_to_usize((bw as u128) * (sh as u128) / (sw as u128))
    } else if sh > 0 {
        if bw > 0 {
            usize::MAX
        } else {
            0
        }
    } else {
        0
    }
}

fn exec_width_for_height(bh: usize, sw: u32, sh: u32) -> (r: usize)
    ensures
        r == width_for_height(bh as int, sw as int, sh as int),
{
    if sh > 0 {
        proof {
            lemma_product_fits(bh as int, sw as int);
        }
        saturating_to_usize((bh as u128) * (sw as u128) / (sh as u128))
    } else if sw > 0 {
        if bh > 0 {
            usize::MAX
        } else {
            0
        }
    } else {
        0
    }
}

/// Compute the destination (width, height) in pixels for a source frame
/// placed with the given transform, respecting its `ScaleMode`.
pub fn compute_dst_size(src: &VideoFrame, transform: &Transform) -> (r: (usize, usize))
    ensures
        (r.0 as int, r.1 as int) == dst_size(src.width, src.height, *transform),
{
    let box_w = transform.width;
    let box_h = transform.height;
    match transform.scale_mode {
        ScaleMode::Stretch => (box_w, box_h),
        ScaleMode::Unscaled => (src.width as usize, src.height as usize),
        ScaleMode::Fit => {
            if exec_wider_than_box(src.width, src.height, box_w, box_h) {
                (box_w, exec_height_for_width(box_w, src.width, src.height))
            } else {
                (exec_width_for_height(box_h, src.width, src.height), box_h)
            }
        },
        ScaleMode::Fill => {
            if exec_wider_than_box(src.width, src.height, box_w, box_h) {
                (exec_width_for_height(box_h, src.width, src.height), box_h)
            } else {
                (box_w, exec_height_for_width(box_w, src.width, src.height))
            }
        },
    }
}

/// `Fit` letterboxes: for a source with both dimensions non-zero, the
/// destination lies within the item bounds and touches them on one side.
pub proof fn lemma_fit_within_bounds(sw: u32, sh: u32, t: Transform)
    requires
        sw > 0,
        sh > 0,
        t.scale_mode == ScaleMode::Fit,
    ensures
        dst_size(sw, sh, t).0 <= t.width,
        dst_size(sw, sh, t).1 <= t.height,
        dst_size(sw, sh, t).0 == t.width || dst_size(sw, sh, t).1 == t.height,
{
    let bw = t.width as int;
    let bh = t.height as int;
    let swi = sw as int;
    let shi = sh as int;
    if bh > 0 {
        if swi * bh > bw * shi {
            assert(bw * shi / swi <= bh) by (nonlinear_arith)
                requires
                    swi * bh > bw * shi,
                    swi > 0,
                    bw >= 0,
                    shi > 0,
            {
                assert(bw * shi < bh * swi);
                vstd::arithmetic::div_mod::lemma_div_is_ordered(bw * shi, bh * swi, swi);
                vstd::arithmetic::div_mod::lemma_div_multiples_vanish(bh, swi);
            }
        } else {
            assert(bh * swi / shi <= bw) by (nonlinear_arith)
                requires
                    swi * bh <= bw * shi,
                    shi > 0,
                    bh >= 0,
                    swi > 0,
            {
                vstd::arithmetic::div_mod::lemma_div_is_ordered(bh * swi, bw * shi, shi);
                vstd::arithmetic::div_mod::lemma_div_multiples_vanish(bw, shi);
            }
        }
    } else {
        assert(0 * swi / shi == 0);
    }
}

/// `Fill` crops: for a source with both dimensions non-zero, the destination
/// covers the item bounds and matches them on one side.
pub proof fn lemma_fill_covers_bounds(sw: u32, sh: u32, t: Transform)
    requires
        sw > 0,
        sh > 0,
        t.scale_mode == ScaleMode::Fill,
    ensures
        dst_size(sw, sh, t).0 >= t.width,
        dst_size(sw, sh, t).1 >= t.height,
        dst_size(sw, sh, t).0 == t.width || dst_size(sw, sh, t).1 == t.height,
{
    let bw = t.width as int;
    let bh = t.height as int;
    let swi = sw as int;
    let shi = sh as int;
    if bh > 0 && swi * bh > bw * shi {
        assert(bh * swi / shi >= bw) by (nonlinear_arith)
            requires
                swi * bh > bw * shi,
                shi > 0,
                bw >= 0,
                bh >= 0,
        {
            vstd::arithmetic::div_mod::lemma_div_is_ordered(bw * shi, bh * swi, shi);
            vstd::arithmetic::div_mod::lemma_div_multiples_vanish(bw, shi);
        }
    } else if bh > 0 {
        assert(bw * shi / swi >= bh) by (nonlinear_arith)
            requires
                swi * bh <= bw * shi,
                swi > 0,
                bh >= 0,
                bw >= 0,
        {
            vstd::arithmetic::div_mod::lemma_div_is_ordered(bh * swi, bw * shi, swi);
            vstd::arithmetic::div_mod::lemma_div_multiples_vanish(bh, swi);
        }
    }
}

// ── Blitting ─────────────────────────────────────────────────────────────────

/// Nearest-neighbour source coordinate for destination coordinate `p` when
/// `src_len` source pixels are stretched over `dst_len` destination pixels.
pub open spec fn nearest(p: int, src_len: int, dst_len: int) -> int {
    let s = p * src_len / dst_len;
    if s < src_len - 1 {
        s
    } else {
        src_len - 1
    }
}

/// Byte offset, in the source frame, of the pixel that destination pixel
/// (`px`, `py`) of a `dw` x `dh` rectangle samples.
pub open spec fn src_offset(src: VideoFrame, px: int, py: int, dw: int, dh: int) -> int {
    (nearest(py, src.height as int, dh) * src.width + nearest(px, src.width as int, dw)) * 4
}

/// Channel `k` (0 blue, 1 green, 2 red, 3 alpha) of the source pixel at byte
/// offset `off`; RGBA sources have their red and blue swapped.
pub open spec fn src_channel(src: VideoFrame, off: int, k: int) -> u8 {
    let d = src.data@;
    if src.format == PixelFormat::RGBA32 && k == 0 {
        d[off + 2]
    } else if src.format == PixelFormat::RGBA32 && k == 2 {
        d[off]
    } else {
        d[off + k]
    }
}

/// `c` drawn with alpha `a` over `old`: `(c·a + old·(255 − a)) / 255`.
pub open spec fn blend(c: u8, a: u8, old: u8) -> u8 {
    ((c * a + old * (255 - a)) / 255) as u8
}

/// Channel `k` of a canvas pixel after source channel value `c` with alpha
/// `a` is drawn over the old value `old`: a transparent source leaves the
/// canvas as it was, an opaque one replaces it, anything between is blended;
/// a drawn pixel ends fully opaque.
pub open spec fn over(c: u8, a: u8, old: u8, k: int) -> u8 {
    if a == 0 {
        old
    } else if k == 3 {
        255
    } else if a == 255 {
        c
    } else {
        blend(c, a, old)
    }
}

/// `start <= c < start + len`.
pub open spec fn covers(c: int, start: int, len: int) -> bool {
    start <= c < start + len
}

/// Byte `i` of a `cw` x `ch` BGRA canvas after `src` is drawn into the
/// destination rectangle at (`dx`, `dy`) of size `dw` x `dh`.
pub open spec fn blit_byte(
    canvas: Seq<u8>,
    src: VideoFrame,
    dx: int,
    dy: int,
    dw: int,
    dh: int,
    cw: int,
    ch: int,
    i: int,
) -> u8 {
    let cx = pixel_x(i, cw);
    let cy = pixel_y(i, cw);
    if 0 <= i < cw * ch * 4 && dw > 0 && dh > 0 && is_packed(src.format) && covers(cx, dx, dw)
        && covers(cy, dy, dh) {
        let off = src_offset(src, cx - dx, cy - dy, dw, dh);
        over(src_channel(src, off, i % 4), src_channel(src, off, 3), canvas[i], i % 4)
    } else {
        canvas[i]
    }
}

/// The canvas after `src` is drawn into the given destination rectangle.
pub open spec fn blit_result(
    canvas: Seq<u8>,
    src: VideoFrame,
    dx: int,
    dy: int,
    dw: int,
    dh: int,
    cw: int,
    ch: int,
) -> Seq<u8> {
    Seq::new(canvas.len(), |i: int| blit_byte(canvas, src, dx, dy, dw, dh, cw, ch, i))
}

/// Every source pixel that a visible destination pixel samples lies inside
/// the source data.
pub open spec fn blit_reads_in_bounds(
    src: VideoFrame,
    dx: int,
    dy: int,
    dw: int,
    dh: int,
    cw: int,
    ch: int,
) -> bool {
    dw > 0 && dh > 0 && is_packed(src.format) ==> forall|px: int, py: int|
        0 <= px < dw && 0 <= py < dh && 0 <= dx + px < cw && 0 <= dy + py < ch ==> src.width > 0
            && src.height > 0 && #[trigger] src_offset(src, px, py, dw, dh) + 3 < src.data@.len()
}

/// The canvas after `src` is drawn where `t` places it.
pub open spec fn blit_with(canvas: Seq<u8>, src: VideoFrame, t: Transform, cw: int, ch: int) -> Seq<u8> {
    let d = dst_size(src.width, src.height, t);
    blit_result(canvas, src, t.x as int, t.y as int, d.0, d.1, cw, ch)
}

/// `src` can be drawn where `t` places it without reading outside its data.
pub open spec fn can_blit(src: VideoFrame, t: Transform, cw: int, ch: int) -> bool {
    let d = dst_size(src.width, src.height, t);
    blit_reads_in_bounds(src, t.x as int, t.y as int, d.0, d.1, cw, ch)
}

/// The canvas with the pixels before (`col`, `row`) in row-major order drawn.
spec fn blit_partial(
    canvas: Seq<u8>,
    src: VideoFrame,
    dx: int,
    dy: int,
    dw: int,
    dh: int,
    cw: int,
    ch: int,
    row: int,
    col: int,
) -> Seq<u8> {
    Seq::new(
        canvas.len(),
        |i: int|
            if pixel_y(i, cw) < row || (pixel_y(i, cw) == row && pixel_x(i, cw) < col) {
                blit_byte(canvas, src, dx, dy, dw, dh, cw, ch, i)
            } else {
                canvas[i]
            },
    )
}

/// Draw source channels `b`, `g`, `r` with alpha `a` over the canvas pixel at
/// byte offset `off`.
fn draw_pixel(canvas: &mut [u8], off: usize, b: u8, g: u8, r: u8, a: u8)
    requires
        off + 4 <= old(canvas).len(),
    ensures
        final(canvas)@.len() == old(canvas)@.len(),
        forall|j: int|
            0 <= j < final(canvas)@.len() ==> #[trigger] final(canvas)@[j] == if off <= j < off + 4 {
                over(
                    if j == off {
                        b
                    } else if j == off + 1 {
                        g
                    } else if j == off + 2 {
                        r
                    } else {
                        a
                    },
                    a,
                    old(canvas)@[j],
                    j - off,
                )
            } else {
                old(canvas)@[j]
            },
{
    if a == 255 {
        canvas[off] = b;
        canvas[off + 1] = g;
        canvas[off + 2] = r;
        canvas[off + 3] = 255;
    } else if a > 0 {
        let c0 = blend_channel(b, a, canvas[off]);
        canvas[off] = c0;
        let c1 = blend_channel(g, a, canvas[off + 1]);
        canvas[off + 1] = c1;
        let c2 = blend_channel(r, a, canvas[off + 2]);
        canvas[off + 2] = c2;
        canvas[off + 3] = 255;
    }
}

/// `c` drawn with alpha `a` over `old`, in 16-bit arithmetic.
fn blend_channel(c: u8, a: u8, old: u8) -> (r: u8)
    ensures
        r == blend(c, a, old),
{
    let alpha = a as u16;
    let inv: u16 = 255 - alpha;
    proof {
        assert(c * alpha + old * inv <= 255 * 255) by (nonlinear_arith)
            requires
                c <= 255,
                old <= 255,
                alpha + inv == 255,
                alpha >= 0,
                inv >= 0,
        ;
        assert(c * alpha >= 0 && old * inv >= 0) by (nonlinear_arith)
            requires
                alpha >= 0,
                inv >= 0,
        ;
    }
    ((c as u16 * alpha + old as u16 * inv) / 255) as u8
}

/// Nearest-neighbour source coordinate, computed without overflow.
pub(crate) fn exec_nearest(p: usize, src_len: u32, dst_len: usize) -> (r: usize)
    requires
        p < dst_len,
        src_len > 0,
    ensures
        r == nearest(p as int, src_len as int, dst_len as int),
        r < src_len,
{
    proof {
        lemma_product_fits(p as int, src_len as int);
    }
    let q: u128 = (p as u128) * (src_len as u128) / (dst_len as u128);
    if q < (src_len - 1) as u128 {
        q as usize
    } else {
        (src_len - 1) as usize
    }
}

/// Blit `src` into `canvas` at the rectangle described by `transform`, using
/// nearest-neighbour scaling and alpha blending; planar sources are skipped.
pub fn blit_frame(
    src: &VideoFrame,
    transform: &Transform,
    canvas: &mut [u8],
    canvas_width: u32,
    canvas_height: u32,
)
    requires
        old(canvas)@.len() >= canvas_width * canvas_height * 4,
        can_blit(*src, *transform, canvas_width as int, canvas_height as int),
    ensures
        final(canvas)@ == blit_with(
            old(canvas)@,
            *src,
            *transform,
            canvas_width as int,
            canvas_height as int,
        ),
{
    let ghost c0 = canvas@;
    let ghost cwi = canvas_width as int;
    let ghost chi = canvas_height as int;
    let ghost dxi = transform.x as int;
    let ghost dyi = transform.y as int;
    let (dst_w, dst_h) = compute_dst_size(src, transform);
    let ghost dwi = dst_w as int;
    let ghost dhi = dst_h as int;
    if dst_w == 0 || dst_h == 0 || src.format == PixelFormat::I420 {
        assert(canvas@ =~= blit_result(c0, *src, dxi, dyi, dwi, dhi, cwi, chi));
        return;
    }
    let cw = canvas_width as i128;
    let ch = canvas_height as i128;
    let dx = transform.x as i128;
    let dy = transform.y as i128;
    let col_lo: i128 = if dx > 0 { dx } else { 0 };
    let col_end: i128 = dx + dst_w as i128;
    let col_hi: i128 = if col_end < cw { col_end } else { cw };
    let row_lo: i128 = if dy > 0 { dy } else { 0 };
    let row_end: i128 = dy + dst_h as i128;
    let row_hi: i128 = if row_end < ch { row_end } else { ch };
    if col_lo >= col_hi || row_lo >= row_hi {
        proof {
            assert forall|i: int| 0 <= i < c0.len() implies #[trigger] blit_byte(
                c0,
                *src,
                dxi,
                dyi,
                dwi,
                dhi,
                cwi,
                chi,
                i,
            ) == c0[i] by {
                if 0 <= i < cwi * chi * 4 {
                    lemma_pixel_index(i, cwi, chi);
                }
            }
            assert(canvas@ =~= blit_result(c0, *src, dxi, dyi, dwi, dhi, cwi, chi));
        }
        return;
    }
    proof {
        assert forall|i: int| 0 <= i < c0.len() implies #[trigger] blit_partial(
            c0,
            *src,
            dxi,
            dyi,
            dwi,
            dhi,
            cwi,
            chi,
            row_lo as int,
            0,
        )[i] == c0[i] by {
            if 0 <= i < cwi * chi * 4 {
                lemma_pixel_index(i, cwi, chi);
            }
        }
        assert(canvas@ =~= blit_partial(c0, *src, dxi, dyi, dwi, dhi, cwi, chi, row_lo as int, 0));
    }
    let mut cy: i128 = row_lo;
    while cy < row_hi
        invariant
            0 <= row_lo <= cy <= row_hi <= ch,
            0 <= col_lo < col_hi <= cw,
            cw == cwi,
            ch == chi,
            cwi == canvas_width,
            chi == canvas_height,
            dx == dxi,
            dy == dyi,
            dwi == dst_w,
            dhi == dst_h,
            dst_w > 0,
            dst_h > 0,
            is_packed(src.format),
            row_lo == (if dyi > 0 { dyi } else { 0 }),
            row_hi == (if dyi + dhi < chi { dyi + dhi } else { chi }),
            col_lo == (if dxi > 0 { dxi } else { 0 }),
            col_hi == (if dxi + dwi < cwi { dxi + dwi } else { cwi }),
            c0.len() >= cwi * chi * 4,
            blit_reads_in_bounds(*src, dxi, dyi, dwi, dhi, cwi, chi),
            canvas@ == blit_partial(c0, *src, dxi, dyi, dwi, dhi, cwi, chi, cy as int, 0),
        decreases row_hi - cy,
    {
        proof {
            assert forall|i: int| 0 <= i < c0.len() implies #[trigger] blit_partial(
                c0,
                *src,
                dxi,
                dyi,
                dwi,
                dhi,
                cwi,
                chi,
                cy as int,
                0,
            )[i] == blit_partial(
                c0,
                *src,
                dxi,
                dyi,
                dwi,
                dhi,
                cwi,
                chi,
                cy as int,
                col_lo as int,
            )[i] by {
                lemma_pixel_index(i, cwi, chi);
            }
            assert(canvas@ =~= blit_partial(
                c0,
                *src,
                dxi,
                dyi,
                dwi,
                dhi,
                cwi,
                chi,
                cy as int,
                col_lo as int,
            ));
        }
        let mut cx: i128 = col_lo;
        while cx < col_hi
            invariant
                0 <= row_lo <= cy < row_hi <= ch,
                0 <= col_lo <= cx <= col_hi <= cw,
                cw == cwi,
                ch == chi,
                cwi == canvas_width,
                chi == canvas_height,
                dx == dxi,
                dy == dyi,
                dwi == dst_w,
                dhi == dst_h,
                dst_w > 0,
                dst_h > 0,
                is_packed(src.format),
                row_lo == (if dyi > 0 { dyi } else { 0 }),
                row_hi == (if dyi + dhi < chi { dyi + dhi } else { chi }),
                col_lo == (if dxi > 0 { dxi } else { 0 }),
                col_hi == (if dxi + dwi < cwi { dxi + dwi } else { cwi }),
                c0.len() >= cwi * chi * 4,
                blit_reads_in_bounds(*src, dxi, dyi, dwi, dhi, cwi, chi),
                canvas@ == blit_partial(
                    c0,
                    *src,
                    dxi,
                    dyi,
                    dwi,
                    dhi,
                    cwi,
                    chi,
                    cy as int,
                    cx as int,
                ),
            decreases col_hi - cx,
        {
            let cxu: usize = cx as usize;
            let cyu: usize = cy as usize;
            let pxu: usize = (cx - dx) as usize;
            let pyu: usize = (cy - dy) as usize;
            assert(cxu == cx && cyu == cy && pxu == cx - dx && pyu == cy - dy);
            draw_source_pixel(
                src,
                canvas,
                Ghost(c0),
                cxu,
                cyu,
                pxu,
                pyu,
                dst_w,
                dst_h,
                canvas_width as usize,
                canvas_height as usize,
                Ghost(dxi),
                Ghost(dyi),
            );
            cx = cx + 1;
        }
        proof {
            assert forall|i: int| 0 <= i < c0.len() implies #[trigger] blit_partial(
                c0,
                *src,
                dxi,
                dyi,
                dwi,
                dhi,
                cwi,
                chi,
                cy as int,
                col_hi as int,
            )[i] == blit_partial(
                c0,
                *src,
                dxi,
                dyi,
                dwi,
                dhi,
                cwi,
                chi,
                cy + 1,
                0,
            )[i] by {
                lemma_pixel_index(i, cwi, chi);
            }
            assert(canvas@ =~= blit_partial(
                c0,
                *src,
                dxi,
                dyi,
                dwi,
                dhi,
                cwi,
                chi,
                cy + 1,
                0,
            ));
        }
        cy = cy + 1;
    }
    proof {
        assert forall|i: int| 0 <= i < c0.len() implies #[trigger] blit_partial(
            c0,
            *src,
            dxi,
            dyi,
            dwi,
            dhi,
            cwi,
            chi,
            row_hi as int,
            0,
        )[i] == blit_byte(c0, *src, dxi, dyi, dwi, dhi, cwi, chi, i) by {
            if 0 <= i < cwi * chi * 4 {
                lemma_pixel_index(i, cwi, chi);
            }
        }
        assert(canvas@ =~= blit_result(c0, *src, dxi, dyi, dwi, dhi, cwi, chi));
    }
}

/// Draw the source pixel that destination pixel (`px`, `py`) samples onto
/// canvas pixel (`cx`, `cy`).
fn draw_source_pixel(
    src: &VideoFrame,
    canvas: &mut [u8],
    Ghost(c0): Ghost<Seq<u8>>,
    cx: usize,
    cy: usize,
    px: usize,
    py: usize,
    dst_w: usize,
    dst_h: usize,
    cw: usize,
    ch: usize,
    Ghost(dx): Ghost<int>,
    Ghost(dy): Ghost<int>,
)
    requires
        cx < cw,
        cy < ch,
        px < dst_w,
        py < dst_h,
        cx == dx + px,
        cy == dy + py,
        is_packed(src.format),
        c0.len() >= cw * ch * 4,
        blit_reads_in_bounds(*src, dx, dy, dst_w as int, dst_h as int, cw as int, ch as int),
        old(canvas)@ == blit_partial(
            c0,
            *src,
            dx,
            dy,
            dst_w as int,
            dst_h as int,
            cw as int,
            ch as int,
            cy as int,
            cx as int,
        ),
    ensures
        final(canvas)@ == blit_partial(
            c0,
            *src,
            dx,
            dy,
            dst_w as int,
            dst_h as int,
            cw as int,
            ch as int,
            cy as int,
            cx + 1,
        ),
{
    let ghost cwi = cw as int;
    let ghost chi = ch as int;
    let ghost dwi = dst_w as int;
    let ghost dhi = dst_h as int;
    proof {
        assert(src_offset(*src, px as int, py as int, dwi, dhi) + 3 < src.data@.len());
        assert((cy + 1) * cwi <= chi * cwi) by (nonlinear_arith)
            requires
                cy + 1 <= chi,
                cwi >= 0,
        ;
    }
    let sw = src.width;
    let sh = src.height;
    let sx = exec_nearest(px, sw, dst_w);
    let sy = exec_nearest(py, sh, dst_h);
    proof {
        assert(sy * sw <= sy * sw + sx);
        assert(0 <= sy * sw) by (nonlinear_arith)
            requires
                sy >= 0,
                sw >= 0,
        ;
    }
    let data: &Vec<u8> = &src.data;
    let data_len = data.len();
    assert((sy * sw + sx) * 4 + 3 < data_len);
    let src_off: usize = (sy * (sw as usize) + sx) * 4;
    assert(cy * cw + cx < chi * cwi) by (nonlinear_arith)
        requires
            cy + 1 <= chi,
            cx < cwi,
            cx >= 0,
            cwi == cw,
    ;
    let canvas_len = canvas.len();
    assert(canvas_len == c0.len());
    assert((cy * cw + cx) * 4 + 4 <= chi * cwi * 4);
    assert(cy * cw <= cy * cw + cx);
    assert(0 <= cy * cw) by (nonlinear_arith)
        requires
            cy >= 0,
            cw >= 0,
    ;
    let dst_off: usize = (cy * cw + cx) * 4;
    let (b, g, r, a) = match src.format {
        PixelFormat::RGBA32 => (data[src_off + 2], data[src_off + 1], data[src_off], data[src_off + 3]),
        _ => (data[src_off], data[src_off + 1], data[src_off + 2], data[src_off + 3]),
    };
    draw_pixel(canvas, dst_off, b, g, r, a);
    proof {
        assert forall|i: int| 0 <= i < c0.len() implies #[trigger] canvas@[i] == blit_partial(
            c0,
            *src,
            dx,
            dy,
            dwi,
            dhi,
            cwi,
            chi,
            cy as int,
            cx + 1,
        )[i] by {
            lemma_pixel_index(i, cwi, chi);
            if dst_off <= i < dst_off + 4 {
                lemma_index_of_pixel(cx as int, cy as int, i - dst_off, cwi);
            }
        }
        assert(canvas@ =~= blit_partial(
            c0,
            *src,
            dx,
            dy,
            dwi,
            dhi,
            cwi,
            chi,
            cy as int,
            cx + 1,
        ));
    }
}



// ── Laws of sizing, sampling and drawing ─────────────────────────────────────

/// `Stretch` fills exactly the item bounds, whatever the source's size.
pub proof fn lemma_stretch_fills_box(sw: u32, sh: u32, t: Transform)
    requires
        t.scale_mode == ScaleMode::Stretch,
    ensures
        dst_size(sw, sh, t) == (t.width as int, t.height as int),
{
}

/// `Unscaled` draws the source at its own size, whatever the item bounds.
pub proof fn lemma_unscaled_keeps_native_size(sw: u32, sh: u32, t: Transform)
    requires
        t.scale_mode == ScaleMode::Unscaled,
    ensures
        dst_size(sw, sh, t) == (sw as int, sh as int),
{
}

/// `Fit` and `Fill` keep the source's aspect ratio: one side is taken from
/// the item bounds, and the other is the largest whole number of pixels not
/// exceeding the exact proportional length (where that length fits in
/// `usize`; beyond, it saturates).
pub proof fn lemma_aspect_preserved(sw: u32, sh: u32, t: Transform)
    requires
        sw > 0,
        sh > 0,
        t.scale_mode == ScaleMode::Fit || t.scale_mode == ScaleMode::Fill,
        t.width * sh / (sw as int) <= usize::MAX,
        t.height * sw / (sh as int) <= usize::MAX,
    ensures
        ({
            let d = dst_size(sw, sh, t);
            ||| d.0 == t.width && d.1 * sw <= d.0 * sh < (d.1 + 1) * sw
            ||| d.1 == t.height && d.0 * sh <= d.1 * sw < (d.0 + 1) * sh
        }),
{
    let bw = t.width as int;
    let bh = t.height as int;
    let swi = sw as int;
    let shi = sh as int;
    let d = dst_size(sw, sh, t);
    assert(0 <= bw * shi && 0 <= bh * swi) by (nonlinear_arith)
        requires
            bw >= 0,
            bh >= 0,
            shi >= 0,
            swi >= 0,
    ;
    let q1 = bw * shi / swi;
    vstd::arithmetic::div_mod::lemma_fundamental_div_mod(bw * shi, swi);
    vstd::arithmetic::div_mod::lemma_mod_pos_bound(bw * shi, swi);
    assert(q1 * swi <= bw * shi < (q1 + 1) * swi) by (nonlinear_arith)
        requires
            bw * shi == swi * q1 + (bw * shi) % swi,
            0 <= (bw * shi) % swi < swi,
    ;
    let q2 = bh * swi / shi;
    vstd::arithmetic::div_mod::lemma_fundamental_div_mod(bh * swi, shi);
    vstd::arithmetic::div_mod::lemma_mod_pos_bound(bh * swi, shi);
    assert(q2 * shi <= bh * swi < (q2 + 1) * shi) by (nonlinear_arith)
        requires
            bh * swi == shi * q2 + (bh * swi) % shi,
            0 <= (bh * swi) % shi < shi,
    ;
    assert(height_for_width(bw, swi, shi) == q1);
    assert(width_for_height(bh, swi, shi) == q2);
    assert(d == (bw, q1) || d == (q2, bh));
}

/// Nearest-neighbour sampling: destination coordinate `p` of `dst_len`
/// samples source coordinate `s`, the one whose share of the source covers
/// `p`'s share of the destination (`s·dst_len <= p·src_len < (s+1)·dst_len`),
/// clamped to the last source coordinate.
pub proof fn lemma_nearest_samples_proportionally(p: int, src_len: int, dst_len: int)
    requires
        0 <= p < dst_len,
        src_len > 0,
    ensures
        0 <= nearest(p, src_len, dst_len) < src_len,
        nearest(p, src_len, dst_len) * dst_len <= p * src_len,
        nearest(p, src_len, dst_len) == src_len - 1 || p * src_len < (nearest(p, src_len, dst_len)
            + 1) * dst_len,
        p == 0 ==> nearest(p, src_len, dst_len) == 0,
{
    let q = p * src_len / dst_len;
    assert(0 <= p * src_len) by (nonlinear_arith)
        requires
            p >= 0,
            src_len > 0,
    ;
    vstd::arithmetic::div_mod::lemma_fundamental_div_mod(p * src_len, dst_len);
    vstd::arithmetic::div_mod::lemma_mod_pos_bound(p * src_len, dst_len);
    vstd::arithmetic::div_mod::lemma_div_pos_is_pos(p * src_len, dst_len);
    assert(q * dst_len <= p * src_len < (q + 1) * dst_len) by (nonlinear_arith)
        requires
            p * src_len == dst_len * q + (p * src_len) % dst_len,
            0 <= (p * src_len) % dst_len < dst_len,
    ;
    let n = nearest(p, src_len, dst_len);
    if n == src_len - 1 && q > src_len - 1 {
        assert(n * dst_len <= q * dst_len) by (nonlinear_arith)
            requires
                n <= q,
                dst_len > 0,
        ;
    }
    if p == 0 {
        assert(0 * src_len == 0);
    }
}

/// At the same size, drawing copies pixel for pixel: destination pixel
/// (`px`, `py`) samples source pixel (`px`, `py`).
pub proof fn lemma_same_size_samples_same_pixel(src: VideoFrame, px: int, py: int)
    requires
        0 <= px < src.width,
        0 <= py < src.height,
    ensures
        src_offset(src, px, py, src.width as int, src.height as int) == (py * src.width + px) * 4,
{
    vstd::arithmetic::div_mod::lemma_div_multiples_vanish(px, src.width as int);
    vstd::arithmetic::div_mod::lemma_div_multiples_vanish(py, src.height as int);
    assert(px * src.width == src.width * px && py * src.height == src.height * py) by (
    nonlinear_arith);
}

/// How one source channel lands on the canvas: a transparent source pixel
/// (alpha 0) leaves the canvas byte as it was; otherwise alpha becomes 255,
/// an opaque pixel's colour replaces the canvas colour, and a partly
/// transparent one is blended as `(c·a + old·(255 − a)) / 255`.
pub proof fn lemma_alpha_rules(c: u8, a: u8, old: u8, k: int)
    requires
        0 <= k < 4,
    ensures
        a == 0 ==> over(c, a, old, k) == old,
        a > 0 && k == 3 ==> over(c, a, old, k) == 255,
        a == 255 && k < 3 ==> over(c, a, old, k) == c,
        0 < a < 255 && k < 3 ==> over(c, a, old, k) as int == (c as int * a as int + old as int * (
        255 - a as int)) / 255,
{
    if 0 < a < 255 && k < 3 {
        assert(0 <= c as int * a as int + old as int * (255 - a as int) <= 255 * 255) by (
        nonlinear_arith)
            requires
                0 <= c <= 255,
                0 < a < 255,
                0 <= old <= 255,
        ;
    }
}

/// Which source bytes are drawn: blue, green, red, alpha are bytes 0..4 of a
/// BGRA pixel, and bytes 2, 1, 0, 3 of an RGBA one.
pub proof fn lemma_channel_order(src: VideoFrame, off: int)
    ensures
        src.format == PixelFormat::BGRA32 ==> src_channel(src, off, 0) == src.data@[off]
            && src_channel(src, off, 1) == src.data@[off + 1] && src_channel(src, off, 2)
            == src.data@[off + 2] && src_channel(src, off, 3) == src.data@[off + 3],
        src.format == PixelFormat::RGBA32 ==> src_channel(src, off, 0) == src.data@[off + 2]
            && src_channel(src, off, 1) == src.data@[off + 1] && src_channel(src, off, 2)
            == src.data@[off] && src_channel(src, off, 3) == src.data@[off + 3],
{
}

/// Drawing a source changes exactly the canvas pixels in its destination
/// rectangle: byte `k` of canvas pixel (`cx`, `cy`) becomes channel `k` of
/// source pixel (`sx`, `sy`), the nearest-neighbour sample of the pixel's
/// place in the rectangle, drawn over the old byte; every pixel outside the
/// rectangle keeps its bytes.
pub proof fn lemma_blit_pixel(
    canvas: Seq<u8>,
    src: VideoFrame,
    dx: int,
    dy: int,
    dw: int,
    dh: int,
    cw: int,
    ch: int,
    cx: int,
    cy: int,
    k: int,
)
    requires
        0 <= cx < cw,
        0 <= cy < ch,
        0 <= k < 4,
        canvas.len() >= cw * ch * 4,
    ensures
        ({
            let i = (cy * cw + cx) * 4 + k;
            let r = blit_result(canvas, src, dx, dy, dw, dh, cw, ch);
            &&& 0 <= i < canvas.len()
            &&& r.len() == canvas.len()
            &&& (dw > 0 && dh > 0 && is_packed(src.format) && dx <= cx < dx + dw && dy <= cy < dy
                + dh) ==> {
                let sy = nearest(cy - dy, src.height as int, dh);
                let sx = nearest(cx - dx, src.width as int, dw);
                let off = (sy * src.width + sx) * 4;
                r[i] == over(src_channel(src, off, k), src_channel(src, off, 3), canvas[i], k)
            }
            &&& !(dw > 0 && dh > 0 && is_packed(src.format) && dx <= cx < dx + dw && dy <= cy
                < dy + dh) ==> r[i] == canvas[i]
        }),
{
    let i = (cy * cw + cx) * 4 + k;
    lemma_index_of_pixel(cx, cy, k, cw);
    assert(cy * cw + cx < ch * cw) by (nonlinear_arith)
        requires
            0 <= cx < cw,
            0 <= cy < ch,
    ;
    assert(0 <= cy * cw) by (nonlinear_arith)
        requires
            0 <= cy,
            0 <= cw,
    ;
    assert(ch * cw == cw * ch) by (nonlinear_arith);
}

/// Drawing a source with a transform places it with its top-left corner at
/// (`t.x`, `t.y`) and its destination size: canvas pixels in that rectangle
/// show the sampled source pixel drawn over them, all others keep their bytes.
pub proof fn lemma_blit_places_source(
    canvas: Seq<u8>,
    src: VideoFrame,
    t: Transform,
    cw: int,
    ch: int,
    cx: int,
    cy: int,
    k: int,
)
    requires
        0 <= cx < cw,
        0 <= cy < ch,
        0 <= k < 4,
        canvas.len() >= cw * ch * 4,
    ensures
        ({
            let i = (cy * cw + cx) * 4 + k;
            let d = dst_size(src.width, src.height, t);
            let r = blit_with(canvas, src, t, cw, ch);
            let inside = d.0 > 0 && d.1 > 0 && is_packed(src.format) && t.x <= cx < t.x + d.0
                && t.y <= cy < t.y + d.1;
            &&& 0 <= i < canvas.len()
            &&& r.len() == canvas.len()
            &&& inside ==> {
                let sy = nearest(cy - t.y, src.height as int, d.1);
                let sx = nearest(cx - t.x, src.width as int, d.0);
                let off = (sy * src.width + sx) * 4;
                r[i] == over(src_channel(src, off, k), src_channel(src, off, 3), canvas[i], k)
            }
            &&& !inside ==> r[i] == canvas[i]
        }),
{
    let d = dst_size(src.width, src.height, t);
    lemma_blit_pixel(canvas, src, t.x as int, t.y as int, d.0, d.1, cw, ch, cx, cy, k);
}

// ── Compositor ───────────────────────────────────────────────────────────────

/// The canvas after the first `n` items are drawn, back to front, over a
/// black `cw` x `ch` canvas: invisible items and items whose source has sent
/// no frame yet are skipped.
pub open spec fn composed(
    items: Seq<SceneItem>,
    frames: Map<u32, VideoFrame>,
    cw: int,
    ch: int,
    n: nat,
) -> Seq<u8>
    decreases n,
{
    if n == 0 {
        Seq::new((cw * ch * 4) as nat, |i: int| 0u8)
    } else {
        let prev = composed(items, frames, cw, ch, (n - 1) as nat);
        let item = items[n - 1];
        if item.visible && frames.contains_key(item.source_id.0) {
            blit_with(prev, frames[item.source_id.0], item.transform, cw, ch)
        } else {
            prev
        }
    }
}

/// The canvas after every item is drawn.
pub open spec fn composite_canvas(
    items: Seq<SceneItem>,
    frames: Map<u32, VideoFrame>,
    cw: int,
    ch: int,
) -> Seq<u8> {
    composed(items, frames, cw, ch, items.len())
}

/// Every item that will be drawn can be drawn without reading outside its
/// source frame.
pub open spec fn all_drawable(items: Seq<SceneItem>, frames: Map<u32, VideoFrame>, cw: int, ch: int) -> bool {
    forall|i: int|
        0 <= i < items.len() && #[trigger] items[i].visible && frames.contains_key(
            items[i].source_id.0,
        ) ==> can_blit(frames[items[i].source_id.0], items[i].transform, cw, ch)
}

/// What a `Compositor` holds: its scene and the latest frame of each source.
pub struct CompositorView {
    pub scene: crate::scene::SceneView,
    pub frames: Map<u32, VideoFrame>,
}

/// Blends the most recent frame from each visible source into a single
/// canvas frame.
pub struct Compositor {
    scene: Scene,
    /// Latest frame received from each source, keyed by the source's number.
    frame_cache: HashMap<u32, VideoFrame>,
}

impl View for Compositor {
    type V = CompositorView;

    closed spec fn view(&self) -> CompositorView {
        CompositorView { scene: self.scene@, frames: self.frame_cache@ }
    }
}

impl Compositor {
    pub fn new(scene: Scene) -> (c: Self)
        ensures
            c@.scene == scene@,
            c@.frames == Map::<u32, VideoFrame>::empty(),
    {
        Compositor { scene, frame_cache: HashMap::new() }
    }

    /// Update the cached frame for a source.
    pub fn update_source(&mut self, id: SourceId, frame: VideoFrame)
        ensures
            final(self)@.scene == old(self)@.scene,
            final(self)@.frames == old(self)@.frames.insert(id.0, frame),
    {
        self.frame_cache.insert(id.0, frame);
    }

    /// Composite all visible sources and return the merged frame.
    pub fn composite(&self, pts: Timestamp) -> (f: VideoFrame)
        requires
            self@.scene.canvas_width * self@.scene.canvas_height * 4 <= usize::MAX,
            all_drawable(
                self@.scene.items,
                self@.frames,
                self@.scene.canvas_width as int,
                self@.scene.canvas_height as int,
            ),
        ensures
            f.width == self@.scene.canvas_width,
            f.height == self@.scene.canvas_height,
            f.format == PixelFormat::BGRA32,
            f.pts == pts,
            f.data@ == composite_canvas(
                self@.scene.items,
                self@.frames,
                self@.scene.canvas_width as int,
                self@.scene.canvas_height as int,
            ),
    {
        let canvas_width = self.scene.canvas_width();
        let canvas_height = self.scene.canvas_height();
        let ghost cwi = canvas_width as int;
        let ghost chi = canvas_height as int;
        let ghost frames = self.frame_cache@;
        proof {
            vstd::arithmetic::mul::lemma_mul_nonnegative(cwi, chi);
        }
        let cw = canvas_width as usize;
        let ch = canvas_height as usize;
        let size: usize = cw * ch * 4;
        let mut canvas: Vec<u8> = vec![0u8; size];
        assert(canvas@ =~= composed(self.scene@.items, frames, cwi, chi, 0));
        let items = self.scene.items();
        let n = items.len();
        let mut idx: usize = 0;
        while idx < n
            invariant
                n == items@.len(),
                items@ == self@.scene.items,
                frames == self@.frames,
                cwi == canvas_width,
                chi == canvas_height,
                canvas_width == self@.scene.canvas_width,
                canvas_height == self@.scene.canvas_height,
                idx <= n,
                all_drawable(items@, frames, cwi, chi),
                canvas@ == composed(items@, frames, cwi, chi, idx as nat),
                canvas@.len() == cwi * chi * 4,
            decreases n - idx,
        {
            let item = &items[idx];
            if item.visible {
                match self.frame_cache.get(&item.source_id.0) {
                    Some(frame) => {
                        assert(can_blit(*frame, item.transform, cwi, chi));
                        blit_frame(frame, &item.transform, canvas.as_mut_slice(), canvas_width, canvas_height);
                    },
                    None => {},
                }
            }
            idx = idx + 1;
        }
        VideoFrame::new(canvas_width, canvas_height, PixelFormat::BGRA32, canvas, pts)
    }

    pub fn scene(&self) -> (s: &Scene)
        ensures
            s@ == self@.scene,
    {
        &self.scene
    }

    pub fn scene_mut(&mut self) -> (s: &mut Scene)
        ensures
            s@ == old(self)@.scene,
            final(self)@.scene == final(s)@,
            final(self)@.frames == old(self)@.frames,
    {
        &mut self.scene
    }
}

/// Drawing never changes the canvas length.
pub proof fn lemma_composed_len(items: Seq<SceneItem>, frames: Map<u32, VideoFrame>, cw: int, ch: int, n: nat)
    requires
        cw >= 0,
        ch >= 0,
    ensures
        composed(items, frames, cw, ch, n).len() == cw * ch * 4,
    decreases n,
{
    vstd::arithmetic::mul::lemma_mul_nonnegative(cw, ch);
    if n > 0 {
        lemma_composed_len(items, frames, cw, ch, (n - 1) as nat);
    }
}

/// A scene none of whose items is both visible and fed by a source
/// composites to a black canvas.
pub proof fn lemma_nothing_to_draw_is_black(
    items: Seq<SceneItem>,
    frames: Map<u32, VideoFrame>,
    cw: int,
    ch: int,
)
    requires
        cw >= 0,
        ch >= 0,
        forall|i: int|
            0 <= i < items.len() ==> !(#[trigger] items[i].visible && frames.contains_key(
                items[i].source_id.0,
            )),
    ensures
        composite_canvas(items, frames, cw, ch) == Seq::new((cw * ch * 4) as nat, |i: int| 0u8),
{
    lemma_composed_unchanged(items, frames, cw, ch, items.len());
}

proof fn lemma_composed_unchanged(
    items: Seq<SceneItem>,
    frames: Map<u32, VideoFrame>,
    cw: int,
    ch: int,
    n: nat,
)
    requires
        n <= items.len(),
        forall|i: int|
            0 <= i < items.len() ==> !(#[trigger] items[i].visible && frames.contains_key(
                items[i].source_id.0,
            )),
    ensures
        composed(items, frames, cw, ch, n) == Seq::new((cw * ch * 4) as nat, |i: int| 0u8),
    decreases n,
{
    if n > 0 {
        lemma_composed_unchanged(items, frames, cw, ch, (n - 1) as nat);
        assert(!(items[n - 1].visible && frames.contains_key(items[n - 1].source_id.0)));
    }
}


// ── Complete frames ──────────────────────────────────────────────────────────

/// A packed frame is complete when it has pixels and its data holds all of
/// them; a planar frame is never drawn, so it always counts as complete.
pub open spec fn frame_complete(f: VideoFrame) -> bool {
    is_packed(f.format) ==> f.width > 0 && f.height > 0 && f.data@.len() >= f.width * f.height * 4
}

/// A complete frame can be drawn anywhere, at any size, on any canvas.
pub proof fn lemma_complete_frame_can_blit(f: VideoFrame, t: Transform, cw: int, ch: int)
    requires
        frame_complete(f),
    ensures
        can_blit(f, t, cw, ch),
{
    let d = dst_size(f.width, f.height, t);
    let sw = f.width as int;
    let sh = f.height as int;
    if d.0 > 0 && d.1 > 0 && is_packed(f.format) {
        assert forall|px: int, py: int|
            0 <= px < d.0 && 0 <= py < d.1 && 0 <= t.x + px < cw && 0 <= t.y + py < ch implies f.width
            > 0 && f.height > 0 && #[trigger] src_offset(f, px, py, d.0, d.1) + 3 < f.data@.len() by {
            let sy = nearest(py, sh, d.1);
            let sx = nearest(px, sw, d.0);
            assert(0 <= py * sh && 0 <= px * sw) by (nonlinear_arith)
                requires
                    py >= 0,
                    px >= 0,
                    sh >= 0,
                    sw >= 0,
            ;
            vstd::arithmetic::div_mod::lemma_div_pos_is_pos(py * sh, d.1);
            vstd::arithmetic::div_mod::lemma_div_pos_is_pos(px * sw, d.0);
            assert(0 <= sy <= sh - 1);
            assert(0 <= sx <= sw - 1);
            assert((sy * sw + sx) * 4 + 3 < sw * sh * 4) by (nonlinear_arith)
                requires
                    0 <= sy <= sh - 1,
                    0 <= sx <= sw - 1,
                    sw > 0,
            ;
        }
    }
}

/// Items drawn from complete frames can all be drawn.
pub proof fn lemma_complete_frames_drawable(
    items: Seq<SceneItem>,
    frames: Map<u32, VideoFrame>,
    cw: int,
    ch: int,
)
    requires
        forall|k: u32| #[trigger] frames.contains_key(k) ==> frame_complete(frames[k]),
    ensures
        all_drawable(items, frames, cw, ch),
{
    assert forall|i: int|
        0 <= i < items.len() && #[trigger] items[i].visible && frames.contains_key(
            items[i].source_id.0,
        ) implies can_blit(frames[items[i].source_id.0], items[i].transform, cw, ch) by {
        lemma_complete_frame_can_blit(frames[items[i].source_id.0], items[i].transform, cw, ch);
    }
}



/// Nearest-neighbour sampling never moves backwards and stays in the source.
pub proof fn lemma_nearest_monotonic(p1: int, p2: int, src_len: int, dst_len: int)
    requires
        0 <= p1 <= p2,
        src_len > 0,
        dst_len > 0,
    ensures
        0 <= nearest(p1, src_len, dst_len) <= nearest(p2, src_len, dst_len) <= src_len - 1,
{
    assert(0 <= p1 * src_len <= p2 * src_len) by (nonlinear_arith)
        requires
            0 <= p1 <= p2,
            src_len > 0,
    ;
    vstd::arithmetic::div_mod::lemma_div_pos_is_pos(p1 * src_len, dst_len);
    vstd::arithmetic::div_mod::lemma_div_is_ordered(p1 * src_len, p2 * src_len, dst_len);
}

/// Test whether `src` can be drawn where `t` places it on a `cw` x `ch`
/// canvas without reading outside its data.
pub fn can_draw(src: &VideoFrame, t: &Transform, canvas_width: u32, canvas_height: u32) -> (r: bool)
    ensures
        r == can_blit(*src, *t, canvas_width as int, canvas_height as int),
{
    let ghost cw = canvas_width as int;
    let ghost ch = canvas_height as int;
    let (dw, dh) = compute_dst_size(src, t);
    if dw == 0 || dh == 0 || src.format == PixelFormat::I420 {
        return true;
    }
    let dx = t.x as i128;
    let dy = t.y as i128;
    let col_hi0: i128 = dx + dw as i128;
    let col_hi: i128 = if col_hi0 < canvas_width as i128 { col_hi0 } else { canvas_width as i128 };
    let col_lo: i128 = if dx > 0 { dx } else { 0 };
    let row_hi0: i128 = dy + dh as i128;
    let row_hi: i128 = if row_hi0 < canvas_height as i128 { row_hi0 } else { canvas_height as i128 };
    let row_lo: i128 = if dy > 0 { dy } else { 0 };
    if col_lo >= col_hi || row_lo >= row_hi {
        return true;
    }
    let px_last = (col_hi - 1 - dx) as usize;
    let py_last = (row_hi - 1 - dy) as usize;
    assert(px_last == col_hi - 1 - dx && py_last == row_hi - 1 - dy);
    assert(dst_size(src.width, src.height, *t) == (dw as int, dh as int));
    proof {
        assert(0 <= px_last < dw);
        assert(0 <= py_last < dh);
        assert(0 <= t.x + px_last < cw);
        assert(0 <= t.y + py_last < ch);
    }
    if src.width == 0 || src.height == 0 {
        assert(!(src.width > 0 && src.height > 0 && src_offset(
            *src,
            px_last as int,
            py_last as int,
            dw as int,
            dh as int,
        ) + 3 < src.data@.len()));
        proof {
            if blit_reads_in_bounds(*src, t.x as int, t.y as int, dw as int, dh as int, cw, ch) {
                let px = px_last as int;
                let py = py_last as int;
                assert(0 <= px < dw && 0 <= py < dh && 0 <= t.x + px < cw && 0 <= t.y + py < ch);
                assert(is_packed(src.format));
                let o = src_offset(*src, px, py, dw as int, dh as int);
                assert(src.width > 0);
            }
        }
        return false;
    }
    let sx = exec_nearest(px_last, src.width, dw);
    let sy = exec_nearest(py_last, src.height, dh);
    proof {
        assert(sy * src.width + sx <= u32::MAX * u32::MAX) by (nonlinear_arith)
            requires
                sy < src.height,
                sx < src.width,
                src.width <= u32::MAX,
                src.height <= u32::MAX,
                sy >= 0,
        ;
    }
    let last_off: u128 = ((sy as u128) * (src.width as u128) + (sx as u128)) * 4;
    let data: &Vec<u8> = &src.data;
    let ok = last_off + 3 < data.len() as u128;
    proof {
        let sw = src.width as int;
        let sh = src.height as int;
        let d = dst_size(src.width, src.height, *t);
        assert(d.0 == dw && d.1 == dh);
        assert(last_off == src_offset(*src, px_last as int, py_last as int, dw as int, dh as int));
        if ok {
            assert forall|px: int, py: int|
                0 <= px < dw && 0 <= py < dh && 0 <= t.x + px < cw && 0 <= t.y + py < ch implies src.width
                > 0 && src.height > 0 && #[trigger] src_offset(*src, px, py, dw as int, dh as int) + 3
                < src.data@.len() by {
                lemma_nearest_monotonic(px, px_last as int, sw, dw as int);
                lemma_nearest_monotonic(py, py_last as int, sh, dh as int);
                let x1 = nearest(px, sw, dw as int);
                let y1 = nearest(py, sh, dh as int);
                assert(y1 * sw + x1 <= sy * sw + sx) by (nonlinear_arith)
                    requires
                        0 <= y1 <= sy,
                        0 <= x1 <= sx,
                        sw > 0,
                ;
            }
        }
    }
    ok
}

/// Every pixel of `data` is fully opaque.
pub open spec fn all_opaque(data: Seq<u8>) -> bool {
    forall|i: int| 0 <= i < data.len() && i % 4 == 3 ==> #[trigger] data[i] == 255
}

/// Drawing an opaque BGRA frame of exactly the canvas size over the whole
/// canvas reproduces the frame, whatever the canvas held.
pub proof fn lemma_opaque_full_canvas(canvas: Seq<u8>, src: VideoFrame, cw: int, ch: int)
    requires
        src.format == PixelFormat::BGRA32,
        src.width == cw,
        src.height == ch,
        cw > 0,
        ch > 0,
        src.data@.len() == cw * ch * 4,
        canvas.len() == cw * ch * 4,
        all_opaque(src.data@),
    ensures
        blit_result(canvas, src, 0, 0, cw, ch, cw, ch) == src.data@,
{
    assert forall|i: int| 0 <= i < canvas.len() implies #[trigger] blit_byte(
        canvas,
        src,
        0,
        0,
        cw,
        ch,
        cw,
        ch,
        i,
    ) == src.data@[i] by {
        lemma_pixel_index(i, cw, ch);
        let x = pixel_x(i, cw);
        let y = pixel_y(i, cw);
        vstd::arithmetic::div_mod::lemma_div_multiples_vanish(y, ch);
        vstd::arithmetic::div_mod::lemma_div_multiples_vanish(x, cw);
        assert(y * ch == ch * y && x * cw == cw * x) by (nonlinear_arith);
        assert(nearest(y, ch, ch) == y);
        assert(nearest(x, cw, cw) == x);
        let off = (y * cw + x) * 4;
        assert(src_offset(src, x, y, cw, ch) == off);
        assert(i == off + i % 4);
        vstd::arithmetic::div_mod::lemma_fundamental_div_mod_converse(off + 3, 4, y * cw + x, 3);
        assert(src.data@[off + 3] == 255);
    }
    assert(blit_result(canvas, src, 0, 0, cw, ch, cw, ch) =~= src.data@);
}


/// Every pixel of `data` is fully transparent.
pub open spec fn all_transparent(data: Seq<u8>) -> bool {
    forall|i: int| 0 <= i < data.len() && i % 4 == 3 ==> #[trigger] data[i] == 0
}

/// Drawing a fully transparent frame changes nothing.
pub proof fn lemma_transparent_frame_changes_nothing(
    canvas: Seq<u8>,
    src: VideoFrame,
    t: Transform,
    cw: int,
    ch: int,
)
    requires
        0 <= cw,
        0 <= ch,
        can_blit(src, t, cw, ch),
        all_transparent(src.data@),
    ensures
        blit_with(canvas, src, t, cw, ch) == canvas,
{
    let d = dst_size(src.width, src.height, t);
    assert forall|i: int| 0 <= i < canvas.len() implies #[trigger] blit_byte(
        canvas,
        src,
        t.x as int,
        t.y as int,
        d.0,
        d.1,
        cw,
        ch,
        i,
    ) == canvas[i] by {
        let cx = pixel_x(i, cw);
        let cy = pixel_y(i, cw);
        if 0 <= i < cw * ch * 4 && d.0 > 0 && d.1 > 0 && is_packed(src.format) && covers(
            cx,
            t.x as int,
            d.0,
        ) && covers(cy, t.y as int, d.1) {
            if cw == 0 {
                assert(cw * ch * 4 == 0);
            }
            lemma_pixel_index(i, cw, ch);
            let px = cx - t.x;
            let py = cy - t.y;
            assert(src_offset(src, px, py, d.0, d.1) + 3 < src.data@.len());
            let q = nearest(py, src.height as int, d.1) * src.width + nearest(
                px,
                src.width as int,
                d.0,
            );
            vstd::arithmetic::div_mod::lemma_fundamental_div_mod_converse(q * 4 + 3, 4, q, 3);
            assert(src.data@[q * 4 + 3] == 0);
        }
    }
    assert(blit_with(canvas, src, t, cw, ch) =~= canvas);
}

} // verus!
