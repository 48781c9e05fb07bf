//! A synthetic test picture: animated colour bars with a moving marker and a
//! binary frame counter, for running the pipeline without a real capture
//! source.

use vstd::prelude::*;

use crate::raster::{lemma_index_of_pixel, pixel_x, pixel_y};

verus! {

/// The eight classic SMPTE colour bars, at 75% intensity, as the (blue, green,
/// red) bytes of a BGRA pixel: white, yellow, cyan, green, magenta, red, blue,
/// black.
pub open spec fn bar_color(bar: int) -> (u8, u8, u8) {
    if bar == 0 {
        (192, 192, 192)
    } else if bar == 1 {
        (0, 192, 192)
    } else if bar == 2 {
        (192, 192, 0)
    } else if bar == 3 {
        (0, 192, 0)
    } else if bar == 4 {
        (192, 0, 192)
    } else if bar == 5 {
        (0, 0, 192)
    } else if bar == 6 {
        (192, 0, 0)
    } else {
        (0, 0, 0)
    }
}

/// Rows `0 .. bar_rows(h)` (the top three quarters) hold the colour bars.
pub open spec fn bar_rows(h: int) -> int {
    h * 3 / 4
}

/// Which of the eight bars column `x` of a `w`-wide picture falls in.
pub open spec fn bar_index(x: int, w: int) -> int {
    let b = x / (w / 8);
    if b < 7 {
        b
    } else {
        7
    }
}

/// Left edge of the marker: it sweeps the width once per `fps` frames.
pub open spec fn marker_x(w: int, frame: u64, fps: u32) -> int {
    ((frame % (fps as u64)) as int * w) / (fps as int)
}

/// Width of the marker: a fortieth of the picture, at least four pixels.
pub open spec fn marker_width(w: int) -> int {
    if w / 40 > 4 {
        w / 40
    } else {
        4
    }
}

/// Pixel (`x`, `y`) lies in one of the eight 8x8 squares of the frame
/// counter, which start at (4, 4) and are 10 pixels apart.
pub open spec fn in_counter(x: int, y: int) -> bool {
    4 <= y < 12 && 4 <= x && (x - 4) / 10 < 8 && (x - 4) % 10 < 8
}

/// Bit `bit` of the frame number.
pub open spec fn frame_bit(frame: u64, bit: int) -> bool {
    (frame >> (bit as u64)) & 1 == 1
}

/// Channel `k` (blue, green, red, alpha) of pixel (`x`, `y`) of test
/// picture number `frame`: the frame counter over the marker over the
/// background (colour bars on top, dark grey below); every pixel is opaque.
pub open spec fn pattern_channel(w: int, h: int, frame: u64, fps: u32, x: int, y: int, k: int) -> u8 {
    if k == 3 {
        255
    } else if in_counter(x, y) {
        if frame_bit(frame, (x - 4) / 10) {
            255
        } else {
            0
        }
    } else if y >= bar_rows(h) && marker_x(w, frame, fps) <= x < marker_x(w, frame, fps)
        + marker_width(w) {
        255
    } else if y >= bar_rows(h) {
        32
    } else {
        let c = bar_color(bar_index(x, w));
        if k == 0 {
            c.0
        } else if k == 1 {
            c.1
        } else {
            c.2
        }
    }
}

/// The bytes of a whole `w` x `h` BGRA test picture.
pub open spec fn pattern(w: int, h: int, frame: u64, fps: u32) -> Seq<u8> {
    Seq::new(
        (w * h * 4) as nat,
        |i: int| pattern_channel(w, h, frame, fps, pixel_x(i, w), pixel_y(i, w), i % 4),
    )
}

/// The pixel (`x`, `y`) of the test picture, as (blue, green, red).
fn pattern_pixel(w: usize, h: usize, frame: u64, fps: u32, x: usize, y: usize) -> (r: (u8, u8, u8))
    requires
        fps > 0,
        x < w,
        y < h,
        y < bar_rows(h as int) ==> w >= 8,
    ensures
        r.0 == pattern_channel(w as int, h as int, frame, fps, x as int, y as int, 0),
        r.1 == pattern_channel(w as int, h as int, frame, fps, x as int, y as int, 1),
        r.2 == pattern_channel(w as int, h as int, frame, fps, x as int, y as int, 2),
{
    let bar_region: usize = h / 4 * 3 + (h % 4) * 3 / 4;
    assert(bar_region == bar_rows(h as int)) by (nonlinear_arith)
        requires
            bar_region == h / 4 * 3 + (h % 4) * 3 / 4,
            h >= 0,
    {
        vstd::arithmetic::div_mod::lemma_fundamental_div_mod(h as int, 4);
    }
    if 4 <= y && y < 12 && 4 <= x && (x - 4) / 10 < 8 && (x - 4) % 10 < 8 {
        let bit = (x - 4) / 10;
        let set = (frame >> (bit as u64)) & 1 == 1;
        let c: u8 = if set { 255 } else { 0 };
        return (c, c, c);
    }
    if y >= bar_region {
        let cycle: u64 = frame % (fps as u64);
        proof {
            assert(cycle < fps);
            assert((cycle as int) * (w as int) <= (fps as int) * (w as int)) by (nonlinear_arith)
                requires
                    cycle < fps,
                    w >= 0,
            ;
            assert((fps as int) * (w as int) <= u32::MAX * usize::MAX) by (nonlinear_arith)
                requires
                    fps <= u32::MAX,
                    w <= usize::MAX,
            ;
            assert(u32::MAX * usize::MAX <= u128::MAX) by (nonlinear_arith)
                requires
                    usize::MAX <= u64::MAX,
            ;
            assert((cycle as int) * (w as int) >= 0) by (nonlinear_arith)
                requires
                    cycle >= 0,
                    w >= 0,
            ;
        }
        let pos: u128 = (cycle as u128) * (w as u128) / (fps as u128);
        let marker_w: u128 = if w / 40 > 4 { (w / 40) as u128 } else { 4 };
        if pos <= x as u128 && (x as u128) < pos + marker_w {
            return (255, 255, 255);
        }
        return (32, 32, 32);
    }
    let bar_w = w / 8;
    let q = x / bar_w;
    let bar: usize = if q < 7 { q } else { 7 };
    if bar == 0 {
        (192, 192, 192)
    } else if bar == 1 {
        (0, 192, 192)
    } else if bar == 2 {
        (192, 192, 0)
    } else if bar == 3 {
        (0, 192, 0)
    } else if bar == 4 {
        (192, 0, 192)
    } else if bar == 5 {
        (0, 0, 192)
    } else if bar == 6 {
        (192, 0, 0)
    } else {
        (0, 0, 0)
    }
}

/// Build a single BGRA32 test picture: animated colour bars, a moving white
/// marker in the bottom quarter and the low eight bits of the frame number
/// as white (set) or black (clear) squares in the top-left corner.
pub fn make_frame(width: u32, height: u32, frame: u64, fps: u32) -> (data: Vec<u8>)
    requires
        fps > 0,
        width * height * 4 <= usize::MAX,
        width == 0 ==> height == 0,
        bar_rows(height as int) > 0 ==> width >= 8,
    ensures
        data@ == pattern(width as int, height as int, frame, fps),
{
    let w = width as usize;
    let h = height as usize;
    let ghost wi = w as int;
    let ghost hi = h as int;
    proof {
        vstd::arithmetic::mul::lemma_mul_nonnegative(wi, hi);
    }
    let mut data: Vec<u8> = Vec::with_capacity(w * h * 4);
    let mut y: usize = 0;
    while y < h
        invariant
            w == width,
            h == height,
            wi == w,
            hi == h,
            y <= h,
            fps > 0,
            bar_rows(hi) > 0 ==> w >= 8,
            h > 0 ==> w > 0,
            data@ =~= Seq::new(
                (y * w * 4) as nat,
                |i: int| pattern_channel(wi, hi, frame, fps, pixel_x(i, wi), pixel_y(i, wi), i % 4),
            ),
        decreases h - y,
    {
        let mut x: usize = 0;
        while x < w
            invariant
                w == width,
                h == height,
                wi == w,
                hi == h,
                y < h,
                x <= w,
                fps > 0,
                bar_rows(hi) > 0 ==> w >= 8,
                data@ =~= Seq::new(
                    ((y * w + x) * 4) as nat,
                    |i: int| pattern_channel(wi, hi, frame, fps, pixel_x(i, wi), pixel_y(i, wi), i % 4),
                ),
            decreases w - x,
        {
            proof {
                if y < bar_rows(hi) {
                    assert(bar_rows(hi) > 0);
                }
            }
            let (b, g, r) = pattern_pixel(w, h, frame, fps, x, y);
            let ghost before = data@;
            data.push(b);
            data.push(g);
            data.push(r);
            data.push(255);
            proof {
                let base = (y * w + x) * 4;
                assert forall|k: int| 0 <= k < 4 implies #[trigger] data@[base + k]
                    == pattern_channel(
                    wi,
                    hi,
                    frame,
                    fps,
                    pixel_x(base + k, wi),
                    pixel_y(base + k, wi),
                    (base + k) % 4,
                ) by {
                    lemma_index_of_pixel(x as int, y as int, k, wi);
                }
                assert(((y * w + (x + 1)) * 4) == base + 4);
                assert(data@ =~= Seq::new(
                    ((y * w + (x + 1)) * 4) as nat,
                    |i: int| pattern_channel(wi, hi, frame, fps, pixel_x(i, wi), pixel_y(i, wi), i % 4),
                )) by {
                    assert forall|i: int| 0 <= i < base + 4 implies #[trigger] data@[i]
                        == pattern_channel(
                        wi,
                        hi,
                        frame,
                        fps,
                        pixel_x(i, wi),
                        pixel_y(i, wi),
                        i % 4,
                    ) by {
                        if i >= base {
                            assert(data@[base + (i - base)] == data@[i]);
                        } else {
                            assert(data@[i] == before[i]);
                        }
                    }
                }
            }
            x = x + 1;
        }
        assert((y * w + w) * 4 == (y + 1) * w * 4) by (nonlinear_arith);
        y = y + 1;
    }
    assert(h * w * 4 == w * h * 4) by (nonlinear_arith);
    data
}


/// The marker sweeps the picture once per second: frame `n + fps` puts it
/// where frame `n` did.
pub proof fn lemma_marker_repeats_every_second(w: int, frame: u64, fps: u32)
    requires
        fps > 0,
        frame + fps <= u64::MAX,
    ensures
        marker_x(w, (frame + fps) as u64, fps) == marker_x(w, frame, fps),
{
    vstd::arithmetic::div_mod::lemma_mod_add_multiples_vanish(frame as int, fps as int);
}

/// Within a second the marker moves left to right.
pub proof fn lemma_marker_moves_right(w: int, f1: u64, f2: u64, fps: u32)
    requires
        fps > 0,
        w >= 0,
        f1 % (fps as u64) <= f2 % (fps as u64),
    ensures
        marker_x(w, f1, fps) <= marker_x(w, f2, fps),
{
    let c1 = (f1 % (fps as u64)) as int;
    let c2 = (f2 % (fps as u64)) as int;
    assert(c1 * w <= c2 * w) by (nonlinear_arith)
        requires
            c1 <= c2,
            w >= 0,
    ;
    vstd::arithmetic::div_mod::lemma_div_is_ordered(c1 * w, c2 * w, fps as int);
}


/// The picture depends on the frame number only through its position within
/// the second (`frame % fps`) and its low eight bits: frame `n + 256 · fps`
/// looks exactly like frame `n`.
pub proof fn lemma_pattern_repeats(w: int, h: int, frame: u64, fps: u32)
    requires
        fps > 0,
        frame + 256 * fps <= u64::MAX,
    ensures
        pattern(w, h, (frame + 256 * fps) as u64, fps) == pattern(w, h, frame, fps),
{
    let later = (frame + 256 * fps) as u64;
    let k = (256 * fps) as u64;
    assert(k & 255 == 0) by (bit_vector)
        requires
            k == 256 * fps,
    ;
    vstd::arithmetic::div_mod::lemma_mod_multiples_vanish(256, frame as int, fps as int);
    assert(((fps as int) * 256 + frame as int) % (fps as int) == (frame as int) % (fps as int));
    assert(marker_x(w, later, fps) == marker_x(w, frame, fps));
    assert forall|bit: int| 0 <= bit < 8 implies #[trigger] frame_bit(later, bit) == frame_bit(
        frame,
        bit,
    ) by {
        let b = bit as u64;
        assert((later >> b) & 1 == (frame >> b) & 1) by (bit_vector)
            requires
                b < 8,
                k & 255 == 0,
                later == frame + k,
        ;
    }
    assert forall|i: int| 0 <= i < (w * h * 4) implies #[trigger] pattern(w, h, later, fps)[i]
        == pattern(w, h, frame, fps)[i] by {
        let x = pixel_x(i, w);
        let y = pixel_y(i, w);
        if in_counter(x, y) {
            assert(frame_bit(later, (x - 4) / 10) == frame_bit(frame, (x - 4) / 10));
        }
    }
    assert(pattern(w, h, later, fps) =~= pattern(w, h, frame, fps));
}


/// Byte `k` of pixel (`x`, `y`) of the picture is channel `k` of that pixel.
pub proof fn lemma_pattern_pixel(w: int, h: int, frame: u64, fps: u32, x: int, y: int, k: int)
    requires
        0 <= x < w,
        0 <= y < h,
        0 <= k < 4,
    ensures
        0 <= (y * w + x) * 4 + k < pattern(w, h, frame, fps).len(),
        pattern(w, h, frame, fps)[(y * w + x) * 4 + k] == pattern_channel(w, h, frame, fps, x, y, k),
{
    lemma_index_of_pixel(x, y, k, w);
    assert(0 <= y * w && (y * w + x) * 4 + k < w * h * 4) by (nonlinear_arith)
        requires
            0 <= x < w,
            0 <= y < h,
            0 <= k < 4,
    ;
}

/// The frame counter: in counter square `b` (8 x 8 pixels at (4 + 10·b, 4)),
/// every pixel is opaque, white when bit `b` of the picture number is set and
/// black when it is clear.
pub proof fn lemma_counter_shows_frame_bits(
    w: int,
    h: int,
    frame: u64,
    fps: u32,
    b: int,
    x: int,
    y: int,
    k: int,
)
    requires
        0 <= b < 8,
        4 + 10 * b <= x < 4 + 10 * b + 8,
        4 <= y < 12,
        0 <= k < 3,
    ensures
        pattern_channel(w, h, frame, fps, x, y, k) == (if (frame >> (b as u64)) & 1 == 1 {
            255u8
        } else {
            0u8
        }),
        pattern_channel(w, h, frame, fps, x, y, 3) == 255,
{
    vstd::arithmetic::div_mod::lemma_fundamental_div_mod_converse(x - 4, 10, b, x - 4 - 10 * b);
}

/// Below the bars and outside the counter, the picture is dark grey (32) with
/// a white marker covering columns `pos .. pos + max(w / 40, 4)`, where
/// `pos = (frame % fps) · w / fps`.
pub proof fn lemma_bottom_quarter(w: int, h: int, frame: u64, fps: u32, x: int, y: int, k: int)
    requires
        fps > 0,
        h * 3 / 4 <= y,
        !(4 <= y < 12 && 4 <= x && (x - 4) / 10 < 8 && (x - 4) % 10 < 8),
        0 <= k < 3,
    ensures
        ({
            let pos = ((frame % (fps as u64)) as int * w) / (fps as int);
            let mw = if w / 40 > 4 {
                w / 40
            } else {
                4
            };
            pattern_channel(w, h, frame, fps, x, y, k) == if pos <= x < pos + mw {
                255u8
            } else {
                32u8
            }
        }),
{
}

/// The top three quarters outside the counter show the colour bars: column
/// `x` shows bar `min(x / (w / 8), 7)` of white, yellow, cyan, green, magenta,
/// red, blue, black, at 75% intensity, as (blue, green, red).
pub proof fn lemma_colour_bars(w: int, h: int, frame: u64, fps: u32, x: int, y: int)
    requires
        y < h * 3 / 4,
        !(4 <= y < 12 && 4 <= x && (x - 4) / 10 < 8 && (x - 4) % 10 < 8),
    ensures
        ({
            let q = x / (w / 8);
            let bar = if q < 7 {
                q
            } else {
                7
            };
            let c = (
                pattern_channel(w, h, frame, fps, x, y, 0),
                pattern_channel(w, h, frame, fps, x, y, 1),
                pattern_channel(w, h, frame, fps, x, y, 2),
            );
            &&& bar == 0 ==> c == (192u8, 192u8, 192u8)
            &&& bar == 1 ==> c == (0u8, 192u8, 192u8)
            &&& bar == 2 ==> c == (192u8, 192u8, 0u8)
            &&& bar == 3 ==> c == (0u8, 192u8, 0u8)
            &&& bar == 4 ==> c == (192u8, 0u8, 192u8)
            &&& bar == 5 ==> c == (0u8, 0u8, 192u8)
            &&& bar == 6 ==> c == (192u8, 0u8, 0u8)
            &&& bar >= 7 ==> c == (0u8, 0u8, 0u8)
            &&& pattern_channel(w, h, frame, fps, x, y, 3) == 255
        }),
{
}

} // verus!
