//! The real-time preview: what the preview window draws, and how it reacts
//! to pipeline and window events.

use vstd::prelude::*;

use crate::compositor::{
    exec_nearest, lemma_nearest_monotonic, lemma_nearest_samples_proportionally, nearest,
};
use crate::types::{PixelFormat, VideoFrame};

verus! {

/// Events sent from the pipeline threads to wake the preview's event loop.
#[derive(Debug, Clone, Copy, PartialEq, Eq, Structural)]
pub enum PreviewEvent {
    /// A new composed frame is ready: request a redraw.
    NewFrame,
    /// Signal the preview to close.
    Quit,
}

/// The window events the preview distinguishes.
#[derive(Debug, Clone, Copy, PartialEq, Eq, Structural)]
pub enum WindowInput {
    CloseRequested,
    /// The Q key went down.
    QuitKeyPressed,
    RedrawRequested,
    Resized,
    /// Any other window event.
    Other,
}

/// What the preview does in response to an event.
#[derive(Debug, Clone, Copy, PartialEq, Eq, Structural)]
pub enum PreviewAction {
    /// Take every frame waiting in the channel, keep the newest, and ask
    /// the window for a redraw.
    TakeNewestAndRedraw,
    /// Leave the event loop.
    Exit,
    /// Draw the latest frame into the window.
    Render,
    /// Ask the window for a redraw.
    RequestRedraw,
    /// Do nothing.
    Ignore,
}

/// How the preview answers an event from the pipeline.
pub fn on_user_event(event: PreviewEvent) -> (a: PreviewAction)
    ensures
        event == PreviewEvent::NewFrame ==> a == PreviewAction::TakeNewestAndRedraw,
        event == PreviewEvent::Quit ==> a == PreviewAction::Exit,
{
    match event {
        PreviewEvent::NewFrame => PreviewAction::TakeNewestAndRedraw,
        PreviewEvent::Quit => PreviewAction::Exit,
    }
}

/// How the preview answers a window event: closing the window or pressing
/// Q exits, a redraw request renders, a resize asks for a redraw.
pub fn on_window_input(input: WindowInput) -> (a: PreviewAction)
    ensures
        a == match input {
            WindowInput::CloseRequested => PreviewAction::Exit,
            WindowInput::QuitKeyPressed => PreviewAction::Exit,
            WindowInput::RedrawRequested => PreviewAction::Render,
            WindowInput::Resized => PreviewAction::RequestRedraw,
            WindowInput::Other => PreviewAction::Ignore,
        },
{
    match input {
        WindowInput::CloseRequested => PreviewAction::Exit,
        WindowInput::QuitKeyPressed => PreviewAction::Exit,
        WindowInput::RedrawRequested => PreviewAction::Render,
        WindowInput::Resized => PreviewAction::RequestRedraw,
        WindowInput::Other => PreviewAction::Ignore,
    }
}

/// Opaque black in the window buffer's 0xAARRGGBB layout.
pub const OPAQUE_BLACK: u32 = 0xFF00_0000;

/// Byte offset in `frame` of the pixel that window pixel (`px`, `py`) of a
/// `ww` x `wh` window shows.
pub open spec fn preview_offset(frame: VideoFrame, ww: int, wh: int, px: int, py: int) -> int {
    (nearest(py, frame.height as int, wh) * frame.width + nearest(px, frame.width as int, ww)) * 4
}

/// Blue, green and red of the frame pixel at byte offset `off`; a planar
/// frame shows black.
pub open spec fn frame_rgb(frame: VideoFrame, off: int) -> (u8, u8, u8) {
    let d = frame.data@;
    match frame.format {
        PixelFormat::BGRA32 => (d[off], d[off + 1], d[off + 2]),
        PixelFormat::RGBA32 => (d[off + 2], d[off + 1], d[off]),
        PixelFormat::I420 => (0, 0, 0),
    }
}

/// The window-buffer value (0x00RRGGBB) of window pixel (`px`, `py`).
pub open spec fn preview_pixel(frame: VideoFrame, ww: int, wh: int, px: int, py: int) -> u32 {
    let c = frame_rgb(frame, preview_offset(frame, ww, wh, px, py));
    (c.2 as int * 65536 + c.1 as int * 256 + c.0 as int) as u32
}

/// The window buffer after `frame` is scaled over the whole `ww` x `wh`
/// window; an empty frame leaves the buffer as it was.
pub open spec fn preview_buffer(buf: Seq<u32>, frame: VideoFrame, ww: int, wh: int) -> Seq<u32> {
    if frame.width == 0 || frame.height == 0 {
        buf
    } else {
        Seq::new(
            buf.len(),
            |i: int|
                if 0 <= i < ww * wh {
                    preview_pixel(frame, ww, wh, i % ww, i / ww)
                } else {
                    buf[i]
                },
        )
    }
}

/// Every frame pixel that a window pixel shows lies inside the frame data.
pub open spec fn preview_reads_in_bounds(frame: VideoFrame, ww: int, wh: int) -> bool {
    frame.width > 0 && frame.height > 0 && frame.format != PixelFormat::I420 ==> forall|
        px: int,
        py: int,
    | 0 <= px < ww && 0 <= py < wh ==> #[trigger] preview_offset(frame, ww, wh, px, py) + 2
        < frame.data@.len()
}

/// Scale and blit a BGRA32 (or RGBA32) frame into a window buffer of
/// 0x00RRGGBB values, nearest-neighbour, over the whole window.
pub fn blit_frame_to_buffer(frame: &VideoFrame, buf: &mut [u32], win_w: u32, win_h: u32)
    requires
        frame.width > 0 && frame.height > 0 ==> old(buf)@.len() >= win_w * win_h,
        preview_reads_in_bounds(*frame, win_w as int, win_h as int),
    ensures
        final(buf)@ == preview_buffer(old(buf)@, *frame, win_w as int, win_h as int),
{
    let fw = frame.width;
    let fh = frame.height;
    let ww = win_w as usize;
    let wh = win_h as usize;
    let ghost b0 = buf@;
    let ghost wwi = ww as int;
    let ghost whi = wh as int;
    if fw == 0 || fh == 0 {
        return;
    }
    let data: &Vec<u8> = &frame.data;
    let data_len = data.len();
    let buf_len = buf.len();
    let mut py: usize = 0;
    while py < wh
        invariant
            fw == frame.width,
            fh == frame.height,
            fw > 0,
            fh > 0,
            wwi == ww,
            whi == wh,
            ww == win_w,
            wh == win_h,
            py <= wh,
            buf_len == buf@.len(),
            buf_len == b0.len(),
            b0.len() >= wwi * whi,
            data_len == frame.data@.len(),
            *data == *frame.data,
            preview_reads_in_bounds(*frame, wwi, whi),
            buf@ == Seq::new(
                b0.len(),
                |i: int|
                    if 0 <= i < py * wwi {
                        preview_pixel(*frame, wwi, whi, i % wwi, i / wwi)
                    } else {
                        b0[i]
                    },
            ),
        decreases wh - py,
    {
        let fy = exec_nearest(py, fh, wh);
        let mut px: usize = 0;
        while px < ww
            invariant
                fw == frame.width,
                fh == frame.height,
                fw > 0,
                fh > 0,
                wwi == ww,
                whi == wh,
                ww == win_w,
                wh == win_h,
                py < wh,
                px <= ww,
                fy == nearest(py as int, fh as int, wh as int),
                fy < fh,
                buf_len == buf@.len(),
                buf_len == b0.len(),
                b0.len() >= wwi * whi,
                data_len == frame.data@.len(),
                *data == *frame.data,
                preview_reads_in_bounds(*frame, wwi, whi),
                buf@ == Seq::new(
                    b0.len(),
                    |i: int|
                        if 0 <= i < py * wwi + px {
                            preview_pixel(*frame, wwi, whi, i % wwi, i / wwi)
                        } else {
                            b0[i]
                        },
                ),
            decreases ww - px,
        {
            let fx = exec_nearest(px, fw, ww);
            let ghost idx = py * wwi + px;
            proof {
                assert((py + 1) * wwi <= whi * wwi) by (nonlinear_arith)
                    requires
                        py + 1 <= whi,
                        wwi >= 0,
                ;
                assert(py * wwi + wwi == (py + 1) * wwi) by (nonlinear_arith);
                assert(0 <= py * wwi) by (nonlinear_arith)
                    requires
                        py >= 0,
                        wwi >= 0,
                ;
                assert(0 <= fy * fw) by (nonlinear_arith)
                    requires
                        fy >= 0,
                        fw >= 0,
                ;
                vstd::arithmetic::div_mod::lemma_fundamental_div_mod_converse(idx, wwi, py as int, px as int);
            }
            let (b, g, r): (u8, u8, u8) = match frame.format {
                PixelFormat::BGRA32 => {
                    assert(preview_offset(*frame, wwi, whi, px as int, py as int) + 2 < data_len);
                    let off: usize = (fy * (fw as usize) + fx) * 4;
                    (data[off], data[off + 1], data[off + 2])
                },
                PixelFormat::RGBA32 => {
                    assert(preview_offset(*frame, wwi, whi, px as int, py as int) + 2 < data_len);
                    let off: usize = (fy * (fw as usize) + fx) * 4;
                    (data[off + 2], data[off + 1], data[off])
                },
                PixelFormat::I420 => (0, 0, 0),
            };
            let value: u32 = ((r as u32) << 16) | ((g as u32) << 8) | (b as u32);
            assert(value == r as int * 65536 + g as int * 256 + b as int) by (bit_vector)
                requires
                    value == ((r as u32) << 16) | ((g as u32) << 8) | (b as u32),
            ;
            buf[py * ww + px] = value;
            proof {
                assert(buf@ =~= Seq::new(
                    b0.len(),
                    |i: int|
                        if 0 <= i < py * wwi + px + 1 {
                            preview_pixel(*frame, wwi, whi, i % wwi, i / wwi)
                        } else {
                            b0[i]
                        },
                ));
            }
            px = px + 1;
        }
        proof {
            assert(py * wwi + wwi == (py + 1) * wwi) by (nonlinear_arith);
            assert(buf@ =~= Seq::new(
                b0.len(),
                |i: int|
                    if 0 <= i < (py + 1) * wwi {
                        preview_pixel(*frame, wwi, whi, i % wwi, i / wwi)
                    } else {
                        b0[i]
                    },
            ));
        }
        py = py + 1;
    }
    assert(whi * wwi == wwi * whi) by (nonlinear_arith);
    assert(buf@ =~= preview_buffer(b0, *frame, wwi, whi));
}


/// Test whether `frame` can be shown in a `win_w` x `win_h` window without
/// reading outside its data.
pub fn preview_fits(frame: &VideoFrame, win_w: u32, win_h: u32) -> (r: bool)
    ensures
        r == preview_reads_in_bounds(*frame, win_w as int, win_h as int),
{
    let ghost ww = win_w as int;
    let ghost wh = win_h as int;
    if frame.width == 0 || frame.height == 0 || frame.format == PixelFormat::I420 || win_w == 0
        || win_h == 0 {
        return true;
    }
    let px_last = (win_w - 1) as usize;
    let py_last = (win_h - 1) as usize;
    let fx = exec_nearest(px_last, frame.width, win_w as usize);
    let fy = exec_nearest(py_last, frame.height, win_h as usize);
    proof {
        assert(fy * frame.width + fx <= u32::MAX * u32::MAX) by (nonlinear_arith)
            requires
                fy < frame.height,
                fx < frame.width,
                frame.width <= u32::MAX,
                frame.height <= u32::MAX,
                fy >= 0,
        ;
    }
    let last_off: u128 = ((fy as u128) * (frame.width as u128) + (fx as u128)) * 4;
    let data: &Vec<u8> = &frame.data;
    let ok = last_off + 2 < data.len() as u128;
    proof {
        let fw = frame.width as int;
        let fh = frame.height as int;
        assert(last_off == preview_offset(*frame, ww, wh, px_last as int, py_last as int));
        if ok {
            assert forall|px: int, py: int| 0 <= px < ww && 0 <= py < wh implies #[trigger] preview_offset(
                *frame,
                ww,
                wh,
                px,
                py,
            ) + 2 < frame.data@.len() by {
                lemma_nearest_monotonic(px, px_last as int, fw, ww);
                lemma_nearest_monotonic(py, py_last as int, fh, wh);
                let x1 = nearest(px, fw, ww);
                let y1 = nearest(py, fh, wh);
                assert(y1 * fw + x1 <= fy * fw + fx) by (nonlinear_arith)
                    requires
                        0 <= y1 <= fy,
                        0 <= x1 <= fx,
                        fw > 0,
                ;
            }
        } else {
            if preview_reads_in_bounds(*frame, ww, wh) {
                let o = preview_offset(*frame, ww, wh, px_last as int, py_last as int);
                assert(o + 2 < frame.data@.len());
            }
        }
    }
    ok
}

/// An all-black window buffer of `n` pixels.
pub open spec fn black_buffer(n: nat) -> Seq<u32> {
    Seq::new(n, |i: int| OPAQUE_BLACK)
}

/// The window contents for the latest frame: opaque black, with the frame
/// (if any) scaled over the whole window.
pub fn render_frame(frame: Option<&VideoFrame>, win_w: u32, win_h: u32) -> (buf: Vec<u32>)
    requires
        win_w * win_h <= usize::MAX,
        frame matches Some(f) ==> preview_reads_in_bounds(*f, win_w as int, win_h as int),
    ensures
        buf@ == match frame {
            Some(f) => preview_buffer(
                black_buffer((win_w * win_h) as nat),
                *f,
                win_w as int,
                win_h as int,
            ),
            None => black_buffer((win_w * win_h) as nat),
        },
{
    proof {
        vstd::arithmetic::mul::lemma_mul_nonnegative(win_w as int, win_h as int);
    }
    let n: usize = (win_w as usize) * (win_h as usize);
    let mut buf: Vec<u32> = vec![OPAQUE_BLACK; n];
    assert(buf@ =~= black_buffer((win_w * win_h) as nat));
    match frame {
        Some(f) => {
            blit_frame_to_buffer(f, buf.as_mut_slice(), win_w, win_h);
        },
        None => {},
    }
    buf
}


/// A complete frame can be shown in a window of any size.
pub proof fn lemma_complete_frame_previewable(frame: VideoFrame, ww: int, wh: int)
    requires
        crate::compositor::frame_complete(frame),
    ensures
        preview_reads_in_bounds(frame, ww, wh),
{
    let fw = frame.width as int;
    let fh = frame.height as int;
    if fw > 0 && fh > 0 && frame.format != PixelFormat::I420 {
        assert forall|px: int, py: int| 0 <= px < ww && 0 <= py < wh implies #[trigger] preview_offset(
            frame,
            ww,
            wh,
            px,
            py,
        ) + 2 < frame.data@.len() by {
            let y = nearest(py, fh, wh);
            let x = nearest(px, fw, ww);
            assert(0 <= py * fh && 0 <= px * fw) by (nonlinear_arith)
                requires
                    py >= 0,
                    px >= 0,
                    fh >= 0,
                    fw >= 0,
            ;
            vstd::arithmetic::div_mod::lemma_div_pos_is_pos(py * fh, wh);
            vstd::arithmetic::div_mod::lemma_div_pos_is_pos(px * fw, ww);
            assert((y * fw + x) * 4 + 2 < fw * fh * 4) by (nonlinear_arith)
                requires
                    0 <= y <= fh - 1,
                    0 <= x <= fw - 1,
                    fw > 0,
            ;
        }
    }
}


/// What window pixel (`px`, `py`) shows: the frame pixel in row
/// `nearest(py, fh, wh)` and column `nearest(px, fw, ww)` (so window row 0
/// shows frame row 0, and rows and columns keep their order), packed as
/// 0x00RRGGBB; a planar frame shows black. Pixels past the window are left
/// as they were.
pub proof fn lemma_preview_shows_sampled_pixel(buf: Seq<u32>, frame: VideoFrame, ww: int, wh: int, px: int, py: int)
    requires
        frame.width > 0,
        frame.height > 0,
        0 <= px < ww,
        0 <= py < wh,
        buf.len() >= ww * wh,
    ensures
        ({
            let fw = frame.width as int;
            let fh = frame.height as int;
            let row = nearest(py, fh, wh);
            let col = nearest(px, fw, ww);
            let off = (row * fw + col) * 4;
            let d = frame.data@;
            let v = preview_buffer(buf, frame, ww, wh)[py * ww + px];
            &&& 0 <= py * ww + px < buf.len()
            &&& 0 <= row < fh
            &&& 0 <= col < fw
            &&& py == 0 ==> row == 0
            &&& px == 0 ==> col == 0
            &&& frame.format == PixelFormat::BGRA32 ==> v as int == d[off + 2] as int * 65536
                + d[off + 1] as int * 256 + d[off] as int
            &&& frame.format == PixelFormat::RGBA32 ==> v as int == d[off] as int * 65536
                + d[off + 1] as int * 256 + d[off + 2] as int
            &&& frame.format == PixelFormat::I420 ==> v == 0
        }),
{
    let i = py * ww + px;
    lemma_nearest_samples_proportionally(py, frame.height as int, wh);
    lemma_nearest_samples_proportionally(px, frame.width as int, ww);
    assert(0 <= py * ww && py * ww + ww <= wh * ww) by (nonlinear_arith)
        requires
            0 <= py < wh,
            0 <= ww,
    ;
    assert(wh * ww == ww * wh) by (nonlinear_arith);
    vstd::arithmetic::div_mod::lemma_fundamental_div_mod_converse(i, ww, py, px);
}

/// A pixel past the window's `ww · wh` pixels keeps its value.
pub proof fn lemma_preview_leaves_rest(buf: Seq<u32>, frame: VideoFrame, ww: int, wh: int, i: int)
    requires
        0 <= ww,
        0 <= wh,
        ww * wh <= i < buf.len(),
    ensures
        preview_buffer(buf, frame, ww, wh)[i] == buf[i],
{
    assert(0 <= ww * wh) by (nonlinear_arith)
        requires
            0 <= ww,
            0 <= wh,
    ;
}

} // verus!
