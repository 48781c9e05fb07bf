//! Video sources: the trait that capture sources implement, and the
//! conversion of captured frames of any packed layout to BGRA32.

use std::sync::mpsc::SyncSender;
use vstd::prelude::*;

use crate::types::{PixelFormat, Timestamp, VideoFrame};

verus! {

#[verifier::external_type_specification]
#[verifier::external_body]
#[verifier::reject_recursive_types(T)]
pub struct ExSyncSender<T>(SyncSender<T>);

/// Why a source could not start or produce frames.
#[derive(Debug, Clone, PartialEq, Eq)]
pub enum SourceError {
    /// Failed to initialise capture.
    Init(String),
    /// Capture frame error.
    Capture(String),
    /// Source already running.
    AlreadyRunning,
}

/// A source that produces decoded video frames on a background thread.
///
/// Implementors spawn a thread in `start()` and push `VideoFrame`s via the
/// provided bounded sender, which applies backpressure: if the compositor
/// falls behind, the source blocks or drops frames until there is room.
pub trait VideoSource {
    fn name(&self) -> &str;

    /// Start capturing and send frames to `tx`. Returns immediately; the
    /// capture loop runs on a newly spawned thread.
    fn start(&mut self, tx: SyncSender<VideoFrame>) -> Result<(), SourceError>;

    /// Signal the capture thread to stop. May block briefly.
    fn stop(&mut self);

    /// Resolution that this source natively captures at.
    fn native_resolution(&self) -> (u32, u32);
}


/// Why a capture source refuses to start, checked in order: it is already
/// running; capture is unsupported here; permission is missing.
pub fn start_check(running: bool, supported: bool, permitted: bool) -> (r: Result<
    (),
    SourceError,
>)
    ensures
        running ==> r == Err::<(), SourceError>(SourceError::AlreadyRunning),
        !running && !supported ==> (r matches Err(SourceError::Init(m)) && m@
            == "Screen capture is not supported on this platform"@),
        !running && supported && !permitted ==> (r matches Err(SourceError::Init(m)) && m@
            == "Screen recording permission has not been granted"@),
        !running && supported && permitted ==> r is Ok,
{
    if running {
        return Err(SourceError::AlreadyRunning);
    }
    if !supported {
        return Err(SourceError::Init("Screen capture is not supported on this platform".to_owned()));
    }
    if !permitted {
        return Err(SourceError::Init("Screen recording permission has not been granted".to_owned()));
    }
    Ok(())
}

/// A frame as a screen-capture backend delivers it: dimensions and raw bytes
/// in one of several pixel layouts.
#[derive(Debug, Clone)]
pub enum CapturedFrame {
    /// Blue, green, red, alpha.
    Bgra { width: i32, height: i32, data: Vec<u8> },
    /// Blue, green, red and either a padding byte (4 bytes per pixel) or
    /// nothing (3 bytes per pixel), depending on the platform.
    Bgr0 { width: i32, height: i32, data: Vec<u8> },
    /// Blue, green, red, padding.
    Bgrx { width: i32, height: i32, data: Vec<u8> },
    /// Red, green, blue.
    Rgb { width: i32, height: i32, data: Vec<u8> },
    /// Red, green, blue, padding.
    Rgbx { width: i32, height: i32, data: Vec<u8> },
    /// Padding, blue, green, red.
    Xbgr { width: i32, height: i32, data: Vec<u8> },
    /// Planar YUV; its planes are not carried here, as it is not converted.
    Yuv { width: i32, height: i32 },
}

/// Repack each whole `size`-byte pixel of `data` as BGRA: blue, green and
/// red come from bytes `ib`, `ig`, `ir` of the pixel, alpha is 255; a
/// trailing partial pixel is dropped.
pub open spec fn repack(data: Seq<u8>, size: nat, ib: int, ig: int, ir: int) -> Seq<u8>
    decreases data.len(),
{
    if size == 0 || data.len() < size {
        Seq::empty()
    } else {
        seq![data[ib], data[ig], data[ir], 255u8] + repack(data.skip(size as int), size, ib, ig, ir)
    }
}

/// The BGRA bytes that a captured frame converts to, or `None` for planar
/// YUV, which is not converted.
pub open spec fn converted_bytes(frame: CapturedFrame) -> Option<Seq<u8>> {
    match frame {
        CapturedFrame::Bgra { data, .. } => Some(data@),
        CapturedFrame::Bgr0 { width, height, data } => {
            if data@.len() == (width as u32) * (height as u32) * 4 {
                Some(repack(data@, 4, 0, 1, 2))
            } else {
                Some(repack(data@, 3, 0, 1, 2))
            }
        },
        CapturedFrame::Bgrx { data, .. } => Some(repack(data@, 4, 0, 1, 2)),
        CapturedFrame::Rgb { data, .. } => Some(repack(data@, 3, 2, 1, 0)),
        CapturedFrame::Rgbx { data, .. } => Some(repack(data@, 4, 2, 1, 0)),
        CapturedFrame::Xbgr { data, .. } => Some(repack(data@, 4, 1, 2, 3)),
        CapturedFrame::Yuv { .. } => None,
    }
}

/// The (width, height) of a captured frame, as unsigned pixel counts.
pub open spec fn captured_size(frame: CapturedFrame) -> (u32, u32) {
    match frame {
        CapturedFrame::Bgra { width, height, .. } => (width as u32, height as u32),
        CapturedFrame::Bgr0 { width, height, .. } => (width as u32, height as u32),
        CapturedFrame::Bgrx { width, height, .. } => (width as u32, height as u32),
        CapturedFrame::Rgb { width, height, .. } => (width as u32, height as u32),
        CapturedFrame::Rgbx { width, height, .. } => (width as u32, height as u32),
        CapturedFrame::Xbgr { width, height, .. } => (width as u32, height as u32),
        CapturedFrame::Yuv { width, height } => (width as u32, height as u32),
    }
}

/// Repack the whole pixels of `data` as BGRA.
fn repack_pixels(data: &Vec<u8>, size: usize, ib: usize, ig: usize, ir: usize) -> (out: Vec<u8>)
    requires
        size == 3 || size == 4,
        ib < size,
        ig < size,
        ir < size,
    ensures
        out@ == repack(data@, size as nat, ib as int, ig as int, ir as int),
{
    let len = data.len();
    let mut out: Vec<u8> = Vec::with_capacity(len);
    let mut off: usize = 0;
    assert(data@.skip(0) =~= data@);
    while size <= len - off
        invariant
            size == 3 || size == 4,
            ib < size,
            ig < size,
            ir < size,
            len == data@.len(),
            off <= len,
            repack(data@, size as nat, ib as int, ig as int, ir as int) == out@ + repack(
                data@.skip(off as int),
                size as nat,
                ib as int,
                ig as int,
                ir as int,
            ),
        decreases len - off,
    {
        let ghost rest = data@.skip(off as int);
        proof {
            assert(rest.skip(size as int) =~= data@.skip(off + size));
            assert(rest[ib as int] == data@[off + ib]);
            assert(rest[ig as int] == data@[off + ig]);
            assert(rest[ir as int] == data@[off + ir]);
        }
        let ghost before = out@;
        out.push(data[off + ib]);
        out.push(data[off + ig]);
        out.push(data[off + ir]);
        out.push(255);
        proof {
            assert(out@ =~= before + seq![data@[off + ib], data@[off + ig], data@[off + ir], 255u8]);
            assert(before + seq![data@[off + ib], data@[off + ig], data@[off + ir], 255u8]
                + repack(data@.skip(off + size), size as nat, ib as int, ig as int, ir as int)
                =~= before + (seq![data@[off + ib], data@[off + ig], data@[off + ir], 255u8]
                + repack(data@.skip(off + size), size as nat, ib as int, ig as int, ir as int)));
        }
        off = off + size;
    }
    assert(out@ + Seq::<u8>::empty() =~= out@);
    out
}

/// Convert a captured frame into a BGRA32 `VideoFrame`; planar YUV frames
/// are not supported and give `None`.
pub fn convert_frame(frame: CapturedFrame, pts: Timestamp) -> (r: Option<VideoFrame>)
    ensures
        r is None <==> converted_bytes(frame) is None,
        r matches Some(f) ==> {
            &&& f.width == captured_size(frame).0
            &&& f.height == captured_size(frame).1
            &&& f.format == PixelFormat::BGRA32
            &&& f.pts == pts
            &&& f.data@ == converted_bytes(frame).unwrap()
        },
{
    match frame {
        CapturedFrame::Bgra { width, height, data } => {
            Some(VideoFrame::new(width as u32, height as u32, PixelFormat::BGRA32, data, pts))
        },
        CapturedFrame::Bgr0 { width, height, data } => {
            let w = width as u32;
            let h = height as u32;
            proof {
                vstd::arithmetic::mul::lemma_mul_nonnegative(w as int, h as int);
                assert((w as int) * (h as int) * 4 <= u128::MAX) by (nonlinear_arith)
                    requires
                        w <= u32::MAX,
                        h <= u32::MAX,
                ;
            }
            let four_bytes = (data.len() as u128) == (w as u128) * (h as u128) * 4;
            let bgra = if four_bytes {
                repack_pixels(&data, 4, 0, 1, 2)
            } else {
                repack_pixels(&data, 3, 0, 1, 2)
            };
            Some(VideoFrame::new(w, h, PixelFormat::BGRA32, bgra, pts))
        },
        CapturedFrame::Bgrx { width, height, data } => {
            let bgra = repack_pixels(&data, 4, 0, 1, 2);
            Some(VideoFrame::new(width as u32, height as u32, PixelFormat::BGRA32, bgra, pts))
        },
        CapturedFrame::Rgb { width, height, data } => {
            let bgra = repack_pixels(&data, 3, 2, 1, 0);
            Some(VideoFrame::new(width as u32, height as u32, PixelFormat::BGRA32, bgra, pts))
        },
        CapturedFrame::Rgbx { width, height, data } => {
            let bgra = repack_pixels(&data, 4, 2, 1, 0);
            Some(VideoFrame::new(width as u32, height as u32, PixelFormat::BGRA32, bgra, pts))
        },
        CapturedFrame::Xbgr { width, height, data } => {
            let bgra = repack_pixels(&data, 4, 1, 2, 3);
            Some(VideoFrame::new(width as u32, height as u32, PixelFormat::BGRA32, bgra, pts))
        },
        CapturedFrame::Yuv { .. } => None,
    }
}

/// Repacking yields four bytes per whole source pixel, each fully opaque.
pub proof fn lemma_repack_shape(data: Seq<u8>, size: nat, ib: int, ig: int, ir: int)
    requires
        size > 0,
    ensures
        repack(data, size, ib, ig, ir).len() == 4 * ((data.len() as int) / (size as int)),
        forall|i: int|
            0 <= i < repack(data, size, ib, ig, ir).len() && i % 4 == 3 ==> #[trigger] repack(
                data,
                size,
                ib,
                ig,
                ir,
            )[i] == 255,
    decreases data.len(),
{
    if data.len() < size {
        assert((data.len() as int) / (size as int) == 0) by (nonlinear_arith)
            requires
                0 <= data.len() < size,
        ;
    } else {
        let rest = data.skip(size as int);
        lemma_repack_shape(rest, size, ib, ig, ir);
        assert((data.len() as int) / (size as int) == (rest.len() as int) / (size as int) + 1) by (nonlinear_arith)
            requires
                rest.len() == data.len() - size,
                data.len() >= size,
                size > 0,
        {
            vstd::arithmetic::div_mod::lemma_div_plus_one(rest.len() as int, size as int);
        }
        let head = seq![data[ib], data[ig], data[ir], 255u8];
        let tail = repack(rest, size, ib, ig, ir);
        assert forall|i: int| 0 <= i < (head + tail).len() && i % 4 == 3 implies #[trigger] (head
            + tail)[i] == 255 by {
            if i >= 4 {
                assert((i - 4) % 4 == 3) by (nonlinear_arith)
                    requires
                        i % 4 == 3,
                        i >= 4,
                {
                    vstd::arithmetic::div_mod::lemma_mod_sub_multiples_vanish(i, 4);
                }
                assert(tail[i - 4] == 255);
            }
        }
    }
}


/// Output pixel `i` of a repacking is made from source pixel `i`: bytes
/// `size·i + ib`, `size·i + ig`, `size·i + ir`, then 255.
pub proof fn lemma_repack_pixel(data: Seq<u8>, size: nat, ib: int, ig: int, ir: int, i: int)
    requires
        size > 0,
        0 <= ib < size,
        0 <= ig < size,
        0 <= ir < size,
        0 <= i,
        (i + 1) * size <= data.len(),
    ensures
        repack(data, size, ib, ig, ir).len() == 4 * ((data.len() as int) / (size as int)),
        repack(data, size, ib, ig, ir)[4 * i] == data[size * i + ib],
        repack(data, size, ib, ig, ir)[4 * i + 1] == data[size * i + ig],
        repack(data, size, ib, ig, ir)[4 * i + 2] == data[size * i + ir],
        repack(data, size, ib, ig, ir)[4 * i + 3] == 255,
    decreases i,
{
    lemma_repack_shape(data, size, ib, ig, ir);
    assert(data.len() >= size) by (nonlinear_arith)
        requires
            (i + 1) * size <= data.len(),
            i >= 0,
            size > 0,
    ;
    let rest = data.skip(size as int);
    let head = seq![data[ib], data[ig], data[ir], 255u8];
    assert(repack(data, size, ib, ig, ir) == head + repack(rest, size, ib, ig, ir));
    if i == 0 {
        assert(size * 0 == 0);
    } else {
        assert(i * size <= rest.len()) by (nonlinear_arith)
            requires
                (i + 1) * size <= data.len(),
                rest.len() == data.len() - size,
        ;
        lemma_repack_pixel(rest, size, ib, ig, ir, i - 1);
        assert(size * (i - 1) + size == size * i) by (nonlinear_arith);
        vstd::arithmetic::div_mod::lemma_div_is_ordered(i * size, rest.len() as int, size as int);
        vstd::arithmetic::div_mod::lemma_div_multiples_vanish(i, size as int);
        assert(i * size == size * i) by (nonlinear_arith);
        let tail = repack(rest, size, ib, ig, ir);
        assert(tail.len() >= 4 * i);
        assert((head + tail)[4 * i] == tail[4 * (i - 1)]);
        assert((head + tail)[4 * i + 1] == tail[4 * (i - 1) + 1]);
        assert((head + tail)[4 * i + 2] == tail[4 * (i - 1) + 2]);
        assert((head + tail)[4 * i + 3] == tail[4 * (i - 1) + 3]);
        assert(rest[size * (i - 1) + ib] == data[size * i + ib]);
        assert(rest[size * (i - 1) + ig] == data[size * i + ig]);
        assert(rest[size * (i - 1) + ir] == data[size * i + ir]);
    }
}

/// How each captured layout converts: BGRA is kept as it is; every other
/// packed layout becomes one BGRA pixel (alpha 255) per whole source pixel,
/// taking blue, green and red from these bytes of source pixel `i`:
/// BGR0 with 4 bytes per pixel, and BGRx: 0, 1, 2 of 4; BGR0 with 3 bytes
/// per pixel: 0, 1, 2 of 3; RGB: 2, 1, 0 of 3; RGBx: 2, 1, 0 of 4; XBGR: 1,
/// 2, 3 of 4. YUV is not converted.
pub proof fn lemma_converted_layout(frame: CapturedFrame, i: int)
    requires
        0 <= i,
    ensures
        frame matches CapturedFrame::Bgra { data, .. } ==> converted_bytes(frame) == Some(data@),
        frame matches CapturedFrame::Yuv { .. } ==> converted_bytes(frame) is None,
        frame matches CapturedFrame::Bgrx { data, .. } ==> ({
            let o = converted_bytes(frame).unwrap();
            &&& converted_bytes(frame) is Some
            &&& o.len() == 4 * (data@.len() as int / 4)
            &&& 4 * i + 4 <= data@.len() ==> o[4 * i] == data@[4 * i] && o[4 * i + 1] == data@[4
                * i + 1] && o[4 * i + 2] == data@[4 * i + 2] && o[4 * i + 3] == 255
        }),
        frame matches CapturedFrame::Bgr0 { width, height, data } ==> ({
            let o = converted_bytes(frame).unwrap();
            let four = data@.len() == (width as u32) * (height as u32) * 4;
            &&& converted_bytes(frame) is Some
            &&& four ==> o.len() == 4 * (data@.len() as int / 4)
            &&& !four ==> o.len() == 4 * (data@.len() as int / 3)
            &&& four && 4 * i + 4 <= data@.len() ==> o[4 * i] == data@[4 * i] && o[4 * i + 1]
                == data@[4 * i + 1] && o[4 * i + 2] == data@[4 * i + 2] && o[4 * i + 3] == 255
            &&& !four && 3 * i + 3 <= data@.len() ==> o[4 * i] == data@[3 * i] && o[4 * i + 1]
                == data@[3 * i + 1] && o[4 * i + 2] == data@[3 * i + 2] && o[4 * i + 3] == 255
        }),
        frame matches CapturedFrame::Rgb { data, .. } ==> ({
            let o = converted_bytes(frame).unwrap();
            &&& converted_bytes(frame) is Some
            &&& o.len() == 4 * (data@.len() as int / 3)
            &&& 3 * i + 3 <= data@.len() ==> o[4 * i] == data@[3 * i + 2] && o[4 * i + 1]
                == data@[3 * i + 1] && o[4 * i + 2] == data@[3 * i] && o[4 * i + 3] == 255
        }),
        frame matches CapturedFrame::Rgbx { data, .. } ==> ({
            let o = converted_bytes(frame).unwrap();
            &&& converted_bytes(frame) is Some
            &&& o.len() == 4 * (data@.len() as int / 4)
            &&& 4 * i + 4 <= data@.len() ==> o[4 * i] == data@[4 * i + 2] && o[4 * i + 1]
                == data@[4 * i + 1] && o[4 * i + 2] == data@[4 * i] && o[4 * i + 3] == 255
        }),
        frame matches CapturedFrame::Xbgr { data, .. } ==> ({
            let o = converted_bytes(frame).unwrap();
            &&& converted_bytes(frame) is Some
            &&& o.len() == 4 * (data@.len() as int / 4)
            &&& 4 * i + 4 <= data@.len() ==> o[4 * i] == data@[4 * i + 1] && o[4 * i + 1]
                == data@[4 * i + 2] && o[4 * i + 2] == data@[4 * i + 3] && o[4 * i + 3] == 255
        }),
{
    match frame {
        CapturedFrame::Bgr0 { width, height, data } => {
            let d = data@;
            lemma_repack_shape(d, 4, 0, 1, 2);
            lemma_repack_shape(d, 3, 0, 1, 2);
            if 4 * i + 4 <= d.len() {
                lemma_repack_pixel(d, 4, 0, 1, 2, i);
            }
            if 3 * i + 3 <= d.len() {
                lemma_repack_pixel(d, 3, 0, 1, 2, i);
            }
        },
        CapturedFrame::Bgrx { data, .. } => {
            lemma_repack_shape(data@, 4, 0, 1, 2);
            if 4 * i + 4 <= data@.len() {
                lemma_repack_pixel(data@, 4, 0, 1, 2, i);
            }
        },
        CapturedFrame::Rgb { data, .. } => {
            lemma_repack_shape(data@, 3, 2, 1, 0);
            if 3 * i + 3 <= data@.len() {
                lemma_repack_pixel(data@, 3, 2, 1, 0, i);
            }
        },
        CapturedFrame::Rgbx { data, .. } => {
            lemma_repack_shape(data@, 4, 2, 1, 0);
            if 4 * i + 4 <= data@.len() {
                lemma_repack_pixel(data@, 4, 2, 1, 0, i);
            }
        },
        CapturedFrame::Xbgr { data, .. } => {
            lemma_repack_shape(data@, 4, 1, 2, 3);
            if 4 * i + 4 <= data@.len() {
                lemma_repack_pixel(data@, 4, 1, 2, 3, i);
            }
        },
        _ => {},
    }
}

} // verus!
