//! Core media types shared by every stage of the pipeline.

use std::sync::Arc;
use vstd::prelude::*;

verus! {

/// Pixel format of a `VideoFrame`'s raw bytes.
#[derive(Debug, Clone, Copy, PartialEq, Eq, Structural)]
pub enum PixelFormat {
    /// 4 bytes per pixel: Blue, Green, Red, Alpha (most screen-capture APIs produce this).
    BGRA32,
    /// 4 bytes per pixel: Red, Green, Blue, Alpha.
    RGBA32,
    /// Planar YUV 4:2:0, used internally by H.264 encoders.
    I420,
}

/// Bytes per pixel of a packed format; 0 for the planar one.
pub open spec fn spec_bytes_per_pixel(f: PixelFormat) -> nat {
    match f {
        PixelFormat::BGRA32 | PixelFormat::RGBA32 => 4,
        PixelFormat::I420 => 0,
    }
}

/// True of the formats that store one 4-byte pixel after another.
pub open spec fn is_packed(f: PixelFormat) -> bool {
    f != PixelFormat::I420
}

impl PixelFormat {
    /// Bytes per pixel for packed formats; 0 for planar (I420 size depends on dimensions).
    pub fn bytes_per_pixel(self) -> (r: usize)
        ensures
            r == spec_bytes_per_pixel(self),
    {
        match self {
            PixelFormat::BGRA32 | PixelFormat::RGBA32 => 4,
            PixelFormat::I420 => 0,
        }
    }
}

/// A monotonic presentation timestamp (nanoseconds).
#[derive(Debug, Clone, Copy, PartialEq, Eq, Structural, PartialOrd, Ord)]
pub struct Timestamp {
    pub nanos: i64,
}

/// Nanoseconds in one second.
pub const NANOS_PER_SECOND: u64 = 1_000_000_000;

/// The presentation time, in nanoseconds, of frame `n` at `fps` frames per
/// second, before it is stored in a signed 64-bit field.
pub open spec fn frame_nanos(n: u64, fps: u32) -> int {
    (n * 1_000_000_000) / (fps as int)
}

impl Timestamp {
    pub fn zero() -> (t: Self)
        ensures
            t.nanos == 0,
    {
        Timestamp { nanos: 0 }
    }

    /// Compute the timestamp for frame number `n` at `fps` frames per second.
    pub fn from_frame(n: u64, fps: u32) -> (t: Self)
        requires
            fps > 0,
            n * 1_000_000_000 <= u64::MAX,
        ensures
            t.nanos == frame_nanos(n, fps) as i64,
    {
        let total: u64 = n * NANOS_PER_SECOND;
        let q: u64 = total / (fps as u64);
        Timestamp { nanos: q as i64 }
    }
}

/// A single decoded video frame.
///
/// Pixel data is stored in an `Arc<Vec<u8>>` so it can be cheaply cloned and
/// shared across the compositor, preview renderer and encoder threads.
#[derive(Clone)]
pub struct VideoFrame {
    pub width: u32,
    pub height: u32,
    pub format: PixelFormat,
    /// Raw pixel bytes. Layout depends on `format`.
    pub data: Arc<Vec<u8>>,
    pub pts: Timestamp,
}

/// Byte size of a frame of the given dimensions and format.
pub open spec fn spec_expected_size(width: u32, height: u32, format: PixelFormat) -> int {
    match format {
        PixelFormat::BGRA32 | PixelFormat::RGBA32 => width * height * 4,
        PixelFormat::I420 => (width * height * 3) / 2,
    }
}

impl VideoFrame {
    pub fn new(width: u32, height: u32, format: PixelFormat, data: Vec<u8>, pts: Timestamp) -> (f: Self)
        ensures
            f.width == width,
            f.height == height,
            f.format == format,
            f.data@ == data@,
            f.pts == pts,
    {
        VideoFrame { width, height, format, data: Arc::new(data), pts }
    }

    /// Allocate a black (zeroed) BGRA32 frame.
    pub fn black(width: u32, height: u32, pts: Timestamp) -> (f: Self)
        requires
            width * height * 4 <= u32::MAX,
        ensures
            f.width == width,
            f.height == height,
            f.format == PixelFormat::BGRA32,
            f.pts == pts,
            f.data@ == Seq::new((width * height * 4) as nat, |i: int| 0u8),
            f.data@.len() == spec_expected_size(width, height, PixelFormat::BGRA32),
    {
        proof {
            vstd::arithmetic::mul::lemma_mul_nonnegative(width as int, height as int);
        }
        let wh: u32 = width * height;
        let size: usize = (wh * 4) as usize;
        let data: Vec<u8> = vec![0u8; size];
        assert(data@ == Seq::new((width * height * 4) as nat, |i: int| 0u8));
        VideoFrame::new(width, height, PixelFormat::BGRA32, data, pts)
    }

    /// Expected byte size for the current dimensions and format.
    pub fn expected_size(&self) -> (r: usize)
        requires
            match self.format {
                PixelFormat::BGRA32 | PixelFormat::RGBA32 => self.width * self.height * 4 <= u32::MAX,
                PixelFormat::I420 => self.width * self.height * 3 <= u32::MAX,
            },
        ensures
            r == spec_expected_size(self.width, self.height, self.format),
    {
        proof {
            vstd::arithmetic::mul::lemma_mul_nonnegative(self.width as int, self.height as int);
        }
        let wh: u32 = self.width * self.height;
        match self.format {
            PixelFormat::BGRA32 | PixelFormat::RGBA32 => (wh * 4) as usize,
            PixelFormat::I420 => (wh * 3 / 2) as usize,
        }
    }
}


/// A packed frame holds `width · height · bytes_per_pixel` bytes.
pub proof fn lemma_packed_size(width: u32, height: u32, format: PixelFormat)
    requires
        is_packed(format),
    ensures
        spec_expected_size(width, height, format) == width * height * spec_bytes_per_pixel(format),
{
}

/// The first frame is presented at time zero.
pub proof fn lemma_first_frame_at_zero(fps: u32)
    requires
        fps > 0,
    ensures
        frame_nanos(0, fps) == 0,
{
}

/// Later frames are never presented earlier.
pub proof fn lemma_frame_nanos_monotonic(n1: u64, n2: u64, fps: u32)
    requires
        fps > 0,
        n1 <= n2,
    ensures
        frame_nanos(n1, fps) <= frame_nanos(n2, fps),
{
    assert(n1 * 1_000_000_000 <= n2 * 1_000_000_000);
    vstd::arithmetic::div_mod::lemma_div_is_ordered(
        n1 * 1_000_000_000,
        n2 * 1_000_000_000,
        fps as int,
    );
}

/// Frame `k · fps` is presented exactly `k` seconds in.
pub proof fn lemma_frame_nanos_whole_seconds(n: u64, k: int, fps: u32)
    requires
        fps > 0,
        n == k * fps,
    ensures
        frame_nanos(n, fps) == k * 1_000_000_000,
{
    assert(n * 1_000_000_000 == (k * 1_000_000_000) * fps) by (nonlinear_arith)
        requires
            n == k * fps,
    ;
    vstd::arithmetic::div_mod::lemma_div_multiples_vanish(k * 1_000_000_000, fps as int);
}

/// Number of whole audio frames in `sample_count` interleaved samples of
/// `channels` channels; no channels means no frames.
pub fn interleaved_frame_count(sample_count: usize, channels: u8) -> (r: usize)
    ensures
        r == if channels == 0 {
            0
        } else {
            sample_count as int / channels as int
        },
{
    if channels == 0 {
        return 0;
    }
    sample_count / (channels as usize)
}

/// Number of interleaved samples in `frames` audio frames of `channels`
/// channels.
pub fn interleaved_sample_count(frames: usize, channels: u8) -> (r: usize)
    requires
        frames * channels <= usize::MAX,
    ensures
        r == frames * channels,
{
    frames * (channels as usize)
}

/// A buffer made for `frames` frames holds `frames` frames again.
pub proof fn lemma_sample_count_round_trip(frames: nat, channels: nat)
    requires
        channels > 0,
    ensures
        (frames * channels) as int / channels as int == frames,
{
    vstd::arithmetic::div_mod::lemma_div_multiples_vanish(frames as int, channels as int);
    assert(frames * channels == channels * frames) by (nonlinear_arith);
}

} // verus!
