//! Encoded output: the packets an encoder emits, and the settings of the
//! H.264 encoder behind the MP4 recorder.

use vstd::prelude::*;

use crate::types::Timestamp;

verus! {

/// Which elementary stream a packet belongs to.
#[derive(Debug, Clone, Copy, PartialEq, Eq, Structural)]
pub enum StreamType {
    Video,
    Audio,
}

/// A compressed packet emitted by an encoder.
#[derive(Debug, Clone)]
pub struct EncodedPacket {
    pub data: Vec<u8>,
    pub pts: Timestamp,
    pub is_keyframe: bool,
    pub stream: StreamType,
}

/// Recording bitrate used when none is configured, in kbps.
pub const DEFAULT_BITRATE_KBPS: usize = 6_000;

/// The parameters the recorder gives its H.264 encoder.
#[derive(Debug, Clone, Copy, PartialEq, Eq, Structural)]
pub struct EncoderSettings {
    pub width: u32,
    pub height: u32,
    /// Bits per second.
    pub bit_rate: usize,
    /// Frames between keyframes.
    pub gop: u32,
    /// B-frames allowed between reference frames.
    pub max_b_frames: usize,
    /// Encoder time base (seconds per tick) numerator and denominator: one
    /// tick per frame.
    pub time_base_num: i32,
    pub time_base_den: i32,
    /// Frame rate (frames per second) numerator and denominator.
    pub frame_rate_num: i32,
    pub frame_rate_den: i32,
}

/// Settings for recording `width` x `height` video at `fps`: the configured
/// bitrate (6000 kbps by default), a keyframe every two seconds, no
/// B-frames, and a time base of one tick per frame.
pub fn encoder_settings(width: u32, height: u32, fps: u32, bitrate_kbps: Option<usize>) -> (s:
    EncoderSettings)
    requires
        fps * 2 <= u32::MAX,
        bitrate_kbps matches Some(k) ==> k * 1000 <= usize::MAX,
    ensures
        s.width == width,
        s.height == height,
        s.bit_rate == match bitrate_kbps {
            Some(k) => k * 1000,
            None => DEFAULT_BITRATE_KBPS * 1000,
        },
        s.gop == fps * 2,
        s.max_b_frames == 0,
        s.time_base_num == 1,
        s.time_base_den == fps as i32,
        s.frame_rate_num == fps as i32,
        s.frame_rate_den == 1,
{
    let kbps = match bitrate_kbps {
        Some(k) => k,
        None => DEFAULT_BITRATE_KBPS,
    };
    EncoderSettings {
        width,
        height,
        bit_rate: kbps * 1000,
        gop: fps * 2,
        max_b_frames: 0,
        time_base_num: 1,
        time_base_den: fps as i32,
        frame_rate_num: fps as i32,
        frame_rate_den: 1,
    }
}

/// A frame whose size differs from the size the recorder was opened with.
#[derive(Debug, Clone, Copy, PartialEq, Eq, Structural)]
pub struct FrameSizeMismatch {
    pub expected_width: u32,
    pub expected_height: u32,
    pub width: u32,
    pub height: u32,
}

/// The recorder only takes frames of the size it was opened with.
pub fn check_frame_size(expected_width: u32, expected_height: u32, width: u32, height: u32) -> (r:
    Result<(), FrameSizeMismatch>)
    ensures
        r is Ok <==> (width == expected_width && height == expected_height),
        r matches Err(e) ==> e == (FrameSizeMismatch { expected_width, expected_height, width, height }),
{
    if width != expected_width || height != expected_height {
        Err(FrameSizeMismatch { expected_width, expected_height, width, height })
    } else {
        Ok(())
    }
}

} // verus!
