use obs_pipeline::types::{
    interleaved_frame_count, interleaved_sample_count, PixelFormat, Timestamp, VideoFrame,
};

#[test]
fn bytes_per_pixel_of_each_format() {
    assert_eq!(PixelFormat::BGRA32.bytes_per_pixel(), 4);
    assert_eq!(PixelFormat::RGBA32.bytes_per_pixel(), 4);
    assert_eq!(PixelFormat::I420.bytes_per_pixel(), 0);
}

#[test]
fn timestamp_zero_and_first_frame() {
    assert_eq!(Timestamp::zero().nanos, 0);
    assert_eq!(Timestamp::from_frame(0, 30), Timestamp::zero());
}

#[test]
fn timestamp_from_frame_values() {
    assert_eq!(Timestamp::from_frame(1, 30).nanos, 33_333_333);
    assert_eq!(Timestamp::from_frame(30, 30).nanos, 1_000_000_000);
    assert_eq!(Timestamp::from_frame(90, 60).nanos, 1_500_000_000);
    assert!(Timestamp::from_frame(7, 30) < Timestamp::from_frame(8, 30));
}

#[test]
fn new_frame_keeps_its_data() {
    let f = VideoFrame::new(2, 1, PixelFormat::RGBA32, vec![1, 2, 3, 4, 5, 6, 7, 8], Timestamp { nanos: 5 });
    assert_eq!(f.width, 2);
    assert_eq!(f.height, 1);
    assert_eq!(f.format, PixelFormat::RGBA32);
    assert_eq!(f.data.as_slice(), &[1, 2, 3, 4, 5, 6, 7, 8]);
    assert_eq!(f.pts.nanos, 5);
}

#[test]
fn black_frame_is_zeroed_bgra() {
    let f = VideoFrame::black(3, 2, Timestamp::zero());
    assert_eq!(f.format, PixelFormat::BGRA32);
    assert_eq!(f.data.len(), 24);
    assert!(f.data.iter().all(|b| *b == 0));
    assert_eq!(f.expected_size(), f.data.len());
}

#[test]
fn expected_size_by_format() {
    let packed = VideoFrame::new(4, 2, PixelFormat::RGBA32, vec![], Timestamp::zero());
    assert_eq!(packed.expected_size(), 32);
    let planar = VideoFrame::new(4, 2, PixelFormat::I420, vec![], Timestamp::zero());
    assert_eq!(planar.expected_size(), 12);
}

#[test]
fn audio_counts() {
    assert_eq!(interleaved_sample_count(480, 2), 960);
    assert_eq!(interleaved_frame_count(960, 2), 480);
    assert_eq!(interleaved_frame_count(7, 2), 3);
    assert_eq!(interleaved_frame_count(960, 0), 0);
}
