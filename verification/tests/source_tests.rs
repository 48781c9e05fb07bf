use obs_pipeline::source::{convert_frame, start_check, CapturedFrame, SourceError};
use obs_pipeline::types::{PixelFormat, Timestamp};

fn pts() -> Timestamp {
    Timestamp { nanos: 7 }
}

#[test]
fn bgra_passes_through() {
    let f = convert_frame(CapturedFrame::Bgra { width: 1, height: 1, data: vec![1, 2, 3, 4] }, pts()).unwrap();
    assert_eq!((f.width, f.height, f.format, f.pts.nanos), (1, 1, PixelFormat::BGRA32, 7));
    assert_eq!(f.data.as_slice(), &[1, 2, 3, 4]);
}

#[test]
fn bgr0_four_byte_pixels() {
    let f = convert_frame(
        CapturedFrame::Bgr0 { width: 2, height: 1, data: vec![1, 2, 3, 0, 5, 6, 7, 0] },
        pts(),
    )
    .unwrap();
    assert_eq!(f.data.as_slice(), &[1, 2, 3, 255, 5, 6, 7, 255]);
}

#[test]
fn bgr0_three_byte_pixels() {
    let f = convert_frame(CapturedFrame::Bgr0 { width: 2, height: 1, data: vec![1, 2, 3, 5, 6, 7] }, pts())
        .unwrap();
    assert_eq!(f.data.as_slice(), &[1, 2, 3, 255, 5, 6, 7, 255]);
}

#[test]
fn bgrx_sets_alpha() {
    let f = convert_frame(CapturedFrame::Bgrx { width: 1, height: 1, data: vec![1, 2, 3, 9] }, pts()).unwrap();
    assert_eq!(f.data.as_slice(), &[1, 2, 3, 255]);
}

#[test]
fn rgb_swaps_red_and_blue() {
    let f = convert_frame(CapturedFrame::Rgb { width: 2, height: 1, data: vec![1, 2, 3, 4, 5, 6] }, pts()).unwrap();
    assert_eq!(f.data.as_slice(), &[3, 2, 1, 255, 6, 5, 4, 255]);
}

#[test]
fn rgbx_swaps_red_and_blue() {
    let f = convert_frame(CapturedFrame::Rgbx { width: 1, height: 1, data: vec![1, 2, 3, 4] }, pts()).unwrap();
    assert_eq!(f.data.as_slice(), &[3, 2, 1, 255]);
}

#[test]
fn xbgr_skips_padding() {
    let f = convert_frame(CapturedFrame::Xbgr { width: 1, height: 1, data: vec![9, 1, 2, 3] }, pts()).unwrap();
    assert_eq!(f.data.as_slice(), &[1, 2, 3, 255]);
}

#[test]
fn trailing_partial_pixel_is_dropped() {
    let f = convert_frame(CapturedFrame::Rgb { width: 1, height: 1, data: vec![1, 2, 3, 4, 5] }, pts()).unwrap();
    assert_eq!(f.data.as_slice(), &[3, 2, 1, 255]);
}

#[test]
fn yuv_is_not_converted() {
    assert!(convert_frame(CapturedFrame::Yuv { width: 4, height: 4 }, pts()).is_none());
}

#[test]
fn source_errors_compare() {
    assert_eq!(SourceError::AlreadyRunning, SourceError::AlreadyRunning);
    assert_ne!(SourceError::Init("a".to_string()), SourceError::Capture("a".to_string()));
}

#[test]
fn start_checks_in_order() {
    assert_eq!(start_check(true, false, false), Err(SourceError::AlreadyRunning));
    assert_eq!(
        start_check(false, false, true),
        Err(SourceError::Init("Screen capture is not supported on this platform".to_string()))
    );
    assert_eq!(
        start_check(false, true, false),
        Err(SourceError::Init("Screen recording permission has not been granted".to_string()))
    );
    assert_eq!(start_check(false, true, true), Ok(()));
}
