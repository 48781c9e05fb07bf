use obs_pipeline::preview::{
    blit_frame_to_buffer, on_user_event, preview_fits, on_window_input, render_frame, PreviewAction, PreviewEvent,
    WindowInput, OPAQUE_BLACK,
};
use obs_pipeline::types::{PixelFormat, Timestamp, VideoFrame};

#[test]
fn user_events() {
    assert_eq!(on_user_event(PreviewEvent::NewFrame), PreviewAction::TakeNewestAndRedraw);
    assert_eq!(on_user_event(PreviewEvent::Quit), PreviewAction::Exit);
}

#[test]
fn window_inputs() {
    assert_eq!(on_window_input(WindowInput::CloseRequested), PreviewAction::Exit);
    assert_eq!(on_window_input(WindowInput::QuitKeyPressed), PreviewAction::Exit);
    assert_eq!(on_window_input(WindowInput::RedrawRequested), PreviewAction::Render);
    assert_eq!(on_window_input(WindowInput::Resized), PreviewAction::RequestRedraw);
    assert_eq!(on_window_input(WindowInput::Other), PreviewAction::Ignore);
}

#[test]
fn render_without_frame_is_black() {
    let buf = render_frame(None, 3, 2);
    assert_eq!(buf, vec![OPAQUE_BLACK; 6]);
}

#[test]
fn render_scales_bgra_frame() {
    let f = VideoFrame::new(
        2,
        1,
        PixelFormat::BGRA32,
        vec![0x11, 0x22, 0x33, 255, 0x44, 0x55, 0x66, 255],
        Timestamp::zero(),
    );
    let buf = render_frame(Some(&f), 4, 2);
    assert_eq!(buf.len(), 8);
    for y in 0..2 {
        assert_eq!(buf[y * 4], 0x0033_2211);
        assert_eq!(buf[y * 4 + 1], 0x0033_2211);
        assert_eq!(buf[y * 4 + 2], 0x0066_5544);
        assert_eq!(buf[y * 4 + 3], 0x0066_5544);
    }
}

#[test]
fn rgba_frame_swaps_channels() {
    let f = VideoFrame::new(1, 1, PixelFormat::RGBA32, vec![0x11, 0x22, 0x33, 255], Timestamp::zero());
    let mut buf = vec![0u32; 1];
    blit_frame_to_buffer(&f, &mut buf, 1, 1);
    assert_eq!(buf, vec![0x0011_2233]);
}

#[test]
fn planar_frame_shows_black_without_alpha() {
    let f = VideoFrame::new(2, 2, PixelFormat::I420, vec![], Timestamp::zero());
    let buf = render_frame(Some(&f), 2, 1);
    assert_eq!(buf, vec![0, 0]);
}

#[test]
fn empty_frame_leaves_buffer() {
    let f = VideoFrame::new(0, 3, PixelFormat::BGRA32, vec![], Timestamp::zero());
    let buf = render_frame(Some(&f), 2, 2);
    assert_eq!(buf, vec![OPAQUE_BLACK; 4]);
}

#[test]
fn frames_that_fit_the_window() {
    let f = VideoFrame::new(2, 2, PixelFormat::BGRA32, vec![0; 16], Timestamp::zero());
    assert!(preview_fits(&f, 100, 100));
    let short = VideoFrame::new(2, 2, PixelFormat::BGRA32, vec![0; 14], Timestamp::zero());
    assert!(!preview_fits(&short, 100, 100));
    // A 1x1 window samples only the top-left pixel.
    assert!(preview_fits(&short, 1, 1));
    let empty = VideoFrame::new(0, 2, PixelFormat::BGRA32, vec![], Timestamp::zero());
    assert!(preview_fits(&empty, 10, 10));
}
