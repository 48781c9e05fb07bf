use obs_pipeline::encoder::{check_frame_size, encoder_settings, FrameSizeMismatch, DEFAULT_BITRATE_KBPS};
use obs_pipeline::pipeline::{
    frame_interval_nanos, keeps_running, main_compositor, next_loop_action, CompositorLoop,
    FrameClock, LoopAction, LoopEvent, PipelineConfig, SendOutcome,
};
use obs_pipeline::scene::{ScaleMode, SourceId};
use obs_pipeline::types::{PixelFormat, Timestamp, VideoFrame};

#[test]
fn default_config() {
    let c = PipelineConfig::default();
    assert_eq!((c.canvas_width, c.canvas_height, c.fps), (1920, 1080, 30));
    assert!(c.record_path.is_none());
    assert!(c.record_bitrate_kbps.is_none());
}

#[test]
fn frame_interval() {
    assert_eq!(frame_interval_nanos(30), 33_333_333);
    assert_eq!(frame_interval_nanos(1), 1_000_000_000);
}

#[test]
fn clock_numbers_frames() {
    let mut clock = FrameClock::new(30);
    assert_eq!(clock.tick(), Timestamp { nanos: 0 });
    assert_eq!(clock.tick(), Timestamp { nanos: 33_333_333 });
    assert_eq!(clock.tick(), Timestamp { nanos: 66_666_666 });
    assert_eq!(clock.next_frame, 3);
}

#[test]
fn producers_stop_only_when_disconnected() {
    assert!(keeps_running(SendOutcome::Sent));
    assert!(keeps_running(SendOutcome::Full));
    assert!(!keeps_running(SendOutcome::Disconnected));
}

#[test]
fn compositor_loop_decisions() {
    assert_eq!(next_loop_action(true, LoopEvent::PreviewSend(SendOutcome::Sent)), LoopAction::SendToRecorder);
    assert_eq!(next_loop_action(true, LoopEvent::PreviewSend(SendOutcome::Full)), LoopAction::SendToRecorder);
    assert_eq!(next_loop_action(false, LoopEvent::PreviewSend(SendOutcome::Full)), LoopAction::WakePreview);
    assert_eq!(next_loop_action(true, LoopEvent::PreviewSend(SendOutcome::Disconnected)), LoopAction::Stop);
    assert_eq!(next_loop_action(true, LoopEvent::RecordSend(true)), LoopAction::WakePreview);
    assert_eq!(next_loop_action(true, LoopEvent::RecordSend(false)), LoopAction::Stop);
    assert_eq!(next_loop_action(false, LoopEvent::Wake(true)), LoopAction::AwaitNextFrame);
    assert_eq!(next_loop_action(false, LoopEvent::Wake(false)), LoopAction::Stop);
}

#[test]
fn main_scene_has_one_fullscreen_item() {
    let (c, id) = main_compositor(1280, 720);
    assert_eq!(id, SourceId(0));
    assert_eq!(c.scene().name, "Main");
    let items = c.scene().items();
    assert_eq!(items.len(), 1);
    assert_eq!(items[0].source_id, SourceId(0));
    assert!(items[0].visible);
    assert_eq!(items[0].z_order, 0);
    assert_eq!((items[0].transform.width, items[0].transform.height), (1280, 720));
    assert_eq!(items[0].transform.scale_mode, ScaleMode::Fit);
}

#[test]
fn full_canvas_capture_passes_through() {
    let mut l = CompositorLoop::new(3, 2, 30);
    let data: Vec<u8> = (0..6u8).flat_map(|i| [i, i + 10, i + 20, 255]).collect();
    let raw = VideoFrame::new(3, 2, PixelFormat::BGRA32, data.clone(), Timestamp { nanos: 99 });
    assert!(l.accepts(&raw));
    let out = l.on_frame(raw);
    assert_eq!(out.data.as_slice(), data.as_slice());
    assert_eq!(out.pts.nanos, 0);
    let raw2 = VideoFrame::new(3, 2, PixelFormat::BGRA32, data.clone(), Timestamp::zero());
    assert_eq!(l.on_frame(raw2).pts.nanos, 33_333_333);
}

#[test]
fn smaller_capture_is_letterboxed() {
    // A 2x1 capture on a 4x4 canvas fits as 4x2 at the top.
    let mut l = CompositorLoop::new(4, 4, 30);
    let raw = VideoFrame::new(2, 1, PixelFormat::BGRA32, vec![1, 1, 1, 255, 2, 2, 2, 255], Timestamp::zero());
    let out = l.on_frame(raw);
    assert_eq!(&out.data[0..4], &[1, 1, 1, 255]);
    assert_eq!(&out.data[12..16], &[2, 2, 2, 255]);
    assert!(out.data[32..].iter().all(|b| *b == 0));
}

#[test]
fn incomplete_capture_is_refused() {
    let l = CompositorLoop::new(4, 4, 30);
    let raw = VideoFrame::new(2, 2, PixelFormat::BGRA32, vec![0; 3], Timestamp::zero());
    assert!(!l.accepts(&raw));
}

#[test]
fn encoder_settings_defaults_and_overrides() {
    let s = encoder_settings(1280, 720, 30, None);
    assert_eq!(s.bit_rate, DEFAULT_BITRATE_KBPS * 1000);
    assert_eq!(s.gop, 60);
    assert_eq!(s.max_b_frames, 0);
    assert_eq!((s.time_base_num, s.time_base_den), (1, 30));
    assert_eq!((s.frame_rate_num, s.frame_rate_den), (30, 1));
    assert_eq!(encoder_settings(1280, 720, 30, Some(4_000)).bit_rate, 4_000_000);
}

#[test]
fn recorder_frame_size() {
    assert_eq!(check_frame_size(1280, 720, 1280, 720), Ok(()));
    assert_eq!(
        check_frame_size(1280, 720, 640, 720),
        Err(FrameSizeMismatch { expected_width: 1280, expected_height: 720, width: 640, height: 720 })
    );
}
