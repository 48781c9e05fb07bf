use obs_pipeline::compositor::{blit_frame, can_draw, compute_dst_size, Compositor};
use obs_pipeline::scene::{ScaleMode, Scene, SceneItem, SourceId, Transform};
use obs_pipeline::types::{PixelFormat, Timestamp, VideoFrame};

fn solid(w: u32, h: u32, format: PixelFormat, px: [u8; 4]) -> VideoFrame {
    let mut data = Vec::new();
    for _ in 0..(w * h) {
        data.extend_from_slice(&px);
    }
    VideoFrame::new(w, h, format, data, Timestamp::zero())
}

fn transform(x: i32, y: i32, w: usize, h: usize, mode: ScaleMode) -> Transform {
    Transform { x, y, width: w, height: h, scale_mode: mode }
}

fn pixel(canvas: &[u8], cw: usize, x: usize, y: usize) -> [u8; 4] {
    let o = (y * cw + x) * 4;
    [canvas[o], canvas[o + 1], canvas[o + 2], canvas[o + 3]]
}

#[test]
fn dst_size_stretch_uses_the_box() {
    let f = solid(1920, 1080, PixelFormat::BGRA32, [0; 4]);
    assert_eq!(compute_dst_size(&f, &transform(0, 0, 1000, 1000, ScaleMode::Stretch)), (1000, 1000));
}

#[test]
fn dst_size_unscaled_uses_the_native_size() {
    let f = VideoFrame::new(1920, 1080, PixelFormat::BGRA32, vec![], Timestamp::zero());
    assert_eq!(compute_dst_size(&f, &transform(0, 0, 640, 480, ScaleMode::Unscaled)), (1920, 1080));
}

#[test]
fn blit_unscaled_keeps_native_size() {
    // A 1x1 source in a 3x3 box covers one pixel.
    let src = solid(1, 1, PixelFormat::BGRA32, [4, 4, 4, 255]);
    let mut canvas = vec![0u8; 3 * 3 * 4];
    blit_frame(&src, &transform(1, 1, 3, 3, ScaleMode::Unscaled), &mut canvas, 3, 3);
    assert_eq!(pixel(&canvas, 3, 1, 1), [4, 4, 4, 255]);
    assert_eq!(pixel(&canvas, 3, 2, 1), [0, 0, 0, 0]);
    assert_eq!(pixel(&canvas, 3, 1, 2), [0, 0, 0, 0]);
}

#[test]
fn dst_size_fit_letterboxes() {
    let wide = solid(1920, 1080, PixelFormat::BGRA32, [0; 4]);
    assert_eq!(compute_dst_size(&wide, &transform(0, 0, 1000, 1000, ScaleMode::Fit)), (1000, 562));
    let tall = solid(1080, 1920, PixelFormat::BGRA32, [0; 4]);
    assert_eq!(compute_dst_size(&tall, &transform(0, 0, 1000, 1000, ScaleMode::Fit)), (562, 1000));
    let same = solid(1280, 720, PixelFormat::BGRA32, [0; 4]);
    assert_eq!(compute_dst_size(&same, &transform(0, 0, 1280, 720, ScaleMode::Fit)), (1280, 720));
}

#[test]
fn dst_size_fill_crops() {
    let wide = solid(1920, 1080, PixelFormat::BGRA32, [0; 4]);
    assert_eq!(compute_dst_size(&wide, &transform(0, 0, 1000, 1000, ScaleMode::Fill)), (1777, 1000));
    let tall = solid(1080, 1920, PixelFormat::BGRA32, [0; 4]);
    assert_eq!(compute_dst_size(&tall, &transform(0, 0, 1000, 1000, ScaleMode::Fill)), (1000, 1777));
}

#[test]
fn dst_size_of_degenerate_sources() {
    let no_height = VideoFrame::new(4, 0, PixelFormat::BGRA32, vec![], Timestamp::zero());
    assert_eq!(compute_dst_size(&no_height, &transform(0, 0, 10, 10, ScaleMode::Fit)), (10, 0));
    assert_eq!(compute_dst_size(&no_height, &transform(0, 0, 10, 10, ScaleMode::Fill)), (usize::MAX, 10));
    let no_width = VideoFrame::new(0, 4, PixelFormat::BGRA32, vec![], Timestamp::zero());
    assert_eq!(compute_dst_size(&no_width, &transform(0, 0, 10, 10, ScaleMode::Fit)), (0, 10));
    assert_eq!(compute_dst_size(&no_width, &transform(0, 0, 10, 10, ScaleMode::Fill)), (10, usize::MAX));
    let empty = VideoFrame::new(0, 0, PixelFormat::BGRA32, vec![], Timestamp::zero());
    assert_eq!(compute_dst_size(&empty, &transform(0, 0, 10, 10, ScaleMode::Fit)), (0, 10));
    assert_eq!(compute_dst_size(&empty, &transform(0, 0, 10, 10, ScaleMode::Fill)), (10, 0));
}

#[test]
fn blit_opaque_copies() {
    let src = solid(2, 2, PixelFormat::BGRA32, [10, 20, 30, 255]);
    let mut canvas = vec![0u8; 4 * 4 * 4];
    blit_frame(&src, &transform(1, 1, 2, 2, ScaleMode::Stretch), &mut canvas, 4, 4);
    for y in 0..4 {
        for x in 0..4 {
            let inside = (1..3).contains(&x) && (1..3).contains(&y);
            let expected = if inside { [10, 20, 30, 255] } else { [0, 0, 0, 0] };
            assert_eq!(pixel(&canvas, 4, x, y), expected, "({}, {})", x, y);
        }
    }
}

#[test]
fn blit_transparent_leaves_canvas() {
    let src = solid(2, 2, PixelFormat::BGRA32, [10, 20, 30, 0]);
    let mut canvas = vec![7u8; 2 * 2 * 4];
    blit_frame(&src, &transform(0, 0, 2, 2, ScaleMode::Stretch), &mut canvas, 2, 2);
    assert!(canvas.iter().all(|b| *b == 7));
}

#[test]
fn blit_blends_partial_alpha() {
    let src = solid(1, 1, PixelFormat::BGRA32, [200, 0, 255, 128]);
    let mut canvas = vec![100u8; 4];
    blit_frame(&src, &transform(0, 0, 1, 1, ScaleMode::Stretch), &mut canvas, 1, 1);
    // (200·128 + 100·127) / 255 = 150, (0·128 + 100·127) / 255 = 49,
    // (255·128 + 100·127) / 255 = 177.
    assert_eq!(canvas, vec![150, 49, 177, 255]);
}

#[test]
fn blit_swaps_rgba() {
    let src = solid(1, 1, PixelFormat::RGBA32, [1, 2, 3, 255]);
    let mut canvas = vec![0u8; 4];
    blit_frame(&src, &transform(0, 0, 1, 1, ScaleMode::Stretch), &mut canvas, 1, 1);
    assert_eq!(canvas, vec![3, 2, 1, 255]);
}

#[test]
fn blit_skips_planar_frames() {
    let src = VideoFrame::new(2, 2, PixelFormat::I420, vec![9; 6], Timestamp::zero());
    let mut canvas = vec![0u8; 2 * 2 * 4];
    blit_frame(&src, &transform(0, 0, 2, 2, ScaleMode::Stretch), &mut canvas, 2, 2);
    assert!(canvas.iter().all(|b| *b == 0));
}

#[test]
fn blit_clips_at_canvas_edges() {
    let src = solid(3, 3, PixelFormat::BGRA32, [5, 5, 5, 255]);
    let mut canvas = vec![0u8; 2 * 2 * 4];
    blit_frame(&src, &transform(-2, -2, 3, 3, ScaleMode::Stretch), &mut canvas, 2, 2);
    assert_eq!(pixel(&canvas, 2, 0, 0), [5, 5, 5, 255]);
    assert_eq!(pixel(&canvas, 2, 1, 0), [0, 0, 0, 0]);
    assert_eq!(pixel(&canvas, 2, 0, 1), [0, 0, 0, 0]);
    assert_eq!(pixel(&canvas, 2, 1, 1), [0, 0, 0, 0]);
}

#[test]
fn blit_scales_nearest_neighbour() {
    // 2x1 source: left red-ish, right blue-ish, stretched to 4x2.
    let src = VideoFrame::new(
        2,
        1,
        PixelFormat::BGRA32,
        vec![1, 1, 1, 255, 2, 2, 2, 255],
        Timestamp::zero(),
    );
    let mut canvas = vec![0u8; 4 * 2 * 4];
    blit_frame(&src, &transform(0, 0, 4, 2, ScaleMode::Stretch), &mut canvas, 4, 2);
    for y in 0..2 {
        assert_eq!(pixel(&canvas, 4, 0, y), [1, 1, 1, 255]);
        assert_eq!(pixel(&canvas, 4, 1, y), [1, 1, 1, 255]);
        assert_eq!(pixel(&canvas, 4, 2, y), [2, 2, 2, 255]);
        assert_eq!(pixel(&canvas, 4, 3, y), [2, 2, 2, 255]);
    }
}

fn scene_with(items: &[(u32, Transform, bool, i32)]) -> Scene {
    let mut s = Scene::new("test", 4, 4);
    for (id, t, visible, z) in items {
        s.add_item(SceneItem { source_id: SourceId(*id), transform: *t, visible: *visible, z_order: *z });
    }
    s
}

#[test]
fn composite_empty_scene_is_black() {
    let c = Compositor::new(Scene::new("empty", 3, 2));
    let f = c.composite(Timestamp { nanos: 42 });
    assert_eq!((f.width, f.height, f.format), (3, 2, PixelFormat::BGRA32));
    assert_eq!(f.pts.nanos, 42);
    assert_eq!(f.data.len(), 24);
    assert!(f.data.iter().all(|b| *b == 0));
}

#[test]
fn composite_draws_back_to_front() {
    let full = transform(0, 0, 4, 4, ScaleMode::Stretch);
    let corner = transform(0, 0, 2, 2, ScaleMode::Stretch);
    // Source 1 is in front (z 5) but only covers the top-left corner.
    let mut c = Compositor::new(scene_with(&[(1, corner, true, 5), (2, full, true, 1)]));
    c.update_source(SourceId(1), solid(1, 1, PixelFormat::BGRA32, [1, 1, 1, 255]));
    c.update_source(SourceId(2), solid(1, 1, PixelFormat::BGRA32, [2, 2, 2, 255]));
    let f = c.composite(Timestamp::zero());
    assert_eq!(pixel(&f.data, 4, 0, 0), [1, 1, 1, 255]);
    assert_eq!(pixel(&f.data, 4, 1, 1), [1, 1, 1, 255]);
    assert_eq!(pixel(&f.data, 4, 2, 2), [2, 2, 2, 255]);
    assert_eq!(pixel(&f.data, 4, 3, 0), [2, 2, 2, 255]);
}

#[test]
fn composite_skips_hidden_and_missing_sources() {
    let full = transform(0, 0, 4, 4, ScaleMode::Stretch);
    let mut c = Compositor::new(scene_with(&[(1, full, false, 0), (2, full, true, 1)]));
    c.update_source(SourceId(1), solid(1, 1, PixelFormat::BGRA32, [9, 9, 9, 255]));
    let f = c.composite(Timestamp::zero());
    assert!(f.data.iter().all(|b| *b == 0));
}

#[test]
fn update_source_replaces_the_latest_frame() {
    let full = transform(0, 0, 4, 4, ScaleMode::Stretch);
    let mut c = Compositor::new(scene_with(&[(7, full, true, 0)]));
    c.update_source(SourceId(7), solid(1, 1, PixelFormat::BGRA32, [1, 1, 1, 255]));
    c.update_source(SourceId(7), solid(1, 1, PixelFormat::BGRA32, [3, 3, 3, 255]));
    let f = c.composite(Timestamp::zero());
    assert_eq!(pixel(&f.data, 4, 2, 3), [3, 3, 3, 255]);
}

#[test]
fn scene_accessors_of_the_compositor() {
    let mut c = Compositor::new(Scene::new("main", 8, 6));
    assert_eq!(c.scene().canvas_width, 8);
    c.scene_mut().add_item(SceneItem {
        source_id: SourceId(0),
        transform: Transform::fullscreen(8, 6),
        visible: true,
        z_order: 0,
    });
    assert_eq!(c.scene().items().len(), 1);
}

#[test]
fn drawable_frames() {
    let full = transform(0, 0, 4, 4, ScaleMode::Stretch);
    assert!(can_draw(&solid(2, 2, PixelFormat::BGRA32, [0; 4]), &full, 4, 4));
    // One byte short: the last sampled pixel would be read past the end.
    let short = VideoFrame::new(2, 2, PixelFormat::BGRA32, vec![0; 15], Timestamp::zero());
    assert!(!can_draw(&short, &full, 4, 4));
    // The same frame is fine where only its top-left pixel is visible.
    assert!(can_draw(&short, &transform(-1, -1, 4, 4, ScaleMode::Stretch), 1, 1));
    // Off the canvas, nothing is read at all.
    assert!(can_draw(&short, &transform(10, 10, 4, 4, ScaleMode::Stretch), 4, 4));
    // A source without width cannot be stretched over visible pixels.
    let no_width = VideoFrame::new(0, 2, PixelFormat::BGRA32, vec![], Timestamp::zero());
    assert!(!can_draw(&no_width, &full, 4, 4));
    // Fit gives it no width, so nothing is drawn.
    assert!(can_draw(&no_width, &transform(0, 0, 4, 4, ScaleMode::Fit), 4, 4));
    assert!(can_draw(&VideoFrame::new(2, 2, PixelFormat::I420, vec![], Timestamp::zero()), &full, 4, 4));
}
