use obs_pipeline::test_pattern::make_frame;

fn px(data: &[u8], w: usize, x: usize, y: usize) -> [u8; 4] {
    let o = (y * w + x) * 4;
    [data[o], data[o + 1], data[o + 2], data[o + 3]]
}

#[test]
fn size_and_opacity() {
    let d = make_frame(320, 240, 0, 30);
    assert_eq!(d.len(), 320 * 240 * 4);
    assert!(d.chunks(4).all(|p| p[3] == 255));
}

#[test]
fn colour_bars() {
    // Pixels are (blue, green, red, alpha): white, yellow, cyan, green,
    // magenta, red, blue, black.
    let d = make_frame(320, 240, 0, 30);
    // 40-pixel bars; row 100 is in the top three quarters, clear of the counter.
    assert_eq!(px(&d, 320, 10, 100), [192, 192, 192, 255]);
    assert_eq!(px(&d, 320, 50, 100), [0, 192, 192, 255]);
    assert_eq!(px(&d, 320, 90, 100), [192, 192, 0, 255]);
    assert_eq!(px(&d, 320, 130, 100), [0, 192, 0, 255]);
    assert_eq!(px(&d, 320, 170, 100), [192, 0, 192, 255]);
    assert_eq!(px(&d, 320, 210, 100), [0, 0, 192, 255]);
    assert_eq!(px(&d, 320, 250, 100), [192, 0, 0, 255]);
    assert_eq!(px(&d, 320, 319, 100), [0, 0, 0, 255]);
}

#[test]
fn bottom_quarter_with_marker() {
    // Frame 15 of 30: marker at x = 15·320/30 = 160, 8 pixels wide.
    let d = make_frame(320, 240, 15, 30);
    assert_eq!(px(&d, 320, 100, 200), [32, 32, 32, 255]);
    assert_eq!(px(&d, 320, 160, 200), [255, 255, 255, 255]);
    assert_eq!(px(&d, 320, 167, 239), [255, 255, 255, 255]);
    assert_eq!(px(&d, 320, 168, 200), [32, 32, 32, 255]);
    assert_eq!(px(&d, 320, 159, 180), [32, 32, 32, 255]);
}

#[test]
fn marker_is_clamped_at_the_right_edge() {
    // Frame 29 of 30 on a 40-wide picture: marker at 38, 4 pixels wide.
    let d = make_frame(40, 16, 29, 30);
    assert_eq!(px(&d, 40, 37, 15), [32, 32, 32, 255]);
    assert_eq!(px(&d, 40, 38, 15), [255, 255, 255, 255]);
    assert_eq!(px(&d, 40, 39, 15), [255, 255, 255, 255]);
}

#[test]
fn frame_counter_bits() {
    // 5 = 0b101: squares 0 and 2 white, square 1 black.
    let d = make_frame(320, 240, 5, 30);
    assert_eq!(px(&d, 320, 4, 4), [255, 255, 255, 255]);
    assert_eq!(px(&d, 320, 14, 8), [0, 0, 0, 255]);
    assert_eq!(px(&d, 320, 24, 11), [255, 255, 255, 255]);
    // The gap between squares shows the white bar.
    assert_eq!(px(&d, 320, 12, 4), [192, 192, 192, 255]);
    assert_eq!(px(&d, 320, 4, 12), [192, 192, 192, 255]);
}

#[test]
fn empty_picture() {
    assert!(make_frame(0, 0, 3, 30).is_empty());
}

#[test]
fn marker_repeats_every_second() {
    // Below the counter, frame 3 and frame 33 at 30 fps look the same.
    let a = make_frame(160, 120, 3, 30);
    let b = make_frame(160, 120, 33, 30);
    let start = 12 * 160 * 4;
    assert_eq!(&a[start..], &b[start..]);
    // A later frame within the same second has the marker further right.
    let c = make_frame(160, 120, 10, 30);
    assert_eq!(px(&a, 160, 16, 100), [255, 255, 255, 255]);
    assert_eq!(px(&c, 160, 16, 100), [32, 32, 32, 255]);
    assert_eq!(px(&c, 160, 53, 100), [255, 255, 255, 255]);
}

#[test]
fn picture_repeats_after_256_seconds() {
    assert_eq!(make_frame(160, 120, 5, 3), make_frame(160, 120, 5 + 256 * 3, 3));
    assert_ne!(make_frame(160, 120, 5, 3), make_frame(160, 120, 6, 3));
}
