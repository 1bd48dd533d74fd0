use quic_vid::test_pattern::{
    generate_jpeg_frame, generate_test_pattern, DEFAULT_JPEG_QUALITY, TEST_FRAME_BYTES,
    TEST_FRAME_HEIGHT, TEST_FRAME_WIDTH,
};

fn pixel(raw: &[u8], x: usize, y: usize) -> [u8; 3] {
    let base = 3 * (y * TEST_FRAME_WIDTH as usize + x);
    [raw[base], raw[base + 1], raw[base + 2]]
}

#[test]
fn generated_frame_has_expected_dimensions() {
    let frame = generate_test_pattern(42);

    assert_eq!(frame.dimensions(), (TEST_FRAME_WIDTH, TEST_FRAME_HEIGHT));
}

#[test]
fn generated_frames_change_with_frame_id() {
    let first = generate_test_pattern(0);

    let second = generate_test_pattern(1);

    assert_ne!(first.as_raw(), second.as_raw());
}

#[test]
fn generation_is_deterministic() {
    let first = generate_test_pattern(42);

    let second = generate_test_pattern(42);

    assert_eq!(first.as_raw(), second.as_raw());
}

#[test]
fn background_is_a_gradient_shifted_by_the_frame_id() {
    let frame = generate_test_pattern(300);
    let raw = frame.as_raw();

    assert_eq!(raw.len(), TEST_FRAME_BYTES);
    assert_eq!(pixel(raw, 0, 0), [0, 0, 44]);
    assert_eq!(pixel(raw, 639, 359), [254, 254, 42]);
    assert_eq!(pixel(raw, 320, 10), [127, 7, 171]);
}

#[test]
fn digits_show_the_frame_id_in_white() {
    let frame = generate_test_pattern(8);
    let raw = frame.as_raw();

    // The last digit is an 8: its middle bar is lit.
    assert_eq!(pixel(raw, 410 + 6, 120 + 24), [255, 255, 255]);
    // The first digit is a 0: its middle bar is dark.
    assert_ne!(pixel(raw, 200 + 6, 120 + 24), [255, 255, 255]);
    // A lit segment of the leading 0.
    assert_eq!(pixel(raw, 200 + 6, 120), [255, 255, 255]);
}

#[test]
fn progress_marker_moves_seven_columns_per_frame() {
    let frame = generate_test_pattern(3);
    let raw = frame.as_raw();

    assert_eq!(pixel(raw, 21, 315), [255, 255, 255]);
    assert_eq!(pixel(raw, 44, 338), [255, 255, 255]);
    assert_ne!(pixel(raw, 20, 315), [255, 255, 255]);
    assert_ne!(pixel(raw, 45, 315), [255, 255, 255]);

    let wrapped = generate_test_pattern(88);
    assert_eq!(pixel(wrapped.as_raw(), 0, 320), [255, 255, 255]);
}

#[test]
fn generated_jpeg_decodes_to_the_test_dimensions() {
    let jpeg = generate_jpeg_frame(42, DEFAULT_JPEG_QUALITY).unwrap();

    let decoded = image::load_from_memory(&jpeg).unwrap();

    assert_eq!(decoded.width(), TEST_FRAME_WIDTH);
    assert_eq!(decoded.height(), TEST_FRAME_HEIGHT);
    assert_eq!(&jpeg[..2], &[0xff, 0xd8]);
}

#[test]
fn top_left_blue_is_the_frame_id_modulo_256() {
    for frame_id in [0u64, 1, 255, 256, 1000] {
        let frame = generate_test_pattern(frame_id);
        assert_eq!(u64::from(frame.as_raw()[2]), frame_id % 256);
    }
}
