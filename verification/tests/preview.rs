use quic_vid::preview::{preview_frame_from_jpeg, validate_preview_frame, PreviewError, PreviewFrame};
use image::{codecs::jpeg::JpegEncoder, Rgb, RgbImage};
use quic_vid::test_pattern::{generate_jpeg_frame, DEFAULT_JPEG_QUALITY};

#[test]
fn preview_frame_preserves_metadata() {
    let frame = PreviewFrame { frame_id: 42, width: 640, height: 360, pixels: vec![0; 640 * 360] };

    assert_eq!(frame.frame_id, 42);
    assert_eq!(frame.width, 640);
    assert_eq!(frame.height, 360);
}

#[test]
fn preview_frame_preserves_pixel_buffer() {
    let pixels = vec![0x00112233, 0x00445566];

    let frame = PreviewFrame { frame_id: 7, width: 2, height: 1, pixels: pixels.clone() };

    assert_eq!(frame.pixels, pixels);
}

#[test]
fn generated_jpeg_converts_to_preview_frame() {
    let jpeg = generate_jpeg_frame(42, DEFAULT_JPEG_QUALITY).unwrap();

    let frame = preview_frame_from_jpeg(42, &jpeg).unwrap();

    assert_eq!(frame.frame_id, 42);
    assert_eq!(frame.width, 640);
    assert_eq!(frame.height, 360);
    assert_eq!(frame.pixels.len(), 640 * 360);
}

#[test]
fn invalid_jpeg_is_rejected() {
    assert!(preview_frame_from_jpeg(42, b"not a jpeg",).is_err());
}

#[test]
fn preview_pixels_use_rgb_channel_order() {
    let mut image = RgbImage::new(1, 1);
    image.put_pixel(0, 0, Rgb([255, 0, 0]));

    let mut jpeg = Vec::new();

    {
        let mut encoder = JpegEncoder::new_with_quality(&mut jpeg, 100);

        encoder.encode_image(&image).unwrap();
    }

    let frame = preview_frame_from_jpeg(1, &jpeg).unwrap();

    assert_eq!(frame.width, 1);
    assert_eq!(frame.height, 1);

    let pixel = frame.pixels[0];

    let red = (pixel >> 16) & 0xff;
    let green = (pixel >> 8) & 0xff;
    let blue = pixel & 0xff;

    assert!(red > green);
    assert!(red > blue);
}

#[test]
fn preview_buffer_matches_frame_dimensions() {
    let jpeg = generate_jpeg_frame(7, DEFAULT_JPEG_QUALITY).unwrap();

    let frame = preview_frame_from_jpeg(7, &jpeg).unwrap();

    assert_eq!(frame.pixels.len(), frame.width * frame.height);
}

#[test]
fn preview_frame_rejects_wrong_buffer_size() {
    let frame = PreviewFrame { frame_id: 42, width: 2, height: 2, pixels: vec![0; 3] };

    assert!(validate_preview_frame(&frame).is_err());
}

#[test]
fn preview_frame_accepts_matching_buffer_size() {
    let frame = PreviewFrame { frame_id: 42, width: 2, height: 2, pixels: vec![0; 4] };

    assert!(validate_preview_frame(&frame).is_ok());
}

#[test]
fn validation_reports_each_error() {
    let overflowing = PreviewFrame { frame_id: 1, width: usize::MAX, height: 2, pixels: vec![] };
    assert_eq!(validate_preview_frame(&overflowing), Err(PreviewError::DimensionsOverflow));

    let short = PreviewFrame { frame_id: 1, width: 3, height: 1, pixels: vec![0; 2] };
    assert_eq!(validate_preview_frame(&short), Err(PreviewError::BufferSizeMismatch));

    let empty = PreviewFrame { frame_id: 1, width: 0, height: 9, pixels: vec![] };
    assert_eq!(validate_preview_frame(&empty), Ok(()));

    assert_eq!(preview_frame_from_jpeg(1, &[]), Err(PreviewError::InvalidJpeg));
}

#[test]
fn decoded_pixels_pack_each_channel_in_its_byte() {
    let mut image = RgbImage::new(2, 1);
    image.put_pixel(0, 0, Rgb([0, 0, 255]));
    image.put_pixel(1, 0, Rgb([0, 255, 0]));

    let mut jpeg = Vec::new();
    JpegEncoder::new_with_quality(&mut jpeg, 100).encode_image(&image).unwrap();

    let decoded = image::load_from_memory(&jpeg).unwrap().to_rgb8();
    let frame = preview_frame_from_jpeg(3, &jpeg).unwrap();

    assert_eq!(frame.pixels.len(), 2);
    for (index, pixel) in decoded.pixels().enumerate() {
        let [red, green, blue] = pixel.0;
        let expected = (u32::from(red) << 16) | (u32::from(green) << 8) | u32::from(blue);
        assert_eq!(frame.pixels[index], expected);
    }
}
