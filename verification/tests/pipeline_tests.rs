use image_viewer::geometry::scaled_dimensions;
use image_viewer::pipeline::decode_and_resize;
use image_viewer::scan::is_image_extension;

#[test]
fn small_image_dimensions_are_kept() {
    // an image already within the bound on its long edge is never upscaled
    assert_eq!(scaled_dimensions(1920, 1080), (1920, 1080));
    assert_eq!(scaled_dimensions(640, 480), (640, 480));
    assert_eq!(scaled_dimensions(1, 1), (1, 1));
    assert_eq!(scaled_dimensions(1920, 1920), (1920, 1920));
}

#[test]
fn large_image_is_scaled_to_bound() {
    assert_eq!(scaled_dimensions(3840, 2160), (1920, 1080));
    assert_eq!(scaled_dimensions(2160, 3840), (1080, 1920));
    assert_eq!(scaled_dimensions(2000, 40), (1920, 38));
    assert_eq!(scaled_dimensions(4000, 4000), (1920, 1920));
}

fn png_bytes(w: u32, h: u32) -> Vec<u8> {
    let img = image::DynamicImage::new_rgb8(w, h);
    let mut buf = std::io::Cursor::new(Vec::new());
    img.write_to(&mut buf, image::ImageFormat::Png).unwrap();
    buf.into_inner()
}

#[test]
fn decode_keeps_small_image_dimensions() {
    let bytes = png_bytes(64, 32);
    let loaded = decode_and_resize(&bytes).unwrap();
    assert_eq!(loaded.width, 64);
    assert_eq!(loaded.height, 32);
    assert_eq!(loaded.pixels.len(), 4 * 64 * 32);
}

#[test]
fn decode_downscales_large_image() {
    let bytes = png_bytes(2000, 40);
    let loaded = decode_and_resize(&bytes).unwrap();
    assert_eq!(loaded.width, 1920);
    assert_eq!(loaded.height, 38);
    assert_eq!(loaded.pixels.len(), 4 * 1920 * 38);
}

#[test]
fn corrupt_bytes_do_not_decode() {
    let bytes = vec![1u8, 2, 3, 4, 5, 6, 7, 8];
    assert!(decode_and_resize(&bytes).is_none());
    assert!(decode_and_resize(&[]).is_none());
}

#[test]
fn image_extensions_are_matched_case_insensitively() {
    assert!(is_image_extension(b"jpg"));
    assert!(is_image_extension(b"JPG"));
    assert!(is_image_extension(b"jPeG"));
    assert!(is_image_extension(b"png"));
    assert!(is_image_extension(b"GIF"));
    assert!(is_image_extension(b"bmp"));
    assert!(!is_image_extension(b"txt"));
    assert!(!is_image_extension(b"jpgx"));
    assert!(!is_image_extension(b""));
    assert!(!is_image_extension(b"webp"));
}
