use image_viewer::entry::CacheEntry;
use image_viewer::geometry::effective_dims;
use image_viewer::viewer::ViewerCore;

#[test]
fn test_rotation_initialization() {
    let pixels = vec![0u8; 4 * 100 * 100];
    let cached = CacheEntry::new(pixels, 100, 100);

    assert_eq!(cached.rotation, 0);
}

#[test]
fn test_rotation_math() {
    // Test rotation calculation logic
    let mut rotation = 0;

    // Test single rotation
    rotation = (rotation + 90) % 360;
    assert_eq!(rotation, 90);

    // Test multiple rotations
    rotation = (rotation + 90) % 360;
    assert_eq!(rotation, 180);

    rotation = (rotation + 90) % 360;
    assert_eq!(rotation, 270);

    // Test wrap-around
    rotation = (rotation + 90) % 360;
    assert_eq!(rotation, 0);

    // Test additional rotations
    rotation = (rotation + 90) % 360;
    assert_eq!(rotation, 90);
}

#[test]
fn test_rotation_with_no_image() {
    let mut viewer = ViewerCore::new(Vec::new(), 10, 5);

    // This should not panic
    viewer.rotate();
}

#[test]
fn test_aspect_ratio_calculation_after_rotation() {
    // Test that aspect ratio calculation correctly handles rotated dimensions
    let (orig_w, orig_h) = (1920u32, 1080u32); // Landscape image

    // Test 0 degrees rotation (no change)
    let (display_w, display_h) = effective_dims(orig_w, orig_h, 0 % 360);
    let aspect_0 = display_w as f32 / display_h as f32;
    assert!((aspect_0 - 1920.0 / 1080.0).abs() < 0.001);

    // Test 90 degrees rotation (landscape becomes portrait)
    let (display_w, display_h) = effective_dims(orig_w, orig_h, 90 % 360);
    let aspect_90 = display_w as f32 / display_h as f32;
    assert!((aspect_90 - 1080.0 / 1920.0).abs() < 0.001);

    // Test 180 degrees rotation (no change to aspect ratio)
    let (display_w, display_h) = effective_dims(orig_w, orig_h, 180 % 360);
    let aspect_180 = display_w as f32 / display_h as f32;
    assert!((aspect_180 - 1920.0 / 1080.0).abs() < 0.001);

    // Test 270 degrees rotation (landscape becomes portrait)
    let (display_w, display_h) = effective_dims(orig_w, orig_h, 270 % 360);
    let aspect_270 = display_w as f32 / display_h as f32;
    assert!((aspect_270 - 1080.0 / 1920.0).abs() < 0.001);

    // Verify that 90 and 270 degree rotations have the same aspect ratio
    assert!((aspect_90 - aspect_270).abs() < 0.001);

    // Verify that 0 and 180 degree rotations have the same aspect ratio
    assert!((aspect_0 - aspect_180).abs() < 0.001);

    // Verify that 90 degree rotation is different from 0 degree rotation
    assert!((aspect_0 - aspect_90).abs() > 0.001);
}

#[test]
fn four_rotations_return_to_start() {
    let pixels = vec![0u8; 4];
    let mut e = CacheEntry::new(pixels, 1, 1);
    assert_eq!(e.rotation, 0);
    e.rotate();
    assert_eq!(e.rotation, 90);
    e.rotate();
    assert_eq!(e.rotation, 180);
    e.rotate();
    assert_eq!(e.rotation, 270);
    e.rotate();
    assert_eq!(e.rotation, 0);
}

#[test]
fn rotation_drops_texture_handle() {
    let pixels = vec![0u8; 4];
    let mut e = CacheEntry::new(pixels, 1, 1);
    e.set_texture(7);
    assert_eq!(e.texture, Some(7));
    e.rotate();
    assert_eq!(e.texture, None);
}
