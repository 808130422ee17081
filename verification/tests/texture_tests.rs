use brushcore::texture::{GrayscaleImage, detect_inverted_alpha, normalize_brush_texture};

#[test]
fn test_detect_inverted_normal() {
    // Normal brush: center bright (opaque), edges dark (transparent)
    let mut data = vec![0u8; 9]; // 3x3
    data[4] = 255; // Center bright
    let img = GrayscaleImage::new(3, 3, data);

    assert!(!detect_inverted_alpha(&img));
}

#[test]
fn test_detect_inverted_inverted() {
    // Inverted brush: center dark (opaque in the source), edges bright
    let mut data = vec![255u8; 9]; // 3x3
    data[4] = 0; // Center dark
    let img = GrayscaleImage::new(3, 3, data);

    assert!(detect_inverted_alpha(&img));
}

#[test]
fn test_normalize_inverts_when_needed() {
    let mut data = vec![255u8; 9];
    data[4] = 0;
    let img = GrayscaleImage::new(3, 3, data);

    let out = normalize_brush_texture(&img);
    assert_eq!(out.data[4], 255);
    assert_eq!(out.data[0], 0);
}

#[test]
fn test_normalize_keeps_normal_texture() {
    let mut data = vec![0u8; 9];
    data[4] = 255;
    let img = GrayscaleImage::new(3, 3, data);

    let out = normalize_brush_texture(&img);
    assert_eq!(out.data, vec![0, 0, 0, 0, 255, 0, 0, 0, 0]);
}
