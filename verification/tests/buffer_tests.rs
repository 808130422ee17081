use brushcore::stroke_buffer::StrokeBuffer;
use brushcore::rect::Rect;
use brushcore::pixel::Pixel;

#[test]
fn test_stroke_buffer_creation() {
    let buffer = StrokeBuffer::new(100, 100);
    assert_eq!(buffer.dimensions(), (100, 100));
    assert!(!buffer.is_active());
}

#[test]
fn test_begin_end_stroke() {
    let mut buffer = StrokeBuffer::new(100, 100);
    buffer.begin_stroke();
    assert!(buffer.is_active());

    let mut layer_data = vec![0u8; 100 * 100 * 4];
    buffer.end_stroke(&mut layer_data, 65536);
    assert!(!buffer.is_active());
}

#[test]
fn test_stamp_dab() {
    let mut buffer = StrokeBuffer::new(100, 100);
    buffer.begin_stroke();

    // Stamp a white dab at center: (50, 50), radius 10 pixels
    buffer.stamp_dab(12800, 12800, 2560, [65536, 65536, 65536], 65536, 65536);

    // Check that center pixel has content
    let center = buffer.get_pixel(50, 50);
    assert!(center.a > 58982); // above 0.9

    // Check dirty rect
    let rect = buffer.dirty_rect();
    assert!(!rect.is_empty());
    assert!(rect.left <= 40);
    assert!(rect.right >= 60);
}

#[test]
fn test_opacity_ceiling() {
    let mut buffer = StrokeBuffer::new(10, 10);
    buffer.begin_stroke();

    // Stamp with flow = 1.0 (full opacity in stroke buffer)
    buffer.stamp_dab(1280, 1280, 768, [65536, 0, 0], 65536, 65536);

    // Composite with opacity ceiling of 0.5
    let mut layer_data = vec![0u8; 10 * 10 * 4];
    buffer.end_stroke(&mut layer_data, 32768);

    // Check that layer pixel alpha is capped at ~0.5
    let idx = (5 * 10 + 5) * 4;
    let alpha = layer_data[idx + 3] as f32 / 255.0;
    assert!(alpha <= 0.55); // Allow small tolerance
}

#[test]
fn test_flow_accumulation() {
    let mut buffer = StrokeBuffer::new(20, 20);
    buffer.begin_stroke();

    // Stamp multiple overlapping dabs with low flow
    for _ in 0..5 {
        buffer.stamp_dab(2560, 2560, 1280, [65536, 65536, 65536], 13107, 65536);
    }

    // Check that alpha accumulated beyond 0.2
    let center = buffer.get_pixel(10, 10);
    assert!(center.a > 32768);
}

#[test]
fn test_rect_operations() {
    let mut rect = Rect::empty();
    assert!(rect.is_empty());

    rect.expand(50, 50, 10);
    assert!(!rect.is_empty());
    assert_eq!(rect.left, 40);
    assert_eq!(rect.right, 61);

    rect.clamp_to(100, 100);
    assert_eq!(rect.left, 40);
    assert_eq!(rect.right, 61);
}

#[test]
fn test_rect_union_monoid_values() {
    // The empty rect is a two-sided identity and union commutes
    let a = Rect::new(1, 2, 5, 6);
    let b = Rect::new(3, 0, 9, 4);

    let mut a1 = a;
    a1.union(&Rect::empty());
    assert_eq!(a1, a);

    let mut e = Rect::empty();
    e.union(&a);
    assert_eq!(e, a);

    let mut ab = a;
    ab.union(&b);
    let mut ba = b;
    ba.union(&a);
    assert_eq!(ab, ba);
    assert_eq!(ab, Rect::new(1, 0, 9, 6));
}

#[test]
fn test_pixel_roundtrip_u8() {
    let p = Pixel::from_rgba_u8(255, 128, 0, 255);
    let (r, g, b, a) = p.to_rgba_u8();
    assert_eq!(a, 255);
    assert_eq!(r, 255);
    assert!((g as i32 - 128).abs() <= 1);
    assert_eq!(b, 0);
}

#[test]
fn test_out_of_range_pixel_access_is_silent() {
    let mut buffer = StrokeBuffer::new(4, 4);
    buffer.begin_stroke();
    // Writes beyond the raster are dropped, reads come back transparent
    buffer.set_pixel(100, 100, Pixel::new(65536, 65536, 65536, 65536));
    let p = buffer.get_pixel(100, 100);
    assert_eq!(p.a, 0);
}

#[test]
fn test_end_stroke_inactive_is_noop() {
    let mut buffer = StrokeBuffer::new(8, 8);
    let mut layer = vec![7u8; 8 * 8 * 4];
    let before = layer.clone();
    let rect = buffer.end_stroke(&mut layer, 65536);
    assert!(rect.is_empty());
    assert_eq!(layer, before);
}

#[test]
fn test_single_dab_scenario() {
    // One full-alpha hard dab of radius 10 at (50, 50) on a 100x100 buffer
    let mut buffer = StrokeBuffer::new(100, 100);
    buffer.begin_stroke();
    buffer.stamp_dab(12800, 12800, 2560, [65536, 65536, 65536], 65536, 65536);

    let center = buffer.get_pixel(50, 50);
    assert_eq!(center.a, 65536);

    let rect = buffer.dirty_rect();
    assert!(rect.left <= 40);
    assert!(rect.right >= 60);

    // Merging with a 0.5 ceiling caps the target alpha near half
    let mut layer = vec![0u8; 100 * 100 * 4];
    buffer.end_stroke(&mut layer, 32768);
    let idx = (50 * 100 + 50) * 4;
    assert!(layer[idx + 3] <= 128);
    assert!(layer[idx + 3] >= 126);
}

#[test]
fn test_ceiling_never_raises_alpha_by_more() {
    // A pre-painted target: merging with ceiling 0.25 adds at most
    // 0.25 of alpha (one 8-bit step of rounding allowed)
    let mut buffer = StrokeBuffer::new(16, 16);
    buffer.begin_stroke();
    buffer.stamp_dab(2048, 2048, 1024, [65536, 65536, 65536], 65536, 65536);

    let mut layer = vec![100u8; 16 * 16 * 4];
    buffer.end_stroke(&mut layer, 16384);
    for y in 0..16usize {
        for x in 0..16usize {
            let idx = (y * 16 + x) * 4;
            assert!(layer[idx + 3] as i32 <= 100 + 64 + 1);
        }
    }
}
