use brushcore::blend::{
    blend_normal_premul, blend_multiply_premul, blend_screen_premul, blend_overlay_premul,
    blend_darken_premul, blend_lighten_premul, BlendFunc,
};
use brushcore::pixel::Pixel;

fn approx_eq(a: i64, b: i64) -> bool {
    // 0.01 in unit scale
    (a - b).abs() < 655
}

#[test]
fn test_blend_normal_opaque() {
    let src = Pixel::new(65536, 0, 0, 65536); // Red, fully opaque
    let dst = Pixel::new(0, 65536, 0, 65536); // Green, fully opaque

    let result = blend_normal_premul(src, dst);

    // Opaque source should completely cover destination
    assert!(approx_eq(result.r, 65536));
    assert!(approx_eq(result.g, 0));
    assert!(approx_eq(result.a, 65536));
}

#[test]
fn test_blend_normal_transparent() {
    let src = Pixel::transparent();
    let dst = Pixel::new(0, 65536, 0, 65536);

    let result = blend_normal_premul(src, dst);

    // Transparent source should leave destination unchanged
    assert!(approx_eq(result.g, 65536));
    assert!(approx_eq(result.a, 65536));
}

#[test]
fn test_blend_normal_semi_transparent() {
    // 50% red over green
    let src = Pixel::new(32768, 0, 0, 32768); // Premultiplied
    let dst = Pixel::new(0, 65536, 0, 65536);

    let result = blend_normal_premul(src, dst);

    // Should blend to some mix
    assert!(result.r > 0);
    assert!(result.g > 0);
    assert!(approx_eq(result.a, 65536));
}

#[test]
fn test_blend_multiply() {
    // White multiplied by any color = that color
    let white = Pixel::new(65536, 65536, 65536, 65536);
    let red = Pixel::new(65536, 0, 0, 65536);

    let result = blend_multiply_premul(white, red);
    assert!(approx_eq(result.r, 65536));
    assert!(approx_eq(result.g, 0));
}

#[test]
fn test_blend_screen() {
    // Black screened over any color = that color
    let black = Pixel::new(0, 0, 0, 65536);
    let red = Pixel::new(65536, 0, 0, 65536);

    let result = blend_screen_premul(black, red);
    assert!(approx_eq(result.r, 65536));
    assert!(approx_eq(result.g, 0));
}

#[test]
fn test_blend_func_enum() {
    let src = Pixel::new(65536, 0, 0, 65536);
    let dst = Pixel::new(0, 65536, 0, 65536);

    let result = BlendFunc::Normal.apply(src, dst);
    assert!(approx_eq(result.r, 65536));
}

#[test]
fn test_multiply_white_exact_identity() {
    // Opaque white is exactly neutral for multiply on an opaque destination
    let white = Pixel::new(65536, 65536, 65536, 65536);
    let dst = Pixel::new(20000, 40000, 60000, 65536);

    let result = blend_multiply_premul(white, dst);
    assert_eq!(result, dst);
}

#[test]
fn test_screen_black_exact_identity() {
    // Opaque black is exactly neutral for screen on an opaque destination
    let black = Pixel::new(0, 0, 0, 65536);
    let dst = Pixel::new(20000, 40000, 60000, 65536);

    let result = blend_screen_premul(black, dst);
    assert_eq!(result, dst);
}

#[test]
fn test_every_mode_zero_alpha_edges() {
    // src.a = 0 returns dst exactly; dst.a = 0 returns src exactly
    let transparent = Pixel::transparent();
    let src = Pixel::new(30000, 10000, 5000, 40000);
    let dst = Pixel::new(123, 456, 789, 50000);
    let modes = [
        BlendFunc::Normal,
        BlendFunc::Multiply,
        BlendFunc::Screen,
        BlendFunc::Overlay,
        BlendFunc::Darken,
        BlendFunc::Lighten,
    ];
    for m in modes {
        assert_eq!(m.apply(transparent, dst), dst);
        assert_eq!(m.apply(src, transparent), src);
    }
}

#[test]
fn test_darken_lighten_exact() {
    let red = Pixel::new(65536, 0, 0, 65536);
    let green = Pixel::new(0, 65536, 0, 65536);

    let dark = blend_darken_premul(red, green);
    assert_eq!(dark, Pixel::new(0, 0, 0, 65536));

    let light = blend_lighten_premul(red, green);
    assert_eq!(light, Pixel::new(65536, 65536, 0, 65536));
}

#[test]
fn test_overlay_over_midpoint() {
    // Destination at the screen-branch boundary, opaque white source
    let white = Pixel::new(65536, 65536, 65536, 65536);
    let gray = Pixel::new(32768, 32768, 32768, 65536);

    let result = blend_overlay_premul(white, gray);
    assert_eq!(result, Pixel::new(65536, 65536, 65536, 65536));
}
