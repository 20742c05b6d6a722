use tinyrenderer::math::{Vec2, Vec3};
use tinyrenderer::tga::{blue, green, red, white, Grayscale, RGB, RGBA};

#[test]
fn vec2_new_and_from_slice() {
    let a: Vec2<i64> = Vec2::new(3, -7);
    assert_eq!(a.x, 3);
    assert_eq!(a.y, -7);
    let b: Vec2<i64> = Vec2::from_slice(&[9, 8, 7]);
    assert_eq!((b.x, b.y), (9, 8));
}

#[test]
fn vec3_new_and_from_slice() {
    let a: Vec3<i32> = Vec3::new(1, 2, 3);
    assert_eq!((a.x, a.y, a.z), (1, 2, 3));
    let b: Vec3<i32> = Vec3::from_slice(&[4, 5, 6]);
    assert_eq!((b.x, b.y, b.z), (4, 5, 6));
}

#[test]
fn cross_product_exact() {
    let a: Vec3<i64> = Vec3::new(1, 2, 3);
    let b: Vec3<i64> = Vec3::new(4, 5, 6);
    let c = a.cross_product(b);
    assert_eq!((c.x, c.y, c.z), (-3, 6, -3));
}

#[test]
fn cross_product_of_parallel_is_zero() {
    let a: Vec3<i64> = Vec3::new(2, -4, 6);
    let b: Vec3<i64> = Vec3::new(1, -2, 3);
    let c = a.cross_product(b);
    assert_eq!((c.x, c.y, c.z), (0, 0, 0));
}

#[test]
fn rgba_to_rgb_drops_alpha() {
    let c = RGB::from(RGBA { r: 1, g: 2, b: 3, a: 4 });
    assert_eq!(c, RGB { r: 1, g: 2, b: 3 });
}

#[test]
fn rgb_to_rgba_is_opaque() {
    let c = RGBA::from(RGB { r: 1, g: 2, b: 3 });
    assert_eq!(c, RGBA { r: 1, g: 2, b: 3, a: 255 });
}

#[test]
fn grayscale_spreads_over_channels() {
    assert_eq!(
        RGBA::from(Grayscale { i: 9 }),
        RGBA { r: 9, g: 9, b: 9, a: 255 }
    );
    assert_eq!(RGB::from(Grayscale { i: 9 }), RGB { r: 9, g: 9, b: 9 });
}

#[test]
fn luminance_weights_are_exact() {
    // 0.3 * 10 + 0.6 * 20 + 0.11 * 30 = 18.3, truncated to 18
    let g = Grayscale::from(RGB { r: 10, g: 20, b: 30 });
    assert_eq!(g.i, 18);
    // blue alone: 0.11 * 100 = 11
    let g = Grayscale::from(RGB { r: 0, g: 0, b: 100 });
    assert_eq!(g.i, 11);
    // the weights sum to 1.01, so full white caps at the largest byte
    let g = Grayscale::from(RGBA { r: 255, g: 255, b: 255, a: 255 });
    assert_eq!(g.i, 255);
}

#[test]
fn named_colors() {
    assert_eq!(white(), RGBA { r: 255, g: 255, b: 255, a: 255 });
    assert_eq!(red(), RGBA { r: 255, g: 0, b: 0, a: 255 });
    assert_eq!(green(), RGBA { r: 0, g: 255, b: 0, a: 255 });
    assert_eq!(blue(), RGBA { r: 0, g: 0, b: 255, a: 255 });
}

#[test]
fn random_color_is_opaque() {
    for _ in 0..8 {
        let c = RGBA::random_color();
        assert_eq!(c.a, 255);
    }
    let _ = RGB::random_color();
}
