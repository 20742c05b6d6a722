use tinyrenderer::math::Vec2;
use tinyrenderer::rasterizer::Rasterizer;
use tinyrenderer::tga::{black, green, red, white, RGBA};

#[test]
fn test_line() {
    let mut rasterizer: Rasterizer<RGBA> = Rasterizer::new(100, 100);
    rasterizer.clear(black());
    rasterizer.line(Vec2::new(13, 20), Vec2::new(80, 40), white());
    rasterizer.line(Vec2::new(20, 13), Vec2::new(40, 80), red());
    rasterizer.line(Vec2::new(80, 40), Vec2::new(13, 20), red());
    let _ = rasterizer.image.encode(true, true);
}

#[test]
fn test_triangle() {
    let mut rasterizer: Rasterizer<RGBA> = Rasterizer::new(200, 200);
    rasterizer.clear(black());
    let t0 = [Vec2::new(10, 70), Vec2::new(50, 160), Vec2::new(70, 80)];
    let t1 = [Vec2::new(180, 50), Vec2::new(150, 1), Vec2::new(70, 180)];
    let t2 = [
        Vec2::new(180, 150),
        Vec2::new(120, 160),
        Vec2::new(130, 180),
    ];
    rasterizer.triangle(t0[0], t0[1], t0[2], red());
    rasterizer.triangle(t1[0], t1[1], t1[2], white());
    rasterizer.triangle(t2[0], t2[1], t2[2], green());
    let _ = rasterizer.image.encode(true, true);
}

#[test]
fn test_triangle_1() {
    let mut rasterizer: Rasterizer<RGBA> = Rasterizer::new(200, 200);
    rasterizer.clear(black());
    let t0 = [Vec2::new(10, 70), Vec2::new(50, 160), Vec2::new(70, 80)];
    let t1 = [Vec2::new(180, 50), Vec2::new(150, 1), Vec2::new(70, 180)];
    let t2 = [
        Vec2::new(180, 150),
        Vec2::new(120, 160),
        Vec2::new(130, 180),
    ];

    rasterizer.triangle_test_1(t0[0], t0[1], t0[2]);
    rasterizer.triangle_test_1(t1[0], t1[1], t1[2]);
    rasterizer.triangle_test_1(t2[0], t2[1], t2[2]);
    let _ = rasterizer.image.encode(true, true);
}

#[test]
// draw bottom part of triangle
fn test_triangle_2() {
    let mut rasterizer: Rasterizer<RGBA> = Rasterizer::new(200, 200);
    rasterizer.clear(black());
    let t0 = [Vec2::new(10, 70), Vec2::new(50, 160), Vec2::new(70, 80)];
    let t1 = [Vec2::new(180, 50), Vec2::new(150, 1), Vec2::new(70, 180)];
    let t2 = [
        Vec2::new(180, 150),
        Vec2::new(120, 160),
        Vec2::new(130, 180),
    ];

    rasterizer.triangle_test_2(t0[0], t0[1], t0[2]);
    rasterizer.triangle_test_2(t1[0], t1[1], t1[2]);
    rasterizer.triangle_test_2(t2[0], t2[1], t2[2]);
    let _ = rasterizer.image.encode(true, true);
}

#[test]
// draw fill triangle
fn test_triangle_3() {
    let mut rasterizer: Rasterizer<RGBA> = Rasterizer::new(200, 200);
    rasterizer.clear(black());
    let t0 = [Vec2::new(10, 70), Vec2::new(50, 160), Vec2::new(70, 80)];
    let t1 = [Vec2::new(180, 50), Vec2::new(150, 1), Vec2::new(70, 180)];
    let t2 = [
        Vec2::new(180, 150),
        Vec2::new(120, 160),
        Vec2::new(130, 180),
    ];

    rasterizer.triangle(t0[0], t0[1], t0[2], red());
    rasterizer.triangle(t1[0], t1[1], t1[2], white());
    rasterizer.triangle(t2[0], t2[1], t2[2], green());
    let _ = rasterizer.image.encode(true, true);
}
