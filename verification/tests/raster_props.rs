use tinyrenderer::math::Vec2;
use tinyrenderer::rasterizer::Rasterizer;
use tinyrenderer::tga::{black, white, Image, RGBA};

fn is_white(img: &Image<RGBA>, x: usize, y: usize) -> bool {
    img.get(x, y) == Some(RGBA { r: 255, g: 255, b: 255, a: 255 })
}

#[test]
fn line_to_itself_sets_exactly_one_pixel() {
    let mut r: Rasterizer<RGBA> = Rasterizer::new(10, 10);
    r.clear(black());
    r.line(Vec2::new(4, 7), Vec2::new(4, 7), white());
    for y in 0..10 {
        for x in 0..10 {
            assert_eq!(is_white(&r.image, x, y), x == 4 && y == 7);
        }
    }
}

#[test]
fn line_to_itself_outside_buffer_changes_nothing() {
    let mut r: Rasterizer<RGBA> = Rasterizer::new(10, 10);
    r.clear(black());
    r.line(Vec2::new(12, 3), Vec2::new(12, 3), white());
    r.line(Vec2::new(-1, -1), Vec2::new(-1, -1), white());
    for y in 0..10 {
        for x in 0..10 {
            assert!(!is_white(&r.image, x, y));
        }
    }
}

#[test]
fn line_is_symmetric_in_its_endpoints() {
    let cases = [
        ((13, 20), (80, 40)),
        ((20, 13), (40, 80)),
        ((0, 0), (99, 99)),
        ((5, 90), (95, 10)),
        ((7, 7), (7, 50)),
        ((3, 8), (60, 8)),
        ((-5, -5), (30, 99)),
    ];
    for ((x0, y0), (x1, y1)) in cases {
        let mut a: Rasterizer<RGBA> = Rasterizer::new(100, 100);
        a.clear(black());
        a.line(Vec2::new(x0, y0), Vec2::new(x1, y1), white());
        let mut b: Rasterizer<RGBA> = Rasterizer::new(100, 100);
        b.clear(black());
        b.line(Vec2::new(x1, y1), Vec2::new(x0, y0), white());
        assert_eq!(a.image.raw_bytes(), b.image.raw_bytes());
    }
}

#[test]
fn line_draws_the_expected_bresenham_pixels() {
    let mut r: Rasterizer<RGBA> = Rasterizer::new(10, 10);
    r.clear(black());
    r.line(Vec2::new(0, 0), Vec2::new(3, 1), white());
    let expected = [(0, 0), (1, 0), (2, 1), (3, 1)];
    for y in 0..10 {
        for x in 0..10 {
            assert_eq!(is_white(&r.image, x, y), expected.contains(&(x, y)));
        }
    }
}

#[test]
fn line_is_connected() {
    // adjacent plotted pixels never differ by more than one in each axis
    let mut r: Rasterizer<RGBA> = Rasterizer::new(100, 100);
    r.clear(black());
    r.line(Vec2::new(13, 20), Vec2::new(80, 40), white());
    for x in 13..80 {
        let ys: Vec<usize> = (0..100).filter(|&y| is_white(&r.image, x, y)).collect();
        let ys_next: Vec<usize> = (0..100).filter(|&y| is_white(&r.image, x + 1, y)).collect();
        assert_eq!(ys.len(), 1);
        assert_eq!(ys_next.len(), 1);
        assert!(ys[0].abs_diff(ys_next[0]) <= 1);
    }
}

#[test]
fn adjacent_triangles_leave_no_gap() {
    // two triangles sharing the edge (10,70)-(70,80), one on each side
    let mut r: Rasterizer<RGBA> = Rasterizer::new(200, 200);
    r.clear(black());
    r.triangle(
        Vec2::new(10, 70),
        Vec2::new(50, 160),
        Vec2::new(70, 80),
        white(),
    );
    r.triangle(
        Vec2::new(10, 70),
        Vec2::new(70, 80),
        Vec2::new(40, 20),
        white(),
    );

    let mut first: Rasterizer<RGBA> = Rasterizer::new(200, 200);
    first.clear(black());
    first.triangle(
        Vec2::new(10, 70),
        Vec2::new(50, 160),
        Vec2::new(70, 80),
        white(),
    );
    let mut second: Rasterizer<RGBA> = Rasterizer::new(200, 200);
    second.clear(black());
    second.triangle(
        Vec2::new(10, 70),
        Vec2::new(70, 80),
        Vec2::new(40, 20),
        white(),
    );

    for y in 0..200 {
        let first_covers = (0..200).any(|x| is_white(&first.image, x, y));
        let second_covers = (0..200).any(|x| is_white(&second.image, x, y));
        if first_covers && second_covers {
            // on a scanline both triangles cover, the union is one
            // contiguous white span: no unfilled pixel strictly between them
            let xs: Vec<usize> = (0..200).filter(|&x| is_white(&r.image, x, y)).collect();
            assert!(!xs.is_empty());
            let lo = xs[0];
            let hi = xs[xs.len() - 1];
            for x in lo..=hi {
                assert!(is_white(&r.image, x, y), "gap at ({x}, {y})");
            }
        }
    }
}

#[test]
fn triangle_fills_rows_between_lowest_and_highest_vertex() {
    let mut r: Rasterizer<RGBA> = Rasterizer::new(200, 200);
    r.clear(black());
    r.triangle(
        Vec2::new(10, 70),
        Vec2::new(50, 160),
        Vec2::new(70, 80),
        white(),
    );
    // rows strictly below the lowest vertex or at/above the highest are empty
    for y in 0..70 {
        assert!((0..200).all(|x| !is_white(&r.image, x, y)));
    }
    for y in 160..200 {
        assert!((0..200).all(|x| !is_white(&r.image, x, y)));
    }
    // a row in the middle holds a nonempty contiguous span
    let xs: Vec<usize> = (0..200).filter(|&x| is_white(&r.image, x, 100)).collect();
    assert!(!xs.is_empty());
    for x in xs[0]..=xs[xs.len() - 1] {
        assert!(is_white(&r.image, x, 100));
    }
}

#[test]
fn degenerate_triangle_draws_nothing() {
    // all three vertices on one horizontal row: total height zero
    let mut r: Rasterizer<RGBA> = Rasterizer::new(50, 50);
    r.clear(black());
    r.triangle(
        Vec2::new(5, 10),
        Vec2::new(20, 10),
        Vec2::new(40, 10),
        white(),
    );
    for y in 0..50 {
        for x in 0..50 {
            assert!(!is_white(&r.image, x, y));
        }
    }
}
