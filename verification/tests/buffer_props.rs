use tinyrenderer::tga::{Grayscale, Image, RGB, RGBA};

#[test]
fn new_fills_with_zero() {
    let img: Image<RGBA> = Image::new(4, 3);
    for y in 0..3 {
        for x in 0..4 {
            assert_eq!(img.get(x, y), Some(RGBA { r: 0, g: 0, b: 0, a: 0 }));
        }
    }
    assert_eq!(img.width(), 4);
    assert_eq!(img.height(), 3);
}

#[test]
fn clear_overwrites_every_pixel() {
    let mut img: Image<RGB> = Image::new(7, 5);
    let c = RGB { r: 10, g: 20, b: 30 };
    img.clear(c);
    for y in 0..5 {
        for x in 0..7 {
            assert_eq!(img.get(x, y), Some(c));
        }
    }
}

#[test]
fn set_out_of_bounds_is_rejected_and_harmless() {
    let mut img: Image<Grayscale> = Image::new(6, 4);
    img.clear(Grayscale { i: 9 });
    let before = img.raw_bytes();
    // x == width
    assert!(img.set(6, 0, Grayscale { i: 1 }).is_err());
    // y == height
    assert!(img.set(0, 4, Grayscale { i: 1 }).is_err());
    // far out of range
    assert!(img.set(100, 100, Grayscale { i: 1 }).is_err());
    assert_eq!(img.raw_bytes(), before);
    // the corner just inside is accepted
    assert!(img.set(5, 3, Grayscale { i: 1 }).is_ok());
    assert_eq!(img.get(5, 3), Some(Grayscale { i: 1 }));
}

#[test]
fn set_writes_exactly_one_pixel() {
    let mut img: Image<Grayscale> = Image::new(3, 3);
    img.clear(Grayscale { i: 0 });
    img.set(1, 2, Grayscale { i: 77 }).unwrap();
    for y in 0..3 {
        for x in 0..3 {
            let expected = if x == 1 && y == 2 { 77 } else { 0 };
            assert_eq!(img.get(x, y), Some(Grayscale { i: expected }));
        }
    }
}

#[test]
fn raw_bytes_are_in_storage_order() {
    let mut img: Image<RGB> = Image::new(2, 1);
    img.set(0, 0, RGB { r: 1, g: 2, b: 3 }).unwrap();
    img.set(1, 0, RGB { r: 4, g: 5, b: 6 }).unwrap();
    // blue-green-red order per pixel, row-major
    assert_eq!(img.raw_bytes(), vec![3, 2, 1, 6, 5, 4]);
}

#[test]
fn raw_bytes_rgba_order() {
    let mut img: Image<RGBA> = Image::new(1, 1);
    img.set(0, 0, RGBA { r: 1, g: 2, b: 3, a: 4 }).unwrap();
    assert_eq!(img.raw_bytes(), vec![3, 2, 1, 4]);
}
