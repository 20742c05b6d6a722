use tinyrenderer::tga::{Image, RGBA};

#[test]
fn create_tga_file_test_tga() {
    let mut img: Image<RGBA> = Image::new(640, 480);
    for y in 0u32..480 {
        for x in 0u32..640 {
            let r = ((x ^ y) % 256) as u8;
            let g = ((x + y) % 256) as u8;
            let b = ((y.wrapping_sub(x)) % 256) as u8;
            let a = 255_u8;
            img.set(x as usize, y as usize, RGBA { r, g, b, a }).unwrap();
        }
    }
    let encoded = img.encode(true, false);
    assert_eq!(encoded.len(), 18 + 640 * 480 * 4 + 26);
}
