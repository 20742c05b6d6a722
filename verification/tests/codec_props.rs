use tinyrenderer::codec::decode_rle;
use tinyrenderer::tga::{Grayscale, Image, RGB, RGBA};

fn payload(encoded: &[u8]) -> Vec<u8> {
    encoded[18..encoded.len() - 26].to_vec()
}

#[test]
fn header_fields_rgba_uncompressed_vflip() {
    let img: Image<RGBA> = Image::new(100, 100);
    let enc = img.encode(true, false);
    // image type: uncompressed color
    assert_eq!(enc[2], 2);
    // id length, color-map fields and origin offsets are all zero
    assert_eq!(enc[0], 0);
    assert_eq!(enc[1], 0);
    for k in 3..12 {
        assert_eq!(enc[k], 0);
    }
    // width and height, little-endian
    assert_eq!(&enc[12..14], &[100, 0]);
    assert_eq!(&enc[14..16], &[100, 0]);
    // pixel depth in bits
    assert_eq!(enc[16], 32);
    // vertical flip requested: bottom-left origin, bit 5 clear
    assert_eq!(enc[17], 0x00);
}

#[test]
fn header_image_type_codes() {
    let g: Image<Grayscale> = Image::new(5, 5);
    assert_eq!(g.encode(false, false)[2], 3);
    assert_eq!(g.encode(false, true)[2], 11);
    let c: Image<RGB> = Image::new(5, 5);
    assert_eq!(c.encode(false, false)[2], 2);
    assert_eq!(c.encode(false, true)[2], 10);
    // no flip: top-left origin, bit 5 set
    assert_eq!(c.encode(false, false)[17], 0x20);
    // 3 bytes per pixel
    assert_eq!(c.encode(false, false)[16], 24);
}

#[test]
fn trailer_is_fixed() {
    let img: Image<Grayscale> = Image::new(2, 2);
    let enc = img.encode(false, false);
    let t = &enc[enc.len() - 26..];
    assert_eq!(&t[0..8], &[0u8; 8]);
    assert_eq!(&t[8..26], b"TRUEVISION-XFILE.\0");
}

#[test]
fn raw_payload_is_raw_bytes() {
    let mut img: Image<RGB> = Image::new(3, 2);
    let mut v = 0u8;
    for y in 0..2 {
        for x in 0..3 {
            img.set(x, y, RGB { r: v, g: v + 1, b: v + 2 }).unwrap();
            v += 3;
        }
    }
    let enc = img.encode(false, false);
    assert_eq!(payload(&enc), img.raw_bytes());
}

#[test]
fn uniform_run_fits_one_packet() {
    // A single run of 100 identical pixels fits one run-length packet:
    // header byte 127 + 100 = 227, then the one pixel's bytes.
    let mut img: Image<Grayscale> = Image::new(100, 1);
    img.clear(Grayscale { i: 42 });
    let enc = img.encode(false, true);
    let p = payload(&enc);
    assert_eq!(p.len(), 2);
    assert_eq!(p[0], 227);
    assert_eq!(p[1], 42);
}

#[test]
fn uniform_buffer_splits_at_packet_cap() {
    // 100 x 100 identical pixels: 78 full packets of 128 and one of 16.
    let mut img: Image<Grayscale> = Image::new(100, 100);
    img.clear(Grayscale { i: 42 });
    let enc = img.encode(false, true);
    let p = payload(&enc);
    assert_eq!(p.len(), 79 * 2);
    for k in 0..78 {
        assert_eq!(p[2 * k], 127 + 128);
        assert_eq!(p[2 * k + 1], 42);
    }
    assert_eq!(p[2 * 78], 127 + 16);
    assert_eq!(p[2 * 78 + 1], 42);
}

#[test]
fn alternating_pixels_use_raw_packets() {
    let mut img: Image<Grayscale> = Image::new(6, 1);
    for x in 0..6 {
        img.set(x, 0, Grayscale { i: (x % 2) as u8 }).unwrap();
    }
    let enc = img.encode(false, true);
    // one raw packet: header 6 - 1 = 5, then the six bytes verbatim
    assert_eq!(payload(&enc), vec![5, 0, 1, 0, 1, 0, 1]);
}

#[test]
fn raw_packet_stops_before_a_run() {
    // A B B: a raw packet holding only A, then a run packet of two Bs.
    let mut img: Image<Grayscale> = Image::new(3, 1);
    img.set(0, 0, Grayscale { i: 7 }).unwrap();
    img.set(1, 0, Grayscale { i: 9 }).unwrap();
    img.set(2, 0, Grayscale { i: 9 }).unwrap();
    let enc = img.encode(false, true);
    assert_eq!(payload(&enc), vec![0, 7, 129, 9]);
}

#[test]
fn round_trip_uniform_buffer() {
    let mut img: Image<RGBA> = Image::new(50, 2);
    img.clear(RGBA { r: 1, g: 2, b: 3, a: 4 });
    let enc = img.encode(true, true);
    let decoded = decode_rle(&payload(&enc), 4);
    assert_eq!(decoded, img.raw_bytes());
}

#[test]
fn round_trip_random_buffer() {
    let mut img: Image<RGB> = Image::new(37, 11);
    for y in 0..11 {
        for x in 0..37 {
            let c = RGB {
                r: rand::random::<u8>() % 4,
                g: rand::random::<u8>() % 4,
                b: rand::random::<u8>() % 4,
            };
            img.set(x, y, c).unwrap();
        }
    }
    let enc = img.encode(true, true);
    let decoded = decode_rle(&payload(&enc), 3);
    assert_eq!(decoded, img.raw_bytes());
}

#[test]
fn round_trip_fully_random_bytes() {
    let mut img: Image<Grayscale> = Image::new(64, 16);
    for y in 0..16 {
        for x in 0..64 {
            img.set(x, y, Grayscale { i: rand::random::<u8>() }).unwrap();
        }
    }
    let enc = img.encode(false, true);
    let decoded = decode_rle(&payload(&enc), 1);
    assert_eq!(decoded, img.raw_bytes());
}

#[test]
fn rle_stream_is_never_longer_than_worst_case() {
    // every packet covers at least one pixel, so the payload never holds
    // more than two bytes per pixel for grayscale
    let mut img: Image<Grayscale> = Image::new(16, 4);
    for y in 0..4 {
        for x in 0..16 {
            img.set(x, y, Grayscale { i: rand::random::<u8>() % 2 }).unwrap();
        }
    }
    let enc = img.encode(false, true);
    assert!(payload(&enc).len() <= 2 * 16 * 4);
}
