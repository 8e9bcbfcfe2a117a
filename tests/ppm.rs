use raytracer::image::{Image, Rgb};
use raytracer::ppm::{encode, header, push_decimal, push_pixel};

/// The ASCII-PPM magic number followed by `rest`.
fn ppm(rest: &[u8]) -> Vec<u8> {
    let mut out = vec![b'P', b'3'];
    out.extend_from_slice(rest);
    out
}

#[test]
fn decimal_digits() {
    for (n, text) in [(0usize, "0"), (7, "7"), (10, "10"), (255, "255"), (960, "960"), (1000007, "1000007")] {
        let mut out = b"x".to_vec();
        push_decimal(&mut out, n);
        assert_eq!(out, format!("x{}", text).into_bytes());
    }
}

#[test]
fn header_names_size_and_maximum() {
    assert_eq!(header(960, 540), ppm(b"\n960 540\n255\n"));
    assert_eq!(header(100, 56), ppm(b"\n100 56\n255\n"));
}

#[test]
fn pixel_line_is_three_channels() {
    let mut out = Vec::new();
    push_pixel(&mut out, Rgb::new(255, 0, 17));
    assert_eq!(out, b"255 0 17\n".to_vec());
}

#[test]
fn encode_writes_header_then_pixels_in_buffer_order() {
    let bands = vec![vec![Rgb::new(1, 2, 3), Rgb::new(4, 5, 6)], vec![Rgb::new(10, 20, 30), Rgb::new(255, 255, 255)]];
    let img = Image::assemble(2, 2, 2, &bands);
    let text = String::from_utf8(encode(&img)).unwrap();
    assert_eq!(text.into_bytes(), ppm(b"\n2 2\n255\n10 20 30\n255 255 255\n1 2 3\n4 5 6\n"));
}

#[test]
fn encode_black_image() {
    let img = Image::new(1, 2);
    assert_eq!(encode(&img), ppm(b"\n1 2\n255\n0 0 0\n0 0 0\n"));
}

#[test]
fn encode_is_reproducible() {
    let bands: Vec<Vec<Rgb>> = (0..4u8).map(|b| (0..30u8).map(|j| Rgb::new(b, j, b ^ j)).collect()).collect();
    let a = encode(&Image::assemble(10, 13, 4, &bands));
    let b = encode(&Image::assemble(10, 13, 4, &bands));
    assert_eq!(a, b);
    assert!(a.starts_with(&ppm(b"\n10 13\n255\n0 0 0\n")));
    assert_eq!(a.iter().filter(|&&c| c == b'\n').count(), 3 + 130);
}
