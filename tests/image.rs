use raytracer::image::{Image, Rgb};

fn band_colors(band: u8, len: usize) -> Vec<Rgb> {
    (0..len).map(|j| Rgb::new(band, j as u8, 7)).collect()
}

#[test]
fn new_image_is_black() {
    let img = Image::new(4, 3);
    assert_eq!(img.width(), 4);
    assert_eq!(img.height(), 3);
    for i in 0..12 {
        assert_eq!(img.pixel(i), Rgb::new(0, 0, 0));
    }
}

#[test]
fn place_band_writes_only_its_rows() {
    // 3 wide, 4 high, 2 workers: band 1 holds rows 2 and 3, the top two rows.
    let mut img = Image::new(3, 4);
    img.place_band(1, 2, &band_colors(9, 6));
    // Band order: row 2 left to right, then row 3. Row 3 is buffer row 0.
    let expected_top = [3u8, 4, 5];
    let expected_second = [0u8, 1, 2];
    for x in 0..3 {
        assert_eq!(img.pixel(x), Rgb::new(9, expected_top[x], 7));
        assert_eq!(img.pixel(3 + x), Rgb::new(9, expected_second[x], 7));
        assert_eq!(img.pixel(6 + x), Rgb::new(0, 0, 0));
        assert_eq!(img.pixel(9 + x), Rgb::new(0, 0, 0));
    }
}

#[test]
fn assemble_places_every_band() {
    let (width, height, workers) = (2usize, 4usize, 2usize);
    let bands = vec![band_colors(1, 4), band_colors(2, 4)];
    let img = Image::assemble(width, height, workers, &bands);
    let expected = [
        Rgb::new(2, 2, 7),
        Rgb::new(2, 3, 7),
        Rgb::new(2, 0, 7),
        Rgb::new(2, 1, 7),
        Rgb::new(1, 2, 7),
        Rgb::new(1, 3, 7),
        Rgb::new(1, 0, 7),
        Rgb::new(1, 1, 7),
    ];
    for i in 0..8 {
        assert_eq!(img.pixel(i), expected[i]);
    }
}

#[test]
fn assemble_leaves_leftover_rows_black() {
    // 5 rows over 2 workers: two rows each, the top row is left over.
    let bands = vec![band_colors(1, 2), band_colors(2, 2)];
    let img = Image::assemble(1, 5, 2, &bands);
    assert_eq!(img.pixel(0), Rgb::new(0, 0, 0));
    assert_eq!(img.pixel(1), Rgb::new(2, 1, 7));
    assert_eq!(img.pixel(2), Rgb::new(2, 0, 7));
    assert_eq!(img.pixel(3), Rgb::new(1, 1, 7));
    assert_eq!(img.pixel(4), Rgb::new(1, 0, 7));
}
