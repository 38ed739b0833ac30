use tracy::image::{Image, Rgb};
use tracy::ppm::{encode, push_decimal, push_header, push_pixel};

fn text(bytes: &[u8]) -> String {
    String::from_utf8(bytes.to_vec()).unwrap()
}

#[test]
fn decimal_of_zero_single_digit_and_max() {
    for (n, s) in [(0u32, "0"), (7, "7"), (10, "10"), (255, "255"), (4294967295, "4294967295")] {
        let mut out = Vec::new();
        push_decimal(&mut out, n);
        assert_eq!(text(&out), s);
    }
}

#[test]
fn decimal_appends_after_existing_bytes() {
    let mut out = b"x=".to_vec();
    push_decimal(&mut out, 120);
    assert_eq!(text(&out), "x=120");
}

#[test]
fn header_of_wide_image_is_exact() {
    let mut out = Vec::new();
    push_header(&mut out, 400, 225);
    assert_eq!(text(&out), "P3\n400 225\n255\n");
}

#[test]
fn pixel_line_is_three_decimals() {
    let mut out = Vec::new();
    push_pixel(&mut out, Rgb::new(255, 0, 37));
    assert_eq!(text(&out), "255 0 37\n");
}

#[test]
fn encode_places_rows_top_first() {
    let mut img = Image::new(2, 2);
    img.set(0, 0, Rgb::new(1, 2, 3));
    img.set(1, 0, Rgb::new(4, 5, 6));
    img.set(0, 1, Rgb::new(7, 8, 9));
    img.set(1, 1, Rgb::new(10, 11, 12));
    let out = encode(&img);
    assert_eq!(text(&out), "P3\n2 2\n255\n1 2 3\n4 5 6\n7 8 9\n10 11 12\n");
}

#[test]
fn encode_empty_image_is_header_only() {
    let img = Image::new(0, 0);
    assert_eq!(text(&encode(&img)), "P3\n0 0\n255\n");
}

#[test]
fn encode_full_size_stream_has_one_triplet_per_pixel() {
    let mut img = Image::new(400, 225);
    img.set(399, 224, Rgb::new(255, 255, 255));
    let s = text(&encode(&img));
    assert!(s.starts_with("P3\n400 225\n255\n"));
    let lines: Vec<&str> = s.lines().skip(3).collect();
    assert_eq!(lines.len(), 400 * 225);
    for line in &lines {
        let parts: Vec<u32> = line.split(' ').map(|p| p.parse().unwrap()).collect();
        assert_eq!(parts.len(), 3);
        assert!(parts.iter().all(|&v| v <= 255));
    }
    assert_eq!(lines[0], "0 0 0");
    assert_eq!(lines[400 * 225 - 1], "255 255 255");
}

#[test]
fn encode_twice_gives_identical_bytes() {
    let mut img = Image::new(3, 1);
    img.set(1, 0, Rgb::new(9, 99, 199));
    assert_eq!(encode(&img), encode(&img));
}
