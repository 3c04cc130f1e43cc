use raytracer::ppm::{encode_ppm, parse_header, pixel_line, Header, Rgb, MAX_VALUE};

fn px(r: u8, g: u8, b: u8) -> Rgb {
    Rgb { r, g, b }
}

#[test]
fn pixel_line_spells_channels() {
    assert_eq!(pixel_line(px(0, 7, 255)), "0 7 255");
    assert_eq!(pixel_line(px(10, 100, 99)), "10 100 99");
}

#[test]
fn encodes_small_frame() {
    let pixels = vec![px(255, 0, 0), px(0, 255, 0), px(0, 0, 255), px(12, 34, 56)];
    let text = encode_ppm(2, 2, &pixels);
    assert_eq!(text, "P3\n2 2\n255\n255 0 0\n0 255 0\n0 0 255\n12 34 56\n");
}

#[test]
fn encodes_single_pixel() {
    let text = encode_ppm(1, 1, &vec![px(1, 2, 3)]);
    assert_eq!(text, "P3\n1 1\n255\n1 2 3\n");
}

#[test]
fn encodes_empty_frame() {
    let text = encode_ppm(0, 5, &vec![]);
    assert_eq!(text, "P3\n0 5\n255\n\n");
}

#[test]
fn header_round_trip() {
    let width: u32 = 3;
    let height: u32 = 2;
    let pixels: Vec<Rgb> = (0..6u8).map(|i| px(i, i * 2, i * 3)).collect();
    let text = encode_ppm(width, height, &pixels);
    let header = parse_header(&text).unwrap();
    assert_eq!(header, Header { width: 3, height: 2, max_value: 255 });
    assert_eq!(header.max_value, MAX_VALUE as u32);
}

#[test]
fn header_round_trip_wide_frame() {
    let width: u32 = 400;
    let height: u32 = 1;
    let pixels = vec![px(9, 9, 9); 400];
    let text = encode_ppm(width, height, &pixels);
    assert_eq!(parse_header(&text), Some(Header { width: 400, height: 1, max_value: 255 }));
}

#[test]
fn header_of_largest_fields() {
    let text = "P3\n4294967295 4294967295\n255\n";
    assert_eq!(
        parse_header(text),
        Some(Header { width: 4294967295, height: 4294967295, max_value: 255 })
    );
}

#[test]
fn header_with_leading_zeros() {
    assert_eq!(
        parse_header("P3\n007 08\n0255\n"),
        Some(Header { width: 7, height: 8, max_value: 255 })
    );
}

#[test]
fn header_field_too_large() {
    assert_eq!(parse_header("P3\n4294967296 1\n255\n"), None);
    assert_eq!(parse_header("P3\n1 1\n99999999999999999999\n"), None);
}

#[test]
fn header_wrong_magic() {
    assert_eq!(parse_header("P6\n2 2\n255\n"), None);
    assert_eq!(parse_header("P3 2 2\n255\n"), None);
    assert_eq!(parse_header(""), None);
}

#[test]
fn header_missing_or_empty_fields() {
    assert_eq!(parse_header("P3\n2 2\n"), None);
    assert_eq!(parse_header("P3\n 2\n255\n"), None);
    assert_eq!(parse_header("P3\n2  2\n255\n"), None);
    assert_eq!(parse_header("P3\n2 2\n255"), None);
    assert_eq!(parse_header("P3\n2x2\n255\n"), None);
}
