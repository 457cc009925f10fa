use wove::query::{parse_background, parse_cursor};

#[test]
fn replies_parse_with_surrounding_noise() {
    assert_eq!(parse_cursor(b"x\x1b[12;40R"), Some((39, 11)));
    assert_eq!(parse_cursor(b"\x1b[?62c"), None);
    assert_eq!(
        parse_background(b"\x1b]11;rgb:ffff/8080/0000\x1b\\\x1b[?62c"),
        Some((255, 128, 0))
    );
    assert_eq!(
        parse_background(b"\x1b]11;rgb:ff/00/7f\x07"),
        Some((255, 0, 127))
    );
    assert_eq!(parse_background(b"\x1b[?62c"), None);
}

#[test]
fn a_cursor_report_at_the_origin_is_zero_based() {
    assert_eq!(parse_cursor(b"\x1b[1;1R"), Some((0, 0)));
    assert_eq!(parse_cursor(b"\x1b[0;5R"), None);
    assert_eq!(parse_cursor(b"\x1b[3R"), None);
}

#[test]
fn a_background_channel_scales_by_its_digit_count() {
    assert_eq!(
        parse_background(b"\x1b]11;rgb:f/0/8\x1b\\"),
        Some((255, 0, 136))
    );
}
