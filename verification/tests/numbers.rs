//! Duration parsing and decimal rendering.

use media_scanner::numbers::parse_duration_ms;
use media_scanner::numbers::u32_to_string;

#[test]
fn fractional_duration_parses_to_milliseconds() {
    assert_eq!(parse_duration_ms("210.5"), Some(210500));
}

#[test]
fn whole_duration_parses() {
    assert_eq!(parse_duration_ms("0"), Some(0));
    assert_eq!(parse_duration_ms("3"), Some(3000));
    assert_eq!(parse_duration_ms("185"), Some(185000));
}

#[test]
fn bare_fraction_and_trailing_dot_parse() {
    assert_eq!(parse_duration_ms(".5"), Some(500));
    assert_eq!(parse_duration_ms("5."), Some(5000));
}

#[test]
fn fraction_precision_is_milliseconds() {
    assert_eq!(parse_duration_ms("1.2"), Some(1200));
    assert_eq!(parse_duration_ms("1.23"), Some(1230));
    assert_eq!(parse_duration_ms("1.234"), Some(1234));
    assert_eq!(parse_duration_ms("1.2345"), Some(1234));
}

#[test]
fn malformed_durations_are_rejected() {
    assert_eq!(parse_duration_ms(""), None);
    assert_eq!(parse_duration_ms("."), None);
    assert_eq!(parse_duration_ms("abc"), None);
    assert_eq!(parse_duration_ms("1.2.3"), None);
    assert_eq!(parse_duration_ms("-5"), None);
    assert_eq!(parse_duration_ms("1e3"), None);
    assert_eq!(parse_duration_ms("12 "), None);
}

#[test]
fn huge_durations_saturate() {
    assert_eq!(parse_duration_ms("99999999999999999999999"), Some(u64::MAX));
}

#[test]
fn years_render_in_decimal() {
    assert_eq!(u32_to_string(0), "0");
    assert_eq!(u32_to_string(7), "7");
    assert_eq!(u32_to_string(2021), "2021");
    assert_eq!(u32_to_string(1999), "1999");
    assert_eq!(u32_to_string(u32::MAX), "4294967295");
}
