use theme_switch::color::Color;
use theme_switch::extract::{extract_color, str_contains, trim_str, ParseError};

fn lines(texts: &[&str]) -> Vec<String> {
    texts.iter().map(|t| t.to_string()).collect()
}

#[test]
fn extract_simple_literal() {
    // literal '#001122': prefix '# is skipped, channels from "001122"
    let l = lines(&["background = '#001122'"]);
    assert_eq!(extract_color(&l), Ok(Color { r: 0x00, g: 0x11, b: 0x22 }));
}

#[test]
fn extract_pins_offsets() {
    // the first channel comes from characters 2 and 3 of the literal
    let l = lines(&["background = '#aa112233'"]);
    assert_eq!(extract_color(&l), Ok(Color { r: 0xaa, g: 0x11, b: 0x22 }));
}

#[test]
fn extract_ignores_alpha() {
    // characters beyond the 8th are ignored
    let l = lines(&["background = '#01020304'"]);
    assert_eq!(extract_color(&l), Ok(Color { r: 1, g: 2, b: 3 }));
}

#[test]
fn extract_skips_comment_lines() {
    let l = lines(&["# background = '#ffffff'", "background = '#0a0b0c'"]);
    assert_eq!(extract_color(&l), Ok(Color { r: 10, g: 11, b: 12 }));
}

#[test]
fn extract_first_match_wins() {
    let l = lines(&["background = '#010101'", "background = '#020202'"]);
    assert_eq!(extract_color(&l), Ok(Color { r: 1, g: 1, b: 1 }));
}

#[test]
fn extract_upper_case_digits() {
    let l = lines(&["background = '#A0B1C2'"]);
    assert_eq!(extract_color(&l), Ok(Color { r: 0xa0, g: 0xb1, b: 0xc2 }));
}

#[test]
fn extract_no_background_line() {
    let l = lines(&["foo = 1", "bar = 2"]);
    assert_eq!(extract_color(&l), Err(ParseError));
}

#[test]
fn extract_no_delimiter() {
    let l = lines(&["background '#001122'"]);
    assert_eq!(extract_color(&l), Err(ParseError));
}

#[test]
fn extract_short_literal() {
    // an unquoted 6-digit literal is only 7 characters: too short
    let l = lines(&["background = #102030"]);
    assert_eq!(extract_color(&l), Err(ParseError));
}

#[test]
fn extract_bad_hex_digit() {
    let l = lines(&["background = '#0g1122'"]);
    assert_eq!(extract_color(&l), Err(ParseError));
}

#[test]
fn extract_empty_input() {
    let l: Vec<String> = Vec::new();
    assert_eq!(extract_color(&l), Err(ParseError));
}

#[test]
fn contains_finds_substring() {
    assert!(str_contains("the background color", "background"));
    assert!(!str_contains("the foreground color", "background"));
    assert!(str_contains("abc", ""));
    assert!(!str_contains("ab", "abc"));
}

#[test]
fn trim_strips_whitespace() {
    assert_eq!(trim_str("  '#001122'\t"), "'#001122'");
    assert_eq!(trim_str("   "), "");
    assert_eq!(trim_str("x"), "x");
}
