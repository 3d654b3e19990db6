use buitenzorg::bytes::{be16, push_be16, push_le64, u16_at, u32_at, u64_at};
use buitenzorg::gfx::{glyph_height, glyph_raster, glyph_width};
use buitenzorg::text::{
    decimal_string, parse_u32, push_hex, push_padded, push_signed, starts_with, str_contains, utf8_text,
};

#[test]
fn parse_u32_reads_decimal_text() {
    assert_eq!(parse_u32("42"), Some(42));
    assert_eq!(parse_u32("+7"), Some(7));
    assert_eq!(parse_u32("4294967295"), Some(u32::MAX));
    assert_eq!(parse_u32("4294967296"), None);
    assert_eq!(parse_u32(""), None);
    assert_eq!(parse_u32("+"), None);
    assert_eq!(parse_u32("12a"), None);
    assert_eq!(parse_u32("-1"), None);
}

#[test]
fn decimal_and_hex_formatting() {
    assert_eq!(decimal_string(0), "0");
    assert_eq!(decimal_string(1234), "1234");
    assert_eq!(decimal_string(u64::MAX), "18446744073709551615");
    let mut s = String::from("0x");
    push_hex(&mut s, 0xB004);
    assert_eq!(s, "0xb004");
    let mut t = String::new();
    push_signed(&mut t, -42);
    push_signed(&mut t, 7);
    assert_eq!(t, "-427");
}

#[test]
fn utf8_text_accepts_only_utf8() {
    assert_eq!(utf8_text(b"halo"), Some(String::from("halo")));
    assert_eq!(utf8_text(&[0xE2, 0x80, 0x94]), Some(String::from("\u{2014}")));
    assert_eq!(utf8_text(&[0xFF, 0x41]), None);
}

#[test]
fn substring_and_prefix_search() {
    assert!(str_contains("registry", "gist"));
    assert!(str_contains("abc", ""));
    assert!(!str_contains("ab", "abc"));
    assert!(!str_contains("paint", "xox"));
    assert!(starts_with("/disk/A.TXT", "/disk/"));
    assert!(!starts_with("/dis", "/disk"));
}

#[test]
fn padding_fills_to_width() {
    let mut s = String::new();
    push_padded(&mut s, "ab", 5);
    push_padded(&mut s, "toolong", 3);
    assert_eq!(s, "ab   toolong");
}

#[test]
fn little_and_big_endian_fields() {
    let b = [0x34u8, 0x12, 0x78, 0x56, 0x01, 0x00, 0x00, 0x80];
    assert_eq!(u16_at(&b, 0), 0x1234);
    assert_eq!(u32_at(&b, 0), 0x5678_1234);
    assert_eq!(u64_at(&b, 0), 0x8000_0001_5678_1234);
    assert_eq!(be16(&b, 0), 0x3412);
    let mut v = Vec::new();
    push_be16(&mut v, 0x0800);
    push_le64(&mut v, 0x0102);
    assert_eq!(v, vec![0x08, 0x00, 0x02, 0x01, 0, 0, 0, 0, 0, 0]);
}

#[test]
fn font_metrics_come_from_the_font() {
    assert_eq!(glyph_width(), 7);
    assert_eq!(glyph_height(), 16);
    let (a, w) = glyph_raster('A');
    assert_eq!(w, 7);
    assert_eq!(a.len(), 112);
    assert!(a.iter().any(|&p| p > 0));
    let (q, _) = glyph_raster('?');
    let (fallback, _) = glyph_raster('\u{1F600}');
    assert_eq!(q, fallback);
}
