//! Parsing of sector-range list lines: decimal fields, comments, trimming,
//! and the invalid shapes.

use tcfinder::ranges::{parse_range_line, parse_u64_dec, RangeLine};

#[test]
fn parses_plain_decimal() {
    assert_eq!(parse_u64_dec(b"0"), Some(0));
    assert_eq!(parse_u64_dec(b"1024"), Some(1024));
    assert_eq!(parse_u64_dec(b"18446744073709551615"), Some(u64::MAX));
}

#[test]
fn rejects_bad_decimal() {
    assert_eq!(parse_u64_dec(b""), None);
    assert_eq!(parse_u64_dec(b"12a"), None);
    assert_eq!(parse_u64_dec(b" 12"), None);
    // One past u64::MAX.
    assert_eq!(parse_u64_dec(b"18446744073709551616"), None);
}

#[test]
fn parses_range_lines() {
    assert_eq!(parse_range_line(b"0;100"), RangeLine::Range(0, 100));
    assert_eq!(parse_range_line(b"42;42"), RangeLine::Range(42, 42));
    // Text past a second separator is ignored.
    assert_eq!(parse_range_line(b"7;9;junk"), RangeLine::Range(7, 9));
}

#[test]
fn strips_comments_and_trims() {
    assert_eq!(parse_range_line(b"10;20 # the boot partition"), RangeLine::Range(10, 20));
    assert_eq!(parse_range_line(b"  3;4  # padded"), RangeLine::Range(3, 4));
    assert_eq!(parse_range_line(b"# only a comment"), RangeLine::Blank);
    assert_eq!(parse_range_line(b""), RangeLine::Blank);
}

#[test]
fn flags_invalid_lines() {
    assert_eq!(parse_range_line(b"17"), RangeLine::Invalid);
    assert_eq!(parse_range_line(b"a;b"), RangeLine::Invalid);
    assert_eq!(parse_range_line(b";5"), RangeLine::Invalid);
    assert_eq!(parse_range_line(b"5;"), RangeLine::Invalid);
    // Without a comment the line is not trimmed, as the reader reads it.
    assert_eq!(parse_range_line(b" 5;6"), RangeLine::Invalid);
}
