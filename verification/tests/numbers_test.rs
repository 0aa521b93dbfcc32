use mirage::{parse_i32, parse_u32, parse_u8, Rotation};

#[test]
fn parse_u32_reads_plain_and_signed_digits() {
    assert_eq!(parse_u32("0"), Some(0));
    assert_eq!(parse_u32("007"), Some(7));
    assert_eq!(parse_u32("+17"), Some(17));
    assert_eq!(parse_u32("4294967295"), Some(u32::MAX));
}

#[test]
fn parse_u32_rejects_malformed_tokens() {
    assert_eq!(parse_u32(""), None);
    assert_eq!(parse_u32("+"), None);
    assert_eq!(parse_u32("-1"), None);
    assert_eq!(parse_u32("12a"), None);
    assert_eq!(parse_u32("1 2"), None);
    assert_eq!(parse_u32("4294967296"), None);
    assert_eq!(parse_u32("99999999999999999999"), None);
}

#[test]
fn parse_u8_stops_at_byte_range() {
    assert_eq!(parse_u8("255"), Some(255));
    assert_eq!(parse_u8("+0"), Some(0));
    assert_eq!(parse_u8("256"), None);
}

#[test]
fn parse_i32_covers_the_whole_signed_range() {
    assert_eq!(parse_i32("2147483647"), Some(i32::MAX));
    assert_eq!(parse_i32("-2147483648"), Some(i32::MIN));
    assert_eq!(parse_i32("-0"), Some(0));
    assert_eq!(parse_i32("+90"), Some(90));
}

#[test]
fn parse_i32_rejects_out_of_range_and_malformed_tokens() {
    assert_eq!(parse_i32("2147483648"), None);
    assert_eq!(parse_i32("-2147483649"), None);
    assert_eq!(parse_i32("--1"), None);
    assert_eq!(parse_i32("ninety"), None);
    assert_eq!(parse_i32(""), None);
}

#[test]
fn rotation_accepts_exactly_the_three_magnitudes() {
    assert_eq!(Rotation::from_str("90"), Ok(Rotation::Ninety));
    assert_eq!(Rotation::from_str("180"), Ok(Rotation::OneEighty));
    assert_eq!(Rotation::from_str("270"), Ok(Rotation::TwoSeventy));
    assert_eq!(Rotation::from_str("090"), Ok(Rotation::Ninety));
    assert_eq!(Rotation::from_str("+270"), Ok(Rotation::TwoSeventy));
}

#[test]
fn rotation_rejects_every_other_token() {
    assert_eq!(Rotation::from_str("45"), Err("Must be one of 90, 180, 270"));
    assert_eq!(Rotation::from_str("360"), Err("Must be one of 90, 180, 270"));
    assert_eq!(Rotation::from_str("-90"), Err("Must be one of 90, 180, 270"));
    assert_eq!(Rotation::from_str("ninety"), Err("Must be one of 90, 180, 270"));
}

#[test]
fn rotation_reports_its_angle() {
    assert_eq!(Rotation::Ninety.degrees(), 90);
    assert_eq!(Rotation::OneEighty.degrees(), 180);
    assert_eq!(Rotation::TwoSeventy.degrees(), 270);
}
