use wbor_studio_dashboard::parse::{parse_hex_u128, parse_u32};
use wbor_studio_dashboard::text::{find_str, str_equal, trim, DisplayText};
use wbor_studio_dashboard::timestamps::{
    can_fix_spinitron_timestamp, parse_rfc2822_timestamp, parse_rfc3339_timestamp,
    parse_spinitron_timestamp, utc_date,
};

const SEC: i64 = 1_000_000_000;

#[test]
fn display_text_cleanup() {
    assert_eq!(DisplayText::new("  Hi there \n").inner(), "Hi there");
    assert_eq!(DisplayText::new("a\tb").inner(), "a    b");
    assert_eq!(DisplayText::new("a\nb\rc").inner(), "a b c");
    assert_eq!(DisplayText::new("ok\u{FE0F}!").inner(), "ok!");
    assert_eq!(DisplayText::new(" \u{FE0F} ").inner(), "");
    assert_eq!(DisplayText::new("").inner(), "");
    assert_eq!(DisplayText::new("x").with_padding(" ", "").inner(), " x");
    assert_eq!(DisplayText::new("x").with_padding("", " ").inner(), "x ");
}

#[test]
fn trimming_and_search() {
    assert_eq!(trim("\u{3000} a b \t"), "a b");
    assert!(str_equal("abc", "abc"));
    assert!(!str_equal("abc", "abd"));
    assert_eq!(find_str("https://x.com/a.com", ".com"), Some(9));
    assert_eq!(find_str("abc", ""), Some(0));
    assert_eq!(find_str("ab", "abc"), None);
    assert_eq!(find_str("abab", "ba"), Some(1));
}

#[test]
fn decimal_parsing() {
    assert_eq!(parse_u32("42"), Some(42));
    assert_eq!(parse_u32("+7"), Some(7));
    assert_eq!(parse_u32("0007"), Some(7));
    assert_eq!(parse_u32("4294967295"), Some(u32::MAX));
    assert_eq!(parse_u32("4294967296"), None);
    assert_eq!(parse_u32("99999999999999999999"), None);
    assert_eq!(parse_u32(""), None);
    assert_eq!(parse_u32("+"), None);
    assert_eq!(parse_u32("-1"), None);
    assert_eq!(parse_u32("12a"), None);
}

#[test]
fn hex_parsing() {
    assert_eq!(parse_hex_u128("ff"), Some(255));
    assert_eq!(parse_hex_u128("+FF"), Some(255));
    assert_eq!(parse_hex_u128(""), None);
    assert_eq!(parse_hex_u128("+"), None);
    assert_eq!(parse_hex_u128("g"), None);
}

#[test]
fn timestamps() {
    assert_eq!(parse_rfc2822_timestamp("Wed, 18 Feb 2015 23:16:09 +0000"), Some(1_424_301_369 * SEC));
    assert_eq!(parse_rfc2822_timestamp("yesterday"), None);
    assert_eq!(parse_rfc3339_timestamp("2024-03-05T14:30:00Z"), Some(1_709_649_000 * SEC));
    assert_eq!(parse_rfc3339_timestamp("2024-03-05T14:30:00+0000"), None);
    assert!(can_fix_spinitron_timestamp("2024-03-05T14:30:00+0000"));
    assert!(!can_fix_spinitron_timestamp("0"));
    assert_eq!(parse_spinitron_timestamp("2024-03-05T14:30:00+0000"), Some(1_709_649_000 * SEC));
    assert_eq!(utc_date(1_709_649_000 * SEC), "2024-03-05");
    assert_eq!(utc_date(0), "1970-01-01");
}

#[test]
fn spinitron_timestamp_colon_goes_two_bytes_before_the_end() {
    // A last character of two bytes: the colon goes before it
    assert!(can_fix_spinitron_timestamp("2024-03-05T14:30:00+00é"));
    assert_eq!(parse_spinitron_timestamp("2024-03-05T14:30:00+00é"), None);
    // Byte two before the end falls inside a character
    assert!(!can_fix_spinitron_timestamp("+00é0"));
    assert!(!can_fix_spinitron_timestamp("€"));
    assert!(!can_fix_spinitron_timestamp(""));
    assert!(can_fix_spinitron_timestamp("00"));
}
