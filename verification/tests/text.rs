use usage_aggregator::text::parse_u32;
use usage_aggregator::text::str_eq;
use usage_aggregator::text::trim_str;
use usage_aggregator::text::u32_to_dec;

#[test]
fn parses_plain_decimal_numbers() {
    assert_eq!(parse_u32("0"), Some(0));
    assert_eq!(parse_u32("111"), Some(111));
    assert_eq!(parse_u32("+12"), Some(12));
    assert_eq!(parse_u32("4294967295"), Some(u32::MAX));
}

#[test]
fn rejects_text_that_is_not_a_non_negative_number() {
    assert_eq!(parse_u32(""), None);
    assert_eq!(parse_u32("+"), None);
    assert_eq!(parse_u32("abc"), None);
    assert_eq!(parse_u32("12a"), None);
    assert_eq!(parse_u32("-1"), None);
    assert_eq!(parse_u32(" 1"), None);
    assert_eq!(parse_u32("1 "), None);
    assert_eq!(parse_u32("4294967296"), None);
    assert_eq!(parse_u32("99999999999999999999"), None);
}

#[test]
fn prints_decimal_numbers() {
    assert_eq!(u32_to_dec(0), "0");
    assert_eq!(u32_to_dec(7), "7");
    assert_eq!(u32_to_dec(105), "105");
    assert_eq!(u32_to_dec(u32::MAX), "4294967295");
}

#[test]
fn compares_and_trims_text() {
    assert!(str_eq("abc", "abc"));
    assert!(!str_eq("abc", "abd"));
    assert!(!str_eq("abc", "ab"));
    assert_eq!(trim_str("  spaced out \n"), "spaced out");
    assert_eq!(trim_str("untouched"), "untouched");
    assert_eq!(trim_str(" \t "), "");
}
