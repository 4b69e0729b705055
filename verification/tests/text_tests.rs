use tv_resolver::text::{contains_substring, parse_usize, trim_str, u32_to_string};

#[test]
fn test_u32_to_string() {
    assert_eq!(u32_to_string(0), "0");
    assert_eq!(u32_to_string(42), "42");
    assert_eq!(u32_to_string(u32::MAX), "4294967295");
}

#[test]
fn test_parse_usize_accepts_numerals() {
    assert_eq!(parse_usize("0"), Some(0));
    assert_eq!(parse_usize("42"), Some(42));
    assert_eq!(parse_usize("+7"), Some(7));
}

#[test]
fn test_parse_usize_rejects_non_numerals() {
    assert_eq!(parse_usize(""), None);
    assert_eq!(parse_usize("+"), None);
    assert_eq!(parse_usize("4a"), None);
    assert_eq!(parse_usize("-3"), None);
    assert_eq!(parse_usize(" 3"), None);
}

#[test]
fn test_parse_usize_rejects_overflow() {
    assert_eq!(parse_usize("99999999999999999999999999"), None);
    assert_eq!(parse_usize(&usize::MAX.to_string()), Some(usize::MAX));
}

#[test]
fn test_trim_str() {
    assert_eq!(trim_str("  2\n"), "2");
    assert_eq!(trim_str("\t a b \r\n"), "a b");
    assert_eq!(trim_str("\u{00A0}x\u{3000}"), "x");
    assert_eq!(trim_str(""), "");
    assert_eq!(trim_str(" \n "), "");
}

#[test]
fn test_contains_substring() {
    assert!(contains_substring("abcdef", "cde"));
    assert!(contains_substring("abcdef", ""));
    assert!(!contains_substring("abcdef", "cdf"));
    assert!(!contains_substring("ab", "abc"));
}
