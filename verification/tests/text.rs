use plm::text::{split_char, starts_with, str_equal, to_decimal, trim};

#[test]
fn trim_removes_unicode_whitespace() {
    assert_eq!(trim("  \t a b \u{3000}\n"), "a b");
    assert_eq!(trim(""), "");
    assert_eq!(trim(" \u{a0} "), "");
    assert_eq!(trim("x"), "x");
}

#[test]
fn split_keeps_empty_pieces() {
    assert_eq!(split_char("a,,b,", ','), vec!["a", "", "b", ""]);
    assert_eq!(split_char("", ','), vec![""]);
    assert_eq!(split_char("abc", ','), vec!["abc"]);
}

#[test]
fn prefixes_and_equality() {
    assert!(starts_with("Bearer x", "Bearer "));
    assert!(!starts_with("Bear", "Bearer"));
    assert!(str_equal("héllo", "héllo"));
    assert!(!str_equal("a", "ab"));
}

#[test]
fn decimal_form() {
    assert_eq!(to_decimal(0), "0");
    assert_eq!(to_decimal(7), "7");
    assert_eq!(to_decimal(1024), "1024");
    assert_eq!(to_decimal(u64::MAX), u64::MAX.to_string());
}
