use goout_calendar::text::decimal_string;
use goout_calendar::text::is_blank_str;
use goout_calendar::text::is_czech_code;
use goout_calendar::text::join_strings;

#[test]
fn decimal_of_zero_is_one_digit() {
    assert_eq!(decimal_string(0), "0");
}

#[test]
fn decimal_of_the_largest_number() {
    assert_eq!(decimal_string(u64::MAX), "18446744073709551615");
    assert_eq!(decimal_string(1_000_000_000_042), "1000000000042");
}

#[test]
fn join_puts_the_separator_between_parts_only() {
    let none: Vec<String> = vec![];
    assert_eq!(join_strings(&none, ", "), "");
    assert_eq!(join_strings(&vec!["a".to_string()], ", "), "a");
    assert_eq!(join_strings(&vec!["a".to_string(), "b".to_string(), "".to_string()], ", "), "a, b, ");
}

#[test]
fn blank_is_nothing_but_white_space() {
    assert!(is_blank_str(""));
    assert!(is_blank_str(" \t\r\n\u{a0}"));
    assert!(!is_blank_str(" x "));
}

#[test]
fn only_cs_is_czech() {
    assert!(is_czech_code("cs"));
    assert!(!is_czech_code("en"));
    assert!(!is_czech_code("c"));
    assert!(!is_czech_code("csx"));
    assert!(!is_czech_code("CS"));
    assert!(!is_czech_code(""));
}
