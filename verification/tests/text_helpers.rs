use posture_core::text::find_char;
use posture_core::text::join_from;
use posture_core::text::parse_u8_digits;
use posture_core::text::split_char;
use posture_core::text::str_eq;
use posture_core::text::trim_str;

#[test]
fn str_eq_compares_characters() {
    assert!(str_eq("abc", "abc"));
    assert!(!str_eq("abc", "abd"));
    assert!(!str_eq("abc", "ab"));
    assert!(str_eq("", ""));
}

#[test]
fn trim_removes_ascii_whitespace() {
    assert_eq!(trim_str("  hello \t"), "hello");
    assert_eq!(trim_str("hello"), "hello");
    assert_eq!(trim_str(" \r\n "), "");
    assert_eq!(trim_str("a b"), "a b");
}

#[test]
fn split_keeps_empty_pieces() {
    assert_eq!(split_char("a,b,c", ','), vec!["a", "b", "c"]);
    assert_eq!(split_char("a,,c", ','), vec!["a", "", "c"]);
    assert_eq!(split_char(",", ','), vec!["", ""]);
    assert_eq!(split_char("abc", ','), vec!["abc"]);
    assert_eq!(split_char("", ','), vec![""]);
}

#[test]
fn join_reinserts_separator() {
    let parts = vec![String::from("a"), String::from("b"), String::from("c")];
    assert_eq!(join_from(&parts, 0, ", "), "a, b, c");
    assert_eq!(join_from(&parts, 1, ", "), "b, c");
    assert_eq!(join_from(&parts, 3, ", "), "");
}

#[test]
fn find_first_occurrence() {
    assert_eq!(find_char("a-b-c", '-'), Some(1));
    assert_eq!(find_char("abc", '-'), None);
}

#[test]
fn parse_u8_digits_bounds() {
    assert_eq!(parse_u8_digits("0"), Some(0));
    assert_eq!(parse_u8_digits("255"), Some(255));
    assert_eq!(parse_u8_digits("256"), None);
    assert_eq!(parse_u8_digits("12a"), None);
    assert_eq!(parse_u8_digits(""), None);
    assert_eq!(parse_u8_digits("007"), Some(7));
    assert_eq!(parse_u8_digits("99999999999999999999"), None);
}
