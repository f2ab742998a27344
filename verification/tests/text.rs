use wgmesh::num::{parse_signed, parse_unsigned, show, show_signed, IntError};
use wgmesh::text::{
    before, contains_text, join_from, lines, split, split_words, starts_with, trim, trim_end_char,
    Sep,
};

#[test]
fn texts_are_trimmed_and_split() {
    assert_eq!(trim(" \u{2003}a b\u{85}\n"), "a b");
    assert_eq!(trim_end_char("http://h//", '/'), "http://h");
    assert_eq!(lines("a\r\nb\n\nc"), vec!["a", "b", "", "c"]);
    assert_eq!(lines("a\n"), vec!["a"]);
    assert!(lines("").is_empty());
    assert_eq!(lines("a\r"), vec!["a\r"]);
    assert_eq!(split("a//b", Sep::Char('/')), vec!["a", "", "b"]);
    assert_eq!(split_words("  a\t b "), vec!["a", "b"]);
    assert_eq!(join_from(&vec!["a".to_string(), "b".to_string()], 0, ", "), "a, b");
}

#[test]
fn texts_are_compared_by_code_point() {
    assert!(before("10", "9"));
    assert!(before("a", "ab"));
    assert!(!before("b", "ab"));
    assert!(!before("a", "a"));
    assert!(before("z", "\u{e9}"));
    assert!(contains_text("a file exists", "exists"));
    assert!(!contains_text("exist", "exists"));
    assert!(starts_with("ssh-rsa", "ssh-"));
    assert!(!starts_with("ss", "ssh-"));
}

#[test]
fn numbers_are_written_and_read() {
    assert_eq!(show(0), "0");
    assert_eq!(show(u64::MAX), "18446744073709551615");
    assert_eq!(show_signed(i64::MIN), "-9223372036854775808");
    assert_eq!(parse_signed("-9223372036854775808"), Ok(i64::MIN));
    assert_eq!(parse_signed("+5"), Ok(5));
    assert_eq!(parse_signed("-9223372036854775809"), Err(IntError::NegOverflow));
    assert_eq!(parse_signed("9223372036854775808"), Err(IntError::PosOverflow));
    assert_eq!(parse_signed("-"), Err(IntError::InvalidDigit));
    assert_eq!(parse_unsigned("", 9), Err(IntError::Empty));
    assert_eq!(parse_unsigned("-1", 9), Err(IntError::InvalidDigit));
    assert_eq!(parse_unsigned("10", 9), Err(IntError::PosOverflow));
    assert_eq!(parse_unsigned("007", 9), Ok(7));
    assert_eq!(IntError::NegOverflow.message(), "number too small to fit in target type");
    assert_eq!(IntError::InvalidDigit.message(), "invalid digit found in string");
}
