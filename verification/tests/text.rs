use easymill::text::{
    chars_eq_str, contains_str, count_occurrences, decimal_string, find_char, parse_u32, push_decimal,
    push_two_digits,
};

fn chars(s: &str) -> Vec<char> {
    s.chars().collect()
}

#[test]
fn decimal_notation() {
    assert_eq!(decimal_string(0), "0");
    assert_eq!(decimal_string(1234), "1234");
    assert_eq!(decimal_string(u64::MAX), u64::MAX.to_string());
    let mut s = String::from("n=");
    push_decimal(&mut s, 907);
    assert_eq!(s, "n=907");
}

#[test]
fn two_digit_notation() {
    let mut s = String::new();
    push_two_digits(&mut s, 7);
    push_two_digits(&mut s, 42);
    push_two_digits(&mut s, 123);
    assert_eq!(s, "0742123");
}

#[test]
fn parse_u32_as_from_str() {
    assert_eq!(parse_u32(&chars("42")), Some(42));
    assert_eq!(parse_u32(&chars("+12")), Some(12));
    assert_eq!(parse_u32(&chars("007")), Some(7));
    assert_eq!(parse_u32(&chars("4294967295")), Some(u32::MAX));
    assert_eq!(parse_u32(&chars("4294967296")), None);
    assert_eq!(parse_u32(&chars("")), None);
    assert_eq!(parse_u32(&chars("+")), None);
    assert_eq!(parse_u32(&chars("-1")), None);
    assert_eq!(parse_u32(&chars("1a")), None);
}

#[test]
fn searching_characters() {
    assert_eq!(find_char(&chars("T12C0.8"), 'C'), Some(3));
    assert_eq!(find_char(&chars("T12"), 'C'), None);
    assert_eq!(count_occurrences(&chars("%AB*CD*%"), '*'), 2);
    assert!(contains_str(&chars("M48 header"), "M48"));
    assert!(!contains_str(&chars("M4"), "M48"));
    assert!(chars_eq_str(&chars("M30"), "M30"));
    assert!(!chars_eq_str(&chars("M30 "), "M30"));
}
