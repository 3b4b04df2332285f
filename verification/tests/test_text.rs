use hirust::text::{
    chars_of, contains, parse_i64, push_decimal, push_decimal_nat, push_two_digits, split_chars,
    string_of,
};

fn decimal(n: i64) -> String {
    let mut s = String::new();
    push_decimal(&mut s, n);
    s
}

fn parse(text: &str) -> Option<i64> {
    let chars = chars_of(text);
    parse_i64(&chars, 0, chars.len())
}

fn pieces(text: &str, sep: char) -> Vec<String> {
    let chars = chars_of(text);
    split_chars(&chars, 0, chars.len(), sep)
        .into_iter()
        .map(|(from, to)| string_of(&chars, from, to))
        .collect()
}

#[test]
fn characters_round_trip() {
    let chars = chars_of("a\u{e9}\u{4e2d}z");
    assert_eq!(chars, vec!['a', '\u{e9}', '\u{4e2d}', 'z']);
    assert_eq!(string_of(&chars, 0, 4), "a\u{e9}\u{4e2d}z");
    assert_eq!(string_of(&chars, 1, 3), "\u{e9}\u{4e2d}");
    assert_eq!(string_of(&chars, 2, 2), "");
}

#[test]
fn decimal_of_naturals() {
    let mut s = String::from("x");
    push_decimal_nat(&mut s, 0);
    assert_eq!(s, "x0");
    push_decimal_nat(&mut s, 907);
    assert_eq!(s, "x0907");
    let mut t = String::new();
    push_decimal_nat(&mut t, u64::MAX);
    assert_eq!(t, "18446744073709551615");
}

#[test]
fn decimal_of_integers() {
    assert_eq!(decimal(0), "0");
    assert_eq!(decimal(7), "7");
    assert_eq!(decimal(10), "10");
    assert_eq!(decimal(-1), "-1");
    assert_eq!(decimal(1565395200), "1565395200");
    assert_eq!(decimal(i64::MAX), "9223372036854775807");
    assert_eq!(decimal(i64::MIN), "-9223372036854775808");
}

#[test]
fn two_digits_fill_with_a_zero() {
    let mut s = String::new();
    push_two_digits(&mut s, 0);
    push_two_digits(&mut s, 7);
    push_two_digits(&mut s, 10);
    push_two_digits(&mut s, 59);
    assert_eq!(s, "00071059");
    let mut wide = String::new();
    push_two_digits(&mut wide, 123);
    assert_eq!(wide, "123");
}

#[test]
fn integers_are_read() {
    assert_eq!(parse("0"), Some(0));
    assert_eq!(parse("42"), Some(42));
    assert_eq!(parse("-42"), Some(-42));
    assert_eq!(parse("+42"), Some(42));
    assert_eq!(parse("007"), Some(7));
    assert_eq!(parse("-0"), Some(0));
    assert_eq!(parse("9223372036854775807"), Some(i64::MAX));
    assert_eq!(parse("-9223372036854775808"), Some(i64::MIN));
}

#[test]
fn what_is_no_integer_is_not_read() {
    assert_eq!(parse(""), None);
    assert_eq!(parse("-"), None);
    assert_eq!(parse("+"), None);
    assert_eq!(parse("12a"), None);
    assert_eq!(parse("a12"), None);
    assert_eq!(parse(" 12"), None);
    assert_eq!(parse("12 "), None);
    assert_eq!(parse("--1"), None);
    assert_eq!(parse("1.5"), None);
    assert_eq!(parse("9223372036854775808"), None);
    assert_eq!(parse("-9223372036854775809"), None);
    assert_eq!(parse("99999999999999999999999999"), None);
    assert_eq!(parse("\u{661}\u{662}"), None);
}

#[test]
fn reading_agrees_with_the_standard_library() {
    for text in ["5", "-5", "+5", "", "+", "-", "0005", "1_000", "12e3", "0x10", "٣"] {
        assert_eq!(parse(text), text.parse::<i64>().ok(), "reading {:?}", text);
    }
}

#[test]
fn integers_are_read_from_a_part_of_the_text() {
    let chars = chars_of("key 1565395200 more");
    assert_eq!(parse_i64(&chars, 4, 14), Some(1565395200));
    assert_eq!(parse_i64(&chars, 4, 15), None);
    assert_eq!(parse_i64(&chars, 4, 4), None);
}

#[test]
fn reading_undoes_writing() {
    for n in [0, 1, -1, 9, 10, -10, 899, 86400, 1565395200, i64::MAX, i64::MIN] {
        assert_eq!(parse(&decimal(n)), Some(n));
    }
}

#[test]
fn splitting_keeps_empty_pieces() {
    assert_eq!(pieces("a b c", ' '), vec!["a", "b", "c"]);
    assert_eq!(pieces("a\nb\n", '\n'), vec!["a", "b", ""]);
    assert_eq!(pieces("", ' '), vec![""]);
    assert_eq!(pieces(" ", ' '), vec!["", ""]);
    assert_eq!(pieces("a  b", ' '), vec!["a", "", "b"]);
    assert_eq!(pieces("abc", ' '), vec!["abc"]);
}

#[test]
fn splitting_agrees_with_the_standard_library() {
    for text in ["", "x", " x ", "one two  three", "\n\n", "a b\nc d\n"] {
        let expected: Vec<String> = text.split(' ').map(String::from).collect();
        assert_eq!(pieces(text, ' '), expected);
        let expected: Vec<String> = text.split('\n').map(String::from).collect();
        assert_eq!(pieces(text, '\n'), expected);
    }
}

#[test]
fn splitting_a_part_of_the_text() {
    let chars = chars_of("a b\nc d e\nf");
    let bounds = split_chars(&chars, 4, 9, ' ');
    assert_eq!(bounds, vec![(4, 5), (6, 7), (8, 9)]);
}

#[test]
fn searching_finds_what_is_there() {
    assert!(contains("{\"ret_msg\": \"Invalid session id.\"}", "Invalid session id"));
    assert!(contains("Invalid session id", "Invalid session id"));
    assert!(contains("xxInvalid session id", "Invalid session id"));
    assert!(contains("abc", ""));
    assert!(contains("", ""));
    assert!(contains("aab", "ab"));
}

#[test]
fn searching_does_not_find_what_is_not_there() {
    assert!(!contains("[]", "Invalid session id"));
    assert!(!contains("Invalid session i", "Invalid session id"));
    assert!(!contains("invalid session id", "Invalid session id"));
    assert!(!contains("", "a"));
    assert!(!contains("ab", "abc"));
    assert!(!contains("Invalid  session id", "Invalid session id"));
}
