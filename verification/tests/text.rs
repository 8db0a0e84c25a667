use tinysh::lexing::cursor::CharCursor;
use tinysh::text::decimal::{i64_text, parse_i64};
use tinysh::text::strings::{chars_of, join, string_of, trim};

#[test]
fn a_numeral_is_read_in_decimal() {
    assert_eq!(parse_i64("0"), Some(0));
    assert_eq!(parse_i64("42"), Some(42));
    assert_eq!(parse_i64("0042"), Some(42));
    assert_eq!(parse_i64("+42"), Some(42));
    assert_eq!(parse_i64("-42"), Some(-42));
    assert_eq!(parse_i64("-0"), Some(0));
    assert_eq!(parse_i64("9223372036854775807"), Some(i64::MAX));
    assert_eq!(parse_i64("-9223372036854775808"), Some(i64::MIN));
    assert_eq!(parse_i64("000000000000000000000000000000000000007"), Some(7));
}

#[test]
fn what_is_no_numeral_is_not_read() {
    assert_eq!(parse_i64(""), None);
    assert_eq!(parse_i64("+"), None);
    assert_eq!(parse_i64("-"), None);
    assert_eq!(parse_i64("--1"), None);
    assert_eq!(parse_i64("+-1"), None);
    assert_eq!(parse_i64("1+"), None);
    assert_eq!(parse_i64(" 1"), None);
    assert_eq!(parse_i64("1 "), None);
    assert_eq!(parse_i64("12a"), None);
    assert_eq!(parse_i64("1.5"), None);
    assert_eq!(parse_i64("\u{663}"), None);
    assert_eq!(parse_i64("9223372036854775808"), None);
    assert_eq!(parse_i64("-9223372036854775809"), None);
    assert_eq!(parse_i64("92233720368547758070"), None);
    assert_eq!(parse_i64("18446744073709551616"), None);
    assert_eq!(parse_i64("99999999999999999999999999999999999999999a"), None);
}

#[test]
fn reading_agrees_with_the_standard_library() {
    let texts = [
        "", "0", "-", "+", "+0", "-1", "1-", "007", "123456789", "9223372036854775806",
        "9223372036854775807", "9223372036854775808", "-9223372036854775807",
        "-9223372036854775808", "-9223372036854775809", "1e3", "0x10", "1_000", "\u{ff11}",
    ];
    for text in texts {
        assert_eq!(parse_i64(text), text.parse::<i64>().ok());
    }
}

#[test]
fn a_number_is_written_in_decimal() {
    assert_eq!(i64_text(0), "0");
    assert_eq!(i64_text(9), "9");
    assert_eq!(i64_text(10), "10");
    assert_eq!(i64_text(-1), "-1");
    assert_eq!(i64_text(1002003), "1002003");
    assert_eq!(i64_text(i64::MAX), "9223372036854775807");
    assert_eq!(i64_text(i64::MIN), "-9223372036854775808");
}

#[test]
fn reading_undoes_writing() {
    for value in [0, 1, -1, 9, 10, 99, 100, -100, 123456789, i64::MAX, i64::MIN, i64::MIN + 1] {
        assert_eq!(i64_text(value), value.to_string());
        assert_eq!(parse_i64(&i64_text(value)), Some(value));
    }
}

#[test]
fn trimming_takes_the_whitespace_at_both_ends() {
    assert_eq!(trim(""), "");
    assert_eq!(trim("   "), "");
    assert_eq!(trim("a"), "a");
    assert_eq!(trim("  a b  "), "a b");
    assert_eq!(trim("\t\n\r\u{b}\u{c} a \t\n\r\u{b}\u{c}"), "a");
    assert_eq!(trim("\u{a0}\u{2003}a\u{3000}\u{85}"), "a");
    assert_eq!(trim("\u{1f}a\u{7f}"), "\u{1f}a\u{7f}");
    assert_eq!(trim("\u{200b}a"), "\u{200b}a");
}

#[test]
fn trimming_agrees_with_the_standard_library() {
    for text in ["", " ", " a", "a ", " a b ", "\u{a0}x\u{2028}", "\u{1c}\u{1d}a", "\u{feff}a "] {
        assert_eq!(trim(text), text.trim());
    }
}

#[test]
fn joining_puts_the_separator_between_the_parts() {
    let none: Vec<String> = vec![];
    assert_eq!(join(&none, ", "), "");
    assert_eq!(join(&vec!["a".to_string()], ", "), "a");
    assert_eq!(join(&vec!["a".to_string(), "b".to_string()], ", "), "a, b");
    assert_eq!(join(&vec!["".to_string(), "".to_string(), "c".to_string()], "-"), "--c");
    assert_eq!(join(&vec!["a".to_string(), "b".to_string()], ""), "ab");
}

#[test]
fn the_characters_of_a_text() {
    assert_eq!(chars_of(""), vec![]);
    assert_eq!(chars_of("a\u{e9}\u{1f49d}"), vec!['a', '\u{e9}', '\u{1f49d}']);
    let chars = chars_of("hello");
    assert_eq!(string_of(&chars, 1, 4), "ell");
    assert_eq!(string_of(&chars, 0, 5), "hello");
    assert_eq!(string_of(&chars, 2, 2), "");
}

#[test]
fn a_cursor_walks_once_through_the_text() {
    let mut cursor = CharCursor::new("a\u{e9}");
    assert_eq!(cursor.peek(), Some('a'));
    assert_eq!(cursor.peek(), Some('a'));
    assert_eq!(cursor.next(), Some('a'));
    assert_eq!(cursor.peek(), Some('\u{e9}'));
    assert_eq!(cursor.next(), Some('\u{e9}'));
    assert_eq!(cursor.peek(), None);
    assert_eq!(cursor.next(), None);
    assert_eq!(cursor.next(), None);
    let mut empty = CharCursor::new("");
    assert_eq!(empty.peek(), None);
    assert_eq!(empty.next(), None);
}
