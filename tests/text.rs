use forth::literal::Literal;
use forth::text::{space, tokenize};

#[test]
fn tokenize_splits_on_runs_of_whitespace() {
    assert_eq!(vec!["2", "3", "+", "dup"], tokenize("  2 \t3\n\n+   dup  "));
}

#[test]
fn tokenize_empty_and_blank_text() {
    assert!(tokenize("").is_empty());
    assert!(tokenize(" \t\r\n ").is_empty());
}

#[test]
fn tokenize_unicode_whitespace() {
    assert_eq!(vec!["a", "b", "c"], tokenize("a\u{3000}b\u{a0}c"));
    assert_eq!(vec!["añb"], tokenize("añb"));
}

#[test]
fn space_agrees_with_std() {
    for c in ['\t', '\n', '\u{b}', '\u{c}', '\r', ' ', '\u{85}', '\u{a0}', '\u{1680}', '\u{2000}',
        '\u{200a}', '\u{2028}', '\u{2029}', '\u{202f}', '\u{205f}', '\u{3000}', 'a', '0', '\u{200b}',
        '\u{feff}', '+']
    {
        assert_eq!(c.is_whitespace(), space(c), "{:?}", c);
    }
}

#[test]
fn literals_follow_decimal_grammar() {
    assert_eq!(Some(42), i32::parse_literal("42"));
    assert_eq!(Some(42), i32::parse_literal("+42"));
    assert_eq!(Some(-7), i32::parse_literal("-7"));
    assert_eq!(Some(0), i32::parse_literal("-0"));
    assert_eq!(Some(8), i32::parse_literal("0008"));
    assert_eq!(None, i32::parse_literal(""));
    assert_eq!(None, i32::parse_literal("+"));
    assert_eq!(None, i32::parse_literal("-"));
    assert_eq!(None, i32::parse_literal("4a"));
    assert_eq!(None, i32::parse_literal("dup"));
    assert_eq!(None, i32::parse_literal("--1"));
}

#[test]
fn literals_at_the_range_limits() {
    assert_eq!(Some(i32::MAX), i32::parse_literal("2147483647"));
    assert_eq!(Some(i32::MIN), i32::parse_literal("-2147483648"));
    assert_eq!(None, i32::parse_literal("2147483648"));
    assert_eq!(None, i32::parse_literal("-2147483649"));
    assert_eq!(None, i32::parse_literal("99999999999999999999"));
}

#[test]
fn literals_agree_with_std() {
    for t in ["0", "17", "+3", "-12", "2147483647", "-2147483648", "2147483648", "", "+", "1-", " 1"] {
        assert_eq!(t.parse::<i32>().ok(), i32::parse_literal(t), "{:?}", t);
    }
}
