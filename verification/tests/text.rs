use local_words::languages::{chars_lt, string_eq};
use local_words::text::{chars_to_string, decimal_string, digit_char, joined, is_whitespace, to_chars, trim_bounds};

#[test]
fn trim_bounds_finds_trimmed_part() {
    let s = to_chars("  ab c \t");
    assert_eq!(trim_bounds(&s, 0, s.len()), (2, 6));
    assert_eq!(trim_bounds(&s, 3, 5), (3, 3 + 1));
    let blank = to_chars("   ");
    let (lo, hi) = trim_bounds(&blank, 0, 3);
    assert_eq!(lo, hi);
}

#[test]
fn chars_round_trip() {
    let s = "héllo";
    let c = to_chars(s);
    assert_eq!(c.len(), 5);
    assert_eq!(chars_to_string(&c, 0, c.len()), s);
    assert_eq!(chars_to_string(&c, 1, 3), "él");
}

#[test]
fn concat_and_whitespace() {
    assert_eq!(joined("ab", "cd"), "abcd");
    assert!(is_whitespace(' '));
    assert!(is_whitespace('\n'));
    assert!(is_whitespace('\u{3000}'));
    assert!(!is_whitespace('x'));
}

#[test]
fn text_order_is_code_point_order() {
    assert!(chars_lt(&to_chars("abc"), &to_chars("abd")));
    assert!(chars_lt(&to_chars("ab"), &to_chars("abc")));
    assert!(!chars_lt(&to_chars("abc"), &to_chars("abc")));
    assert!(chars_lt(&to_chars("Z"), &to_chars("a")));
    assert!(string_eq("x", "x"));
    assert!(!string_eq("x", "y"));
}

#[test]
fn decimal_text_of_numbers() {
    assert_eq!(decimal_string(0), "0");
    assert_eq!(decimal_string(9), "9");
    assert_eq!(decimal_string(10), "10");
    assert_eq!(decimal_string(40213), "40213");
    assert_eq!(digit_char(3), '3');
}
