use lib::text::{
    chars_of, decimal_string, parse_i32, parse_usize, same_text, split_at_each, split_once_at,
    text_contains, text_le_exec, trim_start,
};

#[test]
fn parse_usize_accepts_plain_and_plus_signed_digits() {
    assert_eq!(parse_usize("42"), Some(42));
    assert_eq!(parse_usize("+7"), Some(7));
    assert_eq!(parse_usize("007"), Some(7));
    assert_eq!(parse_usize("0"), Some(0));
}

#[test]
fn parse_usize_refuses_what_std_refuses() {
    assert_eq!(parse_usize(""), None);
    assert_eq!(parse_usize("+"), None);
    assert_eq!(parse_usize("-1"), None);
    assert_eq!(parse_usize("12a"), None);
    assert_eq!(parse_usize(" 1"), None);
    assert_eq!(parse_usize("1 2"), None);
}

#[test]
fn parse_usize_limits() {
    let max = usize::MAX.to_string();
    assert_eq!(parse_usize(&max), Some(usize::MAX));
    let over = format!("{}0", usize::MAX);
    assert_eq!(parse_usize(&over), None);
}

#[test]
fn parse_usize_agrees_with_std() {
    for s in ["", "+", "-", "0", "+0", "-0", "12", "1_2", "99999999999999999999999", "٣", "+-1"] {
        assert_eq!(parse_usize(s), s.parse::<usize>().ok(), "input {:?}", s);
    }
}

#[test]
fn parse_i32_signs_and_limits() {
    assert_eq!(parse_i32("-2147483648"), Some(i32::MIN));
    assert_eq!(parse_i32("2147483647"), Some(i32::MAX));
    assert_eq!(parse_i32("2147483648"), None);
    assert_eq!(parse_i32("-2147483649"), None);
    assert_eq!(parse_i32("-"), None);
    assert_eq!(parse_i32("+5"), Some(5));
    assert_eq!(parse_i32("-0"), Some(0));
    for s in ["", "-", "+", "--1", "-12", "12", "x", "3000000000"] {
        assert_eq!(parse_i32(s), s.parse::<i32>().ok(), "input {:?}", s);
    }
}

#[test]
fn decimal_string_writes_numbers() {
    assert_eq!(decimal_string(0), "0");
    assert_eq!(decimal_string(7), "7");
    assert_eq!(decimal_string(120), "120");
    assert_eq!(decimal_string(usize::MAX), usize::MAX.to_string());
}

#[test]
fn trim_start_drops_leading_whitespace_only() {
    assert_eq!(trim_start("  \t x y "), "x y ");
    assert_eq!(trim_start("\u{3000}\u{a0}z"), "z");
    assert_eq!(trim_start("   "), "");
    assert_eq!(trim_start("a "), "a ");
}

#[test]
fn split_at_each_keeps_empty_pieces() {
    assert_eq!(split_at_each("a  b", ' '), vec!["a", "", "b"]);
    assert_eq!(split_at_each("", ' '), vec![""]);
    assert_eq!(split_at_each("one", ' '), vec!["one"]);
    assert_eq!(split_at_each("x ", ' '), vec!["x", ""]);
}

#[test]
fn split_once_at_splits_at_first_space() {
    assert_eq!(split_once_at("enq 1 2", ' '), vec!["enq", "1 2"]);
    assert_eq!(split_once_at("play", ' '), vec!["play"]);
    assert_eq!(split_once_at("play ", ' '), vec!["play", ""]);
}

#[test]
fn text_contains_finds_substrings() {
    let s = chars_of("/music/rock/song.mp3");
    assert!(text_contains(&s, &chars_of("rock")));
    assert!(text_contains(&s, &chars_of("")));
    assert!(text_contains(&s, &chars_of("/music/rock/song.mp3")));
    assert!(!text_contains(&s, &chars_of("Rock")));
    assert!(!text_contains(&chars_of("ab"), &chars_of("abc")));
}

#[test]
fn text_le_orders_like_string() {
    let words = ["", "a", "ab", "b", "B", "é", "a b"];
    for x in words {
        for y in words {
            assert_eq!(text_le_exec(&chars_of(x), &chars_of(y)), x <= y, "{:?} {:?}", x, y);
        }
    }
}

#[test]
fn same_text_compares_texts() {
    assert!(same_text("mp3", "mp3"));
    assert!(!same_text("mp3", "MP3"));
}
