use jmdictdb::kanji::contains_kanji;
use jmdictdb::number::parse_i64;
use jmdictdb::replace::{matches_at, replace_all};
use jmdictdb::text::{from_chars, to_chars};

fn chars(s: &str) -> Vec<char> {
    s.chars().collect()
}

fn replaced(text: &str, pat: &str, to: &str) -> String {
    replace_all(&chars(text), &chars(pat), &chars(to)).into_iter().collect()
}

#[test]
fn kanji_is_found_among_kana() {
    assert!(contains_kanji("食べる"));
    assert!(contains_kanji("お茶"));
}

#[test]
fn kana_and_latin_hold_no_kanji() {
    assert!(!contains_kanji("する"));
    assert!(!contains_kanji("taberu"));
    assert!(!contains_kanji(""));
}

#[test]
fn kanji_block_has_sharp_edges() {
    assert!(contains_kanji("\u{4E00}"));
    assert!(contains_kanji("\u{9FFF}"));
    assert!(!contains_kanji("\u{4DFF}"));
    assert!(!contains_kanji("\u{A000}"));
}

#[test]
fn chars_go_there_and_back() {
    let v = to_chars("する&n;");
    assert_eq!(v, vec!['す', 'る', '&', 'n', ';']);
    assert_eq!(from_chars(&v), "する&n;");
    assert_eq!(from_chars(&Vec::new()), "");
}

#[test]
fn plain_numbers_parse() {
    assert_eq!(parse_i64("0"), Some(0));
    assert_eq!(parse_i64("12"), Some(12));
    assert_eq!(parse_i64("1000000"), Some(1000000));
    assert_eq!(parse_i64("007"), Some(7));
}

#[test]
fn signs_are_read() {
    assert_eq!(parse_i64("-5"), Some(-5));
    assert_eq!(parse_i64("+7"), Some(7));
    assert_eq!(parse_i64("-0"), Some(0));
}

#[test]
fn what_is_no_number_is_refused() {
    assert_eq!(parse_i64(""), None);
    assert_eq!(parse_i64("-"), None);
    assert_eq!(parse_i64("+"), None);
    assert_eq!(parse_i64("abc"), None);
    assert_eq!(parse_i64("12a"), None);
    assert_eq!(parse_i64(" 1"), None);
    assert_eq!(parse_i64("1 "), None);
    assert_eq!(parse_i64("1_000"), None);
    assert_eq!(parse_i64("--1"), None);
    assert_eq!(parse_i64("１２"), None);
}

#[test]
fn the_range_of_64_bits_is_kept() {
    assert_eq!(parse_i64("9223372036854775807"), Some(i64::MAX));
    assert_eq!(parse_i64("9223372036854775808"), None);
    assert_eq!(parse_i64("-9223372036854775808"), Some(i64::MIN));
    assert_eq!(parse_i64("-9223372036854775809"), None);
    assert_eq!(parse_i64("99999999999999999999999999999999999999999999"), None);
}

#[test]
fn parsing_agrees_with_the_standard_library() {
    for s in ["1", "-1", "+1", "00", "+", "", "1.5", "0x10", "9223372036854775807", "-9223372036854775808", "18446744073709551616"] {
        assert_eq!(parse_i64(s), s.parse::<i64>().ok());
    }
}

#[test]
fn a_pattern_is_found_where_it_stands() {
    let text = chars("a&n;b");
    assert!(matches_at(&text, &chars("&n;"), 1));
    assert!(!matches_at(&text, &chars("&n;"), 0));
    assert!(!matches_at(&text, &chars("&n;"), 3));
    assert!(!matches_at(&text, &chars("&n;"), 99));
    assert!(matches_at(&text, &chars(""), 5));
}

#[test]
fn every_occurrence_is_replaced() {
    assert_eq!(replaced("x&n;y&n;", "&n;", "noun"), "xnounynoun");
    assert_eq!(replaced("&n;", "&n;", "noun"), "noun");
    assert_eq!(replaced("nothing here", "&n;", "noun"), "nothing here");
    assert_eq!(replaced("", "&n;", "noun"), "");
}

#[test]
fn occurrences_do_not_overlap() {
    assert_eq!(replaced("aaa", "aa", "b"), "ba");
    assert_eq!(replaced("aaaa", "aa", "b"), "bb");
    assert_eq!(replaced("abab", "aba", "x"), "xb");
}

#[test]
fn an_empty_pattern_replaces_nothing() {
    assert_eq!(replaced("abc", "", "x"), "abc");
}

#[test]
fn a_replacement_may_bring_the_pattern_back() {
    assert_eq!(replaced("&&a;;", "&a;", "a"), "&a;");
}
