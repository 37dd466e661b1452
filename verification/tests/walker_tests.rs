use stat_diary_tools::strnum::{dec_u64_string, parse_u16, str_eq, str_lex_le};
use stat_diary_tools::walker::list_sorted;

fn names(v: &[&str]) -> Vec<String> {
    v.iter().map(|s| s.to_string()).collect()
}

#[test]
fn directory_names_sort_lexicographically() {
    let sorted = list_sorted(&names(&["2024", "2023", "10", "02-3.statdiary"]));
    assert_eq!(sorted, names(&["02-3.statdiary", "10", "2023", "2024"]));
}

#[test]
fn sorting_keeps_duplicates() {
    let sorted = list_sorted(&names(&["b", "a", "b"]));
    assert_eq!(sorted, names(&["a", "b", "b"]));
}

#[test]
fn sorting_empty_listing() {
    assert_eq!(list_sorted(&Vec::new()), Vec::<String>::new());
}

#[test]
fn lexicographic_compare() {
    assert!(str_lex_le("02", "1"));
    assert!(str_lex_le("2023", "2024"));
    assert!(!str_lex_le("2024", "2023"));
    assert!(str_lex_le("a", "ab"));
    assert!(str_lex_le("", "a"));
    assert!(str_lex_le("same", "same"));
}

#[test]
fn string_equality_is_by_content() {
    assert!(str_eq("abc", &"abc".to_string()));
    assert!(!str_eq("abc", "abd"));
    assert!(!str_eq("abc", "ab"));
}

#[test]
fn parse_u16_cases() {
    assert_eq!(parse_u16("12"), Some(12));
    assert_eq!(parse_u16("0012"), Some(12));
    assert_eq!(parse_u16("0"), Some(0));
    assert_eq!(parse_u16("65535"), Some(65535));
    assert_eq!(parse_u16("65536"), None);
    assert_eq!(parse_u16("99999999999999999999"), None);
    assert_eq!(parse_u16(""), None);
    assert_eq!(parse_u16("+8"), None);
    assert_eq!(parse_u16("8a"), None);
}

#[test]
fn decimal_rendering() {
    assert_eq!(dec_u64_string(0), "0");
    assert_eq!(dec_u64_string(7), "7");
    assert_eq!(dec_u64_string(12345), "12345");
    assert_eq!(dec_u64_string(u64::MAX), "18446744073709551615");
}
