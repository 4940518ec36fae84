use registers::content::{contents_are_saved, first_line_of, join_values};
use registers::decimal::decimal_string;

fn strings(items: &[&str]) -> Vec<String> {
    items.iter().map(|s| s.to_string()).collect()
}

#[test]
fn match_accepts_exact_join() {
    assert!(contents_are_saved(&strings(&["ab", "cd"]), "<SEP>", "ab<SEP>cd"));
}

#[test]
fn match_rejects_trailing_excess() {
    assert!(!contents_are_saved(&strings(&["ab", "cd"]), "<SEP>", "ab<SEP>cde"));
}

#[test]
fn match_of_empty_batch_accepts_only_empty_text() {
    assert!(contents_are_saved(&strings(&[]), "<SEP>", ""));
    assert!(!contents_are_saved(&strings(&[]), "<SEP>", "x"));
}

#[test]
fn match_rejects_wrong_separator_and_missing_values() {
    assert!(!contents_are_saved(&strings(&["ab", "cd"]), "\n", "ab<SEP>cd"));
    assert!(!contents_are_saved(&strings(&["ab", "cd"]), "\n", "ab"));
    assert!(contents_are_saved(&strings(&["ab", "cd"]), "\n", "ab\ncd"));
}

#[test]
fn join_places_one_separator_between_values() {
    assert_eq!(join_values(&strings(&["a", "b", "c"]), "\r\n"), "a\r\nb\r\nc");
    assert_eq!(join_values(&strings(&["solo"]), "\r\n"), "solo");
    assert_eq!(join_values(&strings(&[]), "\r\n"), "");
}

#[test]
fn first_line_cuts_at_line_feed() {
    assert_eq!(first_line_of("hello\nworld"), "hello");
    assert_eq!(first_line_of("hello\r\nworld"), "hello");
    assert_eq!(first_line_of("no newline"), "no newline");
    assert_eq!(first_line_of("\nrest"), "");
    assert_eq!(first_line_of("trailing\r"), "trailing\r");
}

#[test]
fn decimal_strings_are_exact() {
    assert_eq!(decimal_string(0), "0");
    assert_eq!(decimal_string(7), "7");
    assert_eq!(decimal_string(10), "10");
    assert_eq!(decimal_string(105), "105");
}
