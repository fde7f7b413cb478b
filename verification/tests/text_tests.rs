use git_repo_language_trends::text::{decimal_text, join, split, str_eq};

fn strings(items: &[&str]) -> Vec<String> {
    items.iter().map(|s| String::from(*s)).collect()
}

#[test]
fn split_at_plus() {
    assert_eq!(split(".c+.h", '+'), strings(&[".c", ".h"]));
    assert_eq!(split(".m+.h+.swift", '+'), strings(&[".m", ".h", ".swift"]));
}

#[test]
fn split_without_separator_is_one_piece() {
    assert_eq!(split(".rs", '+'), strings(&[".rs"]));
}

#[test]
fn split_keeps_empty_pieces() {
    assert_eq!(split("", '+'), strings(&[""]));
    assert_eq!(split("+", '+'), strings(&["", ""]));
    assert_eq!(split(".c+", '+'), strings(&[".c", ""]));
    assert_eq!(split("+.c", '+'), strings(&["", ".c"]));
    assert_eq!(split("a++b", '+'), strings(&["a", "", "b"]));
}

#[test]
fn split_counts_characters_not_bytes() {
    assert_eq!(split(".ä+.ö", '+'), strings(&[".ä", ".ö"]));
    assert_eq!(split("é+", '+'), strings(&["é", ""]));
}

#[test]
fn split_agrees_with_std() {
    for text in ["", "+", "a+b", "++", ".c+.h+", "no plus", "ü+ü+ü"] {
        let expected: Vec<String> = text.split('+').map(String::from).collect();
        assert_eq!(split(text, '+'), expected);
    }
}

#[test]
fn join_with_separator() {
    assert_eq!(join(&strings(&[]), " "), "");
    assert_eq!(join(&strings(&[".rs"]), " "), ".rs");
    assert_eq!(join(&strings(&[".rs", ".yml", ".md"]), " "), ".rs .yml .md");
    assert_eq!(join(&strings(&["", ""]), ", "), ", ");
}

#[test]
fn decimal_of_small_and_large_numbers() {
    assert_eq!(decimal_text(0), "0");
    assert_eq!(decimal_text(7), "7");
    assert_eq!(decimal_text(10), "10");
    assert_eq!(decimal_text(196), "196");
    assert_eq!(decimal_text(1000), "1000");
    assert_eq!(decimal_text(9_876_543_210), "9876543210");
    assert_eq!(decimal_text(usize::MAX), usize::MAX.to_string());
}

#[test]
fn str_eq_is_exact() {
    assert!(str_eq("", ""));
    assert!(str_eq(".rs", ".rs"));
    assert!(!str_eq(".rs", ".RS"));
    assert!(!str_eq(".rs", ".r"));
    assert!(!str_eq(".r", ".rs"));
    assert!(!str_eq(".js", ".JS"));
    assert!(str_eq(".ä", ".ä"));
    assert!(!str_eq(".ä", ".a"));
}
