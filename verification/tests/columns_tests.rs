use git_repo_language_trends::columns::{generate_extension_to_column_map, ColumnToLinesMap};

fn strings(items: &[&str]) -> Vec<String> {
    items.iter().map(|s| String::from(*s)).collect()
}

#[test]
fn new_map_is_empty() {
    let map = ColumnToLinesMap::new();
    assert_eq!(map.len(), 0);
    assert!(map.is_empty());
    assert_eq!(map.get(".rs"), None);
}

#[test]
fn insert_sets_and_returns_the_previous_total() {
    let mut map = ColumnToLinesMap::new();
    assert_eq!(map.insert(String::from(".rs"), 10), None);
    assert_eq!(map.insert(String::from(".md"), 3), None);
    assert_eq!(map.insert(String::from(".rs"), 12), Some(10));
    assert_eq!(map.len(), 2);
    assert!(!map.is_empty());
    assert_eq!(map.get(".rs"), Some(12));
    assert_eq!(map.get(".md"), Some(3));
    assert_eq!(map.get(".RS"), None);
}

#[test]
fn entries_keep_the_order_of_first_insertion() {
    let mut map = ColumnToLinesMap::new();
    map.insert(String::from(".b"), 1);
    map.insert(String::from(".a"), 2);
    map.insert(String::from(".b"), 3);
    assert_eq!(map.column_at(0), ".b");
    assert_eq!(map.column_at(1), ".a");
    assert_eq!(map.lines_at(0), 3);
    assert_eq!(map.lines_at(1), 2);
}

#[test]
fn add_lines_starts_at_zero_and_sums() {
    let mut map = ColumnToLinesMap::new();
    map.add_lines(".c+.h", 5);
    map.add_lines(".c+.h", 7);
    map.add_lines(".rs", 0);
    assert_eq!(map.get(".c+.h"), Some(12));
    assert_eq!(map.get(".rs"), Some(0));
    assert_eq!(map.len(), 2);
}

#[test]
fn add_lines_wraps() {
    let mut map = ColumnToLinesMap::new();
    map.add_lines(".rs", usize::MAX);
    map.add_lines(".rs", 2);
    assert_eq!(map.get(".rs"), Some(1));
}

#[test]
fn extension_map_of_plain_columns_maps_each_to_itself() {
    let map = generate_extension_to_column_map(&strings(&[".rs", ".kt"]));
    assert_eq!(map.get(".rs"), Some(&String::from(".rs")));
    assert_eq!(map.get(".kt"), Some(&String::from(".kt")));
    assert_eq!(map.get(".java"), None);
}

#[test]
fn extension_map_of_summed_columns() {
    let map = generate_extension_to_column_map(&strings(&[".c+.h", ".xml"]));
    assert_eq!(map.get(".c"), Some(&String::from(".c+.h")));
    assert_eq!(map.get(".h"), Some(&String::from(".c+.h")));
    assert_eq!(map.get(".xml"), Some(&String::from(".xml")));
    assert_eq!(map.get(".c+.h"), None);
}

#[test]
fn extension_map_lets_the_later_column_win() {
    let map = generate_extension_to_column_map(&strings(&[".c+.h", ".h+.hpp"]));
    assert_eq!(map.get(".c"), Some(&String::from(".c+.h")));
    assert_eq!(map.get(".h"), Some(&String::from(".h+.hpp")));
    assert_eq!(map.get(".hpp"), Some(&String::from(".h+.hpp")));
}

#[test]
fn extension_map_is_case_sensitive() {
    let map = generate_extension_to_column_map(&strings(&[".js"]));
    assert_eq!(map.get(".js"), Some(&String::from(".js")));
    assert_eq!(map.get(".JS"), None);
}

#[test]
fn extension_map_of_no_columns_is_empty() {
    let map = generate_extension_to_column_map(&strings(&[]));
    assert_eq!(map.get(".rs"), None);
    assert_eq!(map.get(""), None);
}

#[test]
fn extension_map_with_trailing_plus_names_the_empty_extension() {
    let map = generate_extension_to_column_map(&strings(&[".c+"]));
    assert_eq!(map.get(".c"), Some(&String::from(".c+")));
    assert_eq!(map.get(""), Some(&String::from(".c+")));
}
