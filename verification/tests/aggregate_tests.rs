use git_repo_language_trends::aggregate::{aggregate, column_for, CountedFile};
use git_repo_language_trends::columns::generate_extension_to_column_map;

fn strings(items: &[&str]) -> Vec<String> {
    items.iter().map(|s| String::from(*s)).collect()
}

fn files(items: &[(&str, usize)]) -> Vec<CountedFile> {
    items.iter().map(|(ext, lines)| CountedFile { ext: String::from(*ext), lines: *lines }).collect()
}

#[test]
fn c_and_h_are_summed_into_one_column() {
    let map = generate_extension_to_column_map(&strings(&[".c+.h"]));
    let totals = aggregate(&files(&[(".c", 100), (".h", 20), (".c", 3), (".h", 4)]), Some(&map));
    assert_eq!(totals.len(), 1);
    assert_eq!(totals.get(".c+.h"), Some(127));
    assert_eq!(totals.get(".c"), None);
    assert_eq!(totals.get(".h"), None);
}

#[test]
fn each_column_has_its_own_total() {
    let map = generate_extension_to_column_map(&strings(&[".m+.h", ".swift"]));
    let totals = aggregate(
        &files(&[(".swift", 7), (".m", 1), (".txt", 1000), (".h", 2), (".swift", 8)]),
        Some(&map),
    );
    assert_eq!(totals.len(), 2);
    assert_eq!(totals.get(".m+.h"), Some(3));
    assert_eq!(totals.get(".swift"), Some(15));
    assert_eq!(totals.get(".txt"), None);
    assert_eq!(totals.column_at(0), ".swift");
    assert_eq!(totals.column_at(1), ".m+.h");
}

#[test]
fn a_column_without_a_file_has_no_entry() {
    let map = generate_extension_to_column_map(&strings(&[".rs", ".yml"]));
    let totals = aggregate(&files(&[(".rs", 66)]), Some(&map));
    assert_eq!(totals.get(".rs"), Some(66));
    assert_eq!(totals.get(".yml"), None);
}

#[test]
fn files_without_a_column_give_no_totals() {
    let map = generate_extension_to_column_map(&strings(&[".rs"]));
    let totals = aggregate(&files(&[(".md", 5), (".toml", 6)]), Some(&map));
    assert!(totals.is_empty());
    let totals = aggregate(&files(&[]), Some(&map));
    assert!(totals.is_empty());
}

#[test]
fn a_file_without_lines_still_gives_its_column_an_entry() {
    let map = generate_extension_to_column_map(&strings(&[".rs"]));
    let totals = aggregate(&files(&[(".rs", 0)]), Some(&map));
    assert_eq!(totals.get(".rs"), Some(0));
}

#[test]
fn without_a_map_every_extension_is_a_column() {
    let totals = aggregate(&files(&[(".rs", 10), (".md", 2), (".rs", 5), (".lock", 400)]), None);
    assert_eq!(totals.len(), 3);
    assert_eq!(totals.get(".rs"), Some(15));
    assert_eq!(totals.get(".md"), Some(2));
    assert_eq!(totals.get(".lock"), Some(400));
}

#[test]
fn extensions_are_matched_exactly() {
    let map = generate_extension_to_column_map(&strings(&[".js"]));
    let totals = aggregate(&files(&[(".js", 1), (".JS", 10), (".jsx", 100), ("js", 1000)]), Some(&map));
    assert_eq!(totals.get(".js"), Some(1));
    assert_eq!(totals.len(), 1);
}

#[test]
fn totals_wrap_at_the_width_of_the_count() {
    let totals = aggregate(&files(&[(".rs", usize::MAX), (".rs", 1), (".rs", 5)]), None);
    assert_eq!(totals.get(".rs"), Some(5));
}

#[test]
fn column_for_looks_the_extension_up() {
    let map = generate_extension_to_column_map(&strings(&[".c+.h", ".rs"]));
    assert_eq!(column_for(Some(&map), ".h"), Some(".c+.h"));
    assert_eq!(column_for(Some(&map), ".rs"), Some(".rs"));
    assert_eq!(column_for(Some(&map), ".py"), None);
    assert_eq!(column_for(None, ".py"), Some(".py"));
}
