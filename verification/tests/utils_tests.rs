use git_repo_language_trends::columns::ExtensionToLinesMap;
use git_repo_language_trends::utils;
use git_repo_language_trends::utils::get_top_three_extensions;

#[test]
fn get_top_three_extensions_from_0() {
    test_map_to_array(vec![], get_top_three_extensions, vec![]);
}

#[test]
fn get_top_three_extensions_from_1() {
    test_map_to_array(vec![(".rs", 10)], get_top_three_extensions, vec![".rs"]);
}

#[test]
fn get_top_three_extensions_from_2() {
    test_map_to_array(
        vec![(".rs", 10), (".foo", 100)],
        get_top_three_extensions,
        vec![".foo", ".rs"],
    );
}

#[test]
fn get_top_three_extensions_from_3() {
    test_map_to_array(
        vec![(".rs", 100), (".foo", 10), (".a", 1000)],
        get_top_three_extensions,
        vec![".a", ".rs", ".foo"],
    );
}

#[test]
fn get_top_three_extensions_from_4() {
    test_map_to_array(
        vec![(".md", 5), (".rs", 100), (".foo", 10), (".a", 1000)],
        get_top_three_extensions,
        vec![".a", ".rs", ".foo"],
    );
}

#[test]
fn get_top_three_extensions_but_lock_ext_is_ignored() {
    test_map_to_array(
        vec![(".md", 5), (".rs", 100), (".foo", 10), (".lock", 1000)],
        get_top_three_extensions,
        vec![".rs", ".foo", ".md"],
    );
}

#[test]
fn get_extensions_sorted_by_popularity() {
    test_map_to_array(
        vec![(".md", 5), (".rs", 100), (".foo", 10), (".a", 1000)],
        utils::get_extensions_sorted_by_popularity,
        vec![".a", ".rs", ".foo", ".md"],
    );
}

#[test]
fn extensions_with_as_many_lines_keep_their_order() {
    test_map_to_array(
        vec![(".b", 7), (".a", 7), (".c", 9), (".d", 7)],
        utils::get_extensions_sorted_by_popularity,
        vec![".c", ".b", ".a", ".d"],
    );
}

#[test]
fn top_three_of_many_locks() {
    test_map_to_array(
        vec![(".lock", 1), (".x", 0)],
        get_top_three_extensions,
        vec![".x"],
    );
}

/// Tests that the entries of the input map are transformed to the expected result.
fn test_map_to_array(
    input_map_entries: Vec<(&str, usize)>,
    transformer: fn(&ExtensionToLinesMap) -> Vec<String>,
    expected_output_entries: Vec<&str>,
) {
    let data = generate_test_data(input_map_entries);
    let result = transformer(&data);
    let expected: Vec<String> = expected_output_entries.into_iter().map(String::from).collect();
    assert_eq!(result, expected);
}

fn generate_test_data(entries: Vec<(&str, usize)>) -> ExtensionToLinesMap {
    let mut data = ExtensionToLinesMap::new();
    for entry in entries {
        data.insert(String::from(entry.0), entry.1);
    }
    data
}
