use git_repo_language_trends::columns::ColumnToLinesMap;
use git_repo_language_trends::output::Output;
use git_repo_language_trends::tsv_output::{write_header_row, write_row, TabSeparatedValuesOutput};

fn strings(items: &[&str]) -> Vec<String> {
    items.iter().map(|s| String::from(*s)).collect()
}

fn totals(items: &[(&str, usize)]) -> ColumnToLinesMap {
    let mut map = ColumnToLinesMap::new();
    for (column, lines) in items {
        map.insert(String::from(*column), *lines);
    }
    map
}

#[test]
fn header_row_has_a_blank_field_as_wide_as_a_date() {
    let mut text = String::new();
    write_header_row(&mut text, &strings(&[".yml", ".rs"]));
    assert_eq!(text, "          \t.yml\t.rs\n");
    assert_eq!(text.find('\t'), Some("YYYY-MM-DD".len()));
}

#[test]
fn header_row_without_columns() {
    let mut text = String::new();
    write_header_row(&mut text, &strings(&[]));
    assert_eq!(text, "          \n");
}

#[test]
fn header_row_is_appended() {
    let mut text = String::from("before\n");
    write_header_row(&mut text, &strings(&[".c+.h"]));
    assert_eq!(text, "before\n          \t.c+.h\n");
}

#[test]
fn row_has_one_count_per_column_in_the_order_of_the_columns() {
    let mut text = String::new();
    write_row(&mut text, "2021-01-24", &strings(&[".rs", ".a"]), &totals(&[(".a", 4), (".rs", 196)]));
    assert_eq!(text, "2021-01-24\t196\t4\n");
}

#[test]
fn a_column_without_total_shows_zero() {
    let mut text = String::new();
    write_row(&mut text, "2021-01-19", &strings(&[".rs", ".yml", ".md"]), &totals(&[(".rs", 66), (".md", 2)]));
    assert_eq!(text, "2021-01-19\t66\t0\t2\n");
}

#[test]
fn a_row_without_totals_shows_zero_in_every_column() {
    let mut text = String::new();
    write_row(&mut text, "2021-01-19", &strings(&[".yml", ".rs"]), &totals(&[]));
    assert_eq!(text, "2021-01-19\t0\t0\n");
}

#[test]
fn a_total_without_column_is_not_shown() {
    let mut text = String::new();
    write_row(&mut text, "2021-01-19", &strings(&[".rs"]), &totals(&[(".md", 2), (".rs", 1)]));
    assert_eq!(text, "2021-01-19\t1\n");
}

#[test]
fn the_output_collects_the_table() {
    let mut output = TabSeparatedValuesOutput::new();
    assert_eq!(output.text(), "");
    output.start(&strings(&[".rs", ".a"])).unwrap();
    output.add_row("2021-01-27", &totals(&[(".rs", 602), (".a", 4)])).unwrap();
    output.add_row("2021-01-23", &totals(&[(".rs", 107)])).unwrap();
    output.finish().unwrap();
    assert_eq!(output.text(), "          \t.rs\t.a\n2021-01-27\t602\t4\n2021-01-23\t107\t0\n");
}

#[test]
fn a_table_without_rows_is_its_header() {
    let mut output = TabSeparatedValuesOutput::new();
    output.start(&strings(&[".yml", ".rs"])).unwrap();
    output.finish().unwrap();
    assert_eq!(output.text(), "          \t.yml\t.rs\n");
}

#[test]
fn rows_before_the_start_have_no_columns() {
    let mut output = TabSeparatedValuesOutput::new();
    output.add_row("2021-01-27", &totals(&[(".rs", 602)])).unwrap();
    assert_eq!(output.text(), "2021-01-27\n");
}

#[test]
fn the_same_events_give_the_same_text() {
    let mut first = TabSeparatedValuesOutput::new();
    let mut second = TabSeparatedValuesOutput::new();
    for output in [&mut first, &mut second] {
        output.start(&strings(&[".c+.h"])).unwrap();
        output.add_row("2020-02-29", &totals(&[(".c+.h", 12)])).unwrap();
        output.finish().unwrap();
    }
    assert_eq!(first.text(), second.text());
    assert_eq!(first.text(), "          \t.c+.h\n2020-02-29\t12\n");
}
