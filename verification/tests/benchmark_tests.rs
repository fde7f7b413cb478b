use git_repo_language_trends::args::Args;
use git_repo_language_trends::benchmark::BenchmarkData;
use git_repo_language_trends::error::TrendsError;
use git_repo_language_trends::progressbar::{is_redraw_due, ProgressMeter, MIN_DURATION_NS};

fn args(benchmark: bool) -> Args {
    Args {
        columns: vec![],
        min_interval: 7,
        max_rows: u64::MAX,
        start_commit: String::from("HEAD"),
        benchmark,
        list: false,
        disable_progress_bar: false,
        all_parents: false,
    }
}

#[test]
fn the_benchmark_starts_only_when_asked_for() {
    assert!(BenchmarkData::start_if_activated(&args(false)).is_none());
    let data = BenchmarkData::start_if_activated(&args(true)).unwrap();
    assert_eq!(data.total_lines_counted, 0);
    assert_eq!(data.total_files_processed, 0);
}

#[test]
fn the_benchmark_counts_files_and_lines() {
    let mut data = BenchmarkData::start_if_activated(&args(true)).unwrap();
    data.count_file(10);
    data.count_file(0);
    data.count_file(5);
    assert_eq!(data.total_files_processed, 3);
    assert_eq!(data.total_lines_counted, 15);
    assert!(data.start_time.elapsed().as_secs() < 3600);
}

#[test]
fn the_benchmark_counts_wrap() {
    let mut data = BenchmarkData::start_if_activated(&args(true)).unwrap();
    data.count_file(usize::MAX);
    data.count_file(3);
    assert_eq!(data.total_files_processed, 2);
    assert_eq!(data.total_lines_counted, 2);
}

#[test]
fn a_redraw_is_due_after_a_quarter_of_a_second() {
    assert_eq!(MIN_DURATION_NS, 250_000_000);
    assert!(!is_redraw_due(0));
    assert!(!is_redraw_due(250_000_000));
    assert!(is_redraw_due(250_000_001));
    assert!(is_redraw_due(999_999_999));
}

#[test]
fn the_progress_bar_can_be_driven() {
    let mut bar = ProgressMeter::setup(3, "2021-01-24");
    bar.set_position_rate_limited(0);
    bar.set_position_rate_limited(1);
    bar.set_position_rate_limited(2);
    bar.finish_and_clear();
}

#[test]
fn an_error_has_its_message() {
    assert_eq!(TrendsError::RepositoryUnavailable(String::from("no repository")).message(), "no repository");
    assert_eq!(TrendsError::ReferenceNotFound(String::from("no reference")).message(), "no reference");
    assert_eq!(TrendsError::ContentNotFound(String::from("no blob")).message(), "no blob");
    assert_eq!(TrendsError::Output(String::from("no room")).message(), "no room");
}
