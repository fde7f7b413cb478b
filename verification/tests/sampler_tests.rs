use git_repo_language_trends::args::Args;
use git_repo_language_trends::sampler::{enough_days_passed, select_rows, IntervalSampler};
use git_repo_language_trends::timestamp::Timestamp;

const DAY: i64 = 86_400;
const HOUR: i64 = 3_600;

/// 2021-01-24, midnight.
const BASE: i64 = 1_611_446_400;

fn at(seconds: i64) -> Timestamp {
    Timestamp::from_seconds(seconds).unwrap()
}

fn args_with_interval(min_interval: u32) -> Args {
    Args {
        columns: vec![],
        min_interval,
        max_rows: u64::MAX,
        start_commit: String::from("HEAD"),
        benchmark: false,
        list: false,
        disable_progress_bar: true,
        all_parents: false,
    }
}

/// The walk goes from the newest commit to the oldest: a commit on day `d`
/// is `d` days before the newest.
fn days_ago(days: &[i64]) -> Vec<Timestamp> {
    days.iter().map(|d| at(BASE - d * DAY)).collect()
}

#[test]
fn the_first_commit_is_always_eligible() {
    assert!(enough_days_passed(&args_with_interval(7), None, at(BASE)));
    assert!(enough_days_passed(&args_with_interval(u32::MAX), None, at(BASE)));
}

#[test]
fn twenty_hours_are_no_day_but_twenty_five_are() {
    let args = args_with_interval(1);
    // Both on the same calendar date, 20 hours apart.
    assert!(!enough_days_passed(&args, Some(at(BASE + 22 * HOUR)), at(BASE + 2 * HOUR)));
    // On different calendar dates, but only 20 hours apart.
    assert!(!enough_days_passed(&args, Some(at(BASE + 10 * HOUR)), at(BASE - 10 * HOUR)));
    // 25 hours apart.
    assert!(enough_days_passed(&args, Some(at(BASE + 12 * HOUR)), at(BASE - 13 * HOUR)));
    // Exactly one day apart.
    assert!(enough_days_passed(&args, Some(at(BASE)), at(BASE - DAY)));
    assert!(!enough_days_passed(&args, Some(at(BASE)), at(BASE - DAY + 1)));
}

#[test]
fn the_interval_is_counted_in_whole_days() {
    let args = args_with_interval(7);
    assert!(!enough_days_passed(&args, Some(at(BASE)), at(BASE - 7 * DAY + 1)));
    assert!(enough_days_passed(&args, Some(at(BASE)), at(BASE - 7 * DAY)));
    assert!(enough_days_passed(&args, Some(at(BASE)), at(BASE - 8 * DAY)));
}

#[test]
fn a_later_commit_is_eligible_only_with_interval_zero_and_within_a_day() {
    assert!(enough_days_passed(&args_with_interval(0), Some(at(BASE)), at(BASE)));
    assert!(enough_days_passed(&args_with_interval(0), Some(at(BASE)), at(BASE + DAY - 1)));
    assert!(!enough_days_passed(&args_with_interval(0), Some(at(BASE)), at(BASE + DAY)));
    assert!(!enough_days_passed(&args_with_interval(1), Some(at(BASE)), at(BASE + 1)));
}

#[test]
fn skipped_commits_do_not_move_the_cursor() {
    assert_eq!(select_rows(&days_ago(&[0, 1, 2, 3, 10]), 2, u64::MAX), vec![0, 2, 4]);
}

#[test]
fn a_long_run_of_daily_commits_is_sampled_every_interval() {
    let times = days_ago(&[0, 1, 2, 3, 4, 5, 6, 7, 8, 9, 10]);
    assert_eq!(select_rows(&times, 3, u64::MAX), vec![0, 3, 6, 9]);
    assert_eq!(select_rows(&times, 7, u64::MAX), vec![0, 7]);
    assert_eq!(select_rows(&times, 11, u64::MAX), vec![0]);
}

#[test]
fn interval_zero_takes_every_commit() {
    let times = days_ago(&[0, 0, 0, 1, 1, 5]);
    assert_eq!(select_rows(&times, 0, u64::MAX), vec![0, 1, 2, 3, 4, 5]);
}

#[test]
fn interval_zero_skips_a_commit_that_is_a_day_later_than_the_last_row() {
    let times = vec![at(BASE), at(BASE + DAY), at(BASE - DAY)];
    assert_eq!(select_rows(&times, 0, u64::MAX), vec![0, 2]);
}

#[test]
fn the_row_budget_ends_the_sample() {
    let times = days_ago(&[0, 1, 2, 3, 4, 5, 6, 7]);
    assert_eq!(select_rows(&times, 0, 5), vec![0, 1, 2, 3, 4]);
    assert_eq!(select_rows(&times, 2, 2), vec![0, 2]);
    assert_eq!(select_rows(&times, 0, 1), vec![0]);
}

#[test]
fn a_row_budget_of_zero_takes_nothing() {
    assert_eq!(select_rows(&days_ago(&[0, 1, 2]), 0, 0), Vec::<usize>::new());
    assert_eq!(select_rows(&days_ago(&[]), 0, 0), Vec::<usize>::new());
}

#[test]
fn an_empty_history_has_no_rows() {
    assert_eq!(select_rows(&days_ago(&[]), 7, u64::MAX), Vec::<usize>::new());
}

#[test]
fn consecutive_rows_are_at_least_the_interval_apart() {
    let times = days_ago(&[0, 0, 1, 3, 3, 4, 8, 9, 15, 16, 17, 30]);
    for interval in 0..10u32 {
        let rows = select_rows(&times, interval, u64::MAX);
        assert_eq!(rows[0], 0);
        for pair in rows.windows(2) {
            assert!(pair[0] < pair[1]);
            assert!(times[pair[0]].days_since(&times[pair[1]]) >= interval as i64);
        }
    }
}

#[test]
fn the_sampler_steps_through_a_history() {
    let mut sampler = IntervalSampler::new(2, 2);
    assert!(!sampler.is_exhausted());
    assert!(sampler.offer(at(BASE)));
    assert!(!sampler.offer(at(BASE - DAY)));
    assert!(!sampler.is_exhausted());
    assert!(sampler.offer(at(BASE - 2 * DAY)));
    assert!(sampler.is_exhausted());
    assert!(!sampler.offer(at(BASE - 20 * DAY)));
}

#[test]
fn a_sampler_without_budget_takes_nothing() {
    let mut sampler = IntervalSampler::new(0, 0);
    assert!(sampler.is_exhausted());
    assert!(!sampler.offer(at(BASE)));
    assert!(sampler.is_exhausted());
}
