use git_repo_language_trends::timestamp::{Timestamp, MAX_SECONDS, MIN_SECONDS, SECONDS_PER_DAY};

fn at(seconds: i64) -> Timestamp {
    Timestamp::from_seconds(seconds).unwrap()
}

#[test]
fn from_seconds_takes_the_years_that_have_a_date() {
    assert!(Timestamp::from_seconds(0).is_some());
    assert!(Timestamp::from_seconds(MIN_SECONDS).is_some());
    assert!(Timestamp::from_seconds(MAX_SECONDS).is_some());
    assert!(Timestamp::from_seconds(MIN_SECONDS - 1).is_none());
    assert!(Timestamp::from_seconds(MAX_SECONDS + 1).is_none());
    assert!(Timestamp::from_seconds(i64::MIN).is_none());
    assert!(Timestamp::from_seconds(i64::MAX).is_none());
    assert_eq!(at(1_611_446_400).seconds(), 1_611_446_400);
}

#[test]
fn the_bounds_are_the_first_and_last_second_of_the_range() {
    assert_eq!(MIN_SECONDS, -8_334_601_228_800);
    assert_eq!(MAX_SECONDS, 8_210_266_876_799);
    assert_eq!(SECONDS_PER_DAY, 86_400);
    assert_eq!(at(MIN_SECONDS).date(), "-262143-01-01");
    assert_eq!(at(MAX_SECONDS).date(), "+262142-12-31");
}

#[test]
fn the_bounds_are_those_of_the_dates_that_can_be_made() {
    assert!(chrono::DateTime::from_timestamp(MIN_SECONDS, 0).is_some());
    assert!(chrono::DateTime::from_timestamp(MAX_SECONDS, 0).is_some());
    assert!(chrono::DateTime::from_timestamp(MIN_SECONDS - 1, 0).is_none());
    assert!(chrono::DateTime::from_timestamp(MAX_SECONDS + 1, 0).is_none());
    assert_eq!(chrono::DateTime::<chrono::Utc>::MIN_UTC.timestamp(), MIN_SECONDS);
    assert_eq!(chrono::DateTime::<chrono::Utc>::MAX_UTC.timestamp(), MAX_SECONDS);
}

#[test]
fn dates_outside_four_digit_years() {
    assert_eq!(at(-62_135_596_800).date(), "0001-01-01");
    assert_eq!(at(-62_135_596_801).date(), "0000-12-31");
    assert_eq!(at(-62_167_219_201).date(), "-0001-12-31");
    assert_eq!(at(253_402_300_799).date(), "9999-12-31");
    assert_eq!(at(253_402_300_800).date(), "+10000-01-01");
}

#[test]
fn date_is_the_utc_calendar_date() {
    assert_eq!(at(0).date(), "1970-01-01");
    assert_eq!(at(-1).date(), "1969-12-31");
    assert_eq!(at(86_399).date(), "1970-01-01");
    assert_eq!(at(86_400).date(), "1970-01-02");
    assert_eq!(at(1_611_446_400).date(), "2021-01-24");
    assert_eq!(at(1_611_446_400 + 86_399).date(), "2021-01-24");
    assert_eq!(at(1_611_705_600).date(), "2021-01-27");
    assert_eq!(at(1_611_014_400).date(), "2021-01-19");
    assert_eq!(at(951_782_400).date(), "2000-02-29");
}

#[test]
fn days_since_counts_whole_days() {
    let day = SECONDS_PER_DAY;
    assert_eq!(at(0).days_since(&at(0)), 0);
    assert_eq!(at(day - 1).days_since(&at(0)), 0);
    assert_eq!(at(day).days_since(&at(0)), 1);
    assert_eq!(at(2 * day - 1).days_since(&at(0)), 1);
    assert_eq!(at(10 * day).days_since(&at(3 * day)), 7);
    assert_eq!(at(1_611_705_600).days_since(&at(1_611_446_400)), 3);
}

#[test]
fn days_since_rounds_toward_zero_for_an_earlier_time() {
    let day = SECONDS_PER_DAY;
    assert_eq!(at(0).days_since(&at(1)), 0);
    assert_eq!(at(0).days_since(&at(day - 1)), 0);
    assert_eq!(at(0).days_since(&at(day)), -1);
    assert_eq!(at(0).days_since(&at(day + 1)), -1);
    assert_eq!(at(0).days_since(&at(2 * day)), -2);
}

#[test]
fn days_since_over_the_whole_range() {
    assert_eq!(at(253_402_300_799).days_since(&at(-62_135_596_800)), 3_652_058);
    assert_eq!(at(MAX_SECONDS).days_since(&at(MIN_SECONDS)), 191_491_528);
    assert_eq!(at(MIN_SECONDS).days_since(&at(MAX_SECONDS)), -191_491_528);
}
