//! Commit times: seconds since the Unix epoch, within the years that have
//! a calendar date.

use vstd::prelude::*;

verus! {

/// Seconds in a day.
pub const SECONDS_PER_DAY: i64 = 86_400;

/// The first second that has a calendar date: the start of January 1 of
/// the year -262143, the first year of `chrono`'s dates.
pub const MIN_SECONDS: i64 = -8_334_601_228_800;

/// The last second that has a calendar date: the end of December 31 of the
/// year 262142, the last year of `chrono`'s dates.
pub const MAX_SECONDS: i64 = 8_210_266_876_799;

/// Whether `seconds` lies in the years -262143 to 262142, which have a
/// calendar date.
pub open spec fn is_valid_seconds(seconds: int) -> bool {
    MIN_SECONDS <= seconds <= MAX_SECONDS
}

/// The whole days from `earlier` to `later`: the difference in seconds
/// divided by the length of a day and rounded toward zero, so negative when
/// `later` is a day or more before `earlier`.
pub open spec fn whole_days_between(later: int, earlier: int) -> int {
    let seconds = later - earlier;
    if seconds >= 0 {
        seconds / (SECONDS_PER_DAY as int)
    } else {
        -((-seconds) / (SECONDS_PER_DAY as int))
    }
}

/// The UTC calendar date of a Unix time, as `chrono` formats it with `%Y-%m-%d`.
pub uninterp spec fn utc_date_text(seconds: int) -> Seq<char>;

/// `chrono::DateTime::signed_duration_since` followed by
/// `chrono::TimeDelta::num_days`, on the two times as UTC date-times.
///
/// Trusted: the result is the difference of the two times in seconds, divided
/// by 86400 with the quotient rounded toward zero. Both times must lie in the
/// years -262143 to 262142, the years of `chrono`'s dates.
#[verifier::external_body]
fn chrono_num_days(later: i64, earlier: i64) -> (days: i64)
    requires
        is_valid_seconds(later as int),
        is_valid_seconds(earlier as int),
    ensures
        days == whole_days_between(later as int, earlier as int),
{
    let later = chrono::DateTime::from_timestamp(later, 0).unwrap_or_default();
    let earlier = chrono::DateTime::from_timestamp(earlier, 0).unwrap_or_default();
    later.signed_duration_since(earlier).num_days()
}

/// `chrono::DateTime::format` with the pattern `%Y-%m-%d`, on the time as a
/// UTC date-time.
///
/// Trusted: the text depends on the time alone; it is named `utc_date_text`.
/// The time must lie in the years -262143 to 262142, the years of `chrono`'s
/// dates.
#[verifier::external_body]
fn chrono_format_date(seconds: i64) -> (text: String)
    requires
        is_valid_seconds(seconds as int),
    ensures
        text@ == utc_date_text(seconds as int),
{
    chrono::DateTime::from_timestamp(seconds, 0).unwrap_or_default().format("%Y-%m-%d").to_string()
}

/// A commit time in UTC, to the second, within the years that have a
/// calendar date.
#[derive(Clone, Copy, Debug)]
pub struct Timestamp {
    seconds: i64,
}

impl View for Timestamp {
    type V = int;

    closed spec fn view(&self) -> int {
        self.seconds as int
    }
}

impl Timestamp {
    #[verifier::type_invariant]
    spec fn in_range(self) -> bool {
        is_valid_seconds(self.seconds as int)
    }

    /// The time `seconds` after the Unix epoch, or `None` if that is outside
    /// the years that have a calendar date.
    pub fn from_seconds(seconds: i64) -> (r: Option<Timestamp>)
        ensures
            r is Some <==> is_valid_seconds(seconds as int),
            r is Some ==> r.unwrap()@ == seconds,
    {
        if MIN_SECONDS <= seconds && seconds <= MAX_SECONDS {
            Some(Timestamp { seconds })
        } else {
            None
        }
    }

    /// Seconds since the Unix epoch.
    pub fn seconds(&self) -> (s: i64)
        ensures
            s == self@,
            is_valid_seconds(s as int),
    {
        proof {
            use_type_invariant(self);
        }
        self.seconds
    }

    /// The whole days from `earlier` to `self`, rounded toward zero.
    pub fn days_since(&self, earlier: &Timestamp) -> (days: i64)
        ensures
            days == whole_days_between(self@, earlier@),
    {
        proof {
            use_type_invariant(self);
            use_type_invariant(earlier);
        }
        chrono_num_days(self.seconds, earlier.seconds)
    }

    /// The UTC calendar date: `YYYY-MM-DD` for the years 0 to 9999, and with
    /// a sign and more digits for the year outside them.
    pub fn date(&self) -> (text: String)
        ensures
            text@ == utc_date_text(self@),
    {
        proof {
            use_type_invariant(self);
        }
        chrono_format_date(self.seconds)
    }
}

} // verus!
