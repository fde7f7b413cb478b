//! The interval sampler: which commits of a history become rows.

use vstd::prelude::*;
use crate::args::Args;
use crate::timestamp::{whole_days_between, Timestamp};

verus! {

/// The time of the last row, if there is one, as a number.
pub open spec fn cursor_view(cursor: Option<Timestamp>) -> Option<int> {
    match cursor {
        Some(t) => Some(t@),
        None => None,
    }
}

/// The times of a history as numbers.
pub open spec fn times_view(times: Seq<Timestamp>) -> Seq<int> {
    Seq::new(times.len(), |i: int| times[i]@)
}

/// Whether a commit at `candidate` may become a row when the last row is at
/// `cursor`: always for the first row, and afterwards once at least
/// `min_interval` whole days lie between the candidate and the last row.
pub open spec fn eligible(min_interval: int, cursor: Option<int>, candidate: int) -> bool {
    match cursor {
        None => true,
        Some(last) => whole_days_between(last, candidate) >= min_interval,
    }
}

/// The indices, from `pos` on, of the commits that become rows: each eligible
/// commit is taken and becomes the new cursor, until `budget` rows are taken.
pub open spec fn sampled_from(
    times: Seq<int>,
    pos: int,
    min_interval: int,
    budget: nat,
    cursor: Option<int>,
) -> Seq<int>
    decreases times.len() - pos,
{
    if pos < 0 || pos >= times.len() || budget == 0 {
        Seq::empty()
    } else if eligible(min_interval, cursor, times[pos]) {
        seq![pos] + sampled_from(times, pos + 1, min_interval, (budget - 1) as nat, Some(times[pos]))
    } else {
        sampled_from(times, pos + 1, min_interval, budget, cursor)
    }
}

/// The indices of the commits of a whole history that become rows.
pub open spec fn sampled(times: Seq<int>, min_interval: int, budget: nat) -> Seq<int> {
    sampled_from(times, 0, min_interval, budget, None)
}

/// Whether enough days have passed since the last row to print a row for a
/// commit at `current_date`.
pub fn enough_days_passed(args: &Args, date_of_last_row: Option<Timestamp>, current_date: Timestamp) -> (r:
    bool)
    ensures
        r == eligible(args.min_interval as int, cursor_view(date_of_last_row), current_date@),
{
    match date_of_last_row {
        Some(date_of_last_row) => {
            let days = date_of_last_row.days_since(&current_date);
            days >= args.min_interval as i64
        },
        None => true,
    }
}

/// The state of the sampler: the time of the last row and the rows that may
/// still be printed.
pub struct IntervalSampler {
    min_interval: u32,
    cursor: Option<Timestamp>,
    rows_left: u64,
}

impl IntervalSampler {
    /// The minimum number of days between two rows.
    pub closed spec fn min_interval(&self) -> int {
        self.min_interval as int
    }

    /// The time of the last row.
    pub closed spec fn cursor(&self) -> Option<int> {
        cursor_view(self.cursor)
    }

    /// The number of rows that may still be printed.
    pub closed spec fn rows_left(&self) -> nat {
        self.rows_left as nat
    }

    /// A sampler that has printed no row yet.
    pub fn new(min_interval: u32, max_rows: u64) -> (s: Self)
        ensures
            s.min_interval() == min_interval,
            s.cursor() is None,
            s.rows_left() == max_rows,
    {
        IntervalSampler { min_interval, cursor: None, rows_left: max_rows }
    }

    /// Whether the row budget is used up.
    pub fn is_exhausted(&self) -> (r: bool)
        ensures
            r == (self.rows_left() == 0),
    {
        self.rows_left == 0
    }

    /// Decides whether the commit at `candidate` becomes a row. If it does,
    /// it becomes the cursor and uses one row of the budget; if not, the
    /// state stays as it is.
    pub fn offer(&mut self, candidate: Timestamp) -> (emit: bool)
        ensures
            emit == (old(self).rows_left() > 0 && eligible(
                old(self).min_interval(),
                old(self).cursor(),
                candidate@,
            )),
            final(self).min_interval() == old(self).min_interval(),
            emit ==> final(self).cursor() == Some(candidate@) && final(self).rows_left() == old(
                self,
            ).rows_left() - 1,
            !emit ==> final(self).cursor() == old(self).cursor() && final(self).rows_left() == old(
                self,
            ).rows_left(),
    {
        if self.rows_left == 0 {
            return false;
        }
        let last = self.cursor;
        let emit = match last {
            Some(last) => last.days_since(&candidate) >= self.min_interval as i64,
            None => true,
        };
        if emit {
            self.cursor = Some(candidate);
            self.rows_left = self.rows_left - 1;
        }
        emit
    }
}

/// The indices of the commits that become rows, for a history with the given
/// commit times in the order of the walk.
pub fn select_rows(times: &Vec<Timestamp>, min_interval: u32, max_rows: u64) -> (rows: Vec<usize>)
    ensures
        rows@.map_values(|i: usize| i as int) == sampled(
            times_view(times@),
            min_interval as int,
            max_rows as nat,
        ),
{
    let ghost all = times_view(times@);
    let mut sampler = IntervalSampler::new(min_interval, max_rows);
    let mut rows: Vec<usize> = Vec::new();
    let mut i: usize = 0;
    assert(rows@.map_values(|i: usize| i as int) + sampled_from(all, 0, min_interval as int, max_rows as nat, None)
        =~= sampled(all, min_interval as int, max_rows as nat));
    while i < times.len()
        invariant
            i <= times@.len(),
            all == times_view(times@),
            sampler.min_interval() == min_interval,
            sampled(all, min_interval as int, max_rows as nat) == rows@.map_values(|i: usize| i as int)
                + sampled_from(all, i as int, min_interval as int, sampler.rows_left(), sampler.cursor()),
        decreases times@.len() - i,
    {
        let ghost before = rows@.map_values(|i: usize| i as int);
        let ghost rest = sampled_from(all, i as int, min_interval as int, sampler.rows_left(), sampler.cursor());
        assert(all[i as int] == times@[i as int]@);
        if sampler.offer(times[i]) {
            rows.push(i);
            assert(rows@.map_values(|i: usize| i as int) =~= before.push(i as int));
            assert(before.push(i as int) + sampled_from(
                all,
                i + 1,
                min_interval as int,
                sampler.rows_left(),
                sampler.cursor(),
            ) =~= before + rest);
        }
        i += 1;
    }
    assert(rows@.map_values(|i: usize| i as int) + Seq::<int>::empty() =~= rows@.map_values(|i: usize| i as int));
    rows
}

/// Properties of a sample taken from `pos` on: the indices lie in the
/// history from `pos` on and increase, there are at most `budget` of them,
/// the first was eligible against `cursor`, and each later one was eligible
/// against the one before it.
pub proof fn lemma_sampled_from(times: Seq<int>, pos: int, min_interval: int, budget: nat, cursor: Option<int>)
    requires
        0 <= pos,
    ensures
        ({
            let rows = sampled_from(times, pos, min_interval, budget, cursor);
            &&& rows.len() <= budget
            &&& forall|k: int| 0 <= k < rows.len() ==> pos <= #[trigger] rows[k] < times.len()
            &&& forall|k: int| 0 < k < rows.len() ==> rows[k - 1] < #[trigger] rows[k]
            &&& rows.len() > 0 ==> eligible(min_interval, cursor, times[rows[0]])
            &&& forall|k: int|
                0 < k < rows.len() ==> eligible(min_interval, Some(times[rows[k - 1]]), times[#[trigger] rows[k]])
        }),
    decreases times.len() - pos,
{
    let rows = sampled_from(times, pos, min_interval, budget, cursor);
    if pos >= times.len() || budget == 0 {
    } else if eligible(min_interval, cursor, times[pos]) {
        let rest = sampled_from(times, pos + 1, min_interval, (budget - 1) as nat, Some(times[pos]));
        lemma_sampled_from(times, pos + 1, min_interval, (budget - 1) as nat, Some(times[pos]));
        assert(rows =~= seq![pos] + rest);
        assert forall|k: int| 0 < k < rows.len() implies rows[k - 1] < #[trigger] rows[k] && eligible(
            min_interval,
            Some(times[rows[k - 1]]),
            times[rows[k]],
        ) by {
            assert(rows[k] == rest[k - 1]);
            if k > 1 {
                assert(rows[k - 1] == rest[k - 2]);
            }
        }
        assert forall|k: int| 0 <= k < rows.len() implies pos <= #[trigger] rows[k] < times.len() by {
            if k > 0 {
                assert(rows[k] == rest[k - 1]);
            }
        }
    } else {
        lemma_sampled_from(times, pos + 1, min_interval, budget, cursor);
    }
}

/// Two consecutive rows are at least `min_interval` whole days apart, the
/// rows follow the order of the history, and there are no more than `budget`.
pub proof fn lemma_rows_are_spaced(times: Seq<int>, min_interval: int, budget: nat)
    ensures
        ({
            let rows = sampled(times, min_interval, budget);
            &&& rows.len() <= budget
            &&& forall|k: int| 0 <= k < rows.len() ==> 0 <= #[trigger] rows[k] < times.len()
            &&& forall|k: int| 0 < k < rows.len() ==> rows[k - 1] < #[trigger] rows[k]
            &&& forall|k: int|
                0 < k < rows.len() ==> whole_days_between(times[rows[k - 1]], times[#[trigger] rows[k]])
                    >= min_interval
        }),
{
    lemma_sampled_from(times, 0, min_interval, budget, None);
}

/// With a minimum interval of zero days every commit becomes a row, up to
/// the budget, as long as none of these commits is a day or more later than
/// the commit walked just before it.
pub proof fn lemma_zero_interval_takes_all(times: Seq<int>, budget: nat)
    requires
        forall|k: int|
            0 < k < times.len() && k < budget ==> whole_days_between(times[k - 1], #[trigger] times[k]) >= 0,
    ensures
        sampled(times, 0, budget) == Seq::new(
            if times.len() <= budget {
                times.len()
            } else {
                budget
            },
            |k: int| k,
        ),
{
    lemma_zero_interval_from(times, 0, budget, None);
    assert(sampled(times, 0, budget) =~= Seq::new(
        if times.len() <= budget {
            times.len()
        } else {
            budget
        },
        |k: int| k,
    ));
}

proof fn lemma_zero_interval_from(times: Seq<int>, pos: int, budget: nat, cursor: Option<int>)
    requires
        0 <= pos <= times.len(),
        forall|k: int|
            0 < k < times.len() && k < pos + budget ==> whole_days_between(times[k - 1], #[trigger] times[k])
                >= 0,
        pos == 0 ==> cursor is None,
        pos > 0 ==> cursor == Some(times[pos - 1]),
    ensures
        sampled_from(times, pos, 0, budget, cursor) == Seq::new(
            if times.len() - pos <= budget {
                (times.len() - pos) as nat
            } else {
                budget
            },
            |k: int| pos + k,
        ),
    decreases times.len() - pos,
{
    let rows = sampled_from(times, pos, 0, budget, cursor);
    let count = if times.len() - pos <= budget {
        (times.len() - pos) as nat
    } else {
        budget
    };
    if pos >= times.len() || budget == 0 {
        assert(rows =~= Seq::new(count, |k: int| pos + k));
    } else {
        assert(eligible(0, cursor, times[pos]));
        lemma_zero_interval_from(times, pos + 1, (budget - 1) as nat, Some(times[pos]));
        assert(rows =~= Seq::new(count, |k: int| pos + k));
    }
}

/// With a budget of zero rows no commit becomes a row.
pub proof fn lemma_budget_zero_takes_none(times: Seq<int>, min_interval: int)
    ensures
        sampled(times, min_interval, 0) == Seq::<int>::empty(),
{
}

} // verus!
