//! Counting what a run processes, to report its throughput.

use vstd::prelude::*;
use crate::args::Args;
use crate::clock::instant_now;
use crate::columns::{count_range, lemma_wrapping_add_in_range};

verus! {

/// The counts of a run, and when it began.
pub struct BenchmarkData {
    /// When the counts began.
    pub start_time: std::time::Instant,
    /// The lines counted so far, wrapping at the width of `usize`.
    pub total_lines_counted: usize,
    /// The files processed so far, wrapping at the width of `usize`.
    pub total_files_processed: usize,
}

/// Whether the benchmark `after` is the benchmark `before` with `files`
/// more files and `lines` more lines counted, each count wrapping. A
/// benchmark that is not taken stays so.
pub open spec fn benchmark_advanced(
    before: Option<BenchmarkData>,
    after: Option<BenchmarkData>,
    files: int,
    lines: int,
) -> bool {
    match (before, after) {
        (Some(before), Some(after)) => after.is_advanced(before, files, lines),
        (None, None) => true,
        _ => false,
    }
}

/// Whether the benchmark `after` is the benchmark `before` with `lines`
/// more lines counted, wrapping, whatever files were counted for them. A
/// benchmark that is not taken stays so.
pub open spec fn benchmark_lines_advanced(
    before: Option<BenchmarkData>,
    after: Option<BenchmarkData>,
    lines: int,
) -> bool {
    match (before, after) {
        (Some(before), Some(after)) => {
            &&& after.start_time == before.start_time
            &&& after.total_lines_counted as int == (before.total_lines_counted + lines) % count_range()
        },
        (None, None) => true,
        _ => false,
    }
}

/// Counting in two steps is counting the sums in one.
pub proof fn lemma_advanced_twice(
    first: BenchmarkData,
    second: BenchmarkData,
    third: BenchmarkData,
    files: int,
    lines: int,
    more_files: int,
    more_lines: int,
)
    requires
        second.is_advanced(first, files, lines),
        third.is_advanced(second, more_files, more_lines),
    ensures
        third.is_advanced(first, files + more_files, lines + more_lines),
{
    vstd::arithmetic::div_mod::lemma_add_mod_noop_right(
        more_files,
        first.total_files_processed + files,
        count_range(),
    );
    vstd::arithmetic::div_mod::lemma_add_mod_noop_right(
        more_lines,
        first.total_lines_counted + lines,
        count_range(),
    );
}

/// Lines that differ by a multiple of the range of counts advance the
/// benchmark alike.
pub proof fn lemma_advanced_by_same_remainder(
    before: Option<BenchmarkData>,
    after: Option<BenchmarkData>,
    files: int,
    lines: int,
    other_lines: int,
)
    requires
        benchmark_advanced(before, after, files, lines),
        lines % count_range() == other_lines % count_range(),
    ensures
        benchmark_lines_advanced(before, after, other_lines),
{
    if before is Some {
        let start = before.unwrap().total_lines_counted as int;
        vstd::arithmetic::div_mod::lemma_add_mod_noop_right(start, lines, count_range());
        vstd::arithmetic::div_mod::lemma_add_mod_noop_right(start, other_lines, count_range());
    }
}

impl BenchmarkData {
    /// Whether `self` is `before` with `files` more files and `lines` more
    /// lines counted, each count wrapping.
    pub open spec fn is_advanced(self, before: BenchmarkData, files: int, lines: int) -> bool {
        &&& self.start_time == before.start_time
        &&& self.total_files_processed as int == (before.total_files_processed + files) % count_range()
        &&& self.total_lines_counted as int == (before.total_lines_counted + lines) % count_range()
    }

    /// Starts the counts at zero and the clock at now, if `args` asks for a benchmark.
    pub fn start_if_activated(args: &Args) -> (data: Option<BenchmarkData>)
        ensures
            data is Some <==> args.benchmark,
            data is Some ==> data.unwrap().total_lines_counted == 0 && data.unwrap().total_files_processed == 0,
    {
        if args.benchmark {
            Some(BenchmarkData { start_time: instant_now(), total_lines_counted: 0, total_files_processed: 0 })
        } else {
            None
        }
    }

    /// Counts one more file, with its lines.
    pub fn count_file(&mut self, lines: usize)
        ensures
            final(self).start_time == old(self).start_time,
            final(self).total_files_processed == old(self).total_files_processed.wrapping_add(1),
            final(self).total_lines_counted == old(self).total_lines_counted.wrapping_add(lines),
            final(self).is_advanced(*old(self), 1, lines as int),
    {
        proof {
            lemma_wrapping_add_in_range(self.total_files_processed, 1);
            lemma_wrapping_add_in_range(self.total_lines_counted, lines);
        }
        self.total_files_processed = self.total_files_processed.wrapping_add(1);
        self.total_lines_counted = self.total_lines_counted.wrapping_add(lines);
    }
}

} // verus!
