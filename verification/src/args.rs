//! The settings of one run.

use vstd::prelude::*;

verus! {

/// What a run is asked to do.
pub struct Args {
    /// The columns to print. Each is one extension (`.rs`) or several joined
    /// by `+` (`.c+.h`), which are summed. If empty, the three extensions with
    /// the most lines in the start commit are used.
    pub columns: Vec<String>,
    /// The minimum number of days between two rows.
    pub min_interval: u32,
    /// The maximum number of rows.
    pub max_rows: u64,
    /// The commit to start from.
    pub start_commit: String,
    /// Whether to count the lines and files processed, for a report of the throughput.
    pub benchmark: bool,
    /// Whether to list the extensions of the start commit instead of printing the table.
    pub list: bool,
    /// Whether to leave out the progress bar.
    pub disable_progress_bar: bool,
    /// Whether to follow all parents of a commit, not only the first.
    pub all_parents: bool,
}

} // verus!
