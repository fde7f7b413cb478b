//! What receives the table: first the columns, then one row per sampled
//! commit, then the end.

use vstd::prelude::*;
use crate::columns::{Column, ColumnToLinesMap};
use crate::error::TrendsError;

verus! {

/// One thing that an output has taken.
pub enum OutputEvent {
    /// The columns of the table.
    Start(Seq<Seq<char>>),
    /// A row: its date, and the line totals of the columns that have any.
    Row(Seq<char>, Map<Seq<char>, usize>),
    /// The end of the table.
    Finish,
}

/// An output format for the table: printed text, a file, a chart.
pub trait Output {
    /// What the output has taken so far, in order. A call that fails adds nothing.
    spec fn events(&self) -> Seq<OutputEvent>;

    /// Whether what the output shows is what its format makes of the events
    /// that it has taken. Every call keeps this.
    spec fn is_faithful(&self) -> bool;

    /// Called once before the rows, with the columns of the table.
    fn start(&mut self, columns: &[Column]) -> (r: Result<(), TrendsError>)
        ensures
            r is Ok ==> final(self).events() == old(self).events().push(OutputEvent::Start(columns.deep_view())),
            r is Err ==> final(self).events() == old(self).events(),
            old(self).is_faithful() ==> final(self).is_faithful(),
    ;

    /// Called for each sampled commit, with its date and its line totals.
    fn add_row(&mut self, date: &str, column_to_lines_map: &ColumnToLinesMap) -> (r: Result<(), TrendsError>)
        requires
            column_to_lines_map.wf(),
        ensures
            r is Ok ==> final(self).events() == old(self).events().push(
                OutputEvent::Row(date@, column_to_lines_map@),
            ),
            r is Err ==> final(self).events() == old(self).events(),
            old(self).is_faithful() ==> final(self).is_faithful(),
    ;

    /// Called once after the last row.
    fn finish(&mut self) -> (r: Result<(), TrendsError>)
        ensures
            r is Ok ==> final(self).events() == old(self).events().push(OutputEvent::Finish),
            r is Err ==> final(self).events() == old(self).events(),
            old(self).is_faithful() ==> final(self).is_faithful(),
    ;
}

} // verus!
