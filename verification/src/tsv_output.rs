//! The table as tab-separated text.

use vstd::prelude::*;
use vstd::string::*;
use crate::columns::{Column, ColumnToLinesMap};
use crate::error::TrendsError;
use crate::output::{Output, OutputEvent};
use crate::text::{decimal, decimal_text};

verus! {

/// The field that stands in the header row where the rows have their date:
/// as many spaces as a date is wide.
pub open spec fn blank_date() -> Seq<char> {
    Seq::new(10, |i: int| ' ')
}

/// A tab and `name`, for each column.
pub open spec fn header_cells(columns: Seq<Seq<char>>) -> Seq<char>
    decreases columns.len(),
{
    if columns.len() == 0 {
        Seq::empty()
    } else {
        header_cells(columns.drop_last()) + seq!['\t'] + columns.last()
    }
}

/// The header row: a blank field as wide as a date, the names of the
/// columns, each after a tab, and a line terminator.
pub open spec fn header_text(columns: Seq<Seq<char>>) -> Seq<char> {
    blank_date() + header_cells(columns) + seq!['\n']
}

/// The total that a row shows for `column`: zero if the column has no entry.
pub open spec fn shown_lines(lines: Map<Seq<char>, usize>, column: Seq<char>) -> nat {
    if lines.contains_key(column) {
        lines[column] as nat
    } else {
        0
    }
}

/// A tab and the total in decimal, for each column.
pub open spec fn row_cells(columns: Seq<Seq<char>>, lines: Map<Seq<char>, usize>) -> Seq<char>
    decreases columns.len(),
{
    if columns.len() == 0 {
        Seq::empty()
    } else {
        row_cells(columns.drop_last(), lines) + seq!['\t'] + decimal(shown_lines(lines, columns.last()))
    }
}

/// A row: the date, the total of each column in decimal, each after a tab,
/// and a line terminator.
pub open spec fn row_text(date: Seq<char>, columns: Seq<Seq<char>>, lines: Map<Seq<char>, usize>) -> Seq<
    char,
> {
    date + row_cells(columns, lines) + seq!['\n']
}

/// The columns that the events have announced, in order.
pub open spec fn announced(events: Seq<OutputEvent>) -> Seq<Seq<char>>
    decreases events.len(),
{
    if events.len() == 0 {
        Seq::empty()
    } else {
        let earlier = announced(events.drop_last());
        match events.last() {
            OutputEvent::Start(columns) => earlier + columns,
            _ => earlier,
        }
    }
}

/// The text of one event that follows the events `earlier`: the header row
/// for the columns of a start, the row of a row for the columns announced
/// until then, and nothing for the end.
pub open spec fn event_text(earlier: Seq<OutputEvent>, event: OutputEvent) -> Seq<char> {
    match event {
        OutputEvent::Start(columns) => header_text(columns),
        OutputEvent::Row(date, lines) => row_text(date, announced(earlier), lines),
        OutputEvent::Finish => Seq::empty(),
    }
}

/// The tab-separated text of the events: the text of each, in order.
pub open spec fn rendered(events: Seq<OutputEvent>) -> Seq<char>
    decreases events.len(),
{
    if events.len() == 0 {
        Seq::empty()
    } else {
        rendered(events.drop_last()) + event_text(events.drop_last(), events.last())
    }
}

/// The text of the rows among `rows`, for a table with the given columns.
pub open spec fn rows_text(columns: Seq<Seq<char>>, rows: Seq<OutputEvent>) -> Seq<char>
    decreases rows.len(),
{
    if rows.len() == 0 {
        Seq::empty()
    } else {
        rows_text(columns, rows.drop_last()) + (match rows.last() {
            OutputEvent::Row(date, lines) => row_text(date, columns, lines),
            _ => Seq::empty(),
        })
    }
}

/// A tab and a zero, for each of `count` columns.
pub open spec fn zero_cells(count: nat) -> Seq<char> {
    Seq::new(2 * count, |i: int| if i % 2 == 0 { '\t' } else { '0' })
}

/// A commit without a counted file still has its row: the date, and a zero
/// for every column of the table.
pub proof fn lemma_row_without_lines(date: Seq<char>, columns: Seq<Seq<char>>)
    ensures
        row_text(date, columns, Map::<Seq<char>, usize>::empty()) == date + zero_cells(columns.len()) + seq!['\n'],
{
    lemma_cells_without_lines(columns);
}

proof fn lemma_cells_without_lines(columns: Seq<Seq<char>>)
    ensures
        row_cells(columns, Map::<Seq<char>, usize>::empty()) == zero_cells(columns.len()),
    decreases columns.len(),
{
    if columns.len() > 0 {
        lemma_cells_without_lines(columns.drop_last());
        assert(decimal(0) =~= seq!['0']);
        assert(zero_cells((columns.len() - 1) as nat) + seq!['\t'] + seq!['0'] =~= zero_cells(columns.len()));
    } else {
        assert(zero_cells(0) =~= Seq::<char>::empty());
    }
}

/// The text of a whole table: for events that are the start with
/// `columns`, then rows, then the end, the text is the header row followed
/// by the rows, each with a cell for each of `columns`.
pub proof fn lemma_rendered_table(events: Seq<OutputEvent>, columns: Seq<Seq<char>>)
    requires
        events.len() >= 2,
        events[0] == OutputEvent::Start(columns),
        events.last() == OutputEvent::Finish,
        forall|k: int| 0 < k < events.len() - 1 ==> #[trigger] events[k] is Row,
    ensures
        announced(events) == columns,
        rendered(events) == header_text(columns) + rows_text(columns, events.subrange(1, events.len() - 1)),
{
    let body = events.take(events.len() - 1);
    lemma_rendered_rows(events, columns, events.len() - 1);
    assert(events.drop_last() =~= body);
    assert(rendered(body) + Seq::<char>::empty() =~= rendered(body));
}

proof fn lemma_rendered_rows(events: Seq<OutputEvent>, columns: Seq<Seq<char>>, upto: int)
    requires
        1 <= upto < events.len(),
        events[0] == OutputEvent::Start(columns),
        forall|k: int| 0 < k < upto ==> #[trigger] events[k] is Row,
    ensures
        announced(events.take(upto)) == columns,
        rendered(events.take(upto)) == header_text(columns) + rows_text(columns, events.subrange(1, upto)),
    decreases upto,
{
    let now = events.take(upto);
    assert(now.drop_last() =~= events.take(upto - 1));
    assert(now.last() == events[upto - 1]);
    if upto == 1 {
        let none = events.take(0);
        assert(none =~= Seq::<OutputEvent>::empty());
        assert(now.drop_last() == none);
        assert(announced(none) =~= Seq::<Seq<char>>::empty());
        assert(rendered(none) =~= Seq::<char>::empty());
        assert(now.last() == OutputEvent::Start(columns));
        assert(announced(now) == announced(none) + columns);
        assert(announced(now) =~= columns);
        assert(rendered(now) == rendered(none) + header_text(columns));
        assert(rows_text(columns, events.subrange(1, 1)) =~= Seq::<char>::empty());
        assert(events.subrange(1, 1) =~= Seq::<OutputEvent>::empty());
        assert(rendered(now) =~= header_text(columns) + rows_text(columns, events.subrange(1, upto)));
    } else {
        lemma_rendered_rows(events, columns, upto - 1);
        assert(events[upto - 1] is Row);
        let rows = events.subrange(1, upto);
        assert(rows.drop_last() =~= events.subrange(1, upto - 1));
        assert(rows.last() == events[upto - 1]);
        assert(rendered(now) =~= header_text(columns) + rows_text(columns, rows));
    }
}

/// Appends the header row for `columns` to `write`.
pub fn write_header_row(write: &mut String, columns: &[Column])
    ensures
        final(write)@ == old(write)@ + header_text(columns.deep_view()),
{
    let ghost all = columns.deep_view();
    let ghost start = write@;
    proof {
        reveal_strlit("          ");
        reveal_strlit("\t");
        reveal_strlit("\n");
        assert("          "@ =~= blank_date());
    }
    // In place of a date, the first row has as many spaces.
    write.append("          ");
    let mut i: usize = 0;
    assert(all.take(0) =~= Seq::empty());
    assert(write@ =~= start + blank_date() + header_cells(all.take(0)));
    while i < columns.len()
        invariant
            i <= columns@.len(),
            all == columns.deep_view(),
            "\t"@ == seq!['\t'],
            write@ == start + blank_date() + header_cells(all.take(i as int)),
        decreases columns@.len() - i,
    {
        let ghost before = write@;
        write.append("\t");
        write.append(columns[i].as_str());
        proof {
            assert(all.take(i + 1).drop_last() =~= all.take(i as int));
            assert(all.take(i + 1).last() == columns@[i as int]@);
            assert(write@ =~= start + blank_date() + header_cells(all.take(i + 1)));
        }
        i += 1;
    }
    write.append("\n");
    proof {
        assert(all.take(columns@.len() as int) =~= all);
        assert(write@ =~= start + header_text(all));
    }
}

/// Appends the row of `date` to `write`: for each of `columns` its total in
/// `column_to_lines_map`, or zero.
pub fn write_row(write: &mut String, date: &str, columns: &[Column], column_to_lines_map: &ColumnToLinesMap)
    requires
        column_to_lines_map.wf(),
    ensures
        final(write)@ == old(write)@ + row_text(date@, columns.deep_view(), column_to_lines_map@),
{
    let ghost all = columns.deep_view();
    let ghost lines = column_to_lines_map@;
    let ghost start = write@;
    proof {
        reveal_strlit("\t");
        reveal_strlit("\n");
    }
    write.append(date);
    let mut i: usize = 0;
    assert(all.take(0) =~= Seq::empty());
    assert(write@ =~= start + date@ + row_cells(all.take(0), lines));
    while i < columns.len()
        invariant
            i <= columns@.len(),
            all == columns.deep_view(),
            lines == column_to_lines_map@,
            column_to_lines_map.wf(),
            "\t"@ == seq!['\t'],
            write@ == start + date@ + row_cells(all.take(i as int), lines),
        decreases columns@.len() - i,
    {
        let shown = match column_to_lines_map.get(columns[i].as_str()) {
            Some(total) => total,
            None => 0,
        };
        let cell = decimal_text(shown);
        write.append("\t");
        write.append(cell.as_str());
        proof {
            assert(all.take(i + 1).drop_last() =~= all.take(i as int));
            assert(all.take(i + 1).last() == columns@[i as int]@);
            assert(write@ =~= start + date@ + row_cells(all.take(i + 1), lines));
        }
        i += 1;
    }
    write.append("\n");
    proof {
        assert(all.take(columns@.len() as int) =~= all);
        assert(write@ =~= start + row_text(date@, all, lines));
    }
}

/// Collects the table as tab-separated text, ready to be written to the
/// standard output or to a file.
pub struct TabSeparatedValuesOutput {
    dest: String,
    columns: Vec<Column>,
    events: Ghost<Seq<OutputEvent>>,
}

impl TabSeparatedValuesOutput {
    /// The columns of the table, as announced so far.
    pub closed spec fn columns(&self) -> Seq<Seq<char>> {
        self.columns.deep_view()
    }

    /// The text of the table so far.
    pub closed spec fn written(&self) -> Seq<char> {
        self.dest@
    }

    /// An output without columns and without text.
    pub fn new() -> (output: Self)
        ensures
            output.columns() == Seq::<Seq<char>>::empty(),
            output.written() == Seq::<char>::empty(),
            output.events() == Seq::<OutputEvent>::empty(),
            output.is_faithful(),
    {
        let output = TabSeparatedValuesOutput { dest: String::new(), columns: Vec::new(), events: Ghost(Seq::empty()) };
        assert(output.columns() =~= Seq::<Seq<char>>::empty());
        output
    }

    /// The text of the table so far.
    pub fn text(&self) -> (text: &str)
        ensures
            text@ == self.written(),
    {
        self.dest.as_str()
    }
}

/// Two outputs that have taken the same events hold the same text.
pub proof fn lemma_same_events_same_text(first: TabSeparatedValuesOutput, second: TabSeparatedValuesOutput)
    requires
        first.is_faithful(),
        second.is_faithful(),
        first.events() == second.events(),
    ensures
        first.written() == second.written(),
        first.columns() == second.columns(),
{
}

impl Output for TabSeparatedValuesOutput {
    closed spec fn events(&self) -> Seq<OutputEvent> {
        self.events@
    }

    /// The columns are those that the events announced, and the text is the
    /// tab-separated text of the events.
    open spec fn is_faithful(&self) -> bool {
        self.columns() == announced(self.events()) && self.written() == rendered(self.events())
    }

    /// Adds `columns` to the columns of the table and writes the header row
    /// for `columns`.
    fn start(&mut self, columns: &[Column]) -> (r: Result<(), TrendsError>)
        ensures
            r is Ok,
            final(self).columns() == old(self).columns() + columns.deep_view(),
            final(self).written() == old(self).written() + header_text(columns.deep_view()),
    {
        let ghost before = self.columns.deep_view();
        let mut i: usize = 0;
        assert(before + columns.deep_view().take(0) =~= before);
        while i < columns.len()
            invariant
                i <= columns@.len(),
                self.columns.deep_view() == before + columns.deep_view().take(i as int),
                self.dest == old(self).dest,
                self.events == old(self).events,
            decreases columns@.len() - i,
        {
            let ghost so_far = self.columns.deep_view();
            self.columns.push(columns[i].clone());
            assert(self.columns.deep_view() =~= so_far.push(columns@[i as int]@));
            assert(so_far.push(columns@[i as int]@) =~= before + columns.deep_view().take(i + 1));
            i += 1;
        }
        assert(columns.deep_view().take(columns@.len() as int) =~= columns.deep_view());
        write_header_row(&mut self.dest, columns);
        proof {
            self.events@ = self.events@.push(OutputEvent::Start(columns.deep_view()));
            assert(self.events@.drop_last() =~= old(self).events@);
        }
        Ok(())
    }

    /// Writes the row of `date`, with the totals of the columns of the table.
    fn add_row(&mut self, date: &str, column_to_lines_map: &ColumnToLinesMap) -> (r: Result<(), TrendsError>)
        ensures
            r is Ok,
            final(self).columns() == old(self).columns(),
            final(self).written() == old(self).written() + row_text(
                date@,
                old(self).columns(),
                column_to_lines_map@,
            ),
    {
        write_row(&mut self.dest, date, self.columns.as_slice(), column_to_lines_map);
        proof {
            self.events@ = self.events@.push(OutputEvent::Row(date@, column_to_lines_map@));
            assert(self.events@.drop_last() =~= old(self).events@);
        }
        Ok(())
    }

    /// Ends the table. Nothing more is written.
    fn finish(&mut self) -> (r: Result<(), TrendsError>)
        ensures
            r is Ok,
            final(self).columns() == old(self).columns(),
            final(self).written() == old(self).written(),
    {
        proof {
            self.events@ = self.events@.push(OutputEvent::Finish);
            assert(self.events@.drop_last() =~= old(self).events@);
            assert(self.dest@ + Seq::<char>::empty() =~= self.dest@);
        }
        Ok(())
    }
}

} // verus!
