//! Summing the lines of the files of one commit into columns.

use vstd::prelude::*;
use crate::columns::{count_range, ColumnToLinesMap, ExtensionToColumnMap};

verus! {

/// A file whose lines were counted: its extension and its number of lines.
pub struct CountedFile {
    /// The extension of the file name.
    pub ext: String,
    /// The number of line terminators in the file.
    pub lines: usize,
}

/// The files as pairs of extension and lines.
pub open spec fn files_view(files: Seq<CountedFile>) -> Seq<(Seq<char>, usize)> {
    Seq::new(files.len(), |i: int| (files[i].ext@, files[i].lines))
}

/// The map from extensions to columns, if there is one.
pub open spec fn map_view(ext_to_column: Option<&ExtensionToColumnMap>) -> Option<Map<Seq<char>, Seq<char>>> {
    match ext_to_column {
        Some(map) => Some(map@),
        None => None,
    }
}

/// The column that a file with the extension `ext` is summed into. With a
/// map it is the column that the map gives, and none for an extension that
/// the map lacks; without a map every extension is its own column.
pub open spec fn column_of(ext_to_column: Option<Map<Seq<char>, Seq<char>>>, ext: Seq<char>) -> Option<
    Seq<char>,
> {
    match ext_to_column {
        Some(map) => if map.contains_key(ext) {
            Some(map[ext])
        } else {
            None
        },
        None => Some(ext),
    }
}

/// Whether `column` is a column that files can be summed into.
pub open spec fn is_column(ext_to_column: Option<Map<Seq<char>, Seq<char>>>, column: Seq<char>) -> bool {
    exists|ext: Seq<char>| column_of(ext_to_column, ext) == Some(column)
}

/// The total of each column that has a file: the lines of its files added
/// up in the order of the files, wrapping at the width of `usize`.
pub open spec fn column_totals(
    files: Seq<(Seq<char>, usize)>,
    ext_to_column: Option<Map<Seq<char>, Seq<char>>>,
) -> Map<Seq<char>, usize>
    decreases files.len(),
{
    if files.len() == 0 {
        Map::empty()
    } else {
        let rest = column_totals(files.drop_last(), ext_to_column);
        match column_of(ext_to_column, files.last().0) {
            Some(column) => rest.insert(
                column,
                (if rest.contains_key(column) {
                    rest[column]
                } else {
                    0usize
                }).wrapping_add(files.last().1),
            ),
            None => rest,
        }
    }
}

/// The columns that have a file, each once, in the order of their first files.
pub open spec fn column_order(
    files: Seq<(Seq<char>, usize)>,
    ext_to_column: Option<Map<Seq<char>, Seq<char>>>,
) -> Seq<Seq<char>>
    decreases files.len(),
{
    if files.len() == 0 {
        Seq::empty()
    } else {
        let rest = column_order(files.drop_last(), ext_to_column);
        match column_of(ext_to_column, files.last().0) {
            Some(column) => if column_totals(files.drop_last(), ext_to_column).contains_key(column) {
                rest
            } else {
                rest.push(column)
            },
            None => rest,
        }
    }
}

/// The lines of the files of `column`, added up as numbers without a bound.
pub open spec fn lines_sum(
    files: Seq<(Seq<char>, usize)>,
    ext_to_column: Option<Map<Seq<char>, Seq<char>>>,
    column: Seq<char>,
) -> nat
    decreases files.len(),
{
    if files.len() == 0 {
        0
    } else {
        lines_sum(files.drop_last(), ext_to_column, column) + if column_of(ext_to_column, files.last().0)
            == Some(column) {
            files.last().1 as nat
        } else {
            0nat
        }
    }
}

/// The lines of all of `files`, added up as numbers without a bound.
pub open spec fn all_lines(files: Seq<(Seq<char>, usize)>) -> int
    decreases files.len(),
{
    if files.len() == 0 {
        0
    } else {
        all_lines(files.drop_last()) + files.last().1
    }
}

/// The totals of `columns`, added up as numbers without a bound.
pub open spec fn sum_of_totals(columns: Seq<Seq<char>>, totals: Map<Seq<char>, usize>) -> int
    decreases columns.len(),
{
    if columns.len() == 0 {
        0
    } else {
        sum_of_totals(columns.drop_last(), totals) + totals[columns.last()]
    }
}

/// The column that a file with the extension `ext` is summed into, if any.
pub fn column_for<'a>(ext_to_column: Option<&'a ExtensionToColumnMap>, ext: &'a str) -> (column: Option<
    &'a str,
>)
    ensures
        match column {
            Some(c) => column_of(map_view(ext_to_column), ext@) == Some(c@),
            None => column_of(map_view(ext_to_column), ext@) is None,
        },
{
    match ext_to_column {
        Some(map) => match map.get(ext) {
            Some(column) => Some(column.as_str()),
            None => None,
        },
        None => Some(ext),
    }
}

/// Sums the lines of `files` into columns. A file whose extension has no
/// column is left out; a column without a file gets no entry.
pub fn aggregate(files: &Vec<CountedFile>, ext_to_column: Option<&ExtensionToColumnMap>) -> (totals:
    ColumnToLinesMap)
    ensures
        totals.wf(),
        totals@ == column_totals(files_view(files@), map_view(ext_to_column)),
        totals.columns() == column_order(files_view(files@), map_view(ext_to_column)),
{
    let ghost all = files_view(files@);
    let ghost map = map_view(ext_to_column);
    let mut totals = ColumnToLinesMap::new();
    let mut i: usize = 0;
    assert(all.take(0) =~= Seq::empty());
    while i < files.len()
        invariant
            i <= files@.len(),
            all == files_view(files@),
            map == map_view(ext_to_column),
            totals.wf(),
            totals@ == column_totals(all.take(i as int), map),
            totals.columns() == column_order(all.take(i as int), map),
        decreases files@.len() - i,
    {
        let file = &files[i];
        proof {
            assert(all.take(i + 1).drop_last() =~= all.take(i as int));
            assert(all.take(i + 1).last() == (file.ext@, file.lines));
        }
        match column_for(ext_to_column, file.ext.as_str()) {
            Some(column) => {
                totals.add_lines(column, file.lines);
            },
            None => {},
        }
        i += 1;
    }
    assert(all.take(files@.len() as int) =~= all);
    totals
}

/// A column has a total exactly if it has a file, and then it is a column
/// that files can be summed into.
pub proof fn lemma_totals_domain(
    files: Seq<(Seq<char>, usize)>,
    ext_to_column: Option<Map<Seq<char>, Seq<char>>>,
    column: Seq<char>,
)
    ensures
        column_totals(files, ext_to_column).contains_key(column) <==> exists|i: int|
            0 <= i < files.len() && column_of(ext_to_column, #[trigger] files[i].0) == Some(column),
        column_totals(files, ext_to_column).contains_key(column) ==> is_column(ext_to_column, column),
    decreases files.len(),
{
    if files.len() > 0 {
        let front = files.drop_last();
        lemma_totals_domain(front, ext_to_column, column);
        if column_totals(front, ext_to_column).contains_key(column) {
            let i = choose|i: int|
                0 <= i < front.len() && column_of(ext_to_column, #[trigger] front[i].0) == Some(column);
            assert(files[i] == front[i]);
        }
        if column_of(ext_to_column, files.last().0) == Some(column) {
            assert(files[files.len() - 1].0 == files.last().0);
        }
        if exists|i: int| 0 <= i < files.len() && column_of(ext_to_column, #[trigger] files[i].0) == Some(column) {
            let i = choose|i: int|
                0 <= i < files.len() && column_of(ext_to_column, #[trigger] files[i].0) == Some(column);
            if i < files.len() - 1 {
                assert(front[i] == files[i]);
            }
        }
    }
}

/// The total of a column is the sum of the lines of its files, as long as
/// that sum fits the width of `usize`.
pub proof fn lemma_total_is_sum(
    files: Seq<(Seq<char>, usize)>,
    ext_to_column: Option<Map<Seq<char>, Seq<char>>>,
    column: Seq<char>,
)
    requires
        lines_sum(files, ext_to_column, column) <= usize::MAX,
    ensures
        column_totals(files, ext_to_column).contains_key(column) ==> column_totals(files, ext_to_column)[column]
            == lines_sum(files, ext_to_column, column),
        !column_totals(files, ext_to_column).contains_key(column) ==> lines_sum(files, ext_to_column, column)
            == 0,
    decreases files.len(),
{
    if files.len() > 0 {
        lemma_total_is_sum(files.drop_last(), ext_to_column, column);
    }
}

proof fn lemma_sum_without_column(
    columns: Seq<Seq<char>>,
    totals: Map<Seq<char>, usize>,
    column: Seq<char>,
    lines: usize,
)
    requires
        !columns.contains(column),
    ensures
        sum_of_totals(columns, totals.insert(column, lines)) == sum_of_totals(columns, totals),
    decreases columns.len(),
{
    if columns.len() > 0 {
        let front = columns.drop_last();
        assert(columns[columns.len() - 1] != column);
        assert(!front.contains(column)) by {
            if front.contains(column) {
                let j = choose|j: int| 0 <= j < front.len() && front[j] == column;
                assert(columns[j] == column);
            }
        }
        lemma_sum_without_column(front, totals, column, lines);
    }
}

proof fn lemma_sum_with_column(
    columns: Seq<Seq<char>>,
    totals: Map<Seq<char>, usize>,
    column: Seq<char>,
    lines: usize,
)
    requires
        columns.no_duplicates(),
        columns.contains(column),
    ensures
        sum_of_totals(columns, totals.insert(column, lines)) == sum_of_totals(columns, totals) - totals[column]
            + lines,
    decreases columns.len(),
{
    let front = columns.drop_last();
    let j = choose|j: int| 0 <= j < columns.len() && columns[j] == column;
    assert(front.no_duplicates()) by {
        assert forall|a: int, b: int| 0 <= a < front.len() && 0 <= b < front.len() && a != b implies front[a]
            != front[b] by {
            assert(front[a] == columns[a] && front[b] == columns[b]);
        }
    }
    if columns.last() == column {
        assert(!front.contains(column)) by {
            if front.contains(column) {
                let k = choose|k: int| 0 <= k < front.len() && front[k] == column;
                assert(columns[k] == column);
                assert(columns[columns.len() - 1] == column);
            }
        }
        lemma_sum_without_column(front, totals, column, lines);
    } else {
        assert(front[j] == column);
        lemma_sum_with_column(front, totals, column, lines);
    }
}

/// The totals account for every line: when each of `files` has a column,
/// the totals of all columns add up to the lines of all files, up to a
/// multiple of the range of counts. Each column with a total stands once in
/// the order of the columns.
pub proof fn lemma_totals_account_for_all_lines(
    files: Seq<(Seq<char>, usize)>,
    ext_to_column: Option<Map<Seq<char>, Seq<char>>>,
)
    requires
        forall|i: int| 0 <= i < files.len() ==> column_of(ext_to_column, #[trigger] files[i].0) is Some,
    ensures
        column_order(files, ext_to_column).no_duplicates(),
        forall|column: Seq<char>|
            column_order(files, ext_to_column).contains(column) <==> column_totals(
                files,
                ext_to_column,
            ).contains_key(column),
        sum_of_totals(column_order(files, ext_to_column), column_totals(files, ext_to_column)) % count_range()
            == all_lines(files) % count_range(),
    decreases files.len(),
{
    if files.len() > 0 {
        let front = files.drop_last();
        assert forall|i: int| 0 <= i < front.len() implies column_of(ext_to_column, #[trigger] front[i].0) is Some by {
            assert(front[i] == files[i]);
        }
        lemma_totals_account_for_all_lines(front, ext_to_column);
        assert(files[files.len() - 1].0 == files.last().0);
        let column = column_of(ext_to_column, files.last().0).unwrap();
        let lines = files.last().1;
        let order_before = column_order(front, ext_to_column);
        let totals_before = column_totals(front, ext_to_column);
        let order = column_order(files, ext_to_column);
        let totals = column_totals(files, ext_to_column);
        let range = count_range();
        let sum_before = sum_of_totals(order_before, totals_before);
        vstd::arithmetic::div_mod::lemma_add_mod_noop(sum_before, lines as int, range);
        vstd::arithmetic::div_mod::lemma_add_mod_noop(all_lines(front), lines as int, range);
        if totals_before.contains_key(column) {
            let total = totals_before[column].wrapping_add(lines);
            assert(order == order_before);
            assert(totals == totals_before.insert(column, total));
            lemma_sum_with_column(order_before, totals_before, column, total);
            if totals_before[column] + lines > usize::MAX {
                vstd::arithmetic::div_mod::lemma_mod_sub_multiples_vanish(sum_before + lines, range);
                assert(sum_of_totals(order, totals) == -range + (sum_before + lines));
            }
        } else {
            let total = 0usize.wrapping_add(lines);
            assert(total == lines);
            assert(order == order_before.push(column));
            assert(totals == totals_before.insert(column, total));
            assert(order.drop_last() =~= order_before);
            lemma_sum_without_column(order_before, totals_before, column, total);
            assert(order.no_duplicates()) by {
                assert forall|a: int, b: int| 0 <= a < order.len() && 0 <= b < order.len() && a != b implies order[a]
                    != order[b] by {
                    if a < order_before.len() {
                        assert(order_before.contains(order_before[a]));
                    }
                    if b < order_before.len() {
                        assert(order_before.contains(order_before[b]));
                    }
                }
            }
        }
        assert forall|c: Seq<char>| order.contains(c) <==> totals.contains_key(c) by {
            if order_before.contains(c) {
                let k = choose|k: int| 0 <= k < order_before.len() && order_before[k] == c;
                assert(order[k] == c);
            }
            if c == column {
                if !totals_before.contains_key(column) {
                    assert(order[order.len() - 1] == column);
                }
            }
            if order.contains(c) && c != column {
                let k = choose|k: int| 0 <= k < order.len() && order[k] == c;
                assert(order_before[k] == c);
            }
        }
    }
}

/// Files of which none has a column give no totals at all.
pub proof fn lemma_no_matching_files(
    files: Seq<(Seq<char>, usize)>,
    ext_to_column: Option<Map<Seq<char>, Seq<char>>>,
)
    requires
        forall|i: int| 0 <= i < files.len() ==> column_of(ext_to_column, #[trigger] files[i].0) is None,
    ensures
        column_totals(files, ext_to_column) == Map::<Seq<char>, usize>::empty(),
    decreases files.len(),
{
    if files.len() > 0 {
        let front = files.drop_last();
        assert forall|i: int| 0 <= i < front.len() implies column_of(ext_to_column, #[trigger] front[i].0) is None by {
            assert(front[i] == files[i]);
        }
        lemma_no_matching_files(front, ext_to_column);
        assert(files[files.len() - 1].0 == files.last().0);
    }
}

} // verus!
