//! From a repository to the rows of the table: the commits of the history
//! are sampled, the files of each sampled commit are counted and summed into
//! columns, and each sum is handed to the output as a row.

use vstd::prelude::*;
use vstd::string::*;
use crate::aggregate::{aggregate, all_lines, column_for, column_of, is_column, lemma_totals_account_for_all_lines, lemma_totals_domain, map_view, files_view, sum_of_totals, CountedFile};
use crate::args::Args;
use crate::benchmark::{benchmark_advanced, benchmark_lines_advanced, lemma_advanced_by_same_remainder, lemma_advanced_twice, BenchmarkData};
use crate::columns::{count_range, extension_map, generate_extension_to_column_map, Column, ColumnToLinesMap, ExtensionToColumnMap};
use crate::error::TrendsError;
use crate::git;
use crate::output::{Output, OutputEvent};
use crate::progressbar::ProgressMeter;
use crate::repoutils::{is_extension, Blob, LogEntry, Repo};
use crate::sampler::{lemma_rows_are_spaced, sampled, select_rows, times_view};
use crate::text::{join, joined};
use crate::tsv_output::{header_text, lemma_rendered_table, rendered, rows_text};
use crate::timestamp::{utc_date_text, Timestamp};
use crate::utils::{get_extensions_sorted_by_popularity, get_top_three_extensions, is_sorted_by_popularity, lines_of, lock_extension};

verus! {

/// The extensions of the blobs, in order.
pub open spec fn blob_extensions(blobs: Seq<Blob>) -> Seq<Seq<char>> {
    Seq::new(blobs.len(), |i: int| blobs[i].ext@)
}

/// The extensions of the counted files, in order.
pub open spec fn file_extensions(files: Seq<CountedFile>) -> Seq<Seq<char>> {
    Seq::new(files.len(), |i: int| files[i].ext@)
}

/// The extensions among `exts` that have a column, in order.
pub open spec fn extensions_with_column(exts: Seq<Seq<char>>, ext_to_column: Option<Map<Seq<char>, Seq<char>>>) -> Seq<
    Seq<char>,
>
    decreases exts.len(),
{
    if exts.len() == 0 {
        Seq::empty()
    } else {
        let rest = extensions_with_column(exts.drop_last(), ext_to_column);
        if column_of(ext_to_column, exts.last()) is Some {
            rest.push(exts.last())
        } else {
            rest
        }
    }
}

/// Whether `column` is the column of the extension of some file name.
pub open spec fn is_file_column(ext_to_column: Option<Map<Seq<char>, Seq<char>>>, column: Seq<char>) -> bool {
    exists|ext: Seq<char>| #[trigger] is_extension(ext) && column_of(ext_to_column, ext) == Some(column)
}

/// Whether `text` lists the extensions of some files by their lines: the
/// heading, then the extensions, each once, the one with the most lines first.
pub open spec fn is_extensions_listing(text: Seq<char>) -> bool {
    exists|names: Seq<Seq<char>>, lines: Seq<usize>, sorted: Seq<Seq<char>>| #[trigger]
        is_sorted_by_popularity(names, lines, sorted) && names.len() == lines.len() && names.no_duplicates() && (
        forall|i: int| 0 <= i < names.len() ==> is_extension(#[trigger] names[i])) && text == listing_text(sorted)
}

/// The commit times of the log, in order.
pub open spec fn log_times(log: Seq<LogEntry<'_>>) -> Seq<int> {
    Seq::new(log.len(), |i: int| log[i].time@)
}

/// Whether `event` is a row with the given date whose totals are all for
/// columns that files can be summed into.
pub open spec fn is_row_of(event: OutputEvent, date: Seq<char>, ext_to_column: Option<Map<Seq<char>, Seq<char>>>) -> bool {
    match event {
        OutputEvent::Row(row_date, lines) => row_date == date && forall|column: Seq<char>|
            lines.contains_key(column) ==> is_column(ext_to_column, column),
        _ => false,
    }
}

/// Whether an output that had taken `before` has, with `after`, taken one
/// table more: the columns, then one row for each sampled commit of a
/// history with the commit times `times`, in the order of the history and
/// under the date of the commit, then the end.
pub open spec fn is_table(
    before: Seq<OutputEvent>,
    after: Seq<OutputEvent>,
    columns: Seq<Seq<char>>,
    times: Seq<int>,
    min_interval: int,
    max_rows: nat,
) -> bool {
    let rows = sampled(times, min_interval, max_rows);
    &&& after.len() == before.len() + rows.len() + 2
    &&& after.take(before.len() as int) == before
    &&& after[before.len() as int] == OutputEvent::Start(columns)
    &&& forall|k: int|
        0 <= k < rows.len() ==> is_row_of(
            #[trigger] after[before.len() + 1 + k],
            utc_date_text(times[rows[k]]),
            Some(extension_map(columns)),
        )
    &&& after.last() == OutputEvent::Finish
}

/// Whether `after` begins with `before`.
pub open spec fn extends(before: Seq<OutputEvent>, after: Seq<OutputEvent>) -> bool {
    before.len() <= after.len() && after.take(before.len() as int) == before
}

/// The text that lists the extensions `sorted`.
pub open spec fn listing_text(sorted: Seq<Seq<char>>) -> Seq<char> {
    "Available extensions (in first commit):\n"@ + joined(sorted, " "@)
}

/// The text of a table that was taken by an output without earlier events:
/// the header row, then the rows of the sampled commits. With a row budget of
/// zero it is the header row alone.
pub proof fn lemma_table_text(
    events: Seq<OutputEvent>,
    columns: Seq<Seq<char>>,
    times: Seq<int>,
    min_interval: int,
    max_rows: nat,
)
    requires
        is_table(Seq::empty(), events, columns, times, min_interval, max_rows),
    ensures
        events.len() == sampled(times, min_interval, max_rows).len() + 2,
        rendered(events) == header_text(columns) + rows_text(columns, events.subrange(1, events.len() - 1)),
        max_rows == 0 ==> rendered(events) == header_text(columns),
{
    assert forall|k: int| 0 < k < events.len() - 1 implies #[trigger] events[k] is Row by {
        assert(is_row_of(events[0 + 1 + (k - 1)], utc_date_text(times[sampled(times, min_interval, max_rows)[k - 1]]), Some(extension_map(columns))));
    }
    lemma_rendered_table(events, columns);
    if max_rows == 0 {
        assert(events.subrange(1, events.len() - 1) =~= Seq::<OutputEvent>::empty());
        assert(header_text(columns) + Seq::<char>::empty() =~= header_text(columns));
    }
}

/// The totals of a row, and none for any other event.
pub open spec fn row_totals(event: OutputEvent) -> Map<Seq<char>, usize> {
    match event {
        OutputEvent::Row(_, lines) => lines,
        _ => Map::empty(),
    }
}

/// Two runs with the same columns and settings over the same history, in
/// which each sampled commit has the same totals, hand the same events to
/// their outputs, and so give the same text.
pub proof fn lemma_same_history_same_table(
    before: Seq<OutputEvent>,
    first: Seq<OutputEvent>,
    second: Seq<OutputEvent>,
    columns: Seq<Seq<char>>,
    times: Seq<int>,
    min_interval: int,
    max_rows: nat,
)
    requires
        is_table(before, first, columns, times, min_interval, max_rows),
        is_table(before, second, columns, times, min_interval, max_rows),
        forall|k: int| 0 <= k < first.len() ==> row_totals(#[trigger] first[k]) == row_totals(second[k]),
    ensures
        first == second,
        rendered(first) == rendered(second),
{
    let rows = sampled(times, min_interval, max_rows);
    assert forall|j: int| 0 <= j < first.len() implies first[j] == second[j] by {
        if j < before.len() {
            assert(first.take(before.len() as int)[j] == first[j]);
            assert(second.take(before.len() as int)[j] == second[j]);
        } else if j == before.len() {
        } else if j < first.len() - 1 {
            let k = j - before.len() - 1;
            assert(is_row_of(first[before.len() + 1 + k], utc_date_text(times[rows[k]]), Some(extension_map(columns))));
            assert(is_row_of(second[before.len() + 1 + k], utc_date_text(times[rows[k]]), Some(extension_map(columns))));
            assert(row_totals(first[j]) == row_totals(second[j]));
        } else {
        }
    }
    assert(first =~= second);
}

/// Copies the columns.
fn clone_columns(columns: &Vec<Column>) -> (copy: Vec<Column>)
    ensures
        copy.deep_view() == columns.deep_view(),
{
    let mut copy: Vec<Column> = Vec::new();
    let mut i: usize = 0;
    while i < columns.len()
        invariant
            i <= columns@.len(),
            copy@.len() == i,
            forall|j: int| 0 <= j < i ==> copy@[j]@ == columns@[j]@,
        decreases columns@.len() - i,
    {
        copy.push(columns[i].clone());
        i += 1;
    }
    assert(copy.deep_view() =~= columns.deep_view());
    copy
}

/// The lines that a blob adds to its column: those that were read, or none
/// if the blob could not be read.
pub fn lines_counted(read: Result<usize, TrendsError>) -> (lines: usize)
    ensures
        lines == (match read {
            Ok(n) => n,
            Err(_) => 0usize,
        }),
{
    match read {
        Ok(n) => n,
        Err(_) => 0,
    }
}

/// Reads the lines of each blob that has a column. A blob that cannot be
/// read counts as a file without lines.
fn count_files(
    repo: &Repo,
    blobs: &Vec<Blob>,
    ext_to_column: Option<&ExtensionToColumnMap>,
    progress_bar: &mut Option<ProgressMeter>,
    benchmark_data: &mut Option<BenchmarkData>,
) -> (files: Vec<CountedFile>)
    requires
        forall|i: int| 0 <= i < blobs@.len() ==> is_extension((#[trigger] blobs@[i]).ext@),
    ensures
        file_extensions(files@) == extensions_with_column(blob_extensions(blobs@), map_view(ext_to_column)),
        forall|i: int| 0 <= i < files@.len() ==> is_extension((#[trigger] files@[i]).ext@),
        forall|i: int|
            0 <= i < files@.len() ==> column_of(map_view(ext_to_column), (#[trigger] files@[i]).ext@) is Some,
        *final(benchmark_data) is Some <==> *old(benchmark_data) is Some,
        benchmark_advanced(
            *old(benchmark_data),
            *final(benchmark_data),
            files@.len() as int,
            all_lines(files_view(files@)),
        ),
{
    let ghost exts = blob_extensions(blobs@);
    let ghost map = map_view(ext_to_column);
    let mut files: Vec<CountedFile> = Vec::new();
    let mut index: usize = 0;
    proof {
        assert(exts.take(0) =~= Seq::empty());
        assert(file_extensions(files@) =~= Seq::empty());
        assert(files_view(files@) =~= Seq::empty());
        if *benchmark_data is Some {
            vstd::arithmetic::div_mod::lemma_small_mod(
                (*benchmark_data).unwrap().total_files_processed as nat,
                count_range() as nat,
            );
            vstd::arithmetic::div_mod::lemma_small_mod(
                (*benchmark_data).unwrap().total_lines_counted as nat,
                count_range() as nat,
            );
        }
    }
    while index < blobs.len()
        invariant
            index <= blobs@.len(),
            exts == blob_extensions(blobs@),
            map == map_view(ext_to_column),
            file_extensions(files@) == extensions_with_column(exts.take(index as int), map),
            forall|i: int| 0 <= i < blobs@.len() ==> is_extension((#[trigger] blobs@[i]).ext@),
            forall|i: int| 0 <= i < files@.len() ==> is_extension((#[trigger] files@[i]).ext@),
            forall|i: int| 0 <= i < files@.len() ==> column_of(map, (#[trigger] files@[i]).ext@) is Some,
            *benchmark_data is Some <==> *old(benchmark_data) is Some,
            benchmark_advanced(
                *old(benchmark_data),
                *benchmark_data,
                files@.len() as int,
                all_lines(files_view(files@)),
            ),
        decreases blobs@.len() - index,
    {
        match progress_bar {
            Some(progress_bar) => {
                progress_bar.set_position_rate_limited(index);
            },
            None => {},
        }
        let blob = &blobs[index];
        proof {
            assert(exts.take(index + 1).drop_last() =~= exts.take(index as int));
            assert(exts.take(index + 1).last() == blob.ext@);
        }
        // A blob is counted only if its extension has a column.
        match column_for(ext_to_column, blob.ext.as_str()) {
            Some(_) => {
                let lines = lines_counted(repo.get_lines_in_blob(&blob.id));
                let ghost before = file_extensions(files@);
                let ghost counted = files_view(files@);
                let ghost benchmark_before = *benchmark_data;
                files.push(CountedFile { ext: blob.ext.clone(), lines });
                proof {
                    assert(file_extensions(files@) =~= before.push(blob.ext@));
                    assert(files_view(files@) =~= counted.push((blob.ext@, lines)));
                    assert(files_view(files@).drop_last() =~= counted);
                }
                match benchmark_data {
                    Some(benchmark_data) => {
                        benchmark_data.count_file(lines);
                    },
                    None => {},
                }
                proof {
                    if benchmark_before is Some {
                        lemma_advanced_twice(
                            (*old(benchmark_data)).unwrap(),
                            benchmark_before.unwrap(),
                            (*benchmark_data).unwrap(),
                            counted.len() as int,
                            all_lines(counted),
                            1,
                            lines as int,
                        );
                    }
                }
            },
            None => {},
        }
        index += 1;
    }
    assert(exts.take(blobs@.len() as int) =~= exts);
    files
}

/// Counts the lines of the files of `commit` and sums them into columns.
/// With `ext_to_column`, only files whose extension has a column are
/// counted; without it every extension is a column of its own. Unless
/// `args` forbids it, a progress bar with the given prefix is shown.
///
/// Whatever the commit holds, every column with a total is the column of
/// the extension of a file name, and a benchmark counts as many lines more
/// as the totals add up to. When the commit cannot be read, the benchmark
/// stays as it was.
pub fn process_commit(
    repo: &Repo,
    commit: &git2::Commit<'_>,
    ext_to_column: Option<&ExtensionToColumnMap>,
    args: &Args,
    progress_bar_prefix: &str,
    benchmark_data: &mut Option<BenchmarkData>,
) -> (r: Result<ColumnToLinesMap, TrendsError>)
    ensures
        match r {
            Ok(totals) => {
                &&& totals.wf()
                &&& forall|column: Seq<char>|
                    totals@.contains_key(column) ==> is_column(map_view(ext_to_column), column)
                &&& forall|column: Seq<char>|
                    totals@.contains_key(column) ==> is_file_column(map_view(ext_to_column), column)
                &&& benchmark_lines_advanced(
                    *old(benchmark_data),
                    *final(benchmark_data),
                    sum_of_totals(totals.columns(), totals@),
                )
                &&& totals.columns().len() == 0 ==> *final(benchmark_data) == *old(benchmark_data)
            },
            Err(e) => e is RepositoryUnavailable && *final(benchmark_data) == *old(benchmark_data),
        },
        *final(benchmark_data) is Some <==> *old(benchmark_data) is Some,
{
    let blobs = match repo.get_blobs_in_commit(commit) {
        Ok(blobs) => blobs,
        Err(e) => {
            return Err(e);
        },
    };
    let mut progress_bar = if !args.disable_progress_bar {
        Some(ProgressMeter::setup(blobs.len(), progress_bar_prefix))
    } else {
        None
    };
    let files = count_files(repo, &blobs, ext_to_column, &mut progress_bar, benchmark_data);
    match &progress_bar {
        Some(progress_bar) => {
            progress_bar.finish_and_clear();
        },
        None => {},
    }
    let totals = aggregate(&files, ext_to_column);
    proof {
        assert forall|column: Seq<char>| totals@.contains_key(column) implies is_column(
            map_view(ext_to_column),
            column,
        ) && is_file_column(map_view(ext_to_column), column) by {
            let counted = files_view(files@);
            lemma_totals_domain(counted, map_view(ext_to_column), column);
            let i = choose|i: int|
                0 <= i < counted.len() && column_of(map_view(ext_to_column), #[trigger] counted[i].0) == Some(column);
            assert(counted[i].0 == files@[i].ext@);
            assert(is_extension(files@[i].ext@));
        }
        let counted = files_view(files@);
        assert forall|i: int| 0 <= i < counted.len() implies column_of(
            map_view(ext_to_column),
            #[trigger] counted[i].0,
        ) is Some by {
            assert(counted[i].0 == files@[i].ext@);
        }
        lemma_totals_account_for_all_lines(counted, map_view(ext_to_column));
        lemma_advanced_by_same_remainder(
            *old(benchmark_data),
            *benchmark_data,
            files@.len() as int,
            all_lines(counted),
            sum_of_totals(totals.columns(), totals@),
        );
        if totals.columns().len() == 0 && files@.len() > 0 {
            let column = column_of(map_view(ext_to_column), counted[0].0).unwrap();
            lemma_totals_domain(counted, map_view(ext_to_column), column);
            assert(totals.columns().contains(column));
        }
    }
    Ok(totals)
}

/// Counts the lines of `commit` for the columns of `ext_to_column` and
/// hands the totals to `output` as the row of `date`.
pub fn process_and_print_row<O: Output>(
    repo: &Repo,
    date: &str,
    commit: &git2::Commit<'_>,
    ext_to_column: &ExtensionToColumnMap,
    output: &mut O,
    benchmark_data: &mut Option<BenchmarkData>,
    args: &Args,
) -> (r: Result<(), TrendsError>)
    ensures
        match r {
            Ok(()) => {
                &&& final(output).events().len() == old(output).events().len() + 1
                &&& final(output).events().drop_last() == old(output).events()
                &&& is_row_of(final(output).events().last(), date@, Some(ext_to_column@))
            },
            Err(e) => (e is RepositoryUnavailable || e is Output) && final(output).events() == old(output).events(),
        },
        old(output).is_faithful() ==> final(output).is_faithful(),
        *final(benchmark_data) is Some <==> *old(benchmark_data) is Some,
{
    let data = match process_commit(repo, commit, Some(ext_to_column), args, date, benchmark_data) {
        Ok(data) => data,
        Err(e) => {
            return Err(e);
        },
    };
    match output.add_row(date, &data) {
        Ok(()) => {
            assert(output.events().drop_last() =~= old(output).events());
            Ok(())
        },
        Err(e) => Err(TrendsError::Output(e.message().clone())),
    }
}

/// Prints the table for the commits of `log`: the columns, a row for each
/// commit that the interval sampler takes, and the end.
pub fn print_rows<O: Output>(
    repo: &Repo,
    args: &Args,
    columns: &Vec<Column>,
    log: &Vec<LogEntry<'_>>,
    output: &mut O,
    benchmark_data: &mut Option<BenchmarkData>,
) -> (r: Result<(), TrendsError>)
    ensures
        match r {
            Ok(()) => is_table(
                old(output).events(),
                final(output).events(),
                columns.deep_view(),
                log_times(log@),
                args.min_interval as int,
                args.max_rows as nat,
            ),
            Err(e) => (e is RepositoryUnavailable || e is Output) && (args.max_rows == 0 ==> e is Output) && extends(
                old(output).events(),
                final(output).events(),
            ),
        },
        old(output).is_faithful() ==> final(output).is_faithful(),
        *final(benchmark_data) is Some <==> *old(benchmark_data) is Some,
{
    let ghost before = output.events();
    let ghost times = log_times(log@);
    let ghost picked = sampled(times, args.min_interval as int, args.max_rows as nat);
    let names = columns.as_slice();
    assert(names.deep_view() =~= columns.deep_view());
    let ext_to_column = generate_extension_to_column_map(names);

    // The header.
    match output.start(names) {
        Ok(()) => {},
        Err(e) => {
            assert(output.events().take(before.len() as int) =~= before);
            return Err(TrendsError::Output(e.message().clone()));
        },
    }

    // Which commits get a row.
    let mut commit_times: Vec<Timestamp> = Vec::new();
    let mut i: usize = 0;
    while i < log.len()
        invariant
            i <= log@.len(),
            commit_times@.len() == i,
            forall|j: int| 0 <= j < i ==> commit_times@[j]@ == log@[j].time@,
        decreases log@.len() - i,
    {
        commit_times.push(log[i].time);
        i += 1;
    }
    assert(times_view(commit_times@) =~= times);
    let rows = select_rows(&commit_times, args.min_interval, args.max_rows);
    proof {
        lemma_rows_are_spaced(times, args.min_interval as int, args.max_rows as nat);
        assert(rows@.len() == picked.len());
        assert forall|k: int| 0 <= k < rows@.len() implies rows@[k] as int == picked[k] by {
            assert(rows@.map_values(|i: usize| i as int)[k] == rows@[k] as int);
        }
        assert(output.events().take(before.len() as int) =~= before);
    }

    // The rows.
    let mut k: usize = 0;
    while k < rows.len()
        invariant
            k <= rows@.len(),
            rows@.len() == picked.len(),
            times == log_times(log@),
            before == old(output).events(),
            old(output).is_faithful() ==> output.is_faithful(),
            *benchmark_data is Some <==> *old(benchmark_data) is Some,
            forall|j: int| 0 <= j < rows@.len() ==> rows@[j] as int == picked[j],
            forall|j: int| 0 <= j < picked.len() ==> 0 <= #[trigger] picked[j] < times.len(),
            picked.len() <= args.max_rows,
            ext_to_column@ == extension_map(columns.deep_view()),
            output.events().len() == before.len() + 1 + k,
            output.events().take(before.len() as int) == before,
            output.events()[before.len() as int] == OutputEvent::Start(columns.deep_view()),
            forall|j: int|
                0 <= j < k ==> is_row_of(
                    #[trigger] output.events()[before.len() + 1 + j],
                    utc_date_text(times[picked[j]]),
                    Some(extension_map(columns.deep_view())),
                ),
        decreases rows@.len() - k,
    {
        let ghost so_far = output.events();
        assert(0 <= picked[k as int] < times.len());
        let entry = &log[rows[k]];
        let date = entry.time.date();
        match process_and_print_row(
            repo,
            date.as_str(),
            &entry.commit,
            &ext_to_column,
            output,
            benchmark_data,
            args,
        ) {
            Ok(()) => {},
            Err(e) => {
                return Err(e);
            },
        }
        proof {
            let now = output.events();
            assert(now.drop_last() == so_far);
            assert forall|j: int| 0 <= j < now.len() - 1 implies now[j] == so_far[j] by {
                assert(now.drop_last()[j] == now[j]);
            }
            assert(now.take(before.len() as int) =~= before) by {
                assert forall|j: int| 0 <= j < before.len() implies now.take(before.len() as int)[j] == before[j] by {
                    assert(so_far.take(before.len() as int)[j] == so_far[j]);
                }
            }
            assert(now[before.len() + 1 + k] == now.last());
            assert(times[picked[k as int]] == entry.time@);
        }
        k += 1;
    }

    // The end.
    let ghost with_rows = output.events();
    match output.finish() {
        Ok(()) => {
            proof {
                let now = output.events();
                assert(now.take(before.len() as int) =~= before) by {
                    assert forall|j: int| 0 <= j < before.len() implies now.take(before.len() as int)[j]
                        == before[j] by {
                        assert(with_rows.take(before.len() as int)[j] == with_rows[j]);
                    }
                }
                assert forall|j: int| 0 <= j < picked.len() implies is_row_of(
                    #[trigger] now[before.len() + 1 + j],
                    utc_date_text(times[picked[j]]),
                    Some(extension_map(columns.deep_view())),
                ) by {
                    assert(now[before.len() + 1 + j] == with_rows[before.len() + 1 + j]);
                }
            }
            Ok(())
        },
        Err(e) => Err(TrendsError::Output(e.message().clone())),
    }
}

/// Counts the lines of the start commit, for every extension. Whatever the
/// commit holds, every column with a total is the extension of a file name,
/// and a benchmark counts as many lines more as the totals add up to.
pub fn get_data_for_start_commit(repo: &Repo, args: &Args, benchmark_data: &mut Option<BenchmarkData>) -> (r:
    Result<ColumnToLinesMap, TrendsError>)
    ensures
        match r {
            Ok(data) => {
                &&& data.wf()
                &&& forall|column: Seq<char>| data@.contains_key(column) ==> is_extension(column)
                &&& benchmark_lines_advanced(
                    *old(benchmark_data),
                    *final(benchmark_data),
                    sum_of_totals(data.columns(), data@),
                )
            },
            Err(e) => (e is ReferenceNotFound || e is RepositoryUnavailable) && *final(benchmark_data) == *old(
                benchmark_data,
            ),
        },
        *final(benchmark_data) is Some <==> *old(benchmark_data) is Some,
{
    let object = match git::revparse_single(&repo.repo, args.start_commit.as_str()) {
        Ok(object) => object,
        Err(e) => {
            return Err(TrendsError::ReferenceNotFound(git::error_text(&e)));
        },
    };
    let commit = match git::object_peel_to_commit(&object) {
        Ok(commit) => commit,
        Err(e) => {
            return Err(TrendsError::ReferenceNotFound(git::error_text(&e)));
        },
    };
    match process_commit(repo, &commit, None, args, "finding extensions and their line count", benchmark_data) {
        Ok(data) => {
            proof {
                assert forall|column: Seq<char>| data@.contains_key(column) implies is_extension(column) by {
                    assert(is_file_column(None, column));
                }
            }
            Ok(data)
        },
        Err(e) => Err(e),
    }
}

/// The columns of the table: those that `args` names, or else the three
/// extensions with the most lines in the start commit.
pub fn get_reasonable_set_of_columns(
    repo: &Repo,
    args: &Args,
    benchmark_data: &mut Option<BenchmarkData>,
) -> (r: Result<Vec<Column>, TrendsError>)
    ensures
        args.columns@.len() > 0 ==> r is Ok && r.unwrap().deep_view() == args.columns.deep_view(),
        args.columns@.len() > 0 ==> *final(benchmark_data) == *old(benchmark_data),
        match r {
            Ok(columns) => args.columns@.len() == 0 ==> columns@.len() <= 3 && forall|i: int|
                0 <= i < columns@.len() ==> (#[trigger] columns@[i])@ != lock_extension(),
            Err(e) => e is ReferenceNotFound || e is RepositoryUnavailable,
        },
        *final(benchmark_data) is Some <==> *old(benchmark_data) is Some,
{
    if args.columns.len() > 0 {
        // Easy, just use what the user wishes.
        Ok(clone_columns(&args.columns))
    } else {
        let data = match get_data_for_start_commit(repo, args, benchmark_data) {
            Ok(data) => data,
            Err(e) => {
                return Err(e);
            },
        };
        Ok(get_top_three_extensions(&data))
    }
}

/// The text that lists the extensions of `data`, the one with the most lines first.
pub fn extensions_listing(data: &ColumnToLinesMap) -> (text: String)
    requires
        data.wf(),
    ensures
        exists|sorted: Seq<Seq<char>>| #[trigger]
            is_sorted_by_popularity(data.columns(), lines_of(*data), sorted) && text@ == listing_text(sorted),
{
    let sorted = get_extensions_sorted_by_popularity(data);
    let mut text = String::from_str("Available extensions (in first commit):\n");
    let list = join(&sorted, " ");
    text.append(list.as_str());
    assert(text@ =~= listing_text(sorted.deep_view()));
    text
}

/// The text that lists the extensions of the start commit. Whatever the
/// commit holds, the text is a listing of extensions of file names.
pub fn list_file_extensions(repo: &Repo, args: &Args, benchmark_data: &mut Option<BenchmarkData>) -> (r: Result<
    String,
    TrendsError,
>)
    ensures
        match r {
            Ok(text) => is_extensions_listing(text@),
            Err(e) => e is ReferenceNotFound || e is RepositoryUnavailable,
        },
        *final(benchmark_data) is Some <==> *old(benchmark_data) is Some,
{
    match get_data_for_start_commit(repo, args, benchmark_data) {
        Ok(data) => {
            let text = extensions_listing(&data);
            proof {
                let names = data.columns();
                let lines = lines_of(data);
                let sorted = choose|sorted: Seq<Seq<char>>| #[trigger]
                    is_sorted_by_popularity(names, lines, sorted) && text@ == listing_text(sorted);
                data.lemma_columns();
                assert forall|i: int| 0 <= i < names.len() implies is_extension(#[trigger] names[i]) by {
                    assert(names.contains(names[i]));
                }
                assert(is_sorted_by_popularity(names, lines, sorted));
            }
            Ok(text)
        },
        Err(e) => Err(e),
    }
}

/// Prints the table of the repository to `output`, and says whether there
/// was a table to print: there is none when `args` names no columns and the
/// start commit has no file with an extension.
pub fn process_commits_and_print_rows<O: Output>(
    repo: &Repo,
    args: &Args,
    output: &mut O,
    benchmark_data: &mut Option<BenchmarkData>,
) -> (r: Result<bool, TrendsError>)
    ensures
        match r {
            Ok(printed) => if printed {
                exists|columns: Seq<Seq<char>>, times: Seq<int>| #[trigger]
                    is_table(
                        old(output).events(),
                        final(output).events(),
                        columns,
                        times,
                        args.min_interval as int,
                        args.max_rows as nat,
                    ) && columns.len() > 0 && (args.columns@.len() > 0 ==> columns == args.columns.deep_view())
            } else {
                args.columns@.len() == 0 && final(output).events() == old(output).events()
            },
            Err(e) => {
                &&& !(e is ContentNotFound)
                &&& extends(old(output).events(), final(output).events())
                &&& e is ReferenceNotFound ==> final(output).events() == old(output).events()
            },
        },
        old(output).is_faithful() ==> final(output).is_faithful(),
        *final(benchmark_data) is Some <==> *old(benchmark_data) is Some,
{
    let ghost before = output.events();
    assert(before.take(before.len() as int) =~= before);
    let columns = match get_reasonable_set_of_columns(repo, args, benchmark_data) {
        Ok(columns) => columns,
        Err(e) => {
            return Err(e);
        },
    };
    assert(columns.deep_view().len() == columns@.len());
    if columns.len() == 0 {
        return Ok(false);
    }
    let log = match repo.git_log(args) {
        Ok(log) => log,
        Err(e) => {
            return Err(e);
        },
    };
    match print_rows(repo, args, &columns, &log, output, benchmark_data) {
        Ok(()) => {
            assert(is_table(
                before,
                output.events(),
                columns.deep_view(),
                log_times(log@),
                args.min_interval as int,
                args.max_rows as nat,
            ));
            Ok(true)
        },
        Err(e) => Err(e),
    }
}

} // verus!
