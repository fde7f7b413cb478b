//! Columns of the table: the totals per column of one commit, and the map
//! from file extensions to the column that sums them.

use vstd::prelude::*;
use vstd::hash_map::StringHashMap;
use crate::text::{split, split_on, str_eq};

verus! {

/// A column of the table, as given on the command line: one extension
/// (`.rs`) or several joined by `+` (`.c+.h`).
pub type Column = String;

/// A file extension with its leading dot, such as `.rs`.
pub type Extension = String;

/// One more than the largest count: where a count of lines or files wraps.
pub open spec fn count_range() -> int {
    usize::MAX as int + 1
}

/// A wrapping sum of two counts is their sum, taken in the range of counts.
pub proof fn lemma_wrapping_add_in_range(x: usize, y: usize)
    ensures
        x.wrapping_add(y) as int == (x + y) % count_range(),
{
    if x + y > usize::MAX {
        vstd::arithmetic::div_mod::lemma_fundamental_div_mod_converse(
            x + y,
            count_range(),
            1,
            x + y - count_range(),
        );
    } else {
        vstd::arithmetic::div_mod::lemma_small_mod((x + y) as nat, count_range() as nat);
    }
}

/// Line totals per column. A column without an entry counts as zero.
///
/// The entries keep the order in which their columns were first added.
pub struct ColumnToLinesMap {
    entries: Vec<(String, usize)>,
}

/// Line totals per extension: the same shape, with one column per extension.
pub type ExtensionToLinesMap = ColumnToLinesMap;

impl View for ColumnToLinesMap {
    type V = Map<Seq<char>, usize>;

    closed spec fn view(&self) -> Map<Seq<char>, usize> {
        Map::new(
            |c: Seq<char>| self.columns().contains(c),
            |c: Seq<char>| self.entries@[self.columns().index_of(c)].1,
        )
    }
}

impl ColumnToLinesMap {
    /// The columns that have an entry, in the order in which they were first added.
    pub closed spec fn columns(&self) -> Seq<Seq<char>> {
        Seq::new(self.entries@.len(), |i: int| self.entries@[i].0@)
    }

    /// No column has two entries.
    pub closed spec fn wf(&self) -> bool {
        self.columns().no_duplicates()
    }

    /// The view holds exactly the columns listed by `columns`, each once.
    pub proof fn lemma_columns(&self)
        requires
            self.wf(),
        ensures
            self.columns().no_duplicates(),
            self@.dom() == self.columns().to_set(),
            forall|c: Seq<char>| self@.contains_key(c) <==> self.columns().contains(c),
    {
        assert(self@.dom() =~= self.columns().to_set());
    }

    proof fn lemma_entry(&self, i: int)
        requires
            self.wf(),
            0 <= i < self.entries@.len(),
        ensures
            self.columns()[i] == self.entries@[i].0@,
            self@.contains_key(self.columns()[i]),
            self@[self.columns()[i]] == self.entries@[i].1,
    {
        let c = self.columns()[i];
        assert(self.columns().contains(c));
        let j = self.columns().index_of(c);
        assert(self.columns()[j] == c);
        assert(j == i);
    }

    /// An empty map: every column counts as zero.
    pub fn new() -> (m: Self)
        ensures
            m.wf(),
            m@ == Map::<Seq<char>, usize>::empty(),
            m.columns() == Seq::<Seq<char>>::empty(),
    {
        let m = ColumnToLinesMap { entries: Vec::new() };
        assert(m@ =~= Map::<Seq<char>, usize>::empty());
        assert(m.columns() =~= Seq::<Seq<char>>::empty());
        m
    }

    /// Number of columns with an entry.
    pub fn len(&self) -> (n: usize)
        ensures
            n == self.columns().len(),
    {
        self.entries.len()
    }

    /// Whether no column has an entry.
    pub fn is_empty(&self) -> (r: bool)
        ensures
            r == (self.columns().len() == 0),
    {
        self.entries.len() == 0
    }

    /// The column of the `i`-th entry.
    pub fn column_at(&self, i: usize) -> (c: &String)
        requires
            i < self.columns().len(),
        ensures
            c@ == self.columns()[i as int],
    {
        &self.entries[i].0
    }

    /// The total of the `i`-th entry.
    pub fn lines_at(&self, i: usize) -> (n: usize)
        requires
            self.wf(),
            i < self.columns().len(),
        ensures
            self@.contains_key(self.columns()[i as int]),
            n == self@[self.columns()[i as int]],
    {
        proof {
            self.lemma_entry(i as int);
        }
        self.entries[i].1
    }

    fn position(&self, column: &str) -> (r: Option<usize>)
        ensures
            match r {
                Some(i) => i < self.columns().len() && self.columns()[i as int] == column@,
                None => !self.columns().contains(column@),
            },
    {
        let mut i: usize = 0;
        while i < self.entries.len()
            invariant
                i <= self.entries@.len(),
                forall|j: int| 0 <= j < i ==> self.columns()[j] != column@,
            decreases self.entries@.len() - i,
        {
            if str_eq(self.entries[i].0.as_str(), column) {
                return Some(i);
            }
            i += 1;
        }
        None
    }

    /// The total of `column`, if it has an entry.
    pub fn get(&self, column: &str) -> (r: Option<usize>)
        requires
            self.wf(),
        ensures
            r == (if self@.contains_key(column@) {
                Some(self@[column@])
            } else {
                None
            }),
    {
        match self.position(column) {
            Some(i) => {
                proof {
                    self.lemma_entry(i as int);
                }
                Some(self.entries[i].1)
            },
            None => None,
        }
    }

    /// Sets the total of `column` to `lines` and returns the total it had.
    pub fn insert(&mut self, column: String, lines: usize) -> (previous: Option<usize>)
        requires
            old(self).wf(),
        ensures
            final(self).wf(),
            final(self)@ == old(self)@.insert(column@, lines),
            final(self).columns() == (if old(self)@.contains_key(column@) {
                old(self).columns()
            } else {
                old(self).columns().push(column@)
            }),
            previous == (if old(self)@.contains_key(column@) {
                Some(old(self)@[column@])
            } else {
                None
            }),
    {
        let ghost before = *self;
        match self.position(column.as_str()) {
            Some(i) => {
                let previous = self.entries[i].1;
                proof {
                    before.lemma_entry(i as int);
                }
                self.entries[i].1 = lines;
                proof {
                    assert(self.columns() =~= before.columns());
                    self.lemma_stored(before, column@, lines);
                }
                Some(previous)
            },
            None => {
                self.entries.push((column, lines));
                proof {
                    assert(self.columns() =~= before.columns().push(column@));
                    self.lemma_stored(before, column@, lines);
                }
                None
            },
        }
    }

    /// Adds `lines` to the total of `column`, which starts at zero. The sum
    /// wraps at the width of `usize`.
    pub fn add_lines(&mut self, column: &str, lines: usize)
        requires
            old(self).wf(),
        ensures
            final(self).wf(),
            final(self)@ == old(self)@.insert(
                column@,
                (if old(self)@.contains_key(column@) {
                    old(self)@[column@]
                } else {
                    0usize
                }).wrapping_add(lines),
            ),
            final(self).columns() == (if old(self)@.contains_key(column@) {
                old(self).columns()
            } else {
                old(self).columns().push(column@)
            }),
    {
        let ghost before = *self;
        match self.position(column) {
            Some(i) => {
                let total = self.entries[i].1.wrapping_add(lines);
                proof {
                    before.lemma_entry(i as int);
                }
                self.entries[i].1 = total;
                proof {
                    assert(self.columns() =~= before.columns());
                    self.lemma_stored(before, column@, total);
                }
            },
            None => {
                let total = 0usize.wrapping_add(lines);
                self.entries.push((column.to_owned(), total));
                proof {
                    assert(self.columns() =~= before.columns().push(column@));
                    self.lemma_stored(before, column@, total);
                }
            },
        }
    }

    /// After one entry was set or appended, the view is the old view with
    /// that entry inserted.
    proof fn lemma_stored(&self, before: Self, column: Seq<char>, lines: usize)
        requires
            before.wf(),
            self.entries@.len() == self.columns().len(),
            before.entries@.len() == before.columns().len(),
            ({
                ||| ({
                    &&& before.columns().contains(column)
                    &&& self.columns() == before.columns()
                    &&& forall|j: int|
                        0 <= j < before.entries@.len() ==> self.entries@[j].1 == (if before.columns()[j]
                            == column {
                            lines
                        } else {
                            before.entries@[j].1
                        })
                })
                ||| ({
                    &&& !before.columns().contains(column)
                    &&& self.columns() == before.columns().push(column)
                    &&& self.entries@.last().1 == lines
                    &&& forall|j: int|
                        0 <= j < before.entries@.len() ==> self.entries@[j].1 == before.entries@[j].1
                })
            }),
        ensures
            self.wf(),
            self@ == before@.insert(column, lines),
    {
        let cols = self.columns();
        assert(cols.no_duplicates()) by {
            if !before.columns().contains(column) {
                assert forall|i: int, j: int| 0 <= i < cols.len() && 0 <= j < cols.len() && i != j implies cols[i]
                    != cols[j] by {
                    if i < before.columns().len() {
                        assert(before.columns()[i] == cols[i]);
                    }
                    if j < before.columns().len() {
                        assert(before.columns()[j] == cols[j]);
                    }
                }
            }
        }
        assert forall|c: Seq<char>| self@.contains_key(c) <==> before@.insert(column, lines).contains_key(
            c,
        ) by {
            if before.columns().contains(c) {
                let j = before.columns().index_of(c);
                assert(cols[j] == c);
            }
            if cols.contains(c) && c != column {
                let j = cols.index_of(c);
                assert(before.columns()[j] == c);
            }
            if c == column {
                if before.columns().contains(column) {
                } else {
                    assert(cols[cols.len() - 1] == column);
                }
            }
        }
        assert forall|c: Seq<char>| self@.contains_key(c) implies self@[c] == before@.insert(column, lines)[c] by {
            let j = cols.index_of(c);
            assert(cols[j] == c);
            if c == column {
                if !before.columns().contains(column) {
                    assert(cols[cols.len() - 1] == column);
                    assert(j == cols.len() - 1);
                }
            } else {
                assert(before.columns()[j] == c);
                let k = before.columns().index_of(c);
                assert(before.columns()[k] == c);
                assert(k == j);
            }
        }
        assert(self@ =~= before@.insert(column, lines));
    }
}

/// Whether the column specification `column` names the extension `ext`.
pub open spec fn claims(column: Seq<char>, ext: Seq<char>) -> bool {
    split_on(column, '+').contains(ext)
}

/// Index of the last column that names `ext`, or `-1` if none does.
pub open spec fn owner_index(columns: Seq<Seq<char>>, ext: Seq<char>) -> int
    decreases columns.len(),
{
    if columns.len() == 0 {
        -1
    } else if claims(columns.last(), ext) {
        columns.len() - 1
    } else {
        owner_index(columns.drop_last(), ext)
    }
}

/// The column that each extension is summed into: the last one that names it.
pub open spec fn extension_map(columns: Seq<Seq<char>>) -> Map<Seq<char>, Seq<char>> {
    Map::new(
        |ext: Seq<char>| owner_index(columns, ext) >= 0,
        |ext: Seq<char>| columns[owner_index(columns, ext)],
    )
}

/// `owner_index` is `-1` or the index of a column that names the extension,
/// and no later column names it.
pub proof fn lemma_owner_index(columns: Seq<Seq<char>>, ext: Seq<char>)
    ensures
        -1 <= owner_index(columns, ext) < columns.len(),
        owner_index(columns, ext) >= 0 ==> claims(columns[owner_index(columns, ext)], ext),
        forall|i: int| owner_index(columns, ext) < i < columns.len() ==> !claims(columns[i], ext),
    decreases columns.len(),
{
    if columns.len() > 0 && !claims(columns.last(), ext) {
        lemma_owner_index(columns.drop_last(), ext);
        assert forall|i: int| owner_index(columns, ext) < i < columns.len() implies !claims(columns[i], ext) by {
            if i < columns.len() - 1 {
                assert(columns.drop_last()[i] == columns[i]);
            }
        }
    }
}

/// Maps each extension to the column that sums it.
pub struct ExtensionToColumnMap {
    map: StringHashMap<String>,
}

impl View for ExtensionToColumnMap {
    type V = Map<Seq<char>, Seq<char>>;

    closed spec fn view(&self) -> Map<Seq<char>, Seq<char>> {
        self.map@.map_values(|column: String| column@)
    }
}

impl ExtensionToColumnMap {
    /// A map without extensions.
    pub fn new() -> (m: Self)
        ensures
            m@ == Map::<Seq<char>, Seq<char>>::empty(),
    {
        let m = ExtensionToColumnMap { map: StringHashMap::new() };
        assert(m@ =~= Map::<Seq<char>, Seq<char>>::empty());
        m
    }

    /// Makes `column` the column of `ext`, whatever it was before.
    pub fn insert(&mut self, ext: String, column: String)
        ensures
            final(self)@ == old(self)@.insert(ext@, column@),
    {
        let ghost before = *self;
        self.map.insert(ext, column);
        assert(self@ =~= before@.insert(ext@, column@));
    }

    /// The column of `ext`, if it has one.
    pub fn get(&self, ext: &str) -> (r: Option<&String>)
        ensures
            match r {
                Some(column) => self@.contains_key(ext@) && column@ == self@[ext@],
                None => !self@.contains_key(ext@),
            },
    {
        self.map.get(ext)
    }
}

/// Builds the map from extensions to columns for the given column
/// specifications. Each specification is split at `+`, and each piece is
/// mapped to the whole specification; of two specifications that name the
/// same extension, the later one wins.
pub fn generate_extension_to_column_map(columns: &[String]) -> (map: ExtensionToColumnMap)
    ensures
        map@ == extension_map(columns.deep_view()),
{
    let ghost all = columns.deep_view();
    let mut map = ExtensionToColumnMap::new();
    let mut i: usize = 0;
    assert(map@ =~= extension_map(all.take(0)));
    while i < columns.len()
        invariant
            i <= columns@.len(),
            all == columns.deep_view(),
            map@ == extension_map(all.take(i as int)),
        decreases columns@.len() - i,
    {
        let column = &columns[i];
        let exts = split(column.as_str(), '+');
        let ghost done = all.take(i as int);
        let ghost pieces = exts.deep_view();
        assert(all[i as int] == column@);
        assert(pieces == split_on(column@, '+'));
        let mut j: usize = 0;
        assert(map@ =~= bound_after(done, pieces.take(0), column@));
        while j < exts.len()
            invariant
                j <= exts@.len(),
                pieces == exts.deep_view(),
                map@ == bound_after(done, pieces.take(j as int), column@),
            decreases exts@.len() - j,
        {
            let ghost before = map@;
            map.insert(exts[j].clone(), column.clone());
            proof {
                assert(exts@[j as int]@ == pieces[j as int]);
                let more = pieces.take(j + 1);
                let less = pieces.take(j as int);
                assert forall|e: Seq<char>| more.contains(e) <==> (less.contains(e) || e == pieces[j as int]) by {
                    if less.contains(e) {
                        let k = choose|k: int| 0 <= k < less.len() && less[k] == e;
                        assert(more[k] == e);
                    }
                    if e == pieces[j as int] {
                        assert(more[j as int] == e);
                    }
                    if more.contains(e) {
                        let k = choose|k: int| 0 <= k < more.len() && more[k] == e;
                        if k < j {
                            assert(less[k] == e);
                        }
                    }
                }
                assert(map@ =~= bound_after(done, more, column@));
            }
            j += 1;
        }
        proof {
            assert(pieces.take(exts@.len() as int) =~= pieces);
            let next = all.take(i + 1);
            assert(next.drop_last() =~= done);
            assert(next.last() == column@);
            assert forall|e: Seq<char>| owner_index(next, e) >= 0 <==> (owner_index(done, e) >= 0
                || pieces.contains(e)) by {
                lemma_owner_index(done, e);
            }
            assert forall|e: Seq<char>| owner_index(next, e) >= 0 implies next[owner_index(next, e)] == (if pieces.contains(
                e,
            ) {
                column@
            } else {
                done[owner_index(done, e)]
            }) by {
                lemma_owner_index(done, e);
            }
            assert(map@ =~= extension_map(next));
        }
        i += 1;
    }
    assert(all.take(columns@.len() as int) =~= all);
    map
}

/// The map for the columns `done`, overridden by `column` for each of `pieces`.
spec fn bound_after(done: Seq<Seq<char>>, pieces: Seq<Seq<char>>, column: Seq<char>) -> Map<
    Seq<char>,
    Seq<char>,
> {
    Map::new(
        |ext: Seq<char>| owner_index(done, ext) >= 0 || pieces.contains(ext),
        |ext: Seq<char>|
            if pieces.contains(ext) {
                column
            } else {
                done[owner_index(done, ext)]
            },
    )
}

} // verus!
