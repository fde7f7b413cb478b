//! Ranking the extensions of a commit by their number of lines.

use vstd::prelude::*;
use vstd::string::*;
use crate::columns::ExtensionToLinesMap;
use crate::text::str_eq;

verus! {

/// The totals of `data`, in the order of its entries.
pub open spec fn lines_of(data: ExtensionToLinesMap) -> Seq<usize> {
    Seq::new(data.columns().len(), |i: int| data@[data.columns()[i]])
}

/// Whether entry `i` ranks before entry `j`: it has more lines, or as many
/// and stands earlier.
pub open spec fn more_popular(lines: Seq<usize>, i: int, j: int) -> bool {
    lines[i] > lines[j] || (lines[i] == lines[j] && i < j)
}

/// Whether `order` lists the entries by rank: as many indices as there are
/// entries, each an index of an entry, and each ranking before those after it.
pub open spec fn is_popularity_order(lines: Seq<usize>, order: Seq<int>) -> bool {
    &&& order.len() == lines.len()
    &&& forall|k: int| 0 <= k < order.len() ==> 0 <= #[trigger] order[k] < lines.len()
    &&& forall|a: int, b: int| 0 <= a < b < order.len() ==> more_popular(lines, #[trigger] order[a], #[trigger] order[b])
}

/// Whether `sorted` holds the extensions `names`, each once, the one with
/// the most lines first, and of two with as many lines first the one that
/// stands earlier in `names`.
pub open spec fn is_sorted_by_popularity(names: Seq<Seq<char>>, lines: Seq<usize>, sorted: Seq<Seq<char>>) -> bool {
    exists|order: Seq<int>| #[trigger]
        is_popularity_order(lines, order) && sorted == Seq::new(order.len(), |k: int| names[order[k]])
}

/// The extension that is never worth a column.
pub open spec fn lock_extension() -> Seq<char> {
    seq!['.', 'l', 'o', 'c', 'k']
}

/// The first three of `sorted` that are not `.lock`, or fewer if there are no more.
pub open spec fn top_three(sorted: Seq<Seq<char>>) -> Seq<Seq<char>> {
    let kept = sorted.filter(|ext: Seq<char>| ext != lock_extension());
    if kept.len() <= 3 {
        kept
    } else {
        kept.take(3)
    }
}

/// A listing by rank lists every entry.
pub proof fn lemma_popularity_order_is_complete(lines: Seq<usize>, order: Seq<int>)
    requires
        is_popularity_order(lines, order),
    ensures
        order.no_duplicates(),
        forall|i: int| 0 <= i < lines.len() ==> order.contains(i),
{
    assert(order.no_duplicates()) by {
        assert forall|a: int, b: int| 0 <= a < order.len() && 0 <= b < order.len() && a != b implies order[a]
            != order[b] by {
            if a < b {
                assert(more_popular(lines, order[a], order[b]));
            } else {
                assert(more_popular(lines, order[b], order[a]));
            }
        }
    }
    let range = vstd::set_lib::set_int_range(0, lines.len() as int);
    vstd::set_lib::lemma_int_range(0, lines.len() as int);
    order.unique_seq_to_set();
    assert(order.to_set().subset_of(range)) by {
        assert forall|x: int| order.to_set().contains(x) implies range.contains(x) by {
            let k = choose|k: int| 0 <= k < order.len() && order[k] == x;
            assert(0 <= order[k] < lines.len());
        }
    }
    vstd::set_lib::lemma_subset_equality(order.to_set(), range);
    assert forall|i: int| 0 <= i < lines.len() implies order.contains(i) by {
        assert(range.contains(i));
        assert(order.to_set().contains(i));
    }
}

/// What one more extension at the end of `sorted` does to the top three:
/// it joins them unless it is `.lock` or they are three already.
pub proof fn lemma_top_three_push(sorted: Seq<Seq<char>>, ext: Seq<char>)
    ensures
        top_three(sorted.push(ext)) == (if ext != lock_extension() && top_three(sorted).len() < 3 {
            top_three(sorted).push(ext)
        } else {
            top_three(sorted)
        }),
        top_three(Seq::<Seq<char>>::empty()) == Seq::<Seq<char>>::empty(),
{
    reveal(Seq::filter);
    assert(sorted.push(ext).drop_last() =~= sorted);
    assert(top_three(sorted.push(ext)) =~= (if ext != lock_extension() && top_three(sorted).len() < 3 {
        top_three(sorted).push(ext)
    } else {
        top_three(sorted)
    }));
    assert(top_three(Seq::<Seq<char>>::empty()) =~= Seq::<Seq<char>>::empty());
}

/// The top three are at most three, and none of them is `.lock`.
pub proof fn lemma_top_three(sorted: Seq<Seq<char>>)
    ensures
        top_three(sorted).len() <= 3,
        forall|i: int| 0 <= i < top_three(sorted).len() ==> #[trigger] top_three(sorted)[i] != lock_extension(),
    decreases sorted.len(),
{
    if sorted.len() == 0 {
        lemma_top_three_push(sorted, Seq::empty());
        assert(sorted =~= Seq::<Seq<char>>::empty());
    } else {
        lemma_top_three(sorted.drop_last());
        lemma_top_three_push(sorted.drop_last(), sorted.last());
        assert(sorted.drop_last().push(sorted.last()) =~= sorted);
    }
}

/// There is only one listing by rank.
pub proof fn lemma_popularity_order_is_unique(lines: Seq<usize>, first: Seq<int>, second: Seq<int>)
    requires
        is_popularity_order(lines, first),
        is_popularity_order(lines, second),
    ensures
        first == second,
{
    lemma_popularity_order_is_complete(lines, first);
    lemma_popularity_order_is_complete(lines, second);
    assert forall|k: int| 0 <= k < first.len() implies first[k] == second[k] by {
        lemma_same_up_to(lines, first, second, k);
    }
    assert(first =~= second);
}

proof fn lemma_same_up_to(lines: Seq<usize>, first: Seq<int>, second: Seq<int>, k: int)
    requires
        is_popularity_order(lines, first),
        is_popularity_order(lines, second),
        first.no_duplicates(),
        second.no_duplicates(),
        forall|i: int| 0 <= i < lines.len() ==> first.contains(i),
        forall|i: int| 0 <= i < lines.len() ==> second.contains(i),
        0 <= k < first.len(),
    ensures
        forall|j: int| 0 <= j <= k ==> first[j] == second[j],
    decreases k,
{
    if k > 0 {
        lemma_same_up_to(lines, first, second, k - 1);
    }
    let x = first[k];
    let y = second[k];
    assert(0 <= x < lines.len());
    assert(0 <= y < lines.len());
    assert(second.contains(x));
    assert(first.contains(y));
    let m = choose|m: int| 0 <= m < second.len() && second[m] == x;
    let p = choose|p: int| 0 <= p < first.len() && first[p] == y;
    if x != y {
        // `x` stands after position `k` in `second`, and `y` after `k` in `first`.
        if m < k {
            assert(first[m] == second[m]);
        }
        if p < k {
            assert(first[p] == second[p]);
        }
        assert(m > k);
        assert(p > k);
        assert(more_popular(lines, second[k], second[m]));
        assert(more_popular(lines, first[k], first[p]));
        assert(false);
    }
}

/// The extensions of `data`, the one with the most lines first. Of two
/// extensions with as many lines, the one that entered `data` first comes first.
pub fn get_extensions_sorted_by_popularity(data: &ExtensionToLinesMap) -> (sorted: Vec<String>)
    requires
        data.wf(),
    ensures
        is_sorted_by_popularity(data.columns(), lines_of(*data), sorted.deep_view()),
{
    let ghost lines = lines_of(*data);
    let n = data.len();
    let mut order: Vec<usize> = Vec::new();
    let mut i: usize = 0;
    while i < n
        invariant
            i <= n,
            n == data.columns().len(),
            data.wf(),
            lines == lines_of(*data),
            order@.len() == i,
            forall|k: int| 0 <= k < order@.len() ==> (#[trigger] order@[k]) < i,
            forall|a: int, b: int|
                0 <= a < b < order@.len() ==> more_popular(lines, #[trigger] order@[a] as int, #[trigger] order@[b] as int),
        decreases n - i,
    {
        let lines_i = data.lines_at(i);
        let mut p: usize = 0;
        while p < order.len() && data.lines_at(order[p]) >= lines_i
            invariant
                p <= order@.len(),
                i < n,
                n == data.columns().len(),
                data.wf(),
                lines == lines_of(*data),
                lines_i == lines[i as int],
                forall|k: int| 0 <= k < order@.len() ==> (#[trigger] order@[k]) < i,
                forall|k: int| 0 <= k < p ==> lines[(#[trigger] order@[k]) as int] >= lines_i,
            decreases order@.len() - p,
        {
            p += 1;
        }
        let ghost before = order@;
        order.insert(p, i);
        proof {
            assert forall|a: int, b: int| 0 <= a < b < order@.len() implies more_popular(
                lines,
                #[trigger] order@[a] as int,
                #[trigger] order@[b] as int,
            ) by {
                if b < p {
                    assert(order@[a] == before[a] && order@[b] == before[b]);
                } else if b == p {
                    assert(order@[a] == before[a]);
                } else if a < p {
                    assert(order@[a] == before[a] && order@[b] == before[b - 1]);
                } else if a == p {
                    assert(order@[b] == before[b - 1]);
                    if b - 1 > p {
                        assert(more_popular(lines, before[p as int] as int, before[b - 1] as int));
                    }
                } else {
                    assert(order@[a] == before[a - 1] && order@[b] == before[b - 1]);
                }
            }
        }
        i += 1;
    }
    let ghost ranks = Seq::new(order@.len(), |k: int| order@[k] as int);
    assert(is_popularity_order(lines, ranks));
    let mut sorted: Vec<String> = Vec::new();
    let mut k: usize = 0;
    while k < order.len()
        invariant
            k <= order@.len(),
            order@.len() == n,
            n == data.columns().len(),
            forall|j: int| 0 <= j < order@.len() ==> (#[trigger] order@[j]) < n,
            sorted@.len() == k,
            forall|j: int| 0 <= j < k ==> (#[trigger] sorted@[j])@ == data.columns()[order@[j] as int],
        decreases order@.len() - k,
    {
        sorted.push(data.column_at(order[k]).clone());
        k += 1;
    }
    proof {
        assert(sorted.deep_view() =~= Seq::new(ranks.len(), |k: int| data.columns()[ranks[k]]));
    }
    sorted
}

/// The three extensions of `data` with the most lines, without `.lock`,
/// which is very unlikely to be of interest.
pub fn get_top_three_extensions(data: &ExtensionToLinesMap) -> (top: Vec<String>)
    requires
        data.wf(),
    ensures
        exists|sorted: Seq<Seq<char>>| #[trigger]
            is_sorted_by_popularity(data.columns(), lines_of(*data), sorted) && top.deep_view() == top_three(
                sorted,
            ),
        top@.len() <= 3,
        forall|i: int| 0 <= i < top@.len() ==> (#[trigger] top@[i])@ != lock_extension(),
{
    let sorted = get_extensions_sorted_by_popularity(data);
    let ghost all = sorted.deep_view();
    let mut top: Vec<String> = Vec::new();
    let mut i: usize = 0;
    proof {
        reveal_strlit(".lock");
        assert(".lock"@ =~= lock_extension());
        assert(all.take(0) =~= Seq::empty());
        lemma_top_three_push(Seq::empty(), Seq::empty());
    }
    while i < sorted.len()
        invariant
            i <= sorted@.len(),
            all == sorted.deep_view(),
            ".lock"@ == lock_extension(),
            top.deep_view() == top_three(all.take(i as int)),
        decreases sorted@.len() - i,
    {
        let ghost before = top.deep_view();
        proof {
            assert(all.take(i + 1) =~= all.take(i as int).push(sorted@[i as int]@));
            lemma_top_three_push(all.take(i as int), sorted@[i as int]@);
        }
        if !str_eq(sorted[i].as_str(), ".lock") && top.len() < 3 {
            top.push(sorted[i].clone());
            assert(top.deep_view() =~= before.push(sorted@[i as int]@));
        }
        i += 1;
    }
    proof {
        assert(all.take(sorted@.len() as int) =~= all);
        lemma_top_three(all);
        assert forall|i: int| 0 <= i < top@.len() implies (#[trigger] top@[i])@ != lock_extension() by {
            assert(top.deep_view()[i] == top@[i]@);
        }
    }
    top
}

} // verus!
