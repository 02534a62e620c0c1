//! What a join over keys is, said without a hash table: the pairs of a
//! nested loop over the probe rows and the build rows.

use vstd::prelude::*;
use crate::hash_join::hashtable::{chain, lemma_matches_are_entries, Entries};
use crate::hash_join::row_ptr::RowPtr;

verus! {

/// Matched pairs: a probe row with a build row.
pub type Pairs = Seq<(int, RowPtr)>;

/// Probe row `idx` paired with each of `rows`, in their order.
pub open spec fn row_pairs(idx: int, rows: Seq<RowPtr>) -> Pairs {
    Seq::new(rows.len(), |k: int| (idx, rows[k]))
}

/// The pairs of the nested loop over the probe rows from `from` on: for each
/// probe row in turn, every build row with an equal key, in build order.
pub open spec fn pairs_from(keys: Seq<Seq<u8>>, entries: Entries, from: int) -> Pairs
    decreases keys.len() - from,
{
    if from < 0 || from >= keys.len() {
        Seq::empty()
    } else {
        row_pairs(from, chain(entries, keys[from])) + pairs_from(keys, entries, from + 1)
    }
}

/// The equi-join of the probe keys with the build entries, as the naive
/// nested loop yields it.
pub open spec fn join_pairs(keys: Seq<Seq<u8>>, entries: Entries) -> Pairs {
    pairs_from(keys, entries, 0)
}

/// The pairs of the probe rows `rows[k..]`, visited in the order of `rows`.
pub open spec fn rows_pairs_from(keys: Seq<Seq<u8>>, entries: Entries, rows: Seq<int>, k: int) -> Pairs
    decreases rows.len() - k,
{
    if k < 0 || k >= rows.len() {
        Seq::empty()
    } else {
        row_pairs(rows[k], chain(entries, keys[rows[k]])) + rows_pairs_from(keys, entries, rows, k + 1)
    }
}

/// Whether `rows` is a selection of probe rows that loses no pair: rows of
/// the batch in rising order, with every row that has a match among them.
pub open spec fn covering(keys: Seq<Seq<u8>>, entries: Entries, rows: Seq<int>) -> bool {
    &&& forall|a: int, b: int| 0 <= a < b < rows.len() ==> rows[a] < rows[b]
    &&& forall|a: int| 0 <= a < rows.len() ==> 0 <= #[trigger] rows[a] < keys.len()
    &&& forall|i: int|
        0 <= i < keys.len() && (#[trigger] chain(entries, keys[i])).len() > 0 ==> rows.contains(i)
}

/// The first `count` pairs of two index buffers: entry `k` of the one with
/// entry `k` of the other.
pub open spec fn index_pairs(probe_indexes: Seq<u32>, build_indexes: Seq<RowPtr>, count: int) -> Pairs {
    Seq::new(count as nat, |k: int| (probe_indexes[k] as int, build_indexes[k]))
}

/// The build rows of pairs.
pub open spec fn build_rows(pairs: Pairs) -> Seq<RowPtr> {
    Seq::new(pairs.len(), |k: int| pairs[k].1)
}

/// The pairs that the residual predicate `pred` lets through, in order.
pub open spec fn filter_pairs(pairs: Pairs, pred: spec_fn(int, RowPtr) -> bool) -> Pairs {
    pairs.filter(|pair: (int, RowPtr)| pred(pair.0, pair.1))
}

/// The entries of `items` whose place in `mask` holds `true`, among the
/// first `upto`, in order.
pub open spec fn select<T>(items: Seq<T>, mask: Seq<bool>, upto: int) -> Seq<T>
    decreases upto,
{
    if upto <= 0 {
        Seq::empty()
    } else if mask[upto - 1] {
        select(items, mask, upto - 1).push(items[upto - 1])
    } else {
        select(items, mask, upto - 1)
    }
}

/// A mask that agrees with a predicate selects what the predicate filters.
pub proof fn lemma_select_is_filter(
    pairs: Pairs,
    mask: Seq<bool>,
    pred: spec_fn(int, RowPtr) -> bool,
    upto: int,
)
    requires
        0 <= upto <= pairs.len(),
        upto <= mask.len(),
        forall|k: int| 0 <= k < upto ==> mask[k] == pred(pairs[k].0, pairs[k].1),
    ensures
        select(pairs, mask, upto) == filter_pairs(pairs.take(upto), pred),
    decreases upto,
{
    if upto > 0 {
        lemma_select_is_filter(pairs, mask, pred, upto - 1);
        assert(pairs.take(upto).drop_last() =~= pairs.take(upto - 1));
        reveal(Seq::filter);
        assert(pairs.take(upto).last() == pairs[upto - 1]);
    } else {
        reveal(Seq::filter);
        assert(pairs.take(0) =~= Seq::<(int, RowPtr)>::empty());
    }
}

/// The build rows of pairs strung together are the build rows of each,
/// strung together.
pub proof fn lemma_build_rows_add(a: Pairs, b: Pairs)
    ensures
        build_rows(a + b) == build_rows(a) + build_rows(b),
{
    assert(build_rows(a + b) =~= build_rows(a) + build_rows(b));
}

/// Every build row among the pairs of a row order is the row of an entry.
pub proof fn lemma_pairs_are_entries(keys: Seq<Seq<u8>>, entries: Entries, rows: Seq<int>, k: int, i: int)
    requires
        0 <= k,
        0 <= i < rows_pairs_from(keys, entries, rows, k).len(),
    ensures
        exists|j: int|
            0 <= j < entries.len() && (#[trigger] entries[j]).1 == rows_pairs_from(keys, entries, rows, k)[i].1,
    decreases rows.len() - k,
{
    if k < rows.len() {
        let here = chain(entries, keys[rows[k]]);
        if i < here.len() {
            lemma_matches_are_entries(entries, keys[rows[k]], 0, i);
            let j = choose|j: int|
                0 <= j < entries.len() && #[trigger] entries[j] == (keys[rows[k]], here[i]);
            assert(entries[j].1 == rows_pairs_from(keys, entries, rows, k)[i].1);
        } else {
            lemma_pairs_are_entries(keys, entries, rows, k + 1, i - here.len());
        }
    }
}

/// Every probe row among the pairs of a row order is one of the order's
/// rows, and so a row of the batch.
pub proof fn lemma_pairs_in_batch(keys: Seq<Seq<u8>>, entries: Entries, rows: Seq<int>, k: int, i: int)
    requires
        forall|a: int| 0 <= a < rows.len() ==> 0 <= #[trigger] rows[a] < keys.len(),
        0 <= k,
        0 <= i < rows_pairs_from(keys, entries, rows, k).len(),
    ensures
        0 <= rows_pairs_from(keys, entries, rows, k)[i].0 < keys.len(),
    decreases rows.len() - k,
{
    if k < rows.len() {
        let here = chain(entries, keys[rows[k]]);
        if i >= here.len() {
            lemma_pairs_in_batch(keys, entries, rows, k + 1, i - here.len());
        }
    }
}

proof fn lemma_covering_from(keys: Seq<Seq<u8>>, entries: Entries, rows: Seq<int>, k: int, from: int)
    requires
        covering(keys, entries, rows),
        0 <= k <= rows.len(),
        0 <= from <= keys.len(),
        k < rows.len() ==> from <= rows[k],
        k > 0 ==> rows[k - 1] < from,
    ensures
        pairs_from(keys, entries, from) == rows_pairs_from(keys, entries, rows, k),
    decreases keys.len() - from,
{
    if from == keys.len() {
        if k < rows.len() {
            assert(rows[k] < keys.len());
        }
    } else if k < rows.len() && rows[k] == from {
        lemma_covering_from(keys, entries, rows, k + 1, from + 1);
    } else {
        if chain(entries, keys[from]).len() > 0 {
            assert(rows.contains(from));
            let a = choose|a: int| 0 <= a < rows.len() && rows[a] == from;
            if a < k {
                if a < k - 1 {
                    assert(rows[a] < rows[k - 1]);
                }
            } else {
                if a > k {
                    assert(rows[k] < rows[a]);
                }
            }
            assert(false);
        }
        assert(row_pairs(from, chain(entries, keys[from])) =~= Seq::<(int, RowPtr)>::empty());
        lemma_covering_from(keys, entries, rows, k, from + 1);
        assert(Seq::<(int, RowPtr)>::empty() + pairs_from(keys, entries, from + 1) =~= pairs_from(
            keys,
            entries,
            from + 1,
        ));
    }
}

/// Probing through a covering selection yields the pairs of the full nested
/// loop, in the same order: skipping rows without a match changes nothing.
pub proof fn lemma_covering(keys: Seq<Seq<u8>>, entries: Entries, rows: Seq<int>)
    requires
        covering(keys, entries, rows),
    ensures
        rows_pairs_from(keys, entries, rows, 0) == join_pairs(keys, entries),
{
    lemma_covering_from(keys, entries, rows, 0, 0);
}

/// All rows of a batch, in order, are a covering selection.
pub proof fn lemma_all_rows_covering(keys: Seq<Seq<u8>>, entries: Entries)
    ensures
        covering(keys, entries, Seq::new(keys.len(), |i: int| i)),
{
    let rows = Seq::new(keys.len(), |i: int| i);
    assert forall|i: int| 0 <= i < keys.len() implies rows.contains(i) by {
        assert(rows[i] == i);
    }
}

/// Splitting what is left of a row's chain at `c` splits what is left of the
/// join there too.
pub proof fn lemma_split_rest(idx: int, rem: Seq<RowPtr>, tail: Pairs, c: int)
    requires
        0 <= c <= rem.len(),
    ensures
        (row_pairs(idx, rem) + tail).take(c) == row_pairs(idx, rem.take(c)),
        (row_pairs(idx, rem) + tail).skip(c) == row_pairs(idx, rem.skip(c)) + tail,
{
    assert((row_pairs(idx, rem) + tail).take(c) =~= row_pairs(idx, rem.take(c)));
    assert((row_pairs(idx, rem) + tail).skip(c) =~= row_pairs(idx, rem.skip(c)) + tail);
}

/// Taking `c` more after `m` is taking `m + c`; skipping likewise.
pub proof fn lemma_take_skip_more<T>(s: Seq<T>, m: int, c: int)
    requires
        0 <= m,
        0 <= c,
        m + c <= s.len(),
    ensures
        s.take(m) + s.skip(m).take(c) == s.take(m + c),
        s.skip(m).skip(c) == s.skip(m + c),
{
    assert(s.take(m) + s.skip(m).take(c) =~= s.take(m + c));
    assert(s.skip(m).skip(c) =~= s.skip(m + c));
}

/// Whether `mask` holds the verdict of `pred` on each of the first pairs of
/// `pairs`.
pub open spec fn mask_of(pairs: Pairs, mask: Seq<bool>, pred: spec_fn(int, RowPtr) -> bool) -> bool {
    forall|k: int| 0 <= k < mask.len() ==> mask[k] == pred(pairs[k].0, pairs[k].1)
}

/// What a mask selects depends on the items under it only.
pub proof fn lemma_select_prefix<T>(items: Seq<T>, mask: Seq<bool>, upto: int)
    requires
        0 <= upto <= items.len(),
    ensures
        select(items, mask, upto) == select(items.take(upto), mask, upto),
{
    lemma_select_same(items, items.take(upto), mask, upto);
}

/// Two sequences that agree on their first `upto` items have the same
/// selection there.
pub proof fn lemma_select_same<T>(a: Seq<T>, b: Seq<T>, mask: Seq<bool>, upto: int)
    requires
        0 <= upto <= a.len(),
        upto <= b.len(),
        forall|k: int| 0 <= k < upto ==> a[k] == b[k],
    ensures
        select(a, mask, upto) == select(b, mask, upto),
    decreases upto,
{
    if upto > 0 {
        lemma_select_same(a, b, mask, upto - 1);
    }
}

/// Selecting with two masks, one behind the other, is selecting with each
/// on its part of the items.
pub proof fn lemma_select_append<T>(items: Seq<T>, first: Seq<bool>, second: Seq<bool>, upto: int)
    requires
        0 <= upto <= second.len(),
        first.len() + upto <= items.len(),
    ensures
        select(items, first + second, first.len() + upto) == select(items, first, first.len() as int)
            + select(items.skip(first.len() as int), second, upto),
    decreases upto,
{
    let n = first.len() as int;
    if upto > 0 {
        lemma_select_append(items, first, second, upto - 1);
        assert((first + second)[n + upto - 1] == second[upto - 1]);
        assert(items.skip(n)[upto - 1] == items[n + upto - 1]);
        if second[upto - 1] {
            assert((select(items, first, n) + select(items.skip(n), second, upto - 1)).push(
                items[n + upto - 1],
            ) =~= select(items, first, n) + select(items.skip(n), second, upto - 1).push(
                items[n + upto - 1],
            ));
        }
    } else {
        lemma_select_mask(items, first + second, first, n);
        assert(select(items, first, n) + select(items.skip(n), second, 0) =~= select(items, first, n));
    }
}

/// Two masks that agree on their first `upto` bits select the same there.
pub proof fn lemma_select_mask<T>(items: Seq<T>, a: Seq<bool>, b: Seq<bool>, upto: int)
    requires
        0 <= upto <= a.len(),
        upto <= b.len(),
        forall|k: int| 0 <= k < upto ==> a[k] == b[k],
    ensures
        select(items, a, upto) == select(items, b, upto),
    decreases upto,
{
    if upto > 0 {
        lemma_select_mask(items, a, b, upto - 1);
    }
}

/// The build rows of the selected pairs are the selected build rows.
pub proof fn lemma_select_build_rows(pairs: Pairs, mask: Seq<bool>, upto: int)
    requires
        0 <= upto <= pairs.len(),
    ensures
        build_rows(select(pairs, mask, upto)) == select(build_rows(pairs), mask, upto),
    decreases upto,
{
    if upto > 0 {
        lemma_select_build_rows(pairs, mask, upto - 1);
        if mask[upto - 1] {
            assert(build_rows(select(pairs, mask, upto - 1).push(pairs[upto - 1])) =~= build_rows(
                select(pairs, mask, upto - 1),
            ).push(pairs[upto - 1].1));
        }
    } else {
        assert(build_rows(select(pairs, mask, upto)) =~= Seq::<RowPtr>::empty());
    }
}

/// A mask of `true` selects everything.
pub proof fn lemma_select_all<T>(items: Seq<T>, mask: Seq<bool>, upto: int)
    requires
        0 <= upto <= items.len(),
        upto <= mask.len(),
        forall|k: int| 0 <= k < upto ==> mask[k],
    ensures
        select(items, mask, upto) == items.take(upto),
    decreases upto,
{
    if upto > 0 {
        lemma_select_all(items, mask, upto - 1);
        assert(items.take(upto - 1).push(items[upto - 1]) =~= items.take(upto));
    } else {
        assert(items.take(0) =~= Seq::<T>::empty());
    }
}

/// A mask of `false` selects nothing.
pub proof fn lemma_select_none<T>(items: Seq<T>, mask: Seq<bool>, upto: int)
    requires
        0 <= upto <= mask.len(),
        forall|k: int| 0 <= k < upto ==> !mask[k],
    ensures
        select(items, mask, upto) == Seq::<T>::empty(),
    decreases upto,
{
    if upto > 0 {
        lemma_select_none(items, mask, upto - 1);
    }
}

/// A mask selects no more than it is asked about.
pub proof fn lemma_select_bound<T>(items: Seq<T>, mask: Seq<bool>, upto: int)
    requires
        0 <= upto,
    ensures
        select(items, mask, upto).len() <= upto,
    decreases upto,
{
    if upto > 0 {
        lemma_select_bound(items, mask, upto - 1);
    }
}

/// What is in two sequences strung together is in one of them.
pub proof fn lemma_contains_add<T>(a: Seq<T>, b: Seq<T>, x: T)
    ensures
        (a + b).contains(x) <==> a.contains(x) || b.contains(x),
{
    let both = a + b;
    if a.contains(x) {
        let i = choose|i: int| 0 <= i < a.len() && a[i] == x;
        assert(both[i] == x);
    }
    if b.contains(x) {
        let i = choose|i: int| 0 <= i < b.len() && b[i] == x;
        assert(both[a.len() + i] == x);
    }
    if both.contains(x) {
        let i = choose|i: int| 0 <= i < both.len() && both[i] == x;
        if i < a.len() {
            assert(a[i] == x);
        } else {
            assert(b[i - a.len()] == x);
        }
    }
}

} // verus!
