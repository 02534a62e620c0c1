//! The naive join, and the proof that the hash join computes it.
//!
//! The nested loop visits every probe row and, for it, every build row in
//! build order, and keeps the pair if the keys are equal and the residual
//! predicate holds. No hash, no table, no chain is involved. From the
//! equality of the two joins follow the plain statements of what a join
//! returns: which pairs are matched, which probe rows stay without a match
//! and which build rows a probe marks.

use vstd::prelude::*;
use crate::hash_join::build_state::{build_entries, chunk_entries, keys_addressable, BuildKeys};
use crate::hash_join::hashtable::{chain, lemma_matches_push, Entries};
use crate::hash_join::join_spec::{
    build_rows,
    filter_pairs,
    join_pairs,
    lemma_contains_add,
    pairs_from,
    row_pairs,
    Pairs,
};
use crate::hash_join::outer_scan_map::{in_scan_map, is_marked, marks_added, ScanBits};
use crate::hash_join::row_ptr::RowPtr;

verus! {

/// The innermost loop: probe row `idx` with key `key` against the first
/// `rows` rows of build chunk `chunk`.
pub open spec fn nested_loop_chunk(idx: int, key: Seq<u8>, keys: Seq<Seq<u8>>, chunk: u32, rows: int) -> Pairs
    decreases rows,
{
    if rows <= 0 {
        Seq::empty()
    } else if keys[rows - 1] == key {
        nested_loop_chunk(idx, key, keys, chunk, rows - 1).push(
            (idx, RowPtr { chunk_index: chunk, row_index: (rows - 1) as u32 }),
        )
    } else {
        nested_loop_chunk(idx, key, keys, chunk, rows - 1)
    }
}

/// The middle loop: probe row `idx` with key `key` against the first
/// `chunks` chunks of the build side.
pub open spec fn nested_loop_build(idx: int, key: Seq<u8>, build: BuildKeys, chunks: int) -> Pairs
    decreases chunks,
{
    if chunks <= 0 {
        Seq::empty()
    } else {
        nested_loop_build(idx, key, build, chunks - 1) + nested_loop_chunk(
            idx,
            key,
            build[chunks - 1],
            (chunks - 1) as u32,
            build[chunks - 1].len() as int,
        )
    }
}

/// The outer loop: the first `rows` probe rows against the whole build side.
pub open spec fn nested_loop_probe(probe: Seq<Seq<u8>>, build: BuildKeys, rows: int) -> Pairs
    decreases rows,
{
    if rows <= 0 {
        Seq::empty()
    } else {
        nested_loop_probe(probe, build, rows - 1) + nested_loop_build(
            rows - 1,
            probe[rows - 1],
            build,
            build.len() as int,
        )
    }
}

/// The naive nested-loop join of the probe keys with the build keys under
/// the residual predicate `pred`.
pub open spec fn nested_loop_join(
    probe: Seq<Seq<u8>>,
    build: BuildKeys,
    pred: spec_fn(int, RowPtr) -> bool,
) -> Pairs {
    filter_pairs(nested_loop_probe(probe, build, probe.len() as int), pred)
}

/// The chain of a key over entries strung together is its chains over each,
/// strung together.
pub proof fn lemma_chain_add(a: Entries, b: Entries, key: Seq<u8>)
    ensures
        chain(a + b, key) == chain(a, key) + chain(b, key),
    decreases b.len(),
{
    if b.len() == 0 {
        assert(a + b =~= a);
        assert(chain(a, key) + chain(b, key) =~= chain(a, key));
    } else {
        let front = b.drop_last();
        let last = b.last();
        lemma_chain_add(a, front, key);
        assert(a + b =~= (a + front).push(last));
        assert(b =~= front.push(last));
        lemma_matches_push(a + front, key, 0, last.0, last.1);
        lemma_matches_push(front, key, 0, last.0, last.1);
        if last.0 == key {
            assert((chain(a, key) + chain(front, key)).push(last.1) =~= chain(a, key) + chain(
                front,
                key,
            ).push(last.1));
        }
    }
}

proof fn lemma_chunk_chain(idx: int, key: Seq<u8>, keys: Seq<Seq<u8>>, chunk: u32, rows: int)
    requires
        0 <= rows <= keys.len(),
    ensures
        row_pairs(idx, chain(chunk_entries(keys, chunk, rows), key)) == nested_loop_chunk(
            idx,
            key,
            keys,
            chunk,
            rows,
        ),
    decreases rows,
{
    if rows > 0 {
        lemma_chunk_chain(idx, key, keys, chunk, rows - 1);
        let prev = chunk_entries(keys, chunk, rows - 1);
        let ptr = RowPtr { chunk_index: chunk, row_index: (rows - 1) as u32 };
        assert(chunk_entries(keys, chunk, rows) =~= prev.push((keys[rows - 1], ptr)));
        lemma_matches_push(prev, key, 0, keys[rows - 1], ptr);
        if keys[rows - 1] == key {
            assert(row_pairs(idx, chain(prev, key).push(ptr)) =~= row_pairs(idx, chain(prev, key)).push(
                (idx, ptr),
            ));
        }
    } else {
        assert(row_pairs(idx, chain(chunk_entries(keys, chunk, rows), key)) =~= Seq::<(int, RowPtr)>::empty());
    }
}

proof fn lemma_build_chain(idx: int, key: Seq<u8>, build: BuildKeys, chunks: int)
    requires
        0 <= chunks <= build.len(),
    ensures
        row_pairs(idx, chain(build_entries(build, chunks), key)) == nested_loop_build(
            idx,
            key,
            build,
            chunks,
        ),
    decreases chunks,
{
    if chunks > 0 {
        lemma_build_chain(idx, key, build, chunks - 1);
        let prev = build_entries(build, chunks - 1);
        let here = chunk_entries(build[chunks - 1], (chunks - 1) as u32, build[chunks - 1].len() as int);
        lemma_chain_add(prev, here, key);
        lemma_chunk_chain(idx, key, build[chunks - 1], (chunks - 1) as u32, build[chunks - 1].len() as int);
        assert(row_pairs(idx, chain(prev, key) + chain(here, key)) =~= row_pairs(idx, chain(prev, key))
            + row_pairs(idx, chain(here, key)));
    } else {
        assert(row_pairs(idx, chain(build_entries(build, chunks), key)) =~= Seq::<(int, RowPtr)>::empty());
    }
}

proof fn lemma_probe_split(probe: Seq<Seq<u8>>, build: BuildKeys, rows: int)
    requires
        0 <= rows <= probe.len(),
    ensures
        nested_loop_probe(probe, build, rows) + pairs_from(
            probe,
            build_entries(build, build.len() as int),
            rows,
        ) == join_pairs(probe, build_entries(build, build.len() as int)),
    decreases rows,
{
    let entries = build_entries(build, build.len() as int);
    if rows > 0 {
        lemma_probe_split(probe, build, rows - 1);
        lemma_build_chain(rows - 1, probe[rows - 1], build, build.len() as int);
        let done = nested_loop_probe(probe, build, rows - 1);
        let here = row_pairs(rows - 1, chain(entries, probe[rows - 1]));
        let rest = pairs_from(probe, entries, rows);
        assert((done + here) + rest =~= done + (here + rest));
    } else {
        assert(nested_loop_probe(probe, build, rows) + pairs_from(probe, entries, rows) =~= pairs_from(
            probe,
            entries,
            rows,
        ));
    }
}

/// The hash join is the nested-loop join.
///
/// Load the build side `build` into the table and probe it with the keys
/// `probe`: the matched pairs are exactly the pairs with equal keys that
/// the naive nested loop finds, and those that pass the residual predicate
/// `pred` are exactly the pairs that the nested loop keeps under it; in
/// both cases they come in the same order. In particular the two joins
/// yield the same bag of rows.
pub proof fn lemma_hash_join_is_nested_loop(
    probe: Seq<Seq<u8>>,
    build: BuildKeys,
    pred: spec_fn(int, RowPtr) -> bool,
)
    ensures
        join_pairs(probe, build_entries(build, build.len() as int)) == nested_loop_probe(
            probe,
            build,
            probe.len() as int,
        ),
        filter_pairs(join_pairs(probe, build_entries(build, build.len() as int)), pred)
            == nested_loop_join(probe, build, pred),
        filter_pairs(
            join_pairs(probe, build_entries(build, build.len() as int)),
            pred,
        ).to_multiset() == nested_loop_join(probe, build, pred).to_multiset(),
{
    let entries = build_entries(build, build.len() as int);
    lemma_probe_split(probe, build, probe.len() as int);
    assert(nested_loop_probe(probe, build, probe.len() as int) + pairs_from(
        probe,
        entries,
        probe.len() as int,
    ) =~= nested_loop_probe(probe, build, probe.len() as int));
}

/// Whether the pair `x` joins a probe row below `rows` with a build row
/// that has the same key.
pub open spec fn equal_keys(probe: Seq<Seq<u8>>, build: BuildKeys, rows: int, x: (int, RowPtr)) -> bool {
    &&& 0 <= x.0 < rows
    &&& x.1.chunk_index < build.len()
    &&& x.1.row_index < build[x.1.chunk_index as int].len()
    &&& build[x.1.chunk_index as int][x.1.row_index as int] == probe[x.0]
}

proof fn lemma_chunk_pairs(idx: int, key: Seq<u8>, keys: Seq<Seq<u8>>, chunk: u32, rows: int, x: (int, RowPtr))
    requires
        0 <= rows <= keys.len(),
        keys.len() <= u32::MAX,
    ensures
        nested_loop_chunk(idx, key, keys, chunk, rows).contains(x) <==> x.0 == idx && x.1.chunk_index == chunk
            && x.1.row_index < rows && keys[x.1.row_index as int] == key,
    decreases rows,
{
    if rows > 0 {
        lemma_chunk_pairs(idx, key, keys, chunk, rows - 1, x);
        let prev = nested_loop_chunk(idx, key, keys, chunk, rows - 1);
        let last = (idx, RowPtr { chunk_index: chunk, row_index: (rows - 1) as u32 });
        if keys[rows - 1] == key {
            assert(prev.push(last) =~= prev + seq![last]);
            lemma_contains_add(prev, seq![last], x);
            if seq![last].contains(x) {
                assert(x == last);
            }
            if x == last {
                assert(seq![last][0] == x);
            }
        }
    }
}

proof fn lemma_build_pairs(idx: int, key: Seq<u8>, build: BuildKeys, chunks: int, x: (int, RowPtr))
    requires
        keys_addressable(build),
        0 <= chunks <= build.len(),
    ensures
        nested_loop_build(idx, key, build, chunks).contains(x) <==> {
            &&& x.0 == idx
            &&& x.1.chunk_index < chunks
            &&& x.1.row_index < build[x.1.chunk_index as int].len()
            &&& build[x.1.chunk_index as int][x.1.row_index as int] == key
        },
    decreases chunks,
{
    if chunks > 0 {
        lemma_build_pairs(idx, key, build, chunks - 1, x);
        lemma_chunk_pairs(idx, key, build[chunks - 1], (chunks - 1) as u32, build[chunks - 1].len() as int, x);
        lemma_contains_add(
            nested_loop_build(idx, key, build, chunks - 1),
            nested_loop_chunk(idx, key, build[chunks - 1], (chunks - 1) as u32, build[chunks - 1].len() as int),
            x,
        );
    }
}

proof fn lemma_probe_pairs(probe: Seq<Seq<u8>>, build: BuildKeys, rows: int, x: (int, RowPtr))
    requires
        keys_addressable(build),
        0 <= rows <= probe.len(),
    ensures
        nested_loop_probe(probe, build, rows).contains(x) <==> equal_keys(probe, build, rows, x),
    decreases rows,
{
    if rows > 0 {
        lemma_probe_pairs(probe, build, rows - 1, x);
        lemma_build_pairs(rows - 1, probe[rows - 1], build, build.len() as int, x);
        lemma_contains_add(
            nested_loop_probe(probe, build, rows - 1),
            nested_loop_build(rows - 1, probe[rows - 1], build, build.len() as int),
            x,
        );
    }
}

/// The join pairs a probe row with a build row exactly when their keys are
/// equal.
///
/// Load the build side `build` into the table and probe it with the keys
/// `probe`: a pair is among the matched pairs if and only if it joins a
/// probe row of the batch with a build row that has the same key.
pub proof fn lemma_join_pairs_are_equal_keys(probe: Seq<Seq<u8>>, build: BuildKeys, x: (int, RowPtr))
    requires
        keys_addressable(build),
    ensures
        join_pairs(probe, build_entries(build, build.len() as int)).contains(x) <==> equal_keys(
            probe,
            build,
            probe.len() as int,
            x,
        ),
{
    lemma_probe_split(probe, build, probe.len() as int);
    let entries = build_entries(build, build.len() as int);
    assert(nested_loop_probe(probe, build, probe.len() as int) + pairs_from(
        probe,
        entries,
        probe.len() as int,
    ) =~= nested_loop_probe(probe, build, probe.len() as int));
    lemma_probe_pairs(probe, build, probe.len() as int, x);
}

/// A key without a chain is a key that no build row has.
///
/// Load the build side `build` into the table: the chain of `key` is empty
/// if and only if no build row has that key. So the probe rows that a left
/// join keeps with a build row of nulls are those whose key the build side
/// does not hold.
pub proof fn lemma_no_chain_is_no_equal_key(build: BuildKeys, key: Seq<u8>)
    requires
        keys_addressable(build),
    ensures
        chain(build_entries(build, build.len() as int), key).len() == 0 <==> forall|c: int, r: int|
            0 <= c < build.len() && 0 <= r < build[c].len() ==> #[trigger] build[c][r] != key,
{
    let entries = build_entries(build, build.len() as int);
    let probe = seq![key];
    let rows = chain(entries, key);
    assert(pairs_from(probe, entries, 1) =~= Seq::<(int, RowPtr)>::empty());
    assert(join_pairs(probe, entries) =~= row_pairs(0, rows));
    if rows.len() > 0 {
        let x = (0int, rows[0]);
        assert(row_pairs(0, rows)[0] == x);
        lemma_join_pairs_are_equal_keys(probe, build, x);
        assert(build[x.1.chunk_index as int][x.1.row_index as int] == key);
    }
    if exists|c: int, r: int| 0 <= c < build.len() && 0 <= r < build[c].len() && #[trigger] build[c][r] == key {
        let (c, r) = choose|c: int, r: int|
            0 <= c < build.len() && 0 <= r < build[c].len() && #[trigger] build[c][r] == key;
        assert(build[c].len() <= u32::MAX);
        let x = (0int, RowPtr { chunk_index: c as u32, row_index: r as u32 });
        assert(equal_keys(probe, build, 1, x));
        lemma_join_pairs_are_equal_keys(probe, build, x);
        assert(row_pairs(0, rows).contains(x));
    }
}

/// What a predicate lets through are the pairs for which it holds.
pub proof fn lemma_filter_pairs_contains(pairs: Pairs, pred: spec_fn(int, RowPtr) -> bool, x: (int, RowPtr))
    ensures
        filter_pairs(pairs, pred).contains(x) <==> pairs.contains(x) && pred(x.0, x.1),
    decreases pairs.len(),
{
    reveal(Seq::filter);
    let f = |pair: (int, RowPtr)| pred(pair.0, pair.1);
    if pairs.len() > 0 {
        let front = pairs.drop_last();
        let last = pairs.last();
        lemma_filter_pairs_contains(front, pred, x);
        assert(pairs =~= front + seq![last]);
        lemma_contains_add(front, seq![last], x);
        if seq![last].contains(x) {
            assert(x == last);
        }
        if x == last {
            assert(seq![last][0] == x);
        }
        if f(last) {
            assert(front.filter(f).push(last) =~= front.filter(f) + seq![last]);
            lemma_contains_add(front.filter(f), seq![last], x);
        }
    }
}

/// Which build rows a probe marks.
///
/// Load the build side `build` into the table and probe it with the keys
/// `probe` under the residual predicate `pred`, marking the build row of
/// every pair that passes: afterwards the bit of a build row is set if and
/// only if it was set before or some probe row of the batch has the key of
/// that build row and passes the predicate with it.
pub proof fn lemma_marked_by_probe(
    probe: Seq<Seq<u8>>,
    build: BuildKeys,
    pred: spec_fn(int, RowPtr) -> bool,
    before: ScanBits,
    after: ScanBits,
    ptr: RowPtr,
)
    requires
        keys_addressable(build),
        in_scan_map(before, ptr),
        marks_added(
            before,
            after,
            build_rows(filter_pairs(join_pairs(probe, build_entries(build, build.len() as int)), pred)),
        ),
    ensures
        is_marked(after, ptr) <==> is_marked(before, ptr) || exists|i: int| #[trigger]
            equal_keys(probe, build, probe.len() as int, (i, ptr)) && pred(i, ptr),
{
    let all = join_pairs(probe, build_entries(build, build.len() as int));
    let passed = filter_pairs(all, pred);
    let marks = build_rows(passed);
    if marks.contains(ptr) {
        let k = choose|k: int| 0 <= k < marks.len() && marks[k] == ptr;
        let x = passed[k];
        assert(passed.contains(x));
        lemma_filter_pairs_contains(all, pred, x);
        lemma_join_pairs_are_equal_keys(probe, build, x);
        assert(equal_keys(probe, build, probe.len() as int, (x.0, ptr)) && pred(x.0, ptr));
    }
    if exists|i: int| #[trigger] equal_keys(probe, build, probe.len() as int, (i, ptr)) && pred(i, ptr) {
        let i = choose|i: int| #[trigger] equal_keys(probe, build, probe.len() as int, (i, ptr)) && pred(i, ptr);
        let x = (i, ptr);
        lemma_join_pairs_are_equal_keys(probe, build, x);
        lemma_filter_pairs_contains(all, pred, x);
        let k = choose|k: int| 0 <= k < passed.len() && passed[k] == x;
        assert(marks[k] == ptr);
    }
}

} // verus!
