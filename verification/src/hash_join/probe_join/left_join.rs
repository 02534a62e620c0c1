//! Left join.
//!
//! Every matched pair becomes an output row, as in the inner join. A probe
//! row without any match is kept too, joined with a build row of nulls.

use vstd::prelude::*;
use crate::exception::ErrorCode;
use crate::hash_join::hash_join_probe_state::{
    concat_rows,
    evaluates,
    evaluates_any,
    lemma_concat_rows_prefix,
    matched_rows,
    FilterResult,
    HashJoinProbeState,
    OutputBlock,
    OutputRow,
};
use crate::hash_join::hash_join_state::is_aborted;
use crate::hash_join::hashtable::{chain, spec_hash, Entries, HashJoinHashTable};
use crate::hash_join::join_spec::{filter_pairs, join_pairs, select, Pairs};
use crate::hash_join::keys::StringKeyAccessor;
use crate::hash_join::outer_scan_map::OuterScanMap;
use crate::hash_join::probe_join::inner_join::blocks_bounded;
use crate::hash_join::probe_join::with_conjunct::{
    lemma_mask_of_pred,
    passed_flags,
    pred_mask,
    push_unflagged_probe_rows,
    unflagged_rows,
};
use crate::hash_join::probe_state::ProbeState;
use crate::hash_join::row_ptr::RowPtr;

verus! {

/// The probe rows among the first `upto` that match no build row, each
/// joined with a build row of nulls, in probe order.
pub open spec fn unmatched_rows(keys: Seq<Seq<u8>>, entries: Entries, upto: int) -> Seq<OutputRow>
    decreases upto,
{
    if upto <= 0 {
        Seq::empty()
    } else if chain(entries, keys[upto - 1]).len() == 0 {
        unmatched_rows(keys, entries, upto - 1).push((Some(upto - 1), None))
    } else {
        unmatched_rows(keys, entries, upto - 1)
    }
}

impl HashJoinProbeState {
    /// Probes a batch of `input_rows` rows with keys `keys` and returns its
    /// left join with the build side: first the rows of the inner join, then
    /// one row for every probe row without a match.
    ///
    /// The cancel flag is read each time a full block of matches has been
    /// gathered. If it is found set, the probe fails with `AbortedQuery` and
    /// returns no block. A batch with fewer matches than a block holds is
    /// never cancelled.
    pub fn left_join(
        &self,
        input_rows: usize,
        keys: &StringKeyAccessor,
        hash_table: &HashJoinHashTable,
        probe_state: &mut ProbeState,
    ) -> (res: Result<Vec<OutputBlock>, ErrorCode>)
        requires
            hash_table.wf(),
            keys.wf(),
            old(probe_state).ready(keys@, hash_table, input_rows),
        ensures
            old(probe_state).same_inputs(final(probe_state)),
            final(probe_state).ready(keys@, hash_table, input_rows),
            res matches Ok(blocks) ==> concat_rows(blocks@, blocks@.len() as int) == matched_rows(
                join_pairs(keys@, hash_table@),
            ) + unmatched_rows(keys@, hash_table@, input_rows as int) && blocks_bounded(
                blocks@,
                old(probe_state).max_block_size,
            ),
            res is Err ==> is_aborted(res) && join_pairs(keys@, hash_table@).len() >= old(
                probe_state,
            ).max_block_size,
            join_pairs(keys@, hash_table@).len() < old(probe_state).max_block_size ==> res is Ok,
    {
        let mut blocks = match self.inner_join(input_rows, keys, hash_table, probe_state) {
            Ok(blocks) => blocks,
            Err(e) => {
                return Err(e);
            },
        };
        push_unmatched_probe_rows(input_rows, keys, hash_table, probe_state, &mut blocks);
        Ok(blocks)
    }

    /// Probes a batch of `input_rows` rows with keys `keys` for a join with
    /// a residual predicate and returns first one row for every pair of a
    /// probe row and a build row that have equal keys and pass the
    /// predicate, then one row for every probe row none of whose pairs
    /// passed. The predicate is evaluated by `other_predicate`, block by
    /// block.
    ///
    /// The cancel flag is read before each block of matches is evaluated.
    /// If it is found set, the probe fails with `AbortedQuery` and returns
    /// no block. A verdict that cannot be read for its block ends the probe
    /// with `Internal`. A batch without a match reads neither.
    pub fn left_join_with_conjunct<F: Fn(&Vec<u32>, &Vec<RowPtr>, usize) -> FilterResult>(
        &self,
        input_rows: usize,
        keys: &StringKeyAccessor,
        hash_table: &HashJoinHashTable,
        probe_state: &mut ProbeState,
        other_predicate: &F,
    ) -> (res: Result<Vec<OutputBlock>, ErrorCode>)
        requires
            hash_table.wf(),
            keys.wf(),
            old(probe_state).ready(keys@, hash_table, input_rows),
            evaluates_any(other_predicate),
        ensures
            old(probe_state).same_inputs(final(probe_state)),
            final(probe_state).ready(keys@, hash_table, input_rows),
            res matches Ok(blocks) ==> blocks_bounded(blocks@, old(probe_state).max_block_size)
                && exists|mask: Seq<bool>|
                mask.len() == join_pairs(keys@, hash_table@).len() && #[trigger] left_rows_under(
                    blocks@,
                    join_pairs(keys@, hash_table@),
                    mask,
                    input_rows as int,
                ),
            res matches Err(e) ==> (is_aborted(res) || e is Internal) && join_pairs(keys@, hash_table@).len()
                > 0,
            forall|pred: spec_fn(int, RowPtr) -> bool| #[trigger]
                evaluates(other_predicate, pred) ==> {
                    &&& res matches Ok(blocks) ==> concat_rows(blocks@, blocks@.len() as int)
                        == left_rows_if(join_pairs(keys@, hash_table@), pred, input_rows as int)
                    &&& res is Err ==> is_aborted(res)
                },
    {
        let mut no_marks = OuterScanMap::new();
        let out = self.join_with_conjunct(
            input_rows,
            keys,
            hash_table,
            probe_state,
            &mut no_marks,
            other_predicate,
            false,
            true,
        );
        let ghost mask = out.1@;
        let ghost all = join_pairs(keys@, hash_table@);
        match out.0 {
            Ok((blocks, flags)) => {
                let mut blocks = blocks;
                push_unflagged_probe_rows(&flags, probe_state.max_block_size, &mut blocks);
                proof {
                    assert(left_rows_under(blocks@, all, mask, input_rows as int));
                    assert forall|pred: spec_fn(int, RowPtr) -> bool| #[trigger]
                        evaluates(other_predicate, pred) implies concat_rows(blocks@, blocks@.len() as int)
                        == left_rows_if(all, pred, input_rows as int) by {
                        lemma_mask_of_pred(all, mask, pred);
                    }
                }
                Ok(blocks)
            },
            Err(e) => Err(e),
        }
    }
}

/// Whether the rows of `blocks` are the pairs of `pairs` that `mask`
/// selects, followed by the probe rows among the first `rows` of which
/// `mask` selects no pair.
pub open spec fn left_rows_under(blocks: Seq<OutputBlock>, pairs: Pairs, mask: Seq<bool>, rows: int) -> bool {
    concat_rows(blocks, blocks.len() as int) == matched_rows(select(pairs, mask, mask.len() as int))
        + unflagged_rows(passed_flags(pairs, mask, rows), rows)
}

/// The rows of a left join with the residual predicate `pred`: the pairs of
/// `pairs` that pass it, followed by the probe rows among the first `rows`
/// none of whose pairs passes.
pub open spec fn left_rows_if(pairs: Pairs, pred: spec_fn(int, RowPtr) -> bool, rows: int) -> Seq<OutputRow> {
    matched_rows(filter_pairs(pairs, pred)) + unflagged_rows(
        passed_flags(pairs, pred_mask(pairs, pred), rows),
        rows,
    )
}

/// Appends to `blocks` one row for every probe row of the batch without a
/// match, joined with a build row of nulls, in probe order and in blocks of
/// at most the configured size.
pub fn push_unmatched_probe_rows(
    input_rows: usize,
    keys: &StringKeyAccessor,
    hash_table: &HashJoinHashTable,
    probe_state: &ProbeState,
    blocks: &mut Vec<OutputBlock>,
)
    requires
        hash_table.wf(),
        keys.wf(),
        probe_state.ready(keys@, hash_table, input_rows),
        blocks_bounded(old(blocks)@, probe_state.max_block_size),
    ensures
        blocks_bounded(final(blocks)@, probe_state.max_block_size),
        concat_rows(final(blocks)@, final(blocks)@.len() as int) == concat_rows(
            old(blocks)@,
            old(blocks)@.len() as int,
        ) + unmatched_rows(keys@, hash_table@, input_rows as int),
{
    let max_block_size = probe_state.max_block_size;
    let ghost matched = concat_rows(blocks@, blocks@.len() as int);
    let mut block = OutputBlock { probe_indexes: Vec::new(), build_indexes: Vec::new() };
    let mut idx: usize = 0;
    proof {
        assert(matched + block.rows() =~= matched + unmatched_rows(keys@, hash_table@, 0));
    }
    while idx < input_rows
        invariant
            hash_table.wf(),
            keys.wf(),
            probe_state.ready(keys@, hash_table, input_rows),
            max_block_size == probe_state.max_block_size,
            idx <= input_rows,
            block.wf(),
            block.rows().len() < max_block_size,
            blocks_bounded(blocks@, max_block_size),
            concat_rows(blocks@, blocks@.len() as int) + block.rows() == matched + unmatched_rows(
                keys@,
                hash_table@,
                idx as int,
            ),
        decreases input_rows - idx,
    {
        let key = keys.key_unchecked(idx);
        let ghost so_far = unmatched_rows(keys@, hash_table@, idx as int);
        proof {
            hash_table.lemma_probe_start(key@);
            assert(probe_state.hashes@[idx as int] == hash_table.spec_probe(spec_hash(keys@[idx as int])));
        }
        if !hash_table.has_match(key, probe_state.hashes[idx]) {
            let ghost rows_before = block.rows();
            block.probe_indexes.push(Some(idx as u32));
            block.build_indexes.push(None);
            proof {
                assert(block.rows() =~= rows_before.push((Some(idx as int), None)));
                assert(unmatched_rows(keys@, hash_table@, idx + 1) == so_far.push((Some(idx as int), None)));
                assert(concat_rows(blocks@, blocks@.len() as int) + rows_before.push(
                    (Some(idx as int), None),
                ) =~= (concat_rows(blocks@, blocks@.len() as int) + rows_before).push(
                    (Some(idx as int), None),
                ));
                assert((matched + so_far).push((Some(idx as int), None)) =~= matched + so_far.push(
                    (Some(idx as int), None),
                ));
                assert(concat_rows(blocks@, blocks@.len() as int) + block.rows() =~= matched
                    + unmatched_rows(keys@, hash_table@, idx + 1));
            }
            if block.num_rows() == max_block_size {
                let ghost before = blocks@;
                blocks.push(block);
                block = OutputBlock { probe_indexes: Vec::new(), build_indexes: Vec::new() };
                proof {
                    lemma_concat_rows_prefix(before, blocks@, before.len() as int);
                    assert(concat_rows(blocks@, blocks@.len() as int) + block.rows() =~= matched
                        + unmatched_rows(keys@, hash_table@, idx + 1));
                }
            }
        }
        idx += 1;
    }
    if block.num_rows() > 0 {
        let ghost before = blocks@;
        blocks.push(block);
        proof {
            lemma_concat_rows_prefix(before, blocks@, before.len() as int);
        }
    } else {
        proof {
            assert(concat_rows(blocks@, blocks@.len() as int) + block.rows() =~= concat_rows(
                blocks@,
                blocks@.len() as int,
            ));
        }
    }
}

} // verus!
