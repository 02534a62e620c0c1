//! Inner join.
//!
//! Every matched pair becomes an output row. The rows come out in blocks of
//! at most the configured size, probe row by probe row and, for one probe
//! row, in the build order of its matches.

use vstd::prelude::*;
use crate::exception::ErrorCode;
use crate::hash_join::hash_join_probe_state::{
    concat_rows,
    evaluates,
    evaluates_any,
    lemma_concat_rows_prefix,
    lemma_matched_rows_add,
    matched_rows,
    FilterResult,
    HashJoinProbeState,
    OutputBlock,
};
use crate::hash_join::hash_join_state::{check_interrupt, is_aborted};
use crate::hash_join::hashtable::HashJoinHashTable;
use crate::hash_join::join_spec::{filter_pairs, join_pairs, lemma_covering, lemma_take_skip_more, rows_pairs_from};
use crate::hash_join::keys::StringKeyAccessor;
use crate::hash_join::outer_scan_map::OuterScanMap;
use crate::hash_join::probe_cursor::ProbeCursor;
use crate::hash_join::probe_join::with_conjunct::{lemma_mask_of_pred, rows_under};
use crate::hash_join::probe_state::ProbeState;
use crate::hash_join::row_ptr::RowPtr;

verus! {

/// Whether each of `blocks` is well formed and holds at least one row and at
/// most `max_block_size`.
pub open spec fn blocks_bounded(blocks: Seq<OutputBlock>, max_block_size: usize) -> bool {
    forall|b: int|
        0 <= b < blocks.len() ==> (#[trigger] blocks[b]).wf() && 0 < blocks[b].rows().len()
            <= max_block_size
}

impl HashJoinProbeState {
    /// Probes a batch of `input_rows` rows with keys `keys` and returns its
    /// join with the build side: one row for every pair of a probe row and a
    /// build row with equal keys.
    ///
    /// The cancel flag is read each time a full block of matches has been
    /// gathered. If it is found set, the probe fails with `AbortedQuery` and
    /// returns no block. A batch with fewer matches than a block holds is
    /// never cancelled.
    pub fn inner_join(
        &self,
        input_rows: usize,
        keys: &StringKeyAccessor,
        hash_table: &HashJoinHashTable,
        probe_state: &mut ProbeState,
    ) -> (res: Result<Vec<OutputBlock>, ErrorCode>)
        requires
            hash_table.wf(),
            keys.wf(),
            old(probe_state).ready(keys@, hash_table, input_rows),
        ensures
            old(probe_state).same_inputs(final(probe_state)),
            final(probe_state).ready(keys@, hash_table, input_rows),
            res matches Ok(blocks) ==> concat_rows(blocks@, blocks@.len() as int) == matched_rows(
                join_pairs(keys@, hash_table@),
            ) && blocks_bounded(blocks@, old(probe_state).max_block_size),
            res is Err ==> is_aborted(res) && join_pairs(keys@, hash_table@).len() >= old(
                probe_state,
            ).max_block_size,
            join_pairs(keys@, hash_table@).len() < old(probe_state).max_block_size ==> res is Ok,
    {
        let ghost rows = probe_state.probe_rows(input_rows);
        let ghost all = rows_pairs_from(keys@, hash_table@, rows, 0);
        let max_block_size = probe_state.max_block_size;
        let mut cursor = ProbeCursor::new();
        let mut blocks: Vec<OutputBlock> = Vec::new();
        let mut done: Ghost<int> = Ghost(0);
        proof {
            lemma_covering(keys@, hash_table@, rows);
            assert(matched_rows(all.take(0)) =~= concat_rows(blocks@, 0));
            assert(all.skip(0) =~= all);
        }
        loop
            invariant
                hash_table.wf(),
                keys.wf(),
                old(probe_state).same_inputs(probe_state),
                probe_state.ready(keys@, hash_table, input_rows),
                rows == probe_state.probe_rows(input_rows),
                all == rows_pairs_from(keys@, hash_table@, rows, 0),
                all == join_pairs(keys@, hash_table@),
                max_block_size == probe_state.max_block_size,
                cursor.wf(keys@, hash_table, rows),
                0 <= done@ <= all.len(),
                cursor.rest(keys@, hash_table, rows) == all.skip(done@),
                concat_rows(blocks@, blocks@.len() as int) == matched_rows(all.take(done@)),
                blocks_bounded(blocks@, max_block_size),
            ensures
                old(probe_state).same_inputs(probe_state),
                probe_state.ready(keys@, hash_table, input_rows),
                concat_rows(blocks@, blocks@.len() as int) == matched_rows(all),
                blocks_bounded(blocks@, max_block_size),
            decreases all.len() - done@,
        {
            let matched = cursor.next_block(keys, hash_table, probe_state, input_rows);
            let ghost pairs = probe_state.block_pairs(matched as int);
            proof {
                lemma_take_skip_more(all, done@, matched as int);
                lemma_matched_rows_add(all.take(done@), pairs);
            }
            if matched == max_block_size {
                let interrupted = self.hash_join_state.is_interrupted();
                match check_interrupt(interrupted) {
                    Err(e) => {
                        return Err(e);
                    },
                    Ok(()) => {},
                }
            }
            if matched > 0 {
                let block = OutputBlock::from_indexes(
                    &probe_state.mutable_indexes.probe_indexes,
                    &probe_state.mutable_indexes.build_indexes,
                    matched,
                );
                let ghost before = blocks@;
                proof {
                    assert(block.rows() =~= matched_rows(pairs));
                }
                blocks.push(block);
                proof {
                    lemma_concat_rows_prefix(before, blocks@, before.len() as int);
                }
            } else {
                proof {
                    assert(all.take(done@) + pairs =~= all.take(done@));
                }
            }
            proof {
                done@ = done@ + matched;
            }
            if matched < max_block_size {
                proof {
                    assert(all.take(done@) =~= all);
                }
                break ;
            }
        }
        Ok(blocks)
    }


    /// Probes a batch of `input_rows` rows with keys `keys` for a join with
    /// a residual predicate and returns one row for every pair of a probe
    /// row and a build row that have equal keys and pass the predicate. The
    /// predicate is evaluated by `other_predicate`, block by block; each
    /// block of matches gives one output block, unless none of its pairs
    /// passes.
    ///
    /// The cancel flag is read before each block of matches is evaluated.
    /// If it is found set, the probe fails with `AbortedQuery` and returns
    /// no block. A verdict that cannot be read for its block ends the probe
    /// with `Internal`. A batch without a match reads neither.
    pub fn inner_join_with_conjunct<F: Fn(&Vec<u32>, &Vec<RowPtr>, usize) -> FilterResult>(
        &self,
        input_rows: usize,
        keys: &StringKeyAccessor,
        hash_table: &HashJoinHashTable,
        probe_state: &mut ProbeState,
        other_predicate: &F,
    ) -> (res: Result<Vec<OutputBlock>, ErrorCode>)
        requires
            hash_table.wf(),
            keys.wf(),
            old(probe_state).ready(keys@, hash_table, input_rows),
            evaluates_any(other_predicate),
        ensures
            old(probe_state).same_inputs(final(probe_state)),
            final(probe_state).ready(keys@, hash_table, input_rows),
            res matches Ok(blocks) ==> blocks_bounded(blocks@, old(probe_state).max_block_size)
                && exists|mask: Seq<bool>|
                mask.len() == join_pairs(keys@, hash_table@).len() && #[trigger] rows_under(
                    blocks@,
                    join_pairs(keys@, hash_table@),
                    mask,
                ),
            res matches Err(e) ==> (is_aborted(res) || e is Internal) && join_pairs(keys@, hash_table@).len()
                > 0,
            forall|pred: spec_fn(int, RowPtr) -> bool| #[trigger]
                evaluates(other_predicate, pred) ==> {
                    &&& res matches Ok(blocks) ==> concat_rows(blocks@, blocks@.len() as int)
                        == matched_rows(filter_pairs(join_pairs(keys@, hash_table@), pred))
                    &&& res is Err ==> is_aborted(res)
                },
    {
        let mut no_marks = OuterScanMap::new();
        let out = self.join_with_conjunct(
            input_rows,
            keys,
            hash_table,
            probe_state,
            &mut no_marks,
            other_predicate,
            false,
            false,
        );
        let ghost mask = out.1@;
        let ghost all = join_pairs(keys@, hash_table@);
        match out.0 {
            Ok((blocks, _)) => {
                proof {
                    assert(rows_under(blocks@, all, mask));
                    assert forall|pred: spec_fn(int, RowPtr) -> bool| #[trigger]
                        evaluates(other_predicate, pred) implies concat_rows(blocks@, blocks@.len() as int)
                        == matched_rows(filter_pairs(all, pred)) by {
                        lemma_mask_of_pred(all, mask, pred);
                    }
                }
                Ok(blocks)
            },
            Err(e) => Err(e),
        }
    }
}

} // verus!
