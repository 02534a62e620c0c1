//! Full join.
//!
//! The rows of the right join, then the probe rows without a match, each
//! joined with a build row of nulls. The build rows that never matched come
//! out of the scan of the outer scan map, once all batches are probed.

use vstd::prelude::*;
use crate::exception::ErrorCode;
use crate::hash_join::hash_join_probe_state::{
    concat_rows,
    evaluates,
    evaluates_any,
    matched_rows,
    FilterResult,
    HashJoinProbeState,
    OutputBlock,
};
use crate::hash_join::hash_join_state::is_aborted;
use crate::hash_join::hashtable::HashJoinHashTable;
use crate::hash_join::join_spec::{build_rows, filter_pairs, join_pairs};
use crate::hash_join::keys::StringKeyAccessor;
use crate::hash_join::outer_scan_map::{marks_added, OuterScanMap};
use crate::hash_join::probe_join::inner_join::blocks_bounded;
use crate::hash_join::probe_join::left_join::{
    left_rows_if,
    left_rows_under,
    push_unmatched_probe_rows,
    unmatched_rows,
};
use crate::hash_join::probe_join::right_semi_anti_join::{covers_table, marked_under};
use crate::hash_join::probe_join::with_conjunct::{lemma_mask_of_pred, push_unflagged_probe_rows};
use crate::hash_join::probe_state::ProbeState;
use crate::hash_join::row_ptr::RowPtr;

verus! {

impl HashJoinProbeState {
    /// Probes a batch of `input_rows` rows with keys `keys` and returns
    /// first one row for every pair of a probe row and a build row with
    /// equal keys, then one row for every probe row without a match. The
    /// build row of every pair is marked.
    ///
    /// The cancel flag is read each time a full block of matches has been
    /// gathered. If it is found set, the probe fails with `AbortedQuery` and
    /// returns no block; the build rows of the blocks before that one stay
    /// marked. A batch with fewer matches than a block holds is never
    /// cancelled.
    pub fn full_join(
        &self,
        input_rows: usize,
        keys: &StringKeyAccessor,
        hash_table: &HashJoinHashTable,
        probe_state: &mut ProbeState,
        outer_scan_map: &mut OuterScanMap,
    ) -> (res: Result<Vec<OutputBlock>, ErrorCode>)
        requires
            hash_table.wf(),
            keys.wf(),
            old(probe_state).ready(keys@, hash_table, input_rows),
            covers_table(old(outer_scan_map), hash_table),
        ensures
            old(probe_state).same_inputs(final(probe_state)),
            final(probe_state).ready(keys@, hash_table, input_rows),
            res matches Ok(blocks) ==> {
                &&& concat_rows(blocks@, blocks@.len() as int) == matched_rows(join_pairs(keys@, hash_table@))
                    + unmatched_rows(keys@, hash_table@, input_rows as int)
                &&& blocks_bounded(blocks@, old(probe_state).max_block_size)
                &&& marks_added(
                    old(outer_scan_map)@,
                    final(outer_scan_map)@,
                    build_rows(join_pairs(keys@, hash_table@)),
                )
            },
            res is Err ==> is_aborted(res) && join_pairs(keys@, hash_table@).len() >= old(
                probe_state,
            ).max_block_size && exists|n: int|
                0 <= n <= join_pairs(keys@, hash_table@).len() && marks_added(
                    old(outer_scan_map)@,
                    final(outer_scan_map)@,
                    #[trigger] build_rows(join_pairs(keys@, hash_table@).take(n)),
                ),
            join_pairs(keys@, hash_table@).len() < old(probe_state).max_block_size ==> res is Ok,
    {
        let mut blocks = match self.right_join(input_rows, keys, hash_table, probe_state, outer_scan_map) {
            Ok(blocks) => blocks,
            Err(e) => {
                return Err(e);
            },
        };
        push_unmatched_probe_rows(input_rows, keys, hash_table, probe_state, &mut blocks);
        Ok(blocks)
    }

    /// Probes a batch of `input_rows` rows with keys `keys` for a join with
    /// a residual predicate and returns first one row for every pair of a
    /// probe row and a build row that have equal keys and pass the
    /// predicate, then one row for every probe row none of whose pairs
    /// passed. The build row of every pair that passed is marked. The
    /// predicate is evaluated by `other_predicate`, block by block.
    ///
    /// The cancel flag is read before each block of matches is evaluated.
    /// If it is found set, the probe fails with `AbortedQuery` and returns
    /// no block; what the blocks before that one marked stays marked. A
    /// verdict that cannot be read for its block ends the probe with
    /// `Internal`. A batch without a match reads neither.
    pub fn full_join_with_conjunct<F: Fn(&Vec<u32>, &Vec<RowPtr>, usize) -> FilterResult>(
        &self,
        input_rows: usize,
        keys: &StringKeyAccessor,
        hash_table: &HashJoinHashTable,
        probe_state: &mut ProbeState,
        outer_scan_map: &mut OuterScanMap,
        other_predicate: &F,
    ) -> (res: Result<Vec<OutputBlock>, ErrorCode>)
        requires
            hash_table.wf(),
            keys.wf(),
            old(probe_state).ready(keys@, hash_table, input_rows),
            covers_table(old(outer_scan_map), hash_table),
            evaluates_any(other_predicate),
        ensures
            old(probe_state).same_inputs(final(probe_state)),
            final(probe_state).ready(keys@, hash_table, input_rows),
            exists|mask: Seq<bool>|
                mask.len() <= join_pairs(keys@, hash_table@).len() && (res matches Ok(blocks) ==> mask.len()
                    == join_pairs(keys@, hash_table@).len() && left_rows_under(
                    blocks@,
                    join_pairs(keys@, hash_table@),
                    mask,
                    input_rows as int,
                )) && #[trigger] marked_under(
                    old(outer_scan_map)@,
                    final(outer_scan_map)@,
                    join_pairs(keys@, hash_table@),
                    mask,
                ),
            res matches Ok(blocks) ==> blocks_bounded(blocks@, old(probe_state).max_block_size),
            res matches Err(e) ==> (is_aborted(res) || e is Internal) && join_pairs(keys@, hash_table@).len()
                > 0,
            forall|pred: spec_fn(int, RowPtr) -> bool| #[trigger]
                evaluates(other_predicate, pred) ==> {
                    &&& res matches Ok(blocks) ==> {
                        &&& concat_rows(blocks@, blocks@.len() as int) == left_rows_if(
                            join_pairs(keys@, hash_table@),
                            pred,
                            input_rows as int,
                        )
                        &&& marks_added(
                            old(outer_scan_map)@,
                            final(outer_scan_map)@,
                            build_rows(filter_pairs(join_pairs(keys@, hash_table@), pred)),
                        )
                    }
                    &&& res is Err ==> is_aborted(res)
                },
    {
        let out = self.join_with_conjunct(
            input_rows,
            keys,
            hash_table,
            probe_state,
            outer_scan_map,
            other_predicate,
            true,
            true,
        );
        let ghost mask = out.1@;
        let ghost all = join_pairs(keys@, hash_table@);
        match out.0 {
            Ok((blocks, flags)) => {
                let mut blocks = blocks;
                push_unflagged_probe_rows(&flags, probe_state.max_block_size, &mut blocks);
                proof {
                    assert(left_rows_under(blocks@, all, mask, input_rows as int));
                    assert(marked_under(old(outer_scan_map)@, outer_scan_map@, all, mask));
                    assert forall|pred: spec_fn(int, RowPtr) -> bool| #[trigger]
                        evaluates(other_predicate, pred) implies concat_rows(blocks@, blocks@.len() as int)
                        == left_rows_if(all, pred, input_rows as int) && marks_added(
                        old(outer_scan_map)@,
                        outer_scan_map@,
                        build_rows(filter_pairs(all, pred)),
                    ) by {
                        lemma_mask_of_pred(all, mask, pred);
                    }
                }
                Ok(blocks)
            },
            Err(e) => {
                proof {
                    assert(marked_under(old(outer_scan_map)@, outer_scan_map@, all, mask));
                }
                Err(e)
            },
        }
    }
}

} // verus!
