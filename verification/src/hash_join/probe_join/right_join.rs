//! Right join.
//!
//! Every matched pair becomes an output row, as in the inner join, and its
//! build row is marked in the outer scan map. Once all batches are probed,
//! a scan of the map yields the build rows that never matched; they come
//! out joined with a probe row of nulls.

use vstd::prelude::*;
use crate::exception::ErrorCode;
use crate::hash_join::hash_join_probe_state::{
    concat_rows,
    evaluates,
    evaluates_any,
    lemma_concat_rows_prefix,
    lemma_matched_rows_add,
    matched_rows,
    FilterResult,
    HashJoinProbeState,
    OutputBlock,
};
use crate::hash_join::hash_join_state::{check_interrupt, is_aborted};
use crate::hash_join::hashtable::HashJoinHashTable;
use crate::hash_join::join_spec::{
    build_rows,
    filter_pairs,
    join_pairs,
    lemma_build_rows_add,
    lemma_covering,
    lemma_pairs_are_entries,
    lemma_take_skip_more,
    rows_pairs_from,
};
use crate::hash_join::keys::StringKeyAccessor;
use crate::hash_join::outer_scan_map::{
    in_scan_map,
    lemma_marks_compose,
    lemma_marks_none,
    marks_added,
    OuterScanMap,
};
use crate::hash_join::probe_cursor::ProbeCursor;
use crate::hash_join::probe_join::inner_join::blocks_bounded;
use crate::hash_join::probe_join::right_semi_anti_join::{covers_table, marked_under};
use crate::hash_join::probe_join::with_conjunct::{lemma_mask_of_pred, rows_under};
use crate::hash_join::probe_state::ProbeState;
use crate::hash_join::row_ptr::RowPtr;

verus! {

impl HashJoinProbeState {
    /// Probes a batch of `input_rows` rows with keys `keys`, returns one
    /// row for every pair of a probe row and a build row with equal keys,
    /// and marks the build row of every such pair.
    ///
    /// The cancel flag is read each time a full block of matches has been
    /// gathered. If it is found set, the probe fails with `AbortedQuery` and
    /// returns no block; the build rows of the blocks before that one stay
    /// marked. A batch with fewer matches than a block holds is never
    /// cancelled.
    pub fn right_join(
        &self,
        input_rows: usize,
        keys: &StringKeyAccessor,
        hash_table: &HashJoinHashTable,
        probe_state: &mut ProbeState,
        outer_scan_map: &mut OuterScanMap,
    ) -> (res: Result<Vec<OutputBlock>, ErrorCode>)
        requires
            hash_table.wf(),
            keys.wf(),
            old(probe_state).ready(keys@, hash_table, input_rows),
            covers_table(old(outer_scan_map), hash_table),
        ensures
            old(probe_state).same_inputs(final(probe_state)),
            final(probe_state).ready(keys@, hash_table, input_rows),
            res matches Ok(blocks) ==> {
                &&& concat_rows(blocks@, blocks@.len() as int) == matched_rows(join_pairs(keys@, hash_table@))
                &&& blocks_bounded(blocks@, old(probe_state).max_block_size)
                &&& marks_added(
                    old(outer_scan_map)@,
                    final(outer_scan_map)@,
                    build_rows(join_pairs(keys@, hash_table@)),
                )
            },
            res is Err ==> is_aborted(res) && join_pairs(keys@, hash_table@).len() >= old(
                probe_state,
            ).max_block_size && exists|n: int|
                0 <= n <= join_pairs(keys@, hash_table@).len() && marks_added(
                    old(outer_scan_map)@,
                    final(outer_scan_map)@,
                    #[trigger] build_rows(join_pairs(keys@, hash_table@).take(n)),
                ),
            join_pairs(keys@, hash_table@).len() < old(probe_state).max_block_size ==> res is Ok,
    {
        let ghost rows = probe_state.probe_rows(input_rows);
        let ghost all = rows_pairs_from(keys@, hash_table@, rows, 0);
        let max_block_size = probe_state.max_block_size;
        let mut cursor = ProbeCursor::new();
        let mut blocks: Vec<OutputBlock> = Vec::new();
        let mut done: Ghost<int> = Ghost(0);
        proof {
            lemma_covering(keys@, hash_table@, rows);
            lemma_marks_none(outer_scan_map@);
            assert(build_rows(all.take(0)) =~= Seq::<RowPtr>::empty());
            assert(matched_rows(all.take(0)) =~= concat_rows(blocks@, 0));
            assert(all.skip(0) =~= all);
        }
        loop
            invariant
                hash_table.wf(),
                keys.wf(),
                old(probe_state).same_inputs(probe_state),
                probe_state.ready(keys@, hash_table, input_rows),
                rows == probe_state.probe_rows(input_rows),
                all == rows_pairs_from(keys@, hash_table@, rows, 0),
                all == join_pairs(keys@, hash_table@),
                max_block_size == probe_state.max_block_size,
                covers_table(old(outer_scan_map), hash_table),
                cursor.wf(keys@, hash_table, rows),
                0 <= done@ <= all.len(),
                cursor.rest(keys@, hash_table, rows) == all.skip(done@),
                marks_added(old(outer_scan_map)@, outer_scan_map@, build_rows(all.take(done@))),
                concat_rows(blocks@, blocks@.len() as int) == matched_rows(all.take(done@)),
                blocks_bounded(blocks@, max_block_size),
            ensures
                old(probe_state).same_inputs(probe_state),
                probe_state.ready(keys@, hash_table, input_rows),
                marks_added(old(outer_scan_map)@, outer_scan_map@, build_rows(all)),
                concat_rows(blocks@, blocks@.len() as int) == matched_rows(all),
                blocks_bounded(blocks@, max_block_size),
            decreases all.len() - done@,
        {
            let matched = cursor.next_block(keys, hash_table, probe_state, input_rows);
            let ghost pairs = probe_state.block_pairs(matched as int);
            let ghost mid = outer_scan_map@;
            proof {
                lemma_take_skip_more(all, done@, matched as int);
                lemma_matched_rows_add(all.take(done@), pairs);
                assert forall|i: int| 0 <= i < matched implies in_scan_map(
                    mid,
                    #[trigger] probe_state.mutable_indexes.build_indexes@[i],
                ) by {
                    assert(pairs[i] == all[done@ + i]);
                    lemma_pairs_are_entries(keys@, hash_table@, rows, 0, done@ + i);
                }
                assert(probe_state.mutable_indexes.build_indexes@.take(matched as int) =~= build_rows(
                    pairs,
                ));
                lemma_build_rows_add(all.take(done@), pairs);
            }
            if matched == max_block_size {
                let interrupted = self.hash_join_state.is_interrupted();
                match check_interrupt(interrupted) {
                    Err(e) => {
                        return Err(e);
                    },
                    Ok(()) => {},
                }
            }
            outer_scan_map.mark_all(&probe_state.mutable_indexes.build_indexes, matched);
            proof {
                lemma_marks_compose(
                    old(outer_scan_map)@,
                    mid,
                    outer_scan_map@,
                    build_rows(all.take(done@)),
                    build_rows(pairs),
                );
            }
            if matched > 0 {
                let block = OutputBlock::from_indexes(
                    &probe_state.mutable_indexes.probe_indexes,
                    &probe_state.mutable_indexes.build_indexes,
                    matched,
                );
                let ghost before = blocks@;
                proof {
                    assert(block.rows() =~= matched_rows(pairs));
                }
                blocks.push(block);
                proof {
                    lemma_concat_rows_prefix(before, blocks@, before.len() as int);
                }
            } else {
                proof {
                    assert(all.take(done@) + pairs =~= all.take(done@));
                }
            }
            proof {
                done@ = done@ + matched;
            }
            if matched < max_block_size {
                proof {
                    assert(all.take(done@) =~= all);
                }
                break ;
            }
        }
        Ok(blocks)
    }

    /// Probes a batch of `input_rows` rows with keys `keys` for a join with
    /// a residual predicate, returns one row for every pair of a probe row
    /// and a build row that have equal keys and pass the predicate, and
    /// marks the build row of every such pair. The predicate is evaluated by
    /// `other_predicate`, block by block.
    ///
    /// The cancel flag is read before each block of matches is evaluated.
    /// If it is found set, the probe fails with `AbortedQuery` and returns
    /// no block; what the blocks before that one marked stays marked. A
    /// verdict that cannot be read for its block ends the probe with
    /// `Internal`. A batch without a match reads neither.
    pub fn right_join_with_conjunct<F: Fn(&Vec<u32>, &Vec<RowPtr>, usize) -> FilterResult>(
        &self,
        input_rows: usize,
        keys: &StringKeyAccessor,
        hash_table: &HashJoinHashTable,
        probe_state: &mut ProbeState,
        outer_scan_map: &mut OuterScanMap,
        other_predicate: &F,
    ) -> (res: Result<Vec<OutputBlock>, ErrorCode>)
        requires
            hash_table.wf(),
            keys.wf(),
            old(probe_state).ready(keys@, hash_table, input_rows),
            covers_table(old(outer_scan_map), hash_table),
            evaluates_any(other_predicate),
        ensures
            old(probe_state).same_inputs(final(probe_state)),
            final(probe_state).ready(keys@, hash_table, input_rows),
            exists|mask: Seq<bool>|
                mask.len() <= join_pairs(keys@, hash_table@).len() && (res matches Ok(blocks) ==> mask.len()
                    == join_pairs(keys@, hash_table@).len() && rows_under(
                    blocks@,
                    join_pairs(keys@, hash_table@),
                    mask,
                )) && #[trigger] marked_under(
                    old(outer_scan_map)@,
                    final(outer_scan_map)@,
                    join_pairs(keys@, hash_table@),
                    mask,
                ),
            res matches Ok(blocks) ==> blocks_bounded(blocks@, old(probe_state).max_block_size),
            res matches Err(e) ==> (is_aborted(res) || e is Internal) && join_pairs(keys@, hash_table@).len()
                > 0,
            forall|pred: spec_fn(int, RowPtr) -> bool| #[trigger]
                evaluates(other_predicate, pred) ==> {
                    &&& res matches Ok(blocks) ==> {
                        &&& concat_rows(blocks@, blocks@.len() as int) == matched_rows(
                            filter_pairs(join_pairs(keys@, hash_table@), pred),
                        )
                        &&& marks_added(
                            old(outer_scan_map)@,
                            final(outer_scan_map)@,
                            build_rows(filter_pairs(join_pairs(keys@, hash_table@), pred)),
                        )
                    }
                    &&& res is Err ==> is_aborted(res)
                },
    {
        let out = self.join_with_conjunct(
            input_rows,
            keys,
            hash_table,
            probe_state,
            outer_scan_map,
            other_predicate,
            true,
            false,
        );
        let ghost mask = out.1@;
        let ghost all = join_pairs(keys@, hash_table@);
        match out.0 {
            Ok((blocks, _)) => {
                proof {
                    assert(marked_under(old(outer_scan_map)@, outer_scan_map@, all, mask));
                    assert forall|pred: spec_fn(int, RowPtr) -> bool| #[trigger]
                        evaluates(other_predicate, pred) implies concat_rows(blocks@, blocks@.len() as int)
                        == matched_rows(filter_pairs(all, pred)) && marks_added(
                        old(outer_scan_map)@,
                        outer_scan_map@,
                        build_rows(filter_pairs(all, pred)),
                    ) by {
                        lemma_mask_of_pred(all, mask, pred);
                    }
                }
                Ok(blocks)
            },
            Err(e) => {
                proof {
                    assert(marked_under(old(outer_scan_map)@, outer_scan_map@, all, mask));
                }
                Err(e)
            },
        }
    }
}

} // verus!
