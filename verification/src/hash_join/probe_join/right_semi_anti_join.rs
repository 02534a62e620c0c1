//! Right semi and right anti join.
//!
//! Probing emits no rows. It marks in the outer scan map every build row
//! that found a probe row; once all batches are probed, a scan of the map
//! yields the matched build rows for the semi join and the others for the
//! anti join.

use vstd::prelude::*;
use crate::exception::ErrorCode;
use crate::hash_join::hash_join_probe_state::{
    evaluates,
    evaluates_any,
    FilterResult,
    HashJoinProbeState,
    OutputBlock,
};
use crate::hash_join::hash_join_state::{check_interrupt, is_aborted};
use crate::hash_join::hashtable::HashJoinHashTable;
use crate::hash_join::join_spec::{
    build_rows,
    filter_pairs,
    join_pairs,
    lemma_build_rows_add,
    lemma_covering,
    lemma_pairs_are_entries,
    lemma_select_all,
    lemma_select_append,
    lemma_select_build_rows,
    lemma_select_is_filter,
    lemma_select_none,
    lemma_select_prefix,
    lemma_take_skip_more,
    mask_of,
    rows_pairs_from,
    select,
    Pairs,
};
use crate::hash_join::keys::StringKeyAccessor;
use crate::hash_join::outer_scan_map::{
    in_scan_map,
    lemma_marks_compose,
    lemma_marks_none,
    marks_added,
    OuterScanMap,
};
use crate::hash_join::probe_cursor::ProbeCursor;
use crate::hash_join::probe_state::ProbeState;
use crate::hash_join::row_ptr::RowPtr;

verus! {

/// Whether `map` has a bit for every build row in `table`.
pub open spec fn covers_table(map: &OuterScanMap, table: &HashJoinHashTable) -> bool {
    forall|j: int| 0 <= j < table@.len() ==> in_scan_map(map@, (#[trigger] table@[j]).1)
}

impl HashJoinProbeState {
    /// Probes a batch of `input_rows` rows with keys `keys` and marks every
    /// build row that matches one of them.
    ///
    /// The cancel flag is read each time a full block of matches has been
    /// gathered. If it is found set, the probe stops there: the error is
    /// `AbortedQuery`, and the rows of the blocks before that one stay
    /// marked. A batch with fewer matches than a block holds is never
    /// cancelled.
    pub fn right_semi_anti_join(
        &self,
        input_rows: usize,
        keys: &StringKeyAccessor,
        hash_table: &HashJoinHashTable,
        probe_state: &mut ProbeState,
        outer_scan_map: &mut OuterScanMap,
    ) -> (res: Result<Vec<OutputBlock>, ErrorCode>)
        requires
            hash_table.wf(),
            keys.wf(),
            old(probe_state).ready(keys@, hash_table, input_rows),
            covers_table(old(outer_scan_map), hash_table),
        ensures
            old(probe_state).same_inputs(final(probe_state)),
            final(probe_state).ready(keys@, hash_table, input_rows),
            res matches Ok(blocks) ==> blocks@.len() == 0 && marks_added(
                old(outer_scan_map)@,
                final(outer_scan_map)@,
                build_rows(join_pairs(keys@, hash_table@)),
            ),
            res is Err ==> is_aborted(res) && join_pairs(keys@, hash_table@).len() >= old(
                probe_state,
            ).max_block_size && exists|n: int|
                0 <= n <= join_pairs(keys@, hash_table@).len() && marks_added(
                    old(outer_scan_map)@,
                    final(outer_scan_map)@,
                    #[trigger] build_rows(join_pairs(keys@, hash_table@).take(n)),
                ),
            join_pairs(keys@, hash_table@).len() < old(probe_state).max_block_size ==> res is Ok,
    {
        let ghost rows = probe_state.probe_rows(input_rows);
        let ghost all = rows_pairs_from(keys@, hash_table@, rows, 0);
        let max_block_size = probe_state.max_block_size;
        let mut cursor = ProbeCursor::new();
        let mut done: Ghost<int> = Ghost(0);
        proof {
            lemma_covering(keys@, hash_table@, rows);
            lemma_marks_none(outer_scan_map@);
            assert(build_rows(all.take(0)) =~= Seq::<RowPtr>::empty());
            assert(all.skip(0) =~= all);
        }
        loop
            invariant
                hash_table.wf(),
                keys.wf(),
                old(probe_state).same_inputs(probe_state),
                probe_state.ready(keys@, hash_table, input_rows),
                rows == probe_state.probe_rows(input_rows),
                all == rows_pairs_from(keys@, hash_table@, rows, 0),
                all == join_pairs(keys@, hash_table@),
                max_block_size == probe_state.max_block_size,
                covers_table(old(outer_scan_map), hash_table),
                cursor.wf(keys@, hash_table, rows),
                0 <= done@ <= all.len(),
                cursor.rest(keys@, hash_table, rows) == all.skip(done@),
                marks_added(old(outer_scan_map)@, outer_scan_map@, build_rows(all.take(done@))),
            ensures
                old(probe_state).same_inputs(probe_state),
                probe_state.ready(keys@, hash_table, input_rows),
                marks_added(old(outer_scan_map)@, outer_scan_map@, build_rows(all)),
            decreases all.len() - done@,
        {
            let matched = cursor.next_block(keys, hash_table, probe_state, input_rows);
            let ghost block = probe_state.block_pairs(matched as int);
            let ghost mid = outer_scan_map@;
            proof {
                lemma_take_skip_more(all, done@, matched as int);
                assert forall|i: int| 0 <= i < matched implies in_scan_map(
                    mid,
                    #[trigger] probe_state.mutable_indexes.build_indexes@[i],
                ) by {
                    assert(block[i] == all[done@ + i]);
                    lemma_pairs_are_entries(keys@, hash_table@, rows, 0, done@ + i);
                }
                assert(probe_state.mutable_indexes.build_indexes@.take(matched as int) =~= build_rows(
                    block,
                ));
                lemma_build_rows_add(all.take(done@), block);
            }
            if matched == max_block_size {
                let interrupted = self.hash_join_state.is_interrupted();
                match check_interrupt(interrupted) {
                    Err(e) => {
                        return Err(e);
                    },
                    Ok(()) => {},
                }
            }
            outer_scan_map.mark_all(&probe_state.mutable_indexes.build_indexes, matched);
            proof {
                lemma_marks_compose(
                    old(outer_scan_map)@,
                    mid,
                    outer_scan_map@,
                    build_rows(all.take(done@)),
                    build_rows(block),
                );
                done@ = done@ + matched;
            }
            if matched < max_block_size {
                proof {
                    assert(all.take(done@) =~= all);
                }
                break ;
            }
        }
        Ok(Vec::new())
    }

    /// Probes a batch of `input_rows` rows with keys `keys` for a join with
    /// a residual predicate, and marks every build row that matches one of
    /// the probe rows and passes the predicate with it. The predicate is
    /// evaluated by `other_predicate`, block by block.
    ///
    /// The cancel flag is read before each block of matches is evaluated.
    /// If it is found set, the probe stops there: the error is
    /// `AbortedQuery`, and what the blocks before that one marked stays
    /// marked. A verdict that cannot be read for its block ends the probe
    /// with `Internal`. A batch without a match reads neither.
    pub fn right_semi_anti_join_with_conjunct<F: Fn(&Vec<u32>, &Vec<RowPtr>, usize) -> FilterResult>(
        &self,
        input_rows: usize,
        keys: &StringKeyAccessor,
        hash_table: &HashJoinHashTable,
        probe_state: &mut ProbeState,
        outer_scan_map: &mut OuterScanMap,
        other_predicate: &F,
    ) -> (res: Result<Vec<OutputBlock>, ErrorCode>)
        requires
            hash_table.wf(),
            keys.wf(),
            old(probe_state).ready(keys@, hash_table, input_rows),
            covers_table(old(outer_scan_map), hash_table),
            evaluates_any(other_predicate),
        ensures
            old(probe_state).same_inputs(final(probe_state)),
            final(probe_state).ready(keys@, hash_table, input_rows),
            exists|mask: Seq<bool>|
                mask.len() <= join_pairs(keys@, hash_table@).len() && (res is Ok ==> mask.len()
                    == join_pairs(keys@, hash_table@).len()) && #[trigger] marked_under(
                    old(outer_scan_map)@,
                    final(outer_scan_map)@,
                    join_pairs(keys@, hash_table@),
                    mask,
                ),
            res matches Ok(blocks) ==> blocks@.len() == 0,
            res matches Err(e) ==> (is_aborted(res) || e is Internal) && join_pairs(keys@, hash_table@).len()
                > 0,
            forall|pred: spec_fn(int, RowPtr) -> bool| #[trigger]
                evaluates(other_predicate, pred) ==> {
                    &&& res is Ok ==> marks_added(
                        old(outer_scan_map)@,
                        final(outer_scan_map)@,
                        build_rows(filter_pairs(join_pairs(keys@, hash_table@), pred)),
                    )
                    &&& res is Err ==> is_aborted(res)
                },
    {
        let ghost rows = probe_state.probe_rows(input_rows);
        let ghost all = rows_pairs_from(keys@, hash_table@, rows, 0);
        let max_block_size = probe_state.max_block_size;
        let mut cursor = ProbeCursor::new();
        let ghost mut mask: Seq<bool> = Seq::empty();
        proof {
            lemma_covering(keys@, hash_table@, rows);
            lemma_marks_none(outer_scan_map@);
            assert(build_rows(select(all, mask, 0)) =~= Seq::<RowPtr>::empty());
            assert(all.skip(0) =~= all);
        }
        loop
            invariant
                hash_table.wf(),
                keys.wf(),
                old(probe_state).same_inputs(probe_state),
                probe_state.ready(keys@, hash_table, input_rows),
                rows == probe_state.probe_rows(input_rows),
                all == rows_pairs_from(keys@, hash_table@, rows, 0),
                all == join_pairs(keys@, hash_table@),
                max_block_size == probe_state.max_block_size,
                covers_table(old(outer_scan_map), hash_table),
                evaluates_any(other_predicate),
                cursor.wf(keys@, hash_table, rows),
                mask.len() <= all.len(),
                cursor.rest(keys@, hash_table, rows) == all.skip(mask.len() as int),
                marked_under(old(outer_scan_map)@, outer_scan_map@, all, mask),
                forall|pred: spec_fn(int, RowPtr) -> bool| #[trigger]
                    evaluates(other_predicate, pred) ==> mask_of(all, mask, pred),
            ensures
                old(probe_state).same_inputs(probe_state),
                probe_state.ready(keys@, hash_table, input_rows),
                mask.len() == all.len(),
                marked_under(old(outer_scan_map)@, outer_scan_map@, all, mask),
                forall|pred: spec_fn(int, RowPtr) -> bool| #[trigger]
                    evaluates(other_predicate, pred) ==> mask_of(all, mask, pred),
            decreases all.len() - mask.len(),
        {
            let matched = cursor.next_block(keys, hash_table, probe_state, input_rows);
            let ghost block = probe_state.block_pairs(matched as int);
            let ghost mid = outer_scan_map@;
            let ghost done = mask.len() as int;
            proof {
                lemma_take_skip_more(all, done, matched as int);
                assert forall|i: int| 0 <= i < matched implies in_scan_map(
                    mid,
                    #[trigger] probe_state.mutable_indexes.build_indexes@[i],
                ) by {
                    assert(block[i] == all[done + i]);
                    lemma_pairs_are_entries(keys@, hash_table@, rows, 0, done + i);
                }
            }
            if matched > 0 {
                match self.process_right_semi_anti_join_block(
                    matched,
                    &probe_state.mutable_indexes.probe_indexes,
                    &probe_state.mutable_indexes.build_indexes,
                    outer_scan_map,
                    other_predicate,
                ) {
                    Err(e) => {
                        proof {
                            assert forall|pred: spec_fn(int, RowPtr) -> bool| #[trigger]
                                evaluates(other_predicate, pred) implies is_aborted(
                                Err::<Vec<OutputBlock>, ErrorCode>(e),
                            ) by {
                                if !is_aborted(Err::<(), ErrorCode>(e)) {
                                    let filter = choose|filter: FilterResult| #[trigger]
                                        call_ensures(
                                            *other_predicate,
                                            (
                                                &probe_state.mutable_indexes.probe_indexes,
                                                &probe_state.mutable_indexes.build_indexes,
                                                matched,
                                            ),
                                            filter,
                                        ) && !filter.covers(matched as int);
                                    assert(filter.decides(
                                        pred,
                                        probe_state.mutable_indexes.probe_indexes@,
                                        probe_state.mutable_indexes.build_indexes@,
                                        matched as int,
                                    ));
                                }
                            }
                        }
                        return Err(e);
                    },
                    Ok(()) => {},
                }
                proof {
                    let probe_indexes = &probe_state.mutable_indexes.probe_indexes;
                    let build_indexes = &probe_state.mutable_indexes.build_indexes;
                    let filter = choose|filter: FilterResult| #[trigger]
                        call_ensures(*other_predicate, (probe_indexes, build_indexes, matched), filter)
                            && block_settled(mid, outer_scan_map@, build_indexes@, filter, matched as int);
                    let verdicts = filter.mask(matched as int);
                    let before = mask;
                    mask = before + verdicts;
                    assert(all.skip(done).take(matched as int) == block);
                    lemma_select_append(all, before, verdicts, matched as int);
                    assert(build_indexes@.take(matched as int) =~= build_rows(block));
                    lemma_select_prefix(build_indexes@, verdicts, matched as int);
                    lemma_select_prefix(all.skip(done), verdicts, matched as int);
                    lemma_select_build_rows(block, verdicts, matched as int);
                    lemma_build_rows_add(select(all, before, done), select(block, verdicts, matched as int));
                    lemma_marks_compose(
                        old(outer_scan_map)@,
                        mid,
                        outer_scan_map@,
                        build_rows(select(all, before, done)),
                        build_rows(select(block, verdicts, matched as int)),
                    );
                    assert forall|pred: spec_fn(int, RowPtr) -> bool| #[trigger]
                        evaluates(other_predicate, pred) implies mask_of(all, mask, pred) by {
                        assert(mask_of(all, before, pred));
                        assert(filter.decides(pred, probe_indexes@, build_indexes@, matched as int));
                        assert forall|k: int| 0 <= k < mask.len() implies mask[k] == pred(
                            all[k].0,
                            all[k].1,
                        ) by {
                            if k >= done {
                                assert(block[k - done] == all[k]);
                                assert(verdicts[k - done] == filter.passes(k - done));
                            }
                        }
                    }
                }
            }
            if matched < max_block_size {
                break ;
            }
        }
        proof {
            assert forall|pred: spec_fn(int, RowPtr) -> bool| #[trigger]
                evaluates(other_predicate, pred) implies marks_added(
                old(outer_scan_map)@,
                outer_scan_map@,
                build_rows(filter_pairs(all, pred)),
            ) by {
                assert(mask_of(all, mask, pred));
                lemma_select_is_filter(all, mask, pred, all.len() as int);
                assert(all.take(all.len() as int) =~= all);
            }
        }
        Ok(Vec::new())
    }

    /// Settles a block of matched pairs: has `other_predicate` evaluate
    /// the residual predicate over the first `matched_idx` pairs of the two
    /// index buffers and marks the build row of each pair that passes.
    ///
    /// The cancel flag is read first. If it is found set, the predicate is
    /// not evaluated, nothing is marked and the error is `AbortedQuery`. A
    /// verdict that cannot be read for the block marks nothing either; the
    /// error is `Internal`.
    pub fn process_right_semi_anti_join_block<F: Fn(&Vec<u32>, &Vec<RowPtr>, usize) -> FilterResult>(
        &self,
        matched_idx: usize,
        probe_indexes: &Vec<u32>,
        build_indexes: &Vec<RowPtr>,
        outer_scan_map: &mut OuterScanMap,
        other_predicate: &F,
    ) -> (res: Result<(), ErrorCode>)
        requires
            0 < matched_idx <= probe_indexes@.len(),
            matched_idx <= build_indexes@.len(),
            forall|i: int|
                0 <= i < matched_idx ==> in_scan_map(old(outer_scan_map)@, #[trigger] build_indexes@[i]),
            call_requires(*other_predicate, (probe_indexes, build_indexes, matched_idx)),
        ensures
            res is Ok ==> exists|filter: FilterResult| #[trigger]
                call_ensures(*other_predicate, (probe_indexes, build_indexes, matched_idx), filter)
                    && block_settled(
                    old(outer_scan_map)@,
                    final(outer_scan_map)@,
                    build_indexes@,
                    filter,
                    matched_idx as int,
                ),
            res matches Err(e) ==> final(outer_scan_map)@ == old(outer_scan_map)@ && (is_aborted(res) || (e
                is Internal && exists|filter: FilterResult| #[trigger]
                call_ensures(*other_predicate, (probe_indexes, build_indexes, matched_idx), filter)
                    && !filter.covers(matched_idx as int))),
    {
        let interrupted = self.hash_join_state.is_interrupted();
        match check_interrupt(interrupted) {
            Err(e) => {
                return Err(e);
            },
            Ok(()) => {},
        }
        let filter = other_predicate(probe_indexes, build_indexes, matched_idx);
        if !filter.is_covering(matched_idx) {
            return Err(ErrorCode::Internal("the verdict of the predicate does not cover the block".to_string()));
        }
        outer_scan_map.mark_passed(build_indexes, matched_idx, &filter);
        Ok(())
    }
}

/// Whether `after` is `before` with the marks that the verdict `filter` on
/// a block of `matched` pairs asks for: a mark on the build row of each
/// pair that passed.
pub open spec fn block_settled(
    before: Seq<Seq<bool>>,
    after: Seq<Seq<bool>>,
    build_indexes: Seq<RowPtr>,
    filter: FilterResult,
    matched: int,
) -> bool {
    &&& filter.covers(matched)
    &&& marks_added(before, after, select(build_indexes, filter.mask(matched), matched))
}

/// Whether `after` is `before` with a mark on the build row of each of the
/// first pairs of `pairs` that `mask` selects.
pub open spec fn marked_under(before: Seq<Seq<bool>>, after: Seq<Seq<bool>>, pairs: Pairs, mask: Seq<bool>) -> bool {
    marks_added(before, after, build_rows(select(pairs, mask, mask.len() as int)))
}

impl OuterScanMap {
    /// Marks the build row of each of the first `count` pairs that the
    /// verdict `filter` lets through: all of them if it says so, none if
    /// it says so, else those whose bit in the mask is set.
    pub fn mark_passed(&mut self, build_indexes: &Vec<RowPtr>, count: usize, filter: &FilterResult)
        requires
            count <= build_indexes@.len(),
            filter.covers(count as int),
            forall|i: int| 0 <= i < count ==> in_scan_map(old(self)@, #[trigger] build_indexes@[i]),
        ensures
            marks_added(
                old(self)@,
                final(self)@,
                select(build_indexes@, filter.mask(count as int), count as int),
            ),
    {
        let ghost mask = filter.mask(count as int);
        if filter.all_true {
            self.mark_all(build_indexes, count);
            proof {
                lemma_select_all(build_indexes@, mask, count as int);
            }
        } else if !filter.all_false {
            let validity = filter.validity.as_ref().unwrap();
            let mut idx: usize = 0;
            proof {
                lemma_marks_none(self@);
            }
            while idx < count
                invariant
                    idx <= count <= build_indexes@.len(),
                    count <= validity@.len(),
                    mask == filter.mask(count as int),
                    !filter.all_true,
                    !filter.all_false,
                    filter.validity == Some(*validity),
                    forall|i: int| 0 <= i < count ==> in_scan_map(old(self)@, #[trigger] build_indexes@[i]),
                    marks_added(old(self)@, self@, select(build_indexes@, mask, idx as int)),
                decreases count - idx,
            {
                if validity[idx] {
                    let ghost mid = self@;
                    assert(in_scan_map(old(self)@, build_indexes@[idx as int]));
                    self.mark(build_indexes[idx]);
                    proof {
                        lemma_marks_compose(
                            old(self)@,
                            mid,
                            self@,
                            select(build_indexes@, mask, idx as int),
                            seq![build_indexes@[idx as int]],
                        );
                        assert(select(build_indexes@, mask, idx as int) + seq![build_indexes@[idx as int]]
                            =~= select(build_indexes@, mask, idx + 1));
                    }
                }
                idx += 1;
            }
        } else {
            proof {
                lemma_select_none(build_indexes@, mask, count as int);
                lemma_marks_none(self@);
            }
        }
    }
}

} // verus!
