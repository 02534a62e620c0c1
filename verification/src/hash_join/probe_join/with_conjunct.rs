//! Probing with a residual predicate: what the join types that emit rows
//! share.
//!
//! The matched pairs are gathered block by block. Each block is handed to
//! the evaluator of the predicate, and only the pairs that pass become
//! output rows, get their build row marked, or count as a match of their
//! probe row.

use vstd::prelude::*;
use crate::exception::ErrorCode;
use crate::hash_join::hash_join_probe_state::{
    concat_rows,
    evaluates,
    evaluates_any,
    lemma_concat_rows_prefix,
    lemma_matched_rows_add,
    matched_rows,
    FilterResult,
    HashJoinProbeState,
    OutputBlock,
    OutputRow,
};
use crate::hash_join::hash_join_state::{check_interrupt, is_aborted};
use crate::hash_join::hashtable::HashJoinHashTable;
use crate::hash_join::join_spec::{
    build_rows,
    filter_pairs,
    index_pairs,
    join_pairs,
    lemma_build_rows_add,
    lemma_covering,
    lemma_pairs_are_entries,
    lemma_pairs_in_batch,
    lemma_select_append,
    lemma_select_bound,
    lemma_select_build_rows,
    lemma_select_is_filter,
    lemma_select_prefix,
    lemma_take_skip_more,
    mask_of,
    rows_pairs_from,
    select,
    Pairs,
};
use crate::hash_join::keys::StringKeyAccessor;
use crate::hash_join::outer_scan_map::{in_scan_map, lemma_marks_compose, lemma_marks_none, OuterScanMap};
use crate::hash_join::probe_cursor::ProbeCursor;
use crate::hash_join::probe_join::inner_join::blocks_bounded;
use crate::hash_join::probe_join::right_semi_anti_join::{covers_table, marked_under};
use crate::hash_join::probe_state::ProbeState;
use crate::hash_join::row_ptr::RowPtr;

verus! {

/// Whether the rows of `blocks` are the first pairs of `pairs` that `mask`
/// selects, in order.
pub open spec fn rows_under(blocks: Seq<OutputBlock>, pairs: Pairs, mask: Seq<bool>) -> bool {
    concat_rows(blocks, blocks.len() as int) == matched_rows(select(pairs, mask, mask.len() as int))
}

/// Whether pair `k` is one that `mask` selects and a pair of probe row `i`.
pub open spec fn passes_at(pairs: Pairs, mask: Seq<bool>, k: int, i: int) -> bool {
    0 <= k < mask.len() && mask[k] && pairs[k].0 == i
}

/// For each of the first `rows` probe rows, whether `mask` selects one of
/// its pairs.
pub open spec fn passed_flags(pairs: Pairs, mask: Seq<bool>, rows: int) -> Seq<bool> {
    Seq::new(rows as nat, |i: int| exists|k: int| #[trigger] passes_at(pairs, mask, k, i))
}

/// Whether entry `k` of the probe index buffer is probe row `i` and `mask`
/// selects it.
pub open spec fn hit(probe_indexes: Seq<u32>, mask: Seq<bool>, k: int, i: int) -> bool {
    0 <= k < mask.len() && mask[k] && probe_indexes[k] == i
}

/// The probe rows among the first `upto` whose flag is not set, each joined
/// with a build row of nulls, in probe order.
pub open spec fn unflagged_rows(flags: Seq<bool>, upto: int) -> Seq<OutputRow>
    decreases upto,
{
    if upto <= 0 {
        Seq::empty()
    } else if flags[upto - 1] {
        unflagged_rows(flags, upto - 1)
    } else {
        unflagged_rows(flags, upto - 1).push((Some(upto - 1), None))
    }
}

/// The verdict of the predicate `pred` on each of `pairs`.
pub open spec fn pred_mask(pairs: Pairs, pred: spec_fn(int, RowPtr) -> bool) -> Seq<bool> {
    Seq::new(pairs.len(), |k: int| pred(pairs[k].0, pairs[k].1))
}

/// A mask over all of `pairs` that holds the verdicts of `pred` is the mask
/// of `pred`, and selects what `pred` filters.
pub proof fn lemma_mask_of_pred(pairs: Pairs, mask: Seq<bool>, pred: spec_fn(int, RowPtr) -> bool)
    requires
        mask.len() == pairs.len(),
        mask_of(pairs, mask, pred),
    ensures
        mask == pred_mask(pairs, pred),
        select(pairs, mask, mask.len() as int) == filter_pairs(pairs, pred),
{
    assert(mask =~= pred_mask(pairs, pred));
    lemma_select_is_filter(pairs, mask, pred, pairs.len() as int);
    assert(pairs.take(pairs.len() as int) =~= pairs);
}

/// Appends to `blocks` one row for every probe row whose flag is not set,
/// joined with a build row of nulls, in probe order and in blocks of at
/// most `max_block_size` rows.
pub fn push_unflagged_probe_rows(flags: &Vec<bool>, max_block_size: usize, blocks: &mut Vec<OutputBlock>)
    requires
        max_block_size > 0,
        flags@.len() <= u32::MAX,
        blocks_bounded(old(blocks)@, max_block_size),
    ensures
        blocks_bounded(final(blocks)@, max_block_size),
        concat_rows(final(blocks)@, final(blocks)@.len() as int) == concat_rows(
            old(blocks)@,
            old(blocks)@.len() as int,
        ) + unflagged_rows(flags@, flags@.len() as int),
{
    let ghost matched = concat_rows(blocks@, blocks@.len() as int);
    let mut block = OutputBlock { probe_indexes: Vec::new(), build_indexes: Vec::new() };
    let n = flags.len();
    let mut idx: usize = 0;
    proof {
        assert(matched + block.rows() =~= matched + unflagged_rows(flags@, 0));
    }
    while idx < n
        invariant
            max_block_size > 0,
            n == flags@.len(),
            n <= u32::MAX,
            idx <= n,
            block.wf(),
            block.rows().len() < max_block_size,
            blocks_bounded(blocks@, max_block_size),
            concat_rows(blocks@, blocks@.len() as int) + block.rows() == matched + unflagged_rows(
                flags@,
                idx as int,
            ),
        decreases n - idx,
    {
        let ghost so_far = unflagged_rows(flags@, idx as int);
        if !flags[idx] {
            let ghost rows_before = block.rows();
            block.probe_indexes.push(Some(idx as u32));
            block.build_indexes.push(None);
            proof {
                assert(block.rows() =~= rows_before.push((Some(idx as int), None)));
                assert(unflagged_rows(flags@, idx + 1) == so_far.push((Some(idx as int), None)));
                assert(concat_rows(blocks@, blocks@.len() as int) + rows_before.push(
                    (Some(idx as int), None),
                ) =~= (concat_rows(blocks@, blocks@.len() as int) + rows_before).push(
                    (Some(idx as int), None),
                ));
                assert((matched + so_far).push((Some(idx as int), None)) =~= matched + so_far.push(
                    (Some(idx as int), None),
                ));
            }
            if block.num_rows() == max_block_size {
                let ghost before = blocks@;
                blocks.push(block);
                block = OutputBlock { probe_indexes: Vec::new(), build_indexes: Vec::new() };
                proof {
                    lemma_concat_rows_prefix(before, blocks@, before.len() as int);
                    assert(concat_rows(blocks@, blocks@.len() as int) + block.rows() =~= matched
                        + unflagged_rows(flags@, idx + 1));
                }
            }
        }
        idx += 1;
    }
    if block.num_rows() > 0 {
        let ghost before = blocks@;
        blocks.push(block);
        proof {
            lemma_concat_rows_prefix(before, blocks@, before.len() as int);
        }
    } else {
        proof {
            assert(concat_rows(blocks@, blocks@.len() as int) + block.rows() =~= concat_rows(
                blocks@,
                blocks@.len() as int,
            ));
        }
    }
}

impl OutputBlock {
    /// The block of those of the first `count` matched pairs of the two
    /// index buffers that the verdict `filter` lets through, in order.
    pub fn from_filtered(
        probe_indexes: &Vec<u32>,
        build_indexes: &Vec<RowPtr>,
        count: usize,
        filter: &FilterResult,
    ) -> (block: OutputBlock)
        requires
            count <= probe_indexes@.len(),
            count <= build_indexes@.len(),
            filter.covers(count as int),
        ensures
            block.wf(),
            block.rows() == matched_rows(
                select(
                    index_pairs(probe_indexes@, build_indexes@, count as int),
                    filter.mask(count as int),
                    count as int,
                ),
            ),
    {
        let ghost mask = filter.mask(count as int);
        let ghost pairs = index_pairs(probe_indexes@, build_indexes@, count as int);
        let mut block = OutputBlock { probe_indexes: Vec::new(), build_indexes: Vec::new() };
        let mut k: usize = 0;
        proof {
            assert(block.rows() =~= matched_rows(select(pairs, mask, 0)));
        }
        while k < count
            invariant
                k <= count,
                count <= probe_indexes@.len(),
                count <= build_indexes@.len(),
                filter.covers(count as int),
                mask == filter.mask(count as int),
                pairs == index_pairs(probe_indexes@, build_indexes@, count as int),
                block.wf(),
                block.rows() == matched_rows(select(pairs, mask, k as int)),
            decreases count - k,
        {
            let pass = filter.all_true || (!filter.all_false && match &filter.validity {
                Some(bits) => bits[k],
                None => false,
            });
            assert(pass == mask[k as int]);
            let ghost rows_before = block.rows();
            let ghost passed_before = select(pairs, mask, k as int);
            if pass {
                block.probe_indexes.push(Some(probe_indexes[k]));
                block.build_indexes.push(Some(build_indexes[k]));
                proof {
                    assert(block.rows() =~= rows_before.push(
                        (Some(pairs[k as int].0), Some(pairs[k as int].1)),
                    ));
                    assert(matched_rows(passed_before.push(pairs[k as int])) =~= matched_rows(
                        passed_before,
                    ).push((Some(pairs[k as int].0), Some(pairs[k as int].1))));
                }
            }
            k += 1;
        }
        block
    }
}

/// Sets the flag of the probe row of each of the first `count` pairs that
/// the verdict `filter` lets through.
pub fn flag_passed(flags: &mut Vec<bool>, probe_indexes: &Vec<u32>, count: usize, filter: &FilterResult)
    requires
        count <= probe_indexes@.len(),
        filter.covers(count as int),
        forall|k: int| 0 <= k < count ==> (#[trigger] probe_indexes@[k]) < old(flags)@.len(),
    ensures
        final(flags)@.len() == old(flags)@.len(),
        forall|i: int|
            0 <= i < old(flags)@.len() ==> #[trigger] final(flags)@[i] == (old(flags)@[i] || exists|k: int| #[trigger]
                hit(probe_indexes@, filter.mask(count as int), k, i)),
{
    let ghost mask = filter.mask(count as int);
    let mut k: usize = 0;
    while k < count
        invariant
            k <= count <= probe_indexes@.len(),
            filter.covers(count as int),
            mask == filter.mask(count as int),
            flags@.len() == old(flags)@.len(),
            forall|j: int| 0 <= j < count ==> (#[trigger] probe_indexes@[j]) < flags@.len(),
            forall|i: int|
                0 <= i < flags@.len() ==> #[trigger] flags@[i] == (old(flags)@[i] || exists|j: int|
                    j < k && #[trigger] hit(probe_indexes@, mask, j, i)),
        decreases count - k,
    {
        let pass = filter.all_true || (!filter.all_false && match &filter.validity {
            Some(bits) => bits[k],
            None => false,
        });
        assert(pass == mask[k as int]);
        let ghost before = flags@;
        if pass {
            let row = probe_indexes[k] as usize;
            flags[row] = true;
        }
        proof {
            assert forall|i: int| 0 <= i < flags@.len() implies #[trigger] flags@[i] == (old(flags)@[i]
                || exists|j: int| j < k + 1 && #[trigger] hit(probe_indexes@, mask, j, i)) by {
                if pass && probe_indexes@[k as int] == i {
                    assert(hit(probe_indexes@, mask, k as int, i));
                } else {
                    assert(flags@[i] == before[i]);
                    if exists|j: int| j < k + 1 && #[trigger] hit(probe_indexes@, mask, j, i) {
                        let j = choose|j: int| j < k + 1 && #[trigger] hit(probe_indexes@, mask, j, i);
                        assert(j < k);
                    }
                }
            }
        }
        k += 1;
    }
    proof {
        assert forall|i: int| 0 <= i < flags@.len() implies #[trigger] flags@[i] == (old(flags)@[i]
            || exists|j: int| #[trigger] hit(probe_indexes@, mask, j, i)) by {
            if exists|j: int| #[trigger] hit(probe_indexes@, mask, j, i) {
                let j = choose|j: int| #[trigger] hit(probe_indexes@, mask, j, i);
                assert(j < count);
            }
        }
    }
}

/// `size` flags, none of them set.
fn clear_flags(size: usize) -> (flags: Vec<bool>)
    ensures
        flags@.len() == size,
        forall|i: int| 0 <= i < size ==> !flags@[i],
{
    let mut flags: Vec<bool> = Vec::new();
    let mut i: usize = 0;
    while i < size
        invariant
            i <= size,
            flags@.len() == i,
            forall|j: int| 0 <= j < i ==> !flags@[j],
        decreases size - i,
    {
        flags.push(false);
        i += 1;
    }
    flags
}

impl HashJoinProbeState {
    /// Probes a batch for a join with a residual predicate: gathers the
    /// matched pairs block by block, has `other_predicate` evaluate each
    /// block, and returns the pairs that pass as output blocks. If
    /// `mark_build` is set, the build row of each pair that passes is
    /// marked; if `flag_probe` is set, the flags returned say for each probe
    /// row whether one of its pairs passed. The ghost result is the verdict
    /// on each pair that was evaluated.
    pub(crate) fn join_with_conjunct<F: Fn(&Vec<u32>, &Vec<RowPtr>, usize) -> FilterResult>(
        &self,
        input_rows: usize,
        keys: &StringKeyAccessor,
        hash_table: &HashJoinHashTable,
        probe_state: &mut ProbeState,
        outer_scan_map: &mut OuterScanMap,
        other_predicate: &F,
        mark_build: bool,
        flag_probe: bool,
    ) -> (res: (Result<(Vec<OutputBlock>, Vec<bool>), ErrorCode>, Ghost<Seq<bool>>))
        requires
            hash_table.wf(),
            keys.wf(),
            old(probe_state).ready(keys@, hash_table, input_rows),
            mark_build ==> covers_table(old(outer_scan_map), hash_table),
            evaluates_any(other_predicate),
        ensures
            old(probe_state).same_inputs(final(probe_state)),
            final(probe_state).ready(keys@, hash_table, input_rows),
            res.1@.len() <= join_pairs(keys@, hash_table@).len(),
            mark_build ==> marked_under(
                old(outer_scan_map)@,
                final(outer_scan_map)@,
                join_pairs(keys@, hash_table@),
                res.1@,
            ),
            !mark_build ==> final(outer_scan_map)@ == old(outer_scan_map)@,
            res.0 matches Ok((blocks, flags)) ==> {
                &&& res.1@.len() == join_pairs(keys@, hash_table@).len()
                &&& rows_under(blocks@, join_pairs(keys@, hash_table@), res.1@)
                &&& blocks_bounded(blocks@, old(probe_state).max_block_size)
                &&& flag_probe ==> flags@ == passed_flags(
                    join_pairs(keys@, hash_table@),
                    res.1@,
                    input_rows as int,
                )
            },
            res.0 matches Err(e) ==> (is_aborted(res.0) || e is Internal) && join_pairs(
                keys@,
                hash_table@,
            ).len() > 0,
            forall|pred: spec_fn(int, RowPtr) -> bool| #[trigger]
                evaluates(other_predicate, pred) ==> mask_of(join_pairs(keys@, hash_table@), res.1@, pred)
                    && (res.0 is Err ==> is_aborted(res.0)),
    {
        let ghost rows = probe_state.probe_rows(input_rows);
        let ghost all = rows_pairs_from(keys@, hash_table@, rows, 0);
        let max_block_size = probe_state.max_block_size;
        let mut cursor = ProbeCursor::new();
        let mut blocks: Vec<OutputBlock> = Vec::new();
        let mut flags = if flag_probe {
            clear_flags(input_rows)
        } else {
            Vec::new()
        };
        let ghost mut mask: Seq<bool> = Seq::empty();
        proof {
            lemma_covering(keys@, hash_table@, rows);
            lemma_marks_none(outer_scan_map@);
            assert(build_rows(select(all, mask, 0)) =~= Seq::<RowPtr>::empty());
            assert(matched_rows(select(all, mask, 0)) =~= concat_rows(blocks@, 0));
            assert(all.skip(0) =~= all);
            if flag_probe {
                assert(flags@ =~= passed_flags(all, mask, input_rows as int));
            }
        }
        loop
            invariant
                hash_table.wf(),
                keys.wf(),
                old(probe_state).same_inputs(probe_state),
                probe_state.ready(keys@, hash_table, input_rows),
                rows == probe_state.probe_rows(input_rows),
                all == rows_pairs_from(keys@, hash_table@, rows, 0),
                all == join_pairs(keys@, hash_table@),
                max_block_size == probe_state.max_block_size,
                mark_build ==> covers_table(old(outer_scan_map), hash_table),
                evaluates_any(other_predicate),
                cursor.wf(keys@, hash_table, rows),
                mask.len() <= all.len(),
                cursor.rest(keys@, hash_table, rows) == all.skip(mask.len() as int),
                mark_build ==> marked_under(old(outer_scan_map)@, outer_scan_map@, all, mask),
                !mark_build ==> outer_scan_map@ == old(outer_scan_map)@,
                rows_under(blocks@, all, mask),
                blocks_bounded(blocks@, max_block_size),
                flag_probe ==> flags@ == passed_flags(all, mask, input_rows as int),
                forall|pred: spec_fn(int, RowPtr) -> bool| #[trigger]
                    evaluates(other_predicate, pred) ==> mask_of(all, mask, pred),
            ensures
                old(probe_state).same_inputs(probe_state),
                probe_state.ready(keys@, hash_table, input_rows),
                mask.len() == all.len(),
                mark_build ==> marked_under(old(outer_scan_map)@, outer_scan_map@, all, mask),
                !mark_build ==> outer_scan_map@ == old(outer_scan_map)@,
                rows_under(blocks@, all, mask),
                blocks_bounded(blocks@, max_block_size),
                flag_probe ==> flags@ == passed_flags(all, mask, input_rows as int),
                forall|pred: spec_fn(int, RowPtr) -> bool| #[trigger]
                    evaluates(other_predicate, pred) ==> mask_of(all, mask, pred),
            decreases all.len() - mask.len(),
        {
            let matched = cursor.next_block(keys, hash_table, probe_state, input_rows);
            let ghost block_pairs = probe_state.block_pairs(matched as int);
            let ghost done = mask.len() as int;
            let ghost mid = outer_scan_map@;
            proof {
                lemma_take_skip_more(all, done, matched as int);
            }
            if matched > 0 {
                let interrupted = self.hash_join_state.is_interrupted();
                match check_interrupt(interrupted) {
                    Err(e) => {
                        return (Err(e), Ghost(mask));
                    },
                    Ok(()) => {},
                }
                let probe_indexes = &probe_state.mutable_indexes.probe_indexes;
                let build_indexes = &probe_state.mutable_indexes.build_indexes;
                let filter = other_predicate(probe_indexes, build_indexes, matched);
                if !filter.is_covering(matched) {
                    proof {
                        assert forall|pred: spec_fn(int, RowPtr) -> bool| #[trigger]
                            evaluates(other_predicate, pred) implies false by {
                            assert(filter.decides(pred, probe_indexes@, build_indexes@, matched as int));
                        }
                    }
                    return (
                        Err(
                            ErrorCode::Internal(
                                "the verdict of the predicate does not cover the block".to_string(),
                            ),
                        ),
                        Ghost(mask),
                    );
                }
                let ghost verdicts = filter.mask(matched as int);
                let ghost before_mask = mask;
                let ghost before_flags = flags@;
                proof {
                    mask = before_mask + verdicts;
                    assert(all.skip(done).take(matched as int) == block_pairs);
                    assert forall|k: int| 0 <= k < matched implies #[trigger] block_pairs[k] == all[done + k] by {
                        assert(all.skip(done).take(matched as int)[k] == all[done + k]);
                    }
                    lemma_select_append(all, before_mask, verdicts, matched as int);
                    lemma_select_prefix(all.skip(done), verdicts, matched as int);
                }
                if mark_build {
                    proof {
                        assert forall|i: int| 0 <= i < matched implies in_scan_map(
                            mid,
                            #[trigger] build_indexes@[i],
                        ) by {
                            assert(block_pairs[i] == all[done + i]);
                            lemma_pairs_are_entries(keys@, hash_table@, rows, 0, done + i);
                        }
                    }
                    outer_scan_map.mark_passed(build_indexes, matched, &filter);
                    proof {
                        assert(build_indexes@.take(matched as int) =~= build_rows(block_pairs));
                        lemma_select_prefix(build_indexes@, verdicts, matched as int);
                        lemma_select_build_rows(block_pairs, verdicts, matched as int);
                        lemma_build_rows_add(
                            select(all, before_mask, done),
                            select(block_pairs, verdicts, matched as int),
                        );
                        lemma_marks_compose(
                            old(outer_scan_map)@,
                            mid,
                            outer_scan_map@,
                            build_rows(select(all, before_mask, done)),
                            build_rows(select(block_pairs, verdicts, matched as int)),
                        );
                    }
                }
                if flag_probe {
                    proof {
                        assert forall|k: int| 0 <= k < matched implies (#[trigger] probe_indexes@[k])
                            < flags@.len() by {
                            assert(block_pairs[k] == all[done + k]);
                            lemma_pairs_in_batch(keys@, hash_table@, rows, 0, done + k);
                        }
                    }
                    flag_passed(&mut flags, probe_indexes, matched, &filter);
                    proof {
                        assert forall|i: int| 0 <= i < input_rows implies flags@[i] == passed_flags(
                            all,
                            mask,
                            input_rows as int,
                        )[i] by {
                            assert(before_flags[i] == passed_flags(all, before_mask, input_rows as int)[i]);
                            if flags@[i] {
                                if before_flags[i] {
                                    let k = choose|k: int| #[trigger] passes_at(all, before_mask, k, i);
                                    assert(passes_at(all, mask, k, i));
                                } else {
                                    let k = choose|k: int| #[trigger] hit(probe_indexes@, verdicts, k, i);
                                    assert(block_pairs[k] == all[done + k]);
                                    assert(passes_at(all, mask, done + k, i));
                                }
                            }
                            if exists|k: int| #[trigger] passes_at(all, mask, k, i) {
                                let k = choose|k: int| #[trigger] passes_at(all, mask, k, i);
                                if k < done {
                                    assert(passes_at(all, before_mask, k, i));
                                } else {
                                    assert(block_pairs[k - done] == all[done + (k - done)]);
                                    assert(hit(probe_indexes@, verdicts, k - done, i));
                                }
                            }
                        }
                        assert(flags@ =~= passed_flags(all, mask, input_rows as int));
                    }
                }
                let block = OutputBlock::from_filtered(probe_indexes, build_indexes, matched, &filter);
                let ghost before = blocks@;
                proof {
                    lemma_matched_rows_add(
                        select(all, before_mask, done),
                        select(block_pairs, verdicts, matched as int),
                    );
                    assert forall|pred: spec_fn(int, RowPtr) -> bool| #[trigger]
                        evaluates(other_predicate, pred) implies mask_of(all, mask, pred) by {
                        assert(mask_of(all, before_mask, pred));
                        assert(filter.decides(pred, probe_indexes@, build_indexes@, matched as int));
                        assert forall|k: int| 0 <= k < mask.len() implies mask[k] == pred(
                            all[k].0,
                            all[k].1,
                        ) by {
                            if k >= done {
                                assert(block_pairs[k - done] == all[done + (k - done)]);
                                assert(verdicts[k - done] == filter.passes(k - done));
                            }
                        }
                    }
                }
                if block.num_rows() > 0 {
                    proof {
                        lemma_select_bound(block_pairs, verdicts, matched as int);
                    }
                    blocks.push(block);
                    proof {
                        lemma_concat_rows_prefix(before, blocks@, before.len() as int);
                    }
                } else {
                    proof {
                        assert(concat_rows(before, before.len() as int) + block.rows() =~= concat_rows(
                            before,
                            before.len() as int,
                        ));
                    }
                }
            }
            if matched < max_block_size {
                break ;
            }
        }
        (Ok((blocks, flags)), Ghost(mask))
    }
}

} // verus!
