//! Probing a batch from start to end: hash the keys, find the start of
//! every chain, decide on early filtering, and run the procedure of the
//! join type.

use vstd::prelude::*;
use crate::exception::ErrorCode;
use crate::hash_join::desc::JoinType;
use crate::hash_join::early_filtering::{lemma_selection_covering, spec_selection};
use crate::hash_join::hash_join_probe_state::{
    concat_rows,
    evaluates,
    evaluates_any,
    matched_rows,
    FilterResult,
    HashJoinProbeState,
    OutputBlock,
    OutputRow,
};
use crate::hash_join::hash_join_state::is_aborted;
use crate::hash_join::hashtable::{Entries, HashJoinHashTable};
use crate::hash_join::join_spec::{build_rows, filter_pairs, join_pairs, lemma_all_rows_covering};
use crate::hash_join::keys::{HashMethodFixedKeys, HashMethodSingleString, KeysState, StringKeyAccessor};
use crate::hash_join::outer_scan_map::{marks_added, outer_scan, same_shape, OuterScanMap, ScanBits};
use crate::hash_join::probe_join::inner_join::blocks_bounded;
use crate::hash_join::probe_join::left_join::{left_rows_if, unmatched_rows};
use crate::hash_join::probe_join::right_semi_anti_join::covers_table;
use crate::hash_join::probe_state::ProbeState;
use crate::hash_join::row_ptr::RowPtr;

verus! {

/// Whether early filtering is preferred: fewer than `percent` in a hundred
/// of the keys probed so far hit a bucket in use.
pub open spec fn spec_prefer_early_filtering(hash_matched: u64, keys: u64, percent: u64) -> bool {
    hash_matched * 100 < keys * percent
}

/// Whether early filtering is preferred: fewer than `percent` in a hundred
/// of the keys probed so far hit a bucket in use.
pub fn prefer_early_filtering(hash_matched: u64, keys: u64, percent: u64) -> (prefer: bool)
    ensures
        prefer == spec_prefer_early_filtering(hash_matched, keys, percent),
{
    let lhs: u128 = hash_matched as u128 * 100;
    assert(keys * percent <= u128::MAX) by (nonlinear_arith)
        requires
            keys <= u64::MAX,
            percent <= u64::MAX,
    ;
    let rhs: u128 = keys as u128 * percent as u128;
    lhs < rhs
}

/// `a + b`, or the largest count if that is beyond it.
pub fn saturating_count(a: u64, b: usize) -> (sum: u64)
    ensures
        sum == if a + b <= u64::MAX {
            (a + b) as u64
        } else {
            u64::MAX
        },
{
    match a.checked_add(b as u64) {
        Some(sum) => sum,
        None => u64::MAX,
    }
}

impl JoinType {
    /// Whether a probe for the join may skip the probe rows without a
    /// match: they leave no trace in its result.
    pub open spec fn spec_check_for_selection(self) -> bool {
        self == JoinType::Inner || self == JoinType::Right || self == JoinType::RightSingle
            || self == JoinType::RightSemi || self == JoinType::RightAnti
    }

    /// Whether a probe for the join may skip the probe rows without a
    /// match: they leave no trace in its result.
    pub fn check_for_selection(&self) -> (may: bool)
        ensures
            may == self.spec_check_for_selection(),
    {
        match self {
            JoinType::Inner
            | JoinType::Right
            | JoinType::RightSingle
            | JoinType::RightSemi
            | JoinType::RightAnti => true,
            _ => false,
        }
    }
}

/// Build rows as joined rows whose probe side is a row of nulls.
pub open spec fn build_only_rows(rows: Seq<RowPtr>) -> Seq<OutputRow> {
    Seq::new(rows.len(), |k: int| (None, Some(rows[k])))
}

impl HashJoinProbeState {
    /// Whether the batch is probed through a selection, given the running
    /// counts before the batch.
    pub open spec fn spec_uses_selection(&self, before: &ProbeState, input_rows: nat) -> bool {
        let num_keys = if before.num_keys + input_rows <= u64::MAX {
            (before.num_keys + input_rows) as u64
        } else {
            u64::MAX
        };
        &&& self.hash_join_state.hash_join_desc.join_type.spec_check_for_selection()
        &&& spec_prefer_early_filtering(
            before.num_keys_hash_matched,
            num_keys,
            self.hash_join_state.hash_join_desc.early_filtering_percent,
        )
        &&& input_rows <= before.selection@.len()
    }

    /// Prepares `probe_state` for a batch with the packed keys `keys_state`
    /// and returns the accessor to the keys: the keys are read by the key
    /// method that packed them, the hash of every row is computed and
    /// turned into the start cursor of its key, and the selection is filled
    /// if early filtering is in order. A batch of more rows than a probe
    /// index can count is refused with `Internal`.
    pub fn prepare_probe(
        &self,
        keys_state: KeysState,
        hash_table: &HashJoinHashTable,
        probe_state: &mut ProbeState,
    ) -> (res: Result<StringKeyAccessor, ErrorCode>)
        requires
            hash_table.wf(),
            keys_state.wf(),
            old(probe_state).wf(),
        ensures
            res is Ok <==> keys_state.spec_keys().len() <= u32::MAX,
            res matches Err(e) ==> e matches ErrorCode::Internal(_),
            final(probe_state).wf(),
            final(probe_state).max_block_size == old(probe_state).max_block_size,
            res matches Ok(keys) ==> {
                &&& keys.wf()
                &&& keys@ == keys_state.spec_keys()
                &&& final(probe_state).ready(keys@, hash_table, keys@.len() as usize)
                &&& final(probe_state).probe_with_selection == self.spec_uses_selection(
                    old(probe_state),
                    keys@.len(),
                )
                &&& final(probe_state).num_keys == if old(probe_state).num_keys + keys@.len() <= u64::MAX {
                    (old(probe_state).num_keys + keys@.len()) as u64
                } else {
                    u64::MAX
                }
            },
    {
        probe_state.clear();
        let packed = match keys_state {
            KeysState::U64(values) => {
                let method = HashMethodFixedKeys {  };
                method.build_keys_accessor_and_hashes(KeysState::U64(values), &mut probe_state.hashes)
            },
            strings => {
                let method = HashMethodSingleString {  };
                method.build_keys_accessor_and_hashes(strings, &mut probe_state.hashes)
            },
        };
        let keys = match packed {
            Ok(keys) => keys,
            Err(e) => {
                return Err(e);
            },
        };
        let input_rows = keys.len();
        if input_rows > u32::MAX as usize {
            return Err(ErrorCode::Internal("the probe batch has too many rows".to_string()));
        }
        probe_state.num_keys = saturating_count(probe_state.num_keys, input_rows);
        let join_type = self.hash_join_state.hash_join_desc.join_type;
        let prefer = prefer_early_filtering(
            probe_state.num_keys_hash_matched,
            probe_state.num_keys,
            self.hash_join_state.hash_join_desc.early_filtering_percent,
        );
        let ghost hashes = probe_state.hashes@;
        if join_type.check_for_selection() && prefer && input_rows <= probe_state.selection.len() {
            let count = hash_table.early_filtering_probe_with_selection(
                &mut probe_state.hashes,
                &mut probe_state.selection,
            );
            probe_state.selection_count = count;
            probe_state.probe_with_selection = true;
            probe_state.num_keys_hash_matched = saturating_count(probe_state.num_keys_hash_matched, count);
            proof {
                lemma_selection_covering(keys@, hash_table, probe_state.hashes@);
                crate::hash_join::early_filtering::lemma_selection(probe_state.hashes@, input_rows as int);
                assert(probe_state.probe_rows(input_rows) =~= spec_selection(
                    probe_state.hashes@,
                    input_rows as int,
                ));
            }
        } else {
            let count = hash_table.probe(&mut probe_state.hashes);
            probe_state.selection_count = count;
            probe_state.probe_with_selection = false;
            if join_type.check_for_selection() {
                probe_state.num_keys_hash_matched = saturating_count(
                    probe_state.num_keys_hash_matched,
                    count,
                );
            }
            proof {
                lemma_all_rows_covering(keys@, hash_table@);
                assert(probe_state.probe_rows(input_rows) =~= Seq::new(keys@.len(), |i: int| i));
            }
        }
        Ok(keys)
    }

    /// Probes a batch with the packed keys `keys_state` for a join without
    /// residual predicate and returns the output blocks of the batch.
    ///
    /// An inner join returns its matched pairs, a left join in addition the
    /// probe rows without a match. A right join returns what the inner join
    /// does, a full join what the left join does, and both mark the matched
    /// build rows in `outer_scan_map`. A right semi or right anti join
    /// returns no block: it only marks the matched build rows. Other join
    /// types are refused with `Unimplemented`.
    ///
    /// A probe is cancelled only where a full block of matches has been
    /// gathered; it then fails with `AbortedQuery` and returns no block.
    ///
    /// For a join type that marks build rows, `outer_scan_map` must have a
    /// bit for every row in the table; for the others it is not touched.
    pub fn probe(
        &self,
        keys_state: KeysState,
        hash_table: &HashJoinHashTable,
        probe_state: &mut ProbeState,
        outer_scan_map: &mut OuterScanMap,
    ) -> (res: Result<Vec<OutputBlock>, ErrorCode>)
        requires
            hash_table.wf(),
            keys_state.wf(),
            old(probe_state).wf(),
            self.hash_join_state.hash_join_desc.join_type.spec_needs_outer_scan_map() ==> covers_table(
                old(outer_scan_map),
                hash_table,
            ),
        ensures
            final(probe_state).wf(),
            final(probe_state).max_block_size == old(probe_state).max_block_size,
            spec_probe_outcome(
                self.hash_join_state.hash_join_desc.join_type,
                keys_state.spec_keys(),
                hash_table@,
                old(probe_state).max_block_size,
                old(outer_scan_map)@,
                final(outer_scan_map)@,
                res,
            ),
    {
        let keys = match self.prepare_probe(keys_state, hash_table, probe_state) {
            Ok(keys) => keys,
            Err(e) => {
                return Err(e);
            },
        };
        let input_rows = keys.len();
        match self.hash_join_state.hash_join_desc.join_type {
            JoinType::Inner => self.inner_join(input_rows, &keys, hash_table, probe_state),
            JoinType::Left => self.left_join(input_rows, &keys, hash_table, probe_state),
            JoinType::Right => self.right_join(input_rows, &keys, hash_table, probe_state, outer_scan_map),
            JoinType::Full => self.full_join(input_rows, &keys, hash_table, probe_state, outer_scan_map),
            JoinType::RightSemi | JoinType::RightAnti => self.right_semi_anti_join(
                input_rows,
                &keys,
                hash_table,
                probe_state,
                outer_scan_map,
            ),
            _ => Err(ErrorCode::Unimplemented("the join type has no probe procedure".to_string())),
        }
    }

    /// Probes a batch with the packed keys `keys_state` for a join with a
    /// residual predicate and returns the output blocks of the batch. The
    /// predicate is evaluated by `other_predicate` on each block of matched
    /// pairs; only the pairs that pass count as matches.
    ///
    /// An inner and a right join return the pairs that pass; a left and a
    /// full join in addition the probe rows none of whose pairs passes. A
    /// right, a full, a right semi and a right anti join mark the build row
    /// of every pair that passes in `outer_scan_map`; the last two return no
    /// block. Other join types are refused with `Unimplemented`.
    ///
    /// The cancel flag is read before each block of matches is evaluated; if
    /// it is found set, the probe fails with `AbortedQuery` and returns no
    /// block. A batch of more rows than a probe index can count, and a
    /// verdict that cannot be read for its block, are `Internal` errors.
    ///
    /// For a join type that marks build rows, `outer_scan_map` must have a
    /// bit for every row in the table; for the others it is not touched.
    pub fn probe_with_conjunct<F: Fn(&Vec<u32>, &Vec<RowPtr>, usize) -> FilterResult>(
        &self,
        keys_state: KeysState,
        hash_table: &HashJoinHashTable,
        probe_state: &mut ProbeState,
        outer_scan_map: &mut OuterScanMap,
        other_predicate: &F,
    ) -> (res: Result<Vec<OutputBlock>, ErrorCode>)
        requires
            hash_table.wf(),
            keys_state.wf(),
            old(probe_state).wf(),
            self.hash_join_state.hash_join_desc.join_type.spec_needs_outer_scan_map() ==> covers_table(
                old(outer_scan_map),
                hash_table,
            ),
            evaluates_any(other_predicate),
        ensures
            final(probe_state).wf(),
            final(probe_state).max_block_size == old(probe_state).max_block_size,
            spec_conjunct_outcome(
                self.hash_join_state.hash_join_desc.join_type,
                keys_state.spec_keys(),
                hash_table@,
                old(probe_state).max_block_size,
                old(outer_scan_map)@,
                final(outer_scan_map)@,
                res,
            ),
            forall|pred: spec_fn(int, RowPtr) -> bool| #[trigger]
                evaluates(other_predicate, pred) ==> spec_conjunct_outcome_if(
                    self.hash_join_state.hash_join_desc.join_type,
                    keys_state.spec_keys(),
                    hash_table@,
                    pred,
                    old(outer_scan_map)@,
                    final(outer_scan_map)@,
                    res,
                ),
    {
        let keys = match self.prepare_probe(keys_state, hash_table, probe_state) {
            Ok(keys) => keys,
            Err(e) => {
                return Err(e);
            },
        };
        let input_rows = keys.len();
        match self.hash_join_state.hash_join_desc.join_type {
            JoinType::Inner => self.inner_join_with_conjunct(
                input_rows,
                &keys,
                hash_table,
                probe_state,
                other_predicate,
            ),
            JoinType::Left => self.left_join_with_conjunct(
                input_rows,
                &keys,
                hash_table,
                probe_state,
                other_predicate,
            ),
            JoinType::Right => self.right_join_with_conjunct(
                input_rows,
                &keys,
                hash_table,
                probe_state,
                outer_scan_map,
                other_predicate,
            ),
            JoinType::Full => self.full_join_with_conjunct(
                input_rows,
                &keys,
                hash_table,
                probe_state,
                outer_scan_map,
                other_predicate,
            ),
            JoinType::RightSemi | JoinType::RightAnti => self.right_semi_anti_join_with_conjunct(
                input_rows,
                &keys,
                hash_table,
                probe_state,
                outer_scan_map,
                other_predicate,
            ),
            _ => Err(ErrorCode::Unimplemented("the join type has no probe procedure".to_string())),
        }
    }

    /// The output that is due once every batch has been probed: for a right
    /// semi join the build rows that matched; for a right anti, a right and
    /// a full join those that did not; in build order and in blocks of at
    /// most `max_block_size` rows, each row with a probe side of nulls.
    /// Other join types have no such output.
    pub fn final_scan(&self, outer_scan_map: &OuterScanMap, max_block_size: usize) -> (blocks: Vec<
        OutputBlock,
    >)
        requires
            outer_scan_map.wf(),
            max_block_size > 0,
        ensures
            blocks_bounded(blocks@, max_block_size),
            concat_rows(blocks@, blocks@.len() as int) == build_only_rows(
                spec_final_scan(self.hash_join_state.hash_join_desc.join_type, outer_scan_map@),
            ),
    {
        let rows = match self.hash_join_state.hash_join_desc.join_type {
            JoinType::RightSemi => outer_scan_map.scan(true),
            JoinType::RightAnti | JoinType::Right | JoinType::Full => outer_scan_map.scan(false),
            _ => Vec::new(),
        };
        build_only_blocks(&rows, max_block_size)
    }
}

/// What the probe of a batch without residual predicate owes: `blocks` are
/// the output of a join of type `join_type` of the probe keys `keys` with
/// the build entries `entries`, and `after` is the scan map `before` with
/// the marks of that join.
pub open spec fn spec_probed(
    join_type: JoinType,
    keys: Seq<Seq<u8>>,
    entries: Entries,
    before: ScanBits,
    after: ScanBits,
    blocks: Seq<OutputBlock>,
) -> bool {
    let pairs = join_pairs(keys, entries);
    let rows = concat_rows(blocks, blocks.len() as int);
    match join_type {
        JoinType::Inner => rows == matched_rows(pairs) && after == before,
        JoinType::Left => rows == matched_rows(pairs) + unmatched_rows(keys, entries, keys.len() as int)
            && after == before,
        JoinType::Right => rows == matched_rows(pairs) && marks_added(before, after, build_rows(pairs)),
        JoinType::Full => rows == matched_rows(pairs) + unmatched_rows(keys, entries, keys.len() as int)
            && marks_added(before, after, build_rows(pairs)),
        JoinType::RightSemi | JoinType::RightAnti => blocks.len() == 0 && marks_added(
            before,
            after,
            build_rows(pairs),
        ),
        _ => false,
    }
}

/// The outcome of the probe of a batch without residual predicate.
///
/// On success the blocks are bounded and hold the output that
/// `spec_probed` describes. A batch of more rows than a probe index can
/// count fails with `Internal`, a join type without a procedure with
/// `Unimplemented`; neither touches the scan map. Any other failure is
/// `AbortedQuery`, and comes only where the batch has at least a full block
/// of matches. The scan map keeps its shape whatever happens.
pub open spec fn spec_probe_outcome(
    join_type: JoinType,
    keys: Seq<Seq<u8>>,
    entries: Entries,
    max_block_size: usize,
    before: ScanBits,
    after: ScanBits,
    res: Result<Vec<OutputBlock>, ErrorCode>,
) -> bool {
    let pairs = join_pairs(keys, entries);
    &&& same_shape(before, after)
    &&& match res {
        Ok(blocks) => {
            &&& keys.len() <= u32::MAX
            &&& blocks_bounded(blocks@, max_block_size)
            &&& spec_probed(join_type, keys, entries, before, after, blocks@)
        },
        Err(ErrorCode::Internal(_)) => keys.len() > u32::MAX && after == before,
        Err(ErrorCode::Unimplemented(_)) => keys.len() <= u32::MAX && !spec_probe_runs(join_type) && after
            == before,
        Err(ErrorCode::AbortedQuery(_)) => is_aborted(res) && keys.len() <= u32::MAX && spec_probe_runs(
            join_type,
        ) && pairs.len() >= max_block_size,
        Err(_) => false,
    }
    &&& keys.len() <= u32::MAX && spec_probe_runs(join_type) && pairs.len() < max_block_size ==> res is Ok
}

/// What the probe of a batch under the residual predicate `pred` owes:
/// `blocks` are the output of a join of type `join_type` of the probe keys
/// `keys` with the build entries `entries`, where only the pairs that pass
/// `pred` count as matches, and `after` is the scan map `before` with the
/// marks of that join.
pub open spec fn spec_probed_if(
    join_type: JoinType,
    keys: Seq<Seq<u8>>,
    entries: Entries,
    pred: spec_fn(int, RowPtr) -> bool,
    before: ScanBits,
    after: ScanBits,
    blocks: Seq<OutputBlock>,
) -> bool {
    let pairs = join_pairs(keys, entries);
    let passed = filter_pairs(pairs, pred);
    let rows = concat_rows(blocks, blocks.len() as int);
    match join_type {
        JoinType::Inner => rows == matched_rows(passed) && after == before,
        JoinType::Left => rows == left_rows_if(pairs, pred, keys.len() as int) && after == before,
        JoinType::Right => rows == matched_rows(passed) && marks_added(before, after, build_rows(passed)),
        JoinType::Full => rows == left_rows_if(pairs, pred, keys.len() as int) && marks_added(
            before,
            after,
            build_rows(passed),
        ),
        JoinType::RightSemi | JoinType::RightAnti => blocks.len() == 0 && marks_added(
            before,
            after,
            build_rows(passed),
        ),
        _ => false,
    }
}

/// The outcome of the probe of a batch with a residual predicate, whatever
/// its evaluator returns.
///
/// On success the blocks are bounded. A join type without a procedure
/// fails with `Unimplemented` and a batch of more rows than a probe index
/// can count with `Internal`; neither touches the scan map. A batch without
/// a match succeeds: neither the cancel flag nor the evaluator is asked.
/// The scan map keeps its shape whatever happens.
pub open spec fn spec_conjunct_outcome(
    join_type: JoinType,
    keys: Seq<Seq<u8>>,
    entries: Entries,
    max_block_size: usize,
    before: ScanBits,
    after: ScanBits,
    res: Result<Vec<OutputBlock>, ErrorCode>,
) -> bool {
    let pairs = join_pairs(keys, entries);
    &&& same_shape(before, after)
    &&& match res {
        Ok(blocks) => keys.len() <= u32::MAX && spec_probe_runs(join_type) && blocks_bounded(
            blocks@,
            max_block_size,
        ),
        Err(ErrorCode::Internal(_)) => (keys.len() > u32::MAX && after == before) || (keys.len() <= u32::MAX
            && spec_probe_runs(join_type) && pairs.len() > 0),
        Err(ErrorCode::Unimplemented(_)) => keys.len() <= u32::MAX && !spec_probe_runs(join_type) && after
            == before,
        Err(ErrorCode::AbortedQuery(_)) => is_aborted(res) && keys.len() <= u32::MAX && spec_probe_runs(
            join_type,
        ) && pairs.len() > 0,
        Err(_) => false,
    }
    &&& keys.len() <= u32::MAX && spec_probe_runs(join_type) && pairs.len() == 0 ==> res is Ok
}

/// The outcome of the probe of a batch whose evaluator computes the
/// residual predicate `pred`: on success the output that `spec_probed_if`
/// describes; an `Internal` failure only for a batch of more rows than a
/// probe index can count.
pub open spec fn spec_conjunct_outcome_if(
    join_type: JoinType,
    keys: Seq<Seq<u8>>,
    entries: Entries,
    pred: spec_fn(int, RowPtr) -> bool,
    before: ScanBits,
    after: ScanBits,
    res: Result<Vec<OutputBlock>, ErrorCode>,
) -> bool {
    match res {
        Ok(blocks) => spec_probed_if(join_type, keys, entries, pred, before, after, blocks@),
        Err(e) => e is Internal ==> keys.len() > u32::MAX,
    }
}

/// Whether `probe` has a procedure for the join type.
pub open spec fn spec_probe_runs(join_type: JoinType) -> bool {
    join_type == JoinType::Inner || join_type == JoinType::Left || join_type == JoinType::Right
        || join_type == JoinType::Full || join_type == JoinType::RightSemi || join_type
        == JoinType::RightAnti
}

/// The build rows that a join emits after its last probe batch: the matched
/// ones for a right semi join, the unmatched ones for a right anti, a right
/// and a full join.
pub open spec fn spec_final_scan(join_type: JoinType, map: Seq<Seq<bool>>) -> Seq<RowPtr> {
    match join_type {
        JoinType::RightSemi => outer_scan(map, true, map.len() as int),
        JoinType::RightAnti | JoinType::Right | JoinType::Full => outer_scan(map, false, map.len() as int),
        _ => Seq::empty(),
    }
}

/// Cuts `rows` into blocks of `max_block_size` rows, the last one possibly
/// shorter, each row with a probe side of nulls.
pub fn build_only_blocks(rows: &Vec<RowPtr>, max_block_size: usize) -> (blocks: Vec<OutputBlock>)
    requires
        max_block_size > 0,
    ensures
        blocks_bounded(blocks@, max_block_size),
        concat_rows(blocks@, blocks@.len() as int) == build_only_rows(rows@),
{
    let mut blocks: Vec<OutputBlock> = Vec::new();
    let mut block = OutputBlock { probe_indexes: Vec::new(), build_indexes: Vec::new() };
    let n = rows.len();
    let mut i: usize = 0;
    proof {
        assert(concat_rows(blocks@, 0) + block.rows() =~= build_only_rows(rows@.take(0)));
    }
    while i < n
        invariant
            max_block_size > 0,
            n == rows@.len(),
            i <= n,
            block.wf(),
            block.rows().len() < max_block_size,
            blocks_bounded(blocks@, max_block_size),
            concat_rows(blocks@, blocks@.len() as int) + block.rows() == build_only_rows(
                rows@.take(i as int),
            ),
        decreases n - i,
    {
        let ghost rows_before = block.rows();
        let ghost done = concat_rows(blocks@, blocks@.len() as int);
        block.probe_indexes.push(None);
        block.build_indexes.push(Some(rows[i]));
        proof {
            assert(block.rows() =~= rows_before.push((None, Some(rows@[i as int]))));
            assert(done + rows_before.push((None, Some(rows@[i as int]))) =~= (done + rows_before).push(
                (None, Some(rows@[i as int])),
            ));
            assert(build_only_rows(rows@.take(i as int)).push((None, Some(rows@[i as int])))
                =~= build_only_rows(rows@.take(i + 1)));
        }
        if block.num_rows() == max_block_size {
            let ghost before = blocks@;
            blocks.push(block);
            block = OutputBlock { probe_indexes: Vec::new(), build_indexes: Vec::new() };
            proof {
                crate::hash_join::hash_join_probe_state::lemma_concat_rows_prefix(
                    before,
                    blocks@,
                    before.len() as int,
                );
                assert(concat_rows(blocks@, blocks@.len() as int) + block.rows() =~= build_only_rows(
                    rows@.take(i + 1),
                ));
            }
        }
        i += 1;
    }
    proof {
        assert(rows@.take(n as int) =~= rows@);
    }
    if block.num_rows() > 0 {
        let ghost before = blocks@;
        blocks.push(block);
        proof {
            crate::hash_join::hash_join_probe_state::lemma_concat_rows_prefix(
                before,
                blocks@,
                before.len() as int,
            );
        }
    } else {
        proof {
            assert(concat_rows(blocks@, blocks@.len() as int) + block.rows() =~= concat_rows(
                blocks@,
                blocks@.len() as int,
            ));
        }
    }
    blocks
}

} // verus!
