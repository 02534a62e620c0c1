//! A join from its first build batch to its last output block.
//!
//! The build side is fed batch by batch and then finalized. After that the
//! probe batches are probed, in any number, and at the end the build rows
//! that the join type still owes are scanned out of the outer scan map.

use std::sync::Arc;
use vstd::prelude::*;
use crate::exception::ErrorCode;
use crate::hash_join::build_state::{build_entries, lemma_build_entries, BuildKeys, HashJoinBuildState};
use crate::hash_join::hash_join_probe_state::{
    concat_rows,
    evaluates,
    evaluates_any,
    FilterResult,
    HashJoinProbeState,
    OutputBlock,
};
use crate::hash_join::hash_join_state::{HashJoinDesc, HashJoinState};
use crate::hash_join::hashtable::Entries;
use crate::hash_join::keys::{encode_fixed_keys, Column, KeysState, StringColumn};
use crate::hash_join::outer_scan_map::{in_scan_map, is_marked, same_shape};
use crate::hash_join::probe::{
    build_only_rows,
    spec_conjunct_outcome,
    spec_conjunct_outcome_if,
    spec_final_scan,
    spec_probe_outcome,
};
use crate::hash_join::probe_join::inner_join::blocks_bounded;
use crate::hash_join::probe_state::ProbeState;
use crate::hash_join::row_ptr::RowPtr;

verus! {

/// One join: its build side and the handle of its probe side.
pub struct HashJoin {
    pub build_state: HashJoinBuildState,
    pub probe_state: HashJoinProbeState,
}

impl HashJoin {
    /// The join's invariant: the build side is in order, and both sides
    /// work for the same type of join.
    pub open spec fn wf(&self) -> bool {
        &&& self.build_state.wf()
        &&& self.probe_state.hash_join_state.hash_join_desc.join_type == self.build_state.join_type
    }

    /// The keys of the build side: chunk by chunk, row by row.
    pub open spec fn build_keys(&self) -> BuildKeys {
        self.build_state.keys()
    }

    /// The build rows as the entries of the hash table, in build order.
    pub open spec fn entries(&self) -> Entries {
        build_entries(self.build_keys(), self.build_keys().len() as int)
    }

    /// A join as `desc` describes it, without any build row.
    pub fn create(desc: HashJoinDesc) -> (join: HashJoin)
        ensures
            join.wf(),
            join.probe_state.hash_join_state.hash_join_desc == desc,
            join.build_keys() == Seq::<Seq<Seq<u8>>>::empty(),
            !join.build_state.finalized,
    {
        let build_state = HashJoinBuildState::create(desc.join_type);
        let probe_state = HashJoinProbeState::create(Arc::new(HashJoinState::create(desc)));
        HashJoin { build_state, probe_state }
    }

    /// Takes a build batch, given by its packed keys, as the next chunk of
    /// the build side. A batch that the build side cannot take, or one that
    /// comes after the build is finalized, is refused with `Internal`, and
    /// nothing changes.
    pub fn build_ingest(&mut self, keys_state: KeysState) -> (res: Result<(), ErrorCode>)
        requires
            old(self).wf(),
            keys_state.wf(),
        ensures
            final(self).wf(),
            final(self).probe_state == old(self).probe_state,
            res is Ok <==> old(self).build_state.accepts(keys_state.spec_keys().len()),
            res is Ok ==> final(self).build_keys() == old(self).build_keys().push(keys_state.spec_keys())
                && !final(self).build_state.finalized,
            res is Err ==> *final(self) == *old(self) && res matches Err(ErrorCode::Internal(_)),
    {
        let batch = match keys_state {
            KeysState::U64(values) => encode_fixed_keys(&values),
            KeysState::Column(Column::String(col)) => col,
            KeysState::Column(Column::Variant(col)) => col,
            KeysState::Column(Column::Bitmap(col)) => col,
            KeysState::Column(Column::UInt64(_)) => {
                proof {
                    assert(false);
                }
                StringColumn::new()
            },
        };
        self.build_state.append(batch)
    }

    /// Ends the build: the hash table is loaded and, if the join type asks
    /// for it, the outer scan map allocated, with every bit clear. A build
    /// that is finalized already is left as it is, and the call refused with
    /// `Internal`.
    pub fn build_finalize(&mut self) -> (res: Result<(), ErrorCode>)
        requires
            old(self).wf(),
        ensures
            final(self).wf(),
            final(self).probe_state == old(self).probe_state,
            final(self).build_keys() == old(self).build_keys(),
            final(self).build_state.finalized,
            res is Ok <==> !old(self).build_state.finalized,
            res is Ok ==> forall|ptr: RowPtr| !is_marked(final(self).build_state.outer_scan_map@, ptr),
            res is Err ==> *final(self) == *old(self) && res matches Err(ErrorCode::Internal(_)),
    {
        if self.build_state.finalized {
            return Err(ErrorCode::Internal("the build side is finalized already".to_string()));
        }
        self.build_state.finalize();
        Ok(())
    }

    /// Probes a batch with the packed keys `keys_state` for a join without
    /// residual predicate and returns the output blocks of the batch; the
    /// build rows that matched are marked where the join type asks for it.
    pub fn probe(&mut self, keys_state: KeysState, probe_state: &mut ProbeState) -> (res: Result<
        Vec<OutputBlock>,
        ErrorCode,
    >)
        requires
            old(self).wf(),
            old(self).build_state.finalized,
            keys_state.wf(),
            old(probe_state).wf(),
        ensures
            final(self).wf(),
            final(self).build_state.finalized,
            final(self).probe_state == old(self).probe_state,
            final(self).build_keys() == old(self).build_keys(),
            final(probe_state).wf(),
            final(probe_state).max_block_size == old(probe_state).max_block_size,
            spec_probe_outcome(
                old(self).build_state.join_type,
                keys_state.spec_keys(),
                old(self).entries(),
                old(probe_state).max_block_size,
                old(self).build_state.outer_scan_map@,
                final(self).build_state.outer_scan_map@,
                res,
            ),
    {
        proof {
            self.lemma_map_covers_table();
        }
        let res = self.probe_state.probe(
            keys_state,
            &self.build_state.hash_table,
            probe_state,
            &mut self.build_state.outer_scan_map,
        );
        proof {
            old(self).lemma_same_shape_keeps_wf(self);
        }
        res
    }

    /// Probes a batch with the packed keys `keys_state` for a join with a
    /// residual predicate, which `other_predicate` evaluates on each block
    /// of matched pairs, and returns the output blocks of the batch; the
    /// build rows of the pairs that pass are marked where the join type asks
    /// for it.
    pub fn probe_with_conjunct<F: Fn(&Vec<u32>, &Vec<RowPtr>, usize) -> FilterResult>(
        &mut self,
        keys_state: KeysState,
        probe_state: &mut ProbeState,
        other_predicate: &F,
    ) -> (res: Result<Vec<OutputBlock>, ErrorCode>)
        requires
            old(self).wf(),
            old(self).build_state.finalized,
            keys_state.wf(),
            old(probe_state).wf(),
            evaluates_any(other_predicate),
        ensures
            final(self).wf(),
            final(self).build_state.finalized,
            final(self).probe_state == old(self).probe_state,
            final(self).build_keys() == old(self).build_keys(),
            final(probe_state).wf(),
            final(probe_state).max_block_size == old(probe_state).max_block_size,
            spec_conjunct_outcome(
                old(self).build_state.join_type,
                keys_state.spec_keys(),
                old(self).entries(),
                old(probe_state).max_block_size,
                old(self).build_state.outer_scan_map@,
                final(self).build_state.outer_scan_map@,
                res,
            ),
            forall|pred: spec_fn(int, RowPtr) -> bool| #[trigger]
                evaluates(other_predicate, pred) ==> spec_conjunct_outcome_if(
                    old(self).build_state.join_type,
                    keys_state.spec_keys(),
                    old(self).entries(),
                    pred,
                    old(self).build_state.outer_scan_map@,
                    final(self).build_state.outer_scan_map@,
                    res,
                ),
    {
        proof {
            self.lemma_map_covers_table();
        }
        let res = self.probe_state.probe_with_conjunct(
            keys_state,
            &self.build_state.hash_table,
            probe_state,
            &mut self.build_state.outer_scan_map,
            other_predicate,
        );
        proof {
            old(self).lemma_same_shape_keeps_wf(self);
        }
        res
    }

    /// Probes a batch as the description of the join asks: with the
    /// residual predicate, which `other_predicate` evaluates, if the join
    /// has one, and without it if not; `other_predicate` is then never
    /// called.
    pub fn probe_batch<F: Fn(&Vec<u32>, &Vec<RowPtr>, usize) -> FilterResult>(
        &mut self,
        keys_state: KeysState,
        probe_state: &mut ProbeState,
        other_predicate: &F,
    ) -> (res: Result<Vec<OutputBlock>, ErrorCode>)
        requires
            old(self).wf(),
            old(self).build_state.finalized,
            keys_state.wf(),
            old(probe_state).wf(),
            old(self).probe_state.hash_join_state.hash_join_desc.has_other_predicate ==> evaluates_any(
                other_predicate,
            ),
        ensures
            final(self).wf(),
            final(self).build_state.finalized,
            final(self).probe_state == old(self).probe_state,
            final(self).build_keys() == old(self).build_keys(),
            final(probe_state).wf(),
            final(probe_state).max_block_size == old(probe_state).max_block_size,
            !old(self).probe_state.hash_join_state.hash_join_desc.has_other_predicate ==> spec_probe_outcome(
                old(self).build_state.join_type,
                keys_state.spec_keys(),
                old(self).entries(),
                old(probe_state).max_block_size,
                old(self).build_state.outer_scan_map@,
                final(self).build_state.outer_scan_map@,
                res,
            ),
            old(self).probe_state.hash_join_state.hash_join_desc.has_other_predicate ==> spec_conjunct_outcome(
                old(self).build_state.join_type,
                keys_state.spec_keys(),
                old(self).entries(),
                old(probe_state).max_block_size,
                old(self).build_state.outer_scan_map@,
                final(self).build_state.outer_scan_map@,
                res,
            ),
            old(self).probe_state.hash_join_state.hash_join_desc.has_other_predicate ==> forall|
                pred: spec_fn(int, RowPtr) -> bool,
            | #[trigger]
                evaluates(other_predicate, pred) ==> spec_conjunct_outcome_if(
                    old(self).build_state.join_type,
                    keys_state.spec_keys(),
                    old(self).entries(),
                    pred,
                    old(self).build_state.outer_scan_map@,
                    final(self).build_state.outer_scan_map@,
                    res,
                ),
    {
        if self.probe_state.hash_join_state.hash_join_desc.has_other_predicate {
            self.probe_with_conjunct(keys_state, probe_state, other_predicate)
        } else {
            self.probe(keys_state, probe_state)
        }
    }

    /// The output that is due once every batch has been probed: the build
    /// rows that a right semi join found matched, or those that a right
    /// anti, a right or a full join found unmatched, in build order and in
    /// blocks of at most `max_block_size` rows.
    pub fn finalize_probe_side(&self, max_block_size: usize) -> (blocks: Vec<OutputBlock>)
        requires
            self.wf(),
            self.build_state.finalized,
            max_block_size > 0,
        ensures
            blocks_bounded(blocks@, max_block_size),
            concat_rows(blocks@, blocks@.len() as int) == build_only_rows(
                spec_final_scan(self.build_state.join_type, self.build_state.outer_scan_map@),
            ),
    {
        self.probe_state.final_scan(&self.build_state.outer_scan_map, max_block_size)
    }

    /// A join stays in order when only bits of its scan map change.
    proof fn lemma_same_shape_keeps_wf(&self, after: &HashJoin)
        requires
            self.wf(),
            after.probe_state == self.probe_state,
            after.build_state.join_type == self.build_state.join_type,
            after.build_state.chunks == self.build_state.chunks,
            after.build_state.build_num_rows == self.build_state.build_num_rows,
            after.build_state.hash_table == self.build_state.hash_table,
            after.build_state.finalized == self.build_state.finalized,
            self.build_state.finalized,
            same_shape(self.build_state.outer_scan_map@, after.build_state.outer_scan_map@),
        ensures
            after.wf(),
            after.build_keys() == self.build_keys(),
    {
        let before_map = self.build_state.outer_scan_map@;
        let after_map = after.build_state.outer_scan_map@;
        assert forall|c: int| 0 <= c < after_map.len() implies #[trigger] after_map[c].len() <= u32::MAX by {
            assert(before_map[c].len() == after_map[c].len());
        }
        if self.build_state.join_type.spec_needs_outer_scan_map() {
            let keys = self.build_keys();
            assert forall|c: int| 0 <= c < keys.len() implies (#[trigger] after_map[c]).len()
                == keys[c].len() by {
                assert(before_map[c].len() == after_map[c].len());
            }
        }
    }

    /// Once the build is finalized, the scan map of a join that keeps one
    /// has a bit for every row in the table.
    pub proof fn lemma_map_covers_table(&self)
        requires
            self.wf(),
            self.build_state.finalized,
        ensures
            self.build_state.join_type.spec_needs_outer_scan_map() ==> forall|j: int|
                0 <= j < self.build_state.hash_table@.len() ==> in_scan_map(
                    self.build_state.outer_scan_map@,
                    (#[trigger] self.build_state.hash_table@[j]).1,
                ),
    {
        if self.build_state.join_type.spec_needs_outer_scan_map() {
            let keys = self.build_keys();
            assert forall|j: int| 0 <= j < self.build_state.hash_table@.len() implies in_scan_map(
                self.build_state.outer_scan_map@,
                (#[trigger] self.build_state.hash_table@[j]).1,
            ) by {
                lemma_build_entries(keys, keys.len() as int, j);
            }
        }
    }
}

} // verus!
