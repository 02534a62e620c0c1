//! Chain expansion in bounded blocks.
//!
//! A probe batch may match far more build rows than one block holds. The
//! cursor remembers where the expansion stands, between probe rows or in the
//! middle of a chain, so that each call fills one block and the next call
//! goes on exactly where the last one stopped.

use vstd::prelude::*;
use crate::hash_join::hashtable::{spec_hash, spec_write_page, HashJoinHashTable};
use crate::hash_join::join_spec::{
    covering,
    index_pairs,
    lemma_split_rest,
    lemma_take_skip_more,
    row_pairs,
    rows_pairs_from,
    Pairs,
};
use crate::hash_join::keys::StringKeyAccessor;
use crate::hash_join::probe_state::ProbeState;
use crate::hash_join::row_ptr::RowPtr;

verus! {

impl ProbeState {
    /// The probe rows in the order they are expanded: the selection if the
    /// batch is probed through it, else all `input_rows` rows.
    pub open spec fn probe_rows(&self, input_rows: usize) -> Seq<int> {
        if self.probe_with_selection {
            Seq::new(self.selection_count as nat, |k: int| self.selection@[k] as int)
        } else {
            Seq::new(input_rows as nat, |k: int| k)
        }
    }

    /// Whether the state is set up to expand the chains of the batch with
    /// keys `keys` against `table`: the hash of every row has been turned
    /// into the start cursor of its key, and the selection, if used, loses
    /// no pair.
    pub open spec fn ready(&self, keys: Seq<Seq<u8>>, table: &HashJoinHashTable, input_rows: usize) -> bool {
        &&& self.wf()
        &&& keys.len() == input_rows
        &&& input_rows <= u32::MAX
        &&& self.hashes@.len() >= input_rows
        &&& forall|i: int|
            0 <= i < input_rows ==> #[trigger] self.hashes@[i] == table.spec_probe(spec_hash(keys[i]))
        &&& self.probe_with_selection ==> self.selection_count <= self.selection@.len()
        &&& covering(keys, table@, self.probe_rows(input_rows))
    }

    /// Whether `other` differs from `self` in nothing but the content of the
    /// two index buffers.
    pub open spec fn same_inputs(&self, other: &ProbeState) -> bool {
        &&& self.max_block_size == other.max_block_size
        &&& self.generation_state == other.generation_state
        &&& self.hashes == other.hashes
        &&& self.row_state == other.row_state
        &&& self.row_state_indexes == other.row_state_indexes
        &&& self.probe_unmatched_indexes == other.probe_unmatched_indexes
        &&& self.markers == other.markers
        &&& self.selection == other.selection
        &&& self.selection_count == other.selection_count
        &&& self.num_keys == other.num_keys
        &&& self.num_keys_hash_matched == other.num_keys_hash_matched
        &&& self.probe_with_selection == other.probe_with_selection
        &&& self.mutable_indexes.probe_indexes@.len() == other.mutable_indexes.probe_indexes@.len()
        &&& self.mutable_indexes.build_indexes@.len() == other.mutable_indexes.build_indexes@.len()
    }

    /// The first `matched` pairs of the block in the index buffers.
    pub open spec fn block_pairs(&self, matched: int) -> Pairs {
        index_pairs(self.mutable_indexes.probe_indexes@, self.mutable_indexes.build_indexes@, matched)
    }
}

/// Where the chain expansion of a probe batch stands.
pub struct ProbeCursor {
    /// The position, in the order of expansion, of the probe row in work.
    pub row: usize,
    /// Whether the chain of that row has been entered.
    pub started: bool,
    /// If so, the chain cursor to go on from.
    pub ptr: u64,
}

impl ProbeCursor {
    /// Whether the cursor makes sense for the batch: it stands on a row of
    /// `rows` or behind the last, and inside a chain only with a cursor of
    /// that row's key.
    pub open spec fn wf(&self, keys: Seq<Seq<u8>>, table: &HashJoinHashTable, rows: Seq<int>) -> bool {
        &&& self.row <= rows.len()
        &&& self.started ==> self.row < rows.len() && table.valid_cursor(
            keys[rows[self.row as int]],
            self.ptr,
        )
    }

    /// The pairs that are still to come from the cursor on.
    pub open spec fn rest(&self, keys: Seq<Seq<u8>>, table: &HashJoinHashTable, rows: Seq<int>) -> Pairs {
        if self.row >= rows.len() {
            Seq::empty()
        } else if self.started {
            row_pairs(
                rows[self.row as int],
                table.remaining(keys[rows[self.row as int]], self.ptr),
            ) + rows_pairs_from(keys, table@, rows, self.row + 1)
        } else {
            rows_pairs_from(keys, table@, rows, self.row as int)
        }
    }

    /// The cursor before the first pair of a batch.
    pub fn new() -> (cursor: ProbeCursor)
        ensures
            cursor.row == 0,
            !cursor.started,
            cursor.ptr == 0,
    {
        ProbeCursor { row: 0, started: false, ptr: 0 }
    }

    /// Fills the index buffers of `probe_state` with the next block of
    /// matched pairs and returns their number: a full block while that many
    /// pairs are left, then the rest, then 0.
    pub fn next_block(
        &mut self,
        keys: &StringKeyAccessor,
        hash_table: &HashJoinHashTable,
        probe_state: &mut ProbeState,
        input_rows: usize,
    ) -> (matched: usize)
        requires
            hash_table.wf(),
            keys.wf(),
            old(probe_state).ready(keys@, hash_table, input_rows),
            old(self).wf(keys@, hash_table, old(probe_state).probe_rows(input_rows)),
        ensures
            old(probe_state).same_inputs(final(probe_state)),
            final(probe_state).ready(keys@, hash_table, input_rows),
            final(self).wf(keys@, hash_table, old(probe_state).probe_rows(input_rows)),
            matched == spec_block_len(
                old(self).rest(keys@, hash_table, old(probe_state).probe_rows(input_rows)).len(),
                old(probe_state).max_block_size,
            ),
            final(probe_state).block_pairs(matched as int) == old(self).rest(
                keys@,
                hash_table,
                old(probe_state).probe_rows(input_rows),
            ).take(matched as int),
            final(self).rest(keys@, hash_table, old(probe_state).probe_rows(input_rows)) == old(self).rest(
                keys@,
                hash_table,
                old(probe_state).probe_rows(input_rows),
            ).skip(matched as int),
    {
        let ghost rows = probe_state.probe_rows(input_rows);
        let ghost rest0 = self.rest(keys@, hash_table, rows);
        let max = probe_state.max_block_size;
        let row_count = if probe_state.probe_with_selection {
            probe_state.selection_count
        } else {
            input_rows
        };
        let mut matched: usize = 0;
        proof {
            assert(probe_state.block_pairs(0) =~= rest0.take(0));
            assert(rest0.skip(0) =~= rest0);
        }
        while matched < max && self.row < row_count
            invariant
                hash_table.wf(),
                keys.wf(),
                old(probe_state).same_inputs(probe_state),
                probe_state.ready(keys@, hash_table, input_rows),
                rows == probe_state.probe_rows(input_rows),
                row_count == rows.len(),
                max == probe_state.max_block_size,
                self.wf(keys@, hash_table, rows),
                matched <= max,
                matched <= rest0.len(),
                probe_state.block_pairs(matched as int) == rest0.take(matched as int),
                self.rest(keys@, hash_table, rows) == rest0.skip(matched as int),
            decreases row_count - self.row, max - matched,
        {
            let k = self.row;
            let idx: usize = if probe_state.probe_with_selection {
                probe_state.selection[k] as usize
            } else {
                k
            };
            assert(idx == rows[k as int]);
            assert(0 <= rows[k as int] < keys@.len());
            let ptr = if self.started {
                self.ptr
            } else {
                probe_state.hashes[idx]
            };
            let key = keys.key_unchecked(idx);
            let ghost rem = hash_table.remaining(key@, ptr);
            let ghost tail = rows_pairs_from(keys@, hash_table@, rows, k + 1);
            let ghost pairs_before = probe_state.block_pairs(matched as int);
            let ghost build_before = probe_state.mutable_indexes.build_indexes@;
            let ghost probe_before = probe_state.mutable_indexes.probe_indexes@;
            proof {
                hash_table.lemma_probe_start(key@);
                assert(self.rest(keys@, hash_table, rows) == row_pairs(idx as int, rem) + tail);
            }
            let (count, resume) = hash_table.next_probe(
                key,
                ptr,
                &mut probe_state.mutable_indexes.build_indexes,
                matched,
                max,
            );
            let mut j: usize = 0;
            while j < count
                invariant
                    j <= count,
                    matched + count <= max,
                    max == probe_state.mutable_indexes.probe_indexes@.len(),
                    idx <= u32::MAX,
                    old(probe_state).same_inputs(probe_state),
                    probe_state.ready(keys@, hash_table, input_rows),
                    rows == probe_state.probe_rows(input_rows),
                    probe_state.mutable_indexes.build_indexes@ == spec_write_page(
                        build_before,
                        matched as int,
                        rem.take(count as int),
                    ),
                    forall|i: int|
                        0 <= i < matched ==> probe_state.mutable_indexes.probe_indexes@[i]
                            == probe_before[i],
                    forall|i: int|
                        matched <= i < matched + j ==> probe_state.mutable_indexes.probe_indexes@[i] == idx,
                decreases count - j,
            {
                probe_state.mutable_indexes.probe_indexes[matched + j] = idx as u32;
                j += 1;
            }
            proof {
                lemma_split_rest(idx as int, rem, tail, count as int);
                lemma_take_skip_more(rest0, matched as int, count as int);
                assert(probe_state.block_pairs(matched + count) =~= pairs_before + row_pairs(
                    idx as int,
                    rem.take(count as int),
                ));
            }
            matched += count;
            if matched == max {
                self.started = true;
                self.ptr = resume;
            } else {
                proof {
                    assert(rem.skip(count as int) =~= Seq::<RowPtr>::empty());
                    assert(row_pairs(idx as int, rem.skip(count as int)) + tail =~= tail);
                }
                self.row = k + 1;
                self.started = false;
                self.ptr = 0;
            }
        }
        proof {
            if matched < max {
                assert(self.rest(keys@, hash_table, rows) =~= Seq::<(int, RowPtr)>::empty());
            }
        }
        matched
    }
}

/// The number of pairs in the next block: all that are left, but no more
/// than a block holds.
pub open spec fn spec_block_len(left: nat, max_block_size: usize) -> int {
    if left <= max_block_size {
        left as int
    } else {
        max_block_size as int
    }
}

} // verus!
