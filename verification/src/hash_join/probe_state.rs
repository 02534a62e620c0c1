//! Scratch state of one probing thread, allocated once and reused for every
//! probe batch.

use vstd::prelude::*;
use crate::hash_join::desc::{JoinType, MARKER_KIND_FALSE};
use crate::hash_join::row_ptr::RowPtr;

verus! {

/// `n` copies of `value`.
pub open spec fn spec_repeat<T>(value: T, n: usize) -> Seq<T> {
    Seq::new(n as nat, |i: int| value)
}

/// The reusable state of the probe phase of one thread.
pub struct ProbeState {
    /// The most rows a block of matches may hold.
    pub max_block_size: usize,
    /// The matched pairs of the block being filled.
    pub mutable_indexes: MutableIndexes,
    /// What is needed to turn probe rows into an output block.
    pub generation_state: ProbeBlockGenerationState,
    /// The hash of the key of every probe row; turned in place into the
    /// cursor at which the chain of the key starts.
    pub hashes: Vec<u64>,
    /// The number of matches of every probe row.
    pub row_state: Option<Vec<usize>>,
    /// For every matched pair of the block, the probe row whose count it raised.
    pub row_state_indexes: Option<Vec<usize>>,
    /// The probe rows without any match.
    pub probe_unmatched_indexes: Option<Vec<u32>>,
    /// The marker of every probe row of a mark join.
    pub markers: Option<Vec<u8>>,
    /// The probe rows worth a full probe: those whose hash hit a bucket in use.
    pub selection: Vec<u32>,
    /// How many leading entries of `selection` are in use.
    pub selection_count: usize,
    /// Running count of the keys probed.
    pub num_keys: u64,
    /// Running count of the keys whose hash hit a bucket in use.
    pub num_keys_hash_matched: u64,
    /// Whether the batch is probed through `selection`.
    pub probe_with_selection: bool,
}

impl ProbeState {
    /// The invariant of the scratch buffers: each has room for a full block.
    pub open spec fn wf(&self) -> bool {
        &&& self.max_block_size > 0
        &&& self.mutable_indexes.probe_indexes@.len() == self.max_block_size
        &&& self.mutable_indexes.build_indexes@.len() == self.max_block_size
    }

    /// Forgets the hashes of the last batch; the buffer is kept.
    pub fn clear(&mut self)
        ensures
            final(self).hashes@ == Seq::<u64>::empty(),
            final(self).max_block_size == old(self).max_block_size,
            final(self).mutable_indexes == old(self).mutable_indexes,
            final(self).generation_state == old(self).generation_state,
            final(self).row_state == old(self).row_state,
            final(self).row_state_indexes == old(self).row_state_indexes,
            final(self).probe_unmatched_indexes == old(self).probe_unmatched_indexes,
            final(self).markers == old(self).markers,
            final(self).selection == old(self).selection,
            final(self).selection_count == old(self).selection_count,
            final(self).num_keys == old(self).num_keys,
            final(self).num_keys_hash_matched == old(self).num_keys_hash_matched,
            final(self).probe_with_selection == old(self).probe_with_selection,
    {
        self.hashes.clear();
    }

    /// The state for a thread that probes blocks of at most `max_block_size`
    /// rows for a join of type `join_type`; `with_conjunct` says whether the
    /// join has a residual predicate, `has_string_column` whether the probe
    /// side has a string column to gather.
    pub fn create(
        max_block_size: usize,
        join_type: &JoinType,
        with_conjunct: bool,
        has_string_column: bool,
    ) -> (state: ProbeState)
        ensures
            state.max_block_size == max_block_size,
            state.mutable_indexes.probe_indexes@ == spec_repeat(0u32, max_block_size),
            state.mutable_indexes.build_indexes@ == spec_repeat(
                RowPtr { chunk_index: 0, row_index: 0 },
                max_block_size,
            ),
            state.generation_state.is_probe_projected == false,
            state.generation_state.true_validity@ == spec_repeat(true, max_block_size),
            match state.generation_state.string_items_buf {
                Some(buf) => has_string_column && buf@ == spec_repeat((0u64, 0usize), max_block_size),
                None => !has_string_column,
            },
            state.hashes@ == spec_repeat(0u64, max_block_size),
            match state.row_state {
                Some(counts) => join_type.spec_tracks_row_state() && counts@ == spec_repeat(
                    0usize,
                    max_block_size,
                ),
                None => !join_type.spec_tracks_row_state(),
            },
            match state.row_state_indexes {
                Some(indexes) => join_type.spec_tracks_row_state() && with_conjunct && indexes@
                    == spec_repeat(0usize, max_block_size),
                None => !(join_type.spec_tracks_row_state() && with_conjunct),
            },
            match state.probe_unmatched_indexes {
                Some(indexes) => join_type.spec_tracks_row_state() && !with_conjunct && indexes@
                    == spec_repeat(0u32, max_block_size),
                None => !(join_type.spec_tracks_row_state() && !with_conjunct),
            },
            match state.markers {
                Some(markers) => *join_type == JoinType::RightMark && markers@ == spec_repeat(
                    MARKER_KIND_FALSE,
                    max_block_size,
                ),
                None => *join_type != JoinType::RightMark,
            },
            state.selection@ == spec_repeat(0u32, max_block_size),
            state.selection_count == 0,
            state.probe_with_selection == false,
            state.num_keys == 1,
            state.num_keys_hash_matched == 1,
    {
        let (row_state, row_state_indexes, probe_unmatched_indexes) = match join_type {
            JoinType::Left | JoinType::LeftSingle | JoinType::Full => {
                if with_conjunct {
                    (Some(vec![0usize; max_block_size]), Some(vec![0usize; max_block_size]), None)
                } else {
                    (Some(vec![0usize; max_block_size]), None, Some(vec![0u32; max_block_size]))
                }
            },
            _ => (None, None, None),
        };
        let markers = if matches!(join_type, JoinType::RightMark) {
            Some(vec![MARKER_KIND_FALSE; max_block_size])
        } else {
            None
        };
        let state = ProbeState {
            max_block_size,
            mutable_indexes: MutableIndexes::new(max_block_size),
            generation_state: ProbeBlockGenerationState::new(max_block_size, has_string_column),
            selection: vec![0u32; max_block_size],
            hashes: vec![0u64; max_block_size],
            selection_count: 0,
            probe_with_selection: false,
            num_keys: 1,
            num_keys_hash_matched: 1,
            row_state,
            row_state_indexes,
            probe_unmatched_indexes,
            markers,
        };
        proof {
            assert(state.hashes@ =~= spec_repeat(0u64, max_block_size));
            assert(state.selection@ =~= spec_repeat(0u32, max_block_size));
            if state.row_state is Some {
                assert(state.row_state->Some_0@ =~= spec_repeat(0usize, max_block_size));
            }
            if state.row_state_indexes is Some {
                assert(state.row_state_indexes->Some_0@ =~= spec_repeat(0usize, max_block_size));
            }
            if state.probe_unmatched_indexes is Some {
                assert(state.probe_unmatched_indexes->Some_0@ =~= spec_repeat(0u32, max_block_size));
            }
            if state.markers is Some {
                assert(state.markers->Some_0@ =~= spec_repeat(MARKER_KIND_FALSE, max_block_size));
            }
        }
        state
    }

    /// Starts the running counts of the early filter afresh.
    pub fn reset(&mut self)
        ensures
            final(self).num_keys == 1,
            final(self).num_keys_hash_matched == 1,
            final(self).max_block_size == old(self).max_block_size,
            final(self).mutable_indexes == old(self).mutable_indexes,
            final(self).generation_state == old(self).generation_state,
            final(self).hashes == old(self).hashes,
            final(self).row_state == old(self).row_state,
            final(self).row_state_indexes == old(self).row_state_indexes,
            final(self).probe_unmatched_indexes == old(self).probe_unmatched_indexes,
            final(self).markers == old(self).markers,
            final(self).selection == old(self).selection,
            final(self).selection_count == old(self).selection_count,
            final(self).probe_with_selection == old(self).probe_with_selection,
    {
        self.num_keys = 1;
        self.num_keys_hash_matched = 1;
    }
}

/// The two index buffers of a block of matches: pair `i` joins probe row
/// `probe_indexes[i]` with build row `build_indexes[i]`.
pub struct MutableIndexes {
    pub probe_indexes: Vec<u32>,
    pub build_indexes: Vec<RowPtr>,
}

impl MutableIndexes {
    /// Buffers for `size` pairs, all zero.
    pub fn new(size: usize) -> (indexes: MutableIndexes)
        ensures
            indexes.probe_indexes@ == spec_repeat(0u32, size),
            indexes.build_indexes@ == spec_repeat(RowPtr { chunk_index: 0, row_index: 0 }, size),
    {
        let indexes = MutableIndexes {
            probe_indexes: vec![0u32; size],
            build_indexes: vec![RowPtr { chunk_index: 0, row_index: 0 }; size],
        };
        proof {
            assert(indexes.probe_indexes@ =~= spec_repeat(0u32, size));
            assert(indexes.build_indexes@ =~= spec_repeat(
                RowPtr { chunk_index: 0, row_index: 0 },
                size,
            ));
        }
        indexes
    }
}

/// `size` empty slots for gathering string values.
fn string_items(size: usize) -> (buf: Vec<(u64, usize)>)
    ensures
        buf@ == spec_repeat((0u64, 0usize), size),
{
    let mut buf: Vec<(u64, usize)> = Vec::with_capacity(size);
    let mut i: usize = 0;
    while i < size
        invariant
            i <= size,
            buf@ == spec_repeat((0u64, 0usize), i),
        decreases size - i,
    {
        buf.push((0u64, 0usize));
        i += 1;
        proof {
            assert(buf@ =~= spec_repeat((0u64, 0usize), i));
        }
    }
    buf
}

/// What the probe side needs to turn matched rows into an output block.
pub struct ProbeBlockGenerationState {
    /// Whether any probe column goes into the output.
    pub is_probe_projected: bool,
    /// A validity mask that lets every row of a block through.
    pub true_validity: Vec<bool>,
    /// Scratch space for gathering string values, one slot per row.
    pub string_items_buf: Option<Vec<(u64, usize)>>,
}

impl ProbeBlockGenerationState {
    /// The state for blocks of `size` rows.
    pub fn new(size: usize, has_string_column: bool) -> (state: ProbeBlockGenerationState)
        ensures
            state.is_probe_projected == false,
            state.true_validity@ == spec_repeat(true, size),
            match state.string_items_buf {
                Some(buf) => has_string_column && buf@ == spec_repeat((0u64, 0usize), size),
                None => !has_string_column,
            },
    {
        let state = ProbeBlockGenerationState {
            is_probe_projected: false,
            true_validity: vec![true; size],
            string_items_buf: if has_string_column {
                Some(string_items(size))
            } else {
                None
            },
        };
        proof {
            assert(state.true_validity@ =~= spec_repeat(true, size));
        }
        state
    }
}

} // verus!
