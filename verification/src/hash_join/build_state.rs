//! The build side of a join.
//!
//! Build batches are appended as chunks. Finalizing loads every row of every
//! chunk into the hash table, under its key and the pointer to its place,
//! and, for the joins that need it, allocates the outer scan map. After that
//! the table is only read.

use vstd::prelude::*;
use crate::exception::ErrorCode;
use crate::hash_join::desc::JoinType;
use crate::hash_join::hashtable::{spec_batch_entries, Entries, HashJoinHashTable};
use crate::hash_join::keys::StringColumn;
use crate::hash_join::outer_scan_map::{in_scan_map, OuterScanMap, ScanBits};
use crate::hash_join::row_ptr::RowPtr;

verus! {

/// The keys of the build side: chunk by chunk, row by row.
pub type BuildKeys = Seq<Seq<Seq<u8>>>;

/// The first `rows` rows of chunk `chunk`, each as the table entry it
/// becomes: its key with the pointer to its place.
pub open spec fn chunk_entries(keys: Seq<Seq<u8>>, chunk: u32, rows: int) -> Entries {
    Seq::new(rows as nat, |r: int| (keys[r], RowPtr { chunk_index: chunk, row_index: r as u32 }))
}

/// The rows of the first `chunks` chunks as table entries, in build order.
pub open spec fn build_entries(keys: BuildKeys, chunks: int) -> Entries
    decreases chunks,
{
    if chunks <= 0 {
        Seq::empty()
    } else {
        build_entries(keys, chunks - 1) + chunk_entries(
            keys[chunks - 1],
            (chunks - 1) as u32,
            keys[chunks - 1].len() as int,
        )
    }
}

/// The scan map of a build side on which nothing has matched yet.
pub open spec fn fresh_scan_bits(keys: BuildKeys) -> ScanBits {
    Seq::new(keys.len(), |c: int| Seq::new(keys[c].len(), |r: int| false))
}

/// Whether every row of the build side can be addressed by a `RowPtr`.
pub open spec fn keys_addressable(keys: BuildKeys) -> bool {
    &&& keys.len() <= u32::MAX
    &&& forall|c: int| 0 <= c < keys.len() ==> (#[trigger] keys[c]).len() <= u32::MAX
}

/// Every entry of the build side points into the chunk it came from.
pub proof fn lemma_build_entries(keys: BuildKeys, chunks: int, j: int)
    requires
        keys_addressable(keys),
        0 <= chunks <= keys.len(),
        0 <= j < build_entries(keys, chunks).len(),
    ensures
        build_entries(keys, chunks)[j].1.chunk_index < chunks,
        build_entries(keys, chunks)[j].1.row_index < keys[build_entries(
            keys,
            chunks,
        )[j].1.chunk_index as int].len(),
        build_entries(keys, chunks)[j].0 == keys[build_entries(keys, chunks)[j].1.chunk_index as int][build_entries(
            keys,
            chunks,
        )[j].1.row_index as int],
    decreases chunks,
{
    if chunks > 0 {
        let prev = build_entries(keys, chunks - 1);
        if j < prev.len() {
            lemma_build_entries(keys, chunks - 1, j);
        } else {
            assert(keys[chunks - 1].len() <= u32::MAX);
        }
    }
}

/// The build side of one join.
pub struct HashJoinBuildState {
    /// The kind of join being built for.
    pub join_type: JoinType,
    /// The key column of every build batch, in the order of arrival.
    pub chunks: Vec<StringColumn>,
    /// The number of build rows over all chunks.
    pub build_num_rows: usize,
    /// The table over the build rows; empty until the build is finalized.
    pub hash_table: HashJoinHashTable,
    /// The matched bit of every build row, if the join asks for it.
    pub outer_scan_map: OuterScanMap,
    /// Whether the build is finalized.
    pub finalized: bool,
}

impl HashJoinBuildState {
    /// The keys of the build side.
    pub open spec fn keys(&self) -> BuildKeys {
        Seq::new(self.chunks@.len(), |c: int| self.chunks@[c]@)
    }

    /// The rows over the first `chunks` chunks.
    pub open spec fn rows_in(keys: BuildKeys, chunks: int) -> int
        decreases chunks,
    {
        if chunks <= 0 {
            0
        } else {
            Self::rows_in(keys, chunks - 1) + keys[chunks - 1].len()
        }
    }

    /// The invariant of the build side.
    pub open spec fn wf(&self) -> bool {
        &&& keys_addressable(self.keys())
        &&& forall|c: int| 0 <= c < self.chunks@.len() ==> (#[trigger] self.chunks@[c]).wf()
        &&& self.build_num_rows == Self::rows_in(self.keys(), self.chunks@.len() as int)
        &&& self.build_num_rows + 1 < u64::MAX
        &&& self.hash_table.wf()
        &&& self.outer_scan_map.wf()
        &&& if self.finalized {
            &&& self.hash_table@ == build_entries(self.keys(), self.chunks@.len() as int)
            &&& covers_build(self.outer_scan_map@, self.keys(), self.join_type)
        } else {
            &&& self.hash_table@ == Seq::<(Seq<u8>, RowPtr)>::empty()
            &&& self.outer_scan_map@ == Seq::<Seq<bool>>::empty()
        }
    }

    /// The build side of a join of type `join_type`, without any row.
    pub fn create(join_type: JoinType) -> (state: HashJoinBuildState)
        ensures
            state.wf(),
            state.join_type == join_type,
            state.keys() == Seq::<Seq<Seq<u8>>>::empty(),
            !state.finalized,
    {
        let state = HashJoinBuildState {
            join_type,
            chunks: Vec::new(),
            build_num_rows: 0,
            hash_table: HashJoinHashTable::with_build_row_num(0),
            outer_scan_map: OuterScanMap::new(),
            finalized: false,
        };
        proof {
            assert(state.keys() =~= Seq::<Seq<Seq<u8>>>::empty());
        }
        state
    }

    /// Whether a batch of `rows` rows can still be appended: the build is
    /// not finalized, and the rows of the batch, the new chunk and the new
    /// total all stay within what a `RowPtr` and the table can address.
    pub open spec fn accepts(&self, rows: nat) -> bool {
        &&& !self.finalized
        &&& rows <= u32::MAX
        &&& self.chunks@.len() < u32::MAX
        &&& self.build_num_rows + rows + 1 < u64::MAX
        &&& self.build_num_rows + rows <= usize::MAX
    }

    /// Appends a build batch, given by its key column, as the next chunk.
    /// A batch that the build side cannot take is refused with `Internal`,
    /// and nothing changes.
    pub fn append(&mut self, keys: StringColumn) -> (res: Result<(), ErrorCode>)
        requires
            old(self).wf(),
            keys.wf(),
        ensures
            final(self).wf(),
            res is Ok <==> old(self).accepts(keys@.len()),
            res is Ok ==> final(self).keys() == old(self).keys().push(keys@) && !final(self).finalized
                && final(self).join_type == old(self).join_type,
            res is Err ==> *final(self) == *old(self) && res matches Err(ErrorCode::Internal(_)),
    {
        let rows = keys.len();
        if self.finalized || rows > u32::MAX as usize || self.chunks.len() >= u32::MAX as usize {
            return Err(ErrorCode::Internal("the build side cannot take the batch".to_string()));
        }
        let total = match self.build_num_rows.checked_add(rows) {
            Some(total) => total,
            None => {
                return Err(ErrorCode::Internal("the build side cannot take the batch".to_string()));
            },
        };
        if total as u64 >= u64::MAX - 1 {
            return Err(ErrorCode::Internal("the build side cannot take the batch".to_string()));
        }
        self.chunks.push(keys);
        self.build_num_rows = total;
        proof {
            assert(self.keys() =~= old(self).keys().push(keys@));
            Self::lemma_rows_in_prefix(old(self).keys(), self.keys(), old(self).chunks@.len() as int);
        }
        Ok(())
    }

    proof fn lemma_rows_in_prefix(a: BuildKeys, b: BuildKeys, chunks: int)
        requires
            0 <= chunks <= a.len(),
            chunks <= b.len(),
            forall|c: int| 0 <= c < chunks ==> a[c] == b[c],
        ensures
            Self::rows_in(a, chunks) == Self::rows_in(b, chunks),
        decreases chunks,
    {
        if chunks > 0 {
            Self::lemma_rows_in_prefix(a, b, chunks - 1);
        }
    }

    proof fn lemma_rows_in_monotone(keys: BuildKeys, a: int, b: int)
        requires
            0 <= a <= b <= keys.len(),
        ensures
            Self::rows_in(keys, a) <= Self::rows_in(keys, b),
        decreases b - a,
    {
        if a < b {
            Self::lemma_rows_in_monotone(keys, a, b - 1);
        }
    }

    proof fn lemma_entries_len(keys: BuildKeys, chunks: int)
        requires
            0 <= chunks <= keys.len(),
        ensures
            build_entries(keys, chunks).len() == Self::rows_in(keys, chunks),
        decreases chunks,
    {
        if chunks > 0 {
            Self::lemma_entries_len(keys, chunks - 1);
        }
    }

    /// Ends the build: loads every build row into the hash table and, if the
    /// join has to remember which build rows matched, allocates the outer
    /// scan map with every bit clear.
    pub fn finalize(&mut self)
        requires
            old(self).wf(),
            !old(self).finalized,
        ensures
            final(self).wf(),
            final(self).finalized,
            final(self).keys() == old(self).keys(),
            final(self).join_type == old(self).join_type,
            final(self).hash_table@ == build_entries(old(self).keys(), old(self).keys().len() as int),
            final(self).outer_scan_map@ == if old(self).join_type.spec_needs_outer_scan_map() {
                fresh_scan_bits(old(self).keys())
            } else {
                Seq::<Seq<bool>>::empty()
            },
    {
        let ghost keys = self.keys();
        let n = self.chunks.len();
        let needs_map = self.join_type.needs_outer_scan_map();
        let mut table = HashJoinHashTable::with_build_row_num(self.build_num_rows);
        let mut map = OuterScanMap::new();
        let mut c: usize = 0;
        while c < n
            invariant
                self.wf(),
                *self == *old(self),
                keys == self.keys(),
                n == self.chunks@.len(),
                c <= n,
                table.wf(),
                table@ == build_entries(keys, c as int),
                map.wf(),
                map@ == if needs_map {
                    fresh_scan_bits(keys).take(c as int)
                } else {
                    Seq::<Seq<bool>>::empty()
                },
            decreases n - c,
        {
            let col = &self.chunks[c];
            assert(self.chunks@[c as int].wf());
            assert(keys[c as int] == col@);
            let rows = col.len();
            proof {
                assert(keys[c as int].len() <= u32::MAX);
                Self::lemma_entries_len(keys, c as int);
                Self::lemma_rows_in_monotone(keys, c + 1, n as int);
            }
            let row_ptrs = chunk_row_ptrs(c as u32, rows);
            table.insert_batch(col, &row_ptrs);
            proof {
                assert(spec_batch_entries(col@, row_ptrs@) =~= chunk_entries(col@, c as u32, rows as int));
            }
            if needs_map {
                map.push_chunk(rows);
                proof {
                    assert(map@ =~= fresh_scan_bits(keys).take(c + 1));
                }
            }
            c += 1;
        }
        proof {
            assert(fresh_scan_bits(keys).take(n as int) =~= fresh_scan_bits(keys));
            assert forall|j: int| 0 <= j < table@.len() && needs_map implies in_scan_map(
                map@,
                (#[trigger] table@[j]).1,
            ) by {
                lemma_build_entries(keys, n as int, j);
            }
        }
        self.hash_table = table;
        self.outer_scan_map = map;
        self.finalized = true;
    }

    /// Materializes the keys of the build rows at `row_ptrs`, in the order
    /// given.
    pub fn gather(&self, row_ptrs: &Vec<RowPtr>) -> (gathered: StringColumn)
        requires
            self.wf(),
            forall|i: int|
                0 <= i < row_ptrs@.len() ==> (#[trigger] row_ptrs@[i]).chunk_index < self.keys().len()
                    && row_ptrs@[i].row_index < self.keys()[row_ptrs@[i].chunk_index as int].len(),
        ensures
            gathered.wf(),
            gathered@ == Seq::new(
                row_ptrs@.len(),
                |i: int| self.keys()[row_ptrs@[i].chunk_index as int][row_ptrs@[i].row_index as int],
            ),
    {
        let mut gathered = StringColumn::new();
        let n = row_ptrs.len();
        let mut i: usize = 0;
        while i < n
            invariant
                self.wf(),
                n == row_ptrs@.len(),
                i <= n,
                forall|k: int|
                    0 <= k < row_ptrs@.len() ==> (#[trigger] row_ptrs@[k]).chunk_index < self.keys().len()
                        && row_ptrs@[k].row_index < self.keys()[row_ptrs@[k].chunk_index as int].len(),
                gathered.wf(),
                gathered@ == Seq::new(
                    i as nat,
                    |k: int| self.keys()[row_ptrs@[k].chunk_index as int][row_ptrs@[k].row_index as int],
                ),
            decreases n - i,
        {
            let ptr = row_ptrs[i];
            let col = &self.chunks[ptr.chunk_index as usize];
            assert(self.chunks@[ptr.chunk_index as int].wf());
            assert(self.keys()[ptr.chunk_index as int] == col@);
            gathered.push(col.index(ptr.row_index as usize));
            i += 1;
            proof {
                assert(gathered@ =~= Seq::new(
                    i as nat,
                    |k: int| self.keys()[row_ptrs@[k].chunk_index as int][row_ptrs@[k].row_index as int],
                ));
            }
        }
        gathered
    }
}

/// The pointers to the first `rows` rows of chunk `chunk`, in row order.
pub fn chunk_row_ptrs(chunk: u32, rows: usize) -> (row_ptrs: Vec<RowPtr>)
    requires
        rows <= u32::MAX,
    ensures
        row_ptrs@ == Seq::new(rows as nat, |r: int| RowPtr { chunk_index: chunk, row_index: r as u32 }),
{
    let mut row_ptrs: Vec<RowPtr> = Vec::new();
    let mut r: usize = 0;
    while r < rows
        invariant
            rows <= u32::MAX,
            r <= rows,
            row_ptrs@ == Seq::new(r as nat, |k: int| RowPtr { chunk_index: chunk, row_index: k as u32 }),
        decreases rows - r,
    {
        row_ptrs.push(RowPtr { chunk_index: chunk, row_index: r as u32 });
        r += 1;
        proof {
            assert(row_ptrs@ =~= Seq::new(
                r as nat,
                |k: int| RowPtr { chunk_index: chunk, row_index: k as u32 },
            ));
        }
    }
    row_ptrs
}

/// Whether `map` serves the build side `keys` for a join of type
/// `join_type`: if the join keeps matched bits, the map has one for every
/// build row; if not, a map is not asked for.
pub open spec fn covers_build(map: ScanBits, keys: BuildKeys, join_type: JoinType) -> bool {
    join_type.spec_needs_outer_scan_map() ==> {
        &&& map.len() == keys.len()
        &&& forall|c: int| 0 <= c < keys.len() ==> (#[trigger] map[c]).len() == keys[c].len()
    }
}

} // verus!
