//! Key encoding.
//!
//! The join key of a row is a byte string. For a key column of strings it
//! is the value stored for the row; for a key column of 64-bit numbers it
//! is the eight bytes of the number. Equal values give equal bytes and
//! different values different bytes, so equal keys hash alike and land in
//! the same chain on both sides of the join, and no others compare equal.

use vstd::bytes::{
    lemma_auto_spec_u64_to_from_le_bytes,
    spec_u64_from_le_bytes,
    spec_u64_to_le_bytes,
    u64_to_le_bytes,
};
use vstd::prelude::*;
use vstd::slice::slice_subrange;
use crate::exception::ErrorCode;
use crate::hash_join::hashtable::{hash_join_fast_string_hash, spec_hash};

verus! {

/// Whether `offsets` cuts `data` into consecutive rows: it starts a row at
/// each of its values but the last, never runs backwards and stays inside
/// `data`.
pub open spec fn offsets_wf(data: Seq<u8>, offsets: Seq<u64>) -> bool {
    &&& offsets.len() >= 1
    &&& forall|i: int, j: int| 0 <= i <= j < offsets.len() ==> offsets[i] <= offsets[j]
    &&& offsets[offsets.len() - 1] <= data.len()
}

/// The rows that `offsets` cuts out of `data`.
pub open spec fn offsets_rows(data: Seq<u8>, offsets: Seq<u64>) -> Seq<Seq<u8>> {
    Seq::new(
        (offsets.len() - 1) as nat,
        |i: int| data.subrange(offsets[i] as int, offsets[i + 1] as int),
    )
}

/// The hashes of the rows of a key column, row by row.
pub open spec fn spec_hashes(rows: Seq<Seq<u8>>) -> Seq<u64> {
    Seq::new(rows.len(), |i: int| spec_hash(rows[i]))
}

/// A column of byte strings: all values back to back in `data`, row `i`
/// running from `offsets[i]` to `offsets[i + 1]`.
pub struct StringColumn {
    data: Vec<u8>,
    offsets: Vec<u64>,
}

impl StringColumn {
    /// The values of the column, row by row.
    pub closed spec fn view(&self) -> Seq<Seq<u8>> {
        offsets_rows(self.data@, self.offsets@)
    }

    /// The column's invariant: the offsets cut the data into rows, and the
    /// last row ends where the data ends.
    pub closed spec fn wf(&self) -> bool {
        &&& offsets_wf(self.data@, self.offsets@)
        &&& self.offsets@[self.offsets@.len() - 1] == self.data@.len()
    }

    /// A column without rows.
    pub fn new() -> (col: StringColumn)
        ensures
            col.wf(),
            col@ == Seq::<Seq<u8>>::empty(),
    {
        let col = StringColumn { data: Vec::new(), offsets: vec![0u64] };
        proof {
            assert(col@ =~= Seq::<Seq<u8>>::empty());
        }
        col
    }

    /// The number of rows.
    pub fn len(&self) -> (n: usize)
        requires
            self.wf(),
        ensures
            n == self@.len(),
    {
        self.offsets.len() - 1
    }

    /// Appends `value` as a new last row.
    pub fn push(&mut self, value: &[u8])
        requires
            old(self).wf(),
        ensures
            final(self).wf(),
            final(self)@ == old(self)@.push(value@),
    {
        let mut i: usize = 0;
        let ghost data0 = self.data@;
        while i < value.len()
            invariant
                i <= value@.len(),
                self.offsets@ == old(self).offsets@,
                self.data@ == data0 + value@.take(i as int),
            decreases value@.len() - i,
        {
            self.data.push(value[i]);
            i += 1;
            proof {
                assert(self.data@ =~= data0 + value@.take(i as int));
            }
        }
        proof {
            assert(value@.take(i as int) =~= value@);
        }
        let end = self.data.len() as u64;
        self.offsets.push(end);
        proof {
            let n = old(self).offsets@.len() - 1;
            assert(self.offsets@[n] == old(self).offsets@[n]);
            assert forall|k: int| 0 <= k < n implies #[trigger] self@[k] == old(self)@[k] by {
                assert(old(self).offsets@[k + 1] <= old(self).offsets@[n]);
                assert(self.data@.subrange(self.offsets@[k] as int, self.offsets@[k + 1] as int)
                    =~= data0.subrange(self.offsets@[k] as int, self.offsets@[k + 1] as int));
            }
            assert(self@[n] =~= value@);
            assert(self@ =~= old(self)@.push(value@));
        }
    }

    /// The value of row `index`.
    pub fn index(&self, index: usize) -> (value: &[u8])
        requires
            self.wf(),
            index < self@.len(),
        ensures
            value@ == self@[index as int],
    {
        let rows = self.offsets.len() - 1;
        let size = self.data.len();
        proof {
            assert(self.offsets@[index as int] <= self.offsets@[index + 1]);
            assert(self.offsets@[index + 1] <= self.offsets@[rows as int] <= size);
        }
        let start = self.offsets[index] as usize;
        let end = self.offsets[index + 1] as usize;
        slice_subrange(self.data.as_slice(), start, end)
    }

    /// Gives up the column for its two buffers: the data and the offsets.
    pub fn into_buffer(self) -> (buffers: (Vec<u8>, Vec<u64>))
        requires
            self.wf(),
        ensures
            offsets_wf(buffers.0@, buffers.1@),
            offsets_rows(buffers.0@, buffers.1@) == self@,
    {
        (self.data, self.offsets)
    }
}

/// A column of a batch, by the type of its values.
pub enum Column {
    String(StringColumn),
    Variant(StringColumn),
    Bitmap(StringColumn),
    UInt64(Vec<u64>),
}

/// The packed keys of a whole batch, as a key method laid them out.
pub enum KeysState {
    /// The key column itself, untouched.
    Column(Column),
    /// One fixed-width key per row.
    U64(Vec<u64>),
}

/// The bytes that stand for the fixed-width key `value`: its eight bytes,
/// the lowest first.
pub open spec fn spec_fixed_key(value: u64) -> Seq<u8> {
    spec_u64_to_le_bytes(value)
}

/// The bytes that stand for each of the fixed-width keys `values`.
pub open spec fn spec_fixed_keys(values: Seq<u64>) -> Seq<Seq<u8>> {
    Seq::new(values.len(), |i: int| spec_fixed_key(values[i]))
}

/// Fixed-width keys are told apart by their bytes: two numbers with the
/// same bytes are the same number.
pub proof fn lemma_fixed_key_injective(a: u64, b: u64)
    ensures
        spec_fixed_key(a) == spec_fixed_key(b) <==> a == b,
        spec_fixed_key(a).len() == 8,
{
    lemma_auto_spec_u64_to_from_le_bytes();
    if spec_fixed_key(a) == spec_fixed_key(b) {
        assert(spec_u64_from_le_bytes(spec_u64_to_le_bytes(a)) == a);
        assert(spec_u64_from_le_bytes(spec_u64_to_le_bytes(b)) == b);
    }
}

impl KeysState {
    /// Whether the keys are packed in a way that a join can read: a column
    /// of byte strings in order, or fixed-width keys.
    pub open spec fn wf(&self) -> bool {
        match self {
            KeysState::Column(Column::String(col)) => col.wf(),
            KeysState::Column(Column::Variant(col)) => col.wf(),
            KeysState::Column(Column::Bitmap(col)) => col.wf(),
            KeysState::Column(Column::UInt64(_)) => false,
            KeysState::U64(_) => true,
        }
    }

    /// The join key of every row of the batch, as the bytes that are hashed
    /// and compared.
    pub open spec fn spec_keys(&self) -> Seq<Seq<u8>> {
        match self {
            KeysState::Column(Column::String(col)) => col@,
            KeysState::Column(Column::Variant(col)) => col@,
            KeysState::Column(Column::Bitmap(col)) => col@,
            KeysState::Column(Column::UInt64(_)) => Seq::empty(),
            KeysState::U64(values) => spec_fixed_keys(values@),
        }
    }

    /// Whether the keys are a single column of byte strings.
    pub open spec fn is_string_keys(&self) -> bool {
        match self {
            KeysState::Column(Column::String(_)) => true,
            KeysState::Column(Column::Variant(_)) => true,
            KeysState::Column(Column::Bitmap(_)) => true,
            _ => false,
        }
    }

    /// The byte-string column behind string keys.
    pub open spec fn string_column(&self) -> StringColumn
        recommends
            self.is_string_keys(),
    {
        match self {
            KeysState::Column(Column::String(col)) => *col,
            KeysState::Column(Column::Variant(col)) => *col,
            KeysState::Column(Column::Bitmap(col)) => *col,
            _ => arbitrary(),
        }
    }
}

/// The key method for joins on one string, variant or bitmap column.
#[derive(Debug, Clone, Default, PartialEq, Eq)]
pub struct HashMethodSingleString {}

impl HashMethodSingleString {
    /// The method's name.
    pub fn name(&self) -> (name: String)
        ensures
            name@ == "SingleString"@,
    {
        "SingleString".to_string()
    }

    /// Packs the keys of a batch: the first of `group_columns` is the key
    /// column and is taken as it is.
    pub fn build_keys_state(&self, group_columns: Vec<Column>, _rows: usize) -> (state: Result<
        KeysState,
        ErrorCode,
    >)
        requires
            group_columns@.len() >= 1,
        ensures
            state == Ok::<KeysState, ErrorCode>(KeysState::Column(group_columns@[0])),
    {
        let mut columns = group_columns;
        let first = columns.swap_remove(0);
        Ok(KeysState::Column(first))
    }

    /// The keys of the batch for insertion, row by row: row `i` of the
    /// returned column is the key of row `i`. The column can be read again
    /// from its start as often as needed.
    pub fn build_keys_iter<'a>(&self, keys_state: &'a KeysState) -> (keys: Result<
        &'a StringColumn,
        ErrorCode,
    >)
        requires
            keys_state.is_string_keys(),
        ensures
            keys == Ok::<&StringColumn, ErrorCode>(&keys_state.string_column()),
    {
        match keys_state {
            KeysState::Column(Column::String(col)) => Ok(col),
            KeysState::Column(Column::Variant(col)) => Ok(col),
            KeysState::Column(Column::Bitmap(col)) => Ok(col),
            _ => {
                proof {
                    assert(false);
                }
                Err(ErrorCode::Internal(String::new()))
            },
        }
    }

    /// Prepares a batch for probing: appends the hash of every row's key to
    /// `hashes` and returns the accessor that hands out the key of a row by
    /// its position.
    pub fn build_keys_accessor_and_hashes(&self, keys_state: KeysState, hashes: &mut Vec<u64>) -> (accessor:
        Result<StringKeyAccessor, ErrorCode>)
        requires
            keys_state.is_string_keys(),
            keys_state.string_column().wf(),
        ensures
            accessor is Ok,
            accessor->Ok_0.wf(),
            accessor->Ok_0@ == keys_state.string_column()@,
            final(hashes)@ == old(hashes)@ + spec_hashes(keys_state.string_column()@),
    {
        let col = match keys_state {
            KeysState::Column(Column::String(col)) => col,
            KeysState::Column(Column::Variant(col)) => col,
            KeysState::Column(Column::Bitmap(col)) => col,
            _ => {
                proof {
                    assert(false);
                }
                StringColumn::new()
            },
        };
        let n = col.len();
        let mut i: usize = 0;
        while i < n
            invariant
                col.wf(),
                n == col@.len(),
                i <= n,
                hashes@ == old(hashes)@ + spec_hashes(col@).take(i as int),
            decreases n - i,
        {
            hashes.push(hash_join_fast_string_hash(col.index(i)));
            i += 1;
            proof {
                assert(hashes@ =~= old(hashes)@ + spec_hashes(col@).take(i as int));
            }
        }
        proof {
            assert(spec_hashes(col@).take(i as int) =~= spec_hashes(col@));
        }
        let (data, offsets) = col.into_buffer();
        Ok(StringKeyAccessor::new(data, offsets))
    }
}

/// The key method for joins on one column of 64-bit numbers.
#[derive(Debug, Clone, Default, PartialEq, Eq)]
pub struct HashMethodFixedKeys {}

impl HashMethodFixedKeys {
    /// The method's name.
    pub fn name(&self) -> (name: String)
        ensures
            name@ == "FixedKeys64"@,
    {
        "FixedKeys64".to_string()
    }

    /// Packs the keys of a batch: the first of `group_columns` is the key
    /// column; its numbers are the keys. A key column of another type is
    /// refused with `Internal`.
    pub fn build_keys_state(&self, group_columns: Vec<Column>, _rows: usize) -> (state: Result<
        KeysState,
        ErrorCode,
    >)
        requires
            group_columns@.len() >= 1,
        ensures
            match group_columns@[0] {
                Column::UInt64(values) => state == Ok::<KeysState, ErrorCode>(KeysState::U64(values)),
                _ => state matches Err(ErrorCode::Internal(_)),
            },
    {
        let mut columns = group_columns;
        match columns.swap_remove(0) {
            Column::UInt64(values) => Ok(KeysState::U64(values)),
            _ => Err(ErrorCode::Internal("the key column does not hold 64-bit numbers".to_string())),
        }
    }

    /// The keys of the batch for insertion, row by row, each as the bytes
    /// that stand for it.
    pub fn build_keys_iter(&self, keys_state: &KeysState) -> (keys: Result<StringColumn, ErrorCode>)
        requires
            keys_state is U64,
        ensures
            keys is Ok,
            keys->Ok_0.wf(),
            keys->Ok_0@ == keys_state.spec_keys(),
    {
        match keys_state {
            KeysState::U64(values) => Ok(encode_fixed_keys(values)),
            _ => {
                proof {
                    assert(false);
                }
                Err(ErrorCode::Internal(String::new()))
            },
        }
    }

    /// Prepares a batch for probing: appends the hash of every row's key to
    /// `hashes` and returns the accessor that hands out the key of a row by
    /// its position.
    pub fn build_keys_accessor_and_hashes(&self, keys_state: KeysState, hashes: &mut Vec<u64>) -> (accessor:
        Result<StringKeyAccessor, ErrorCode>)
        requires
            keys_state is U64,
        ensures
            accessor is Ok,
            accessor->Ok_0.wf(),
            accessor->Ok_0@ == keys_state.spec_keys(),
            final(hashes)@ == old(hashes)@ + spec_hashes(keys_state.spec_keys()),
    {
        let col = match &keys_state {
            KeysState::U64(values) => encode_fixed_keys(values),
            _ => {
                proof {
                    assert(false);
                }
                StringColumn::new()
            },
        };
        let packed = KeysState::Column(Column::String(col));
        let method = HashMethodSingleString {  };
        method.build_keys_accessor_and_hashes(packed, hashes)
    }
}

/// The column of the bytes that stand for each of the fixed-width keys
/// `values`.
pub fn encode_fixed_keys(values: &Vec<u64>) -> (col: StringColumn)
    ensures
        col.wf(),
        col@ == spec_fixed_keys(values@),
{
    let mut col = StringColumn::new();
    let n = values.len();
    let mut i: usize = 0;
    while i < n
        invariant
            n == values@.len(),
            i <= n,
            col.wf(),
            col@ == spec_fixed_keys(values@).take(i as int),
        decreases n - i,
    {
        let bytes = u64_to_le_bytes(values[i]);
        col.push(bytes.as_slice());
        i += 1;
        proof {
            assert(col@ =~= spec_fixed_keys(values@).take(i as int));
        }
    }
    proof {
        assert(spec_fixed_keys(values@).take(n as int) =~= spec_fixed_keys(values@));
    }
    col
}

/// Hands out the key of a probe row by the row's position.
pub struct StringKeyAccessor {
    data: Vec<u8>,
    offsets: Vec<u64>,
}

impl StringKeyAccessor {
    /// The keys, row by row.
    pub closed spec fn view(&self) -> Seq<Seq<u8>> {
        offsets_rows(self.data@, self.offsets@)
    }

    /// The accessor's invariant: the offsets cut the data into keys.
    pub closed spec fn wf(&self) -> bool {
        offsets_wf(self.data@, self.offsets@)
    }

    /// An accessor over the keys that `offsets` cuts out of `data`.
    pub fn new(data: Vec<u8>, offsets: Vec<u64>) -> (accessor: StringKeyAccessor)
        ensures
            accessor.wf() == offsets_wf(data@, offsets@),
            accessor@ == offsets_rows(data@, offsets@),
    {
        StringKeyAccessor { data, offsets }
    }

    /// The number of keys.
    pub fn len(&self) -> (n: usize)
        requires
            self.wf(),
        ensures
            n == self@.len(),
    {
        self.offsets.len() - 1
    }

    /// The key of row `index`. The row must exist: nothing is checked at
    /// run time.
    pub fn key_unchecked(&self, index: usize) -> (key: &[u8])
        requires
            self.wf(),
            index < self@.len(),
        ensures
            key@ == self@[index as int],
    {
        let rows = self.offsets.len() - 1;
        let size = self.data.len();
        proof {
            assert(self.offsets@[index as int] <= self.offsets@[index + 1]);
            assert(self.offsets@[index + 1] <= self.offsets@[rows as int] <= size);
        }
        let start = self.offsets[index] as usize;
        let end = self.offsets[index + 1] as usize;
        slice_subrange(self.data.as_slice(), start, end)
    }
}

} // verus!
