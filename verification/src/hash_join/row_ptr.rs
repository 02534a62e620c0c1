//! Addresses of build-side rows.

use vstd::prelude::*;

verus! {

/// The location of one build-side row: a chunk, and a row inside that chunk.
#[derive(Debug, Clone, Copy, PartialEq, Eq, Structural)]
pub struct RowPtr {
    pub chunk_index: u32,
    pub row_index: u32,
}

impl RowPtr {
    /// A pointer to row `row_index` of chunk `chunk_index`.
    pub fn new(chunk_index: u32, row_index: u32) -> (ptr: RowPtr)
        ensures
            ptr.chunk_index == chunk_index,
            ptr.row_index == row_index,
    {
        RowPtr { chunk_index, row_index }
    }
}

} // verus!
