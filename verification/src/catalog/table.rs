//! Statistics of a table, and the ways a table is written and compacted.

use vstd::prelude::*;
use crate::exception::ErrorCode;

verus! {

/// The identifier of a column: its position in the table's schema.
pub type ColumnId = u32;

/// What is known of the size of a table; each figure may be unknown.
#[derive(Debug, Copy, Clone, Default)]
pub struct TableStatistics {
    pub num_rows: Option<u64>,
    pub data_size: Option<u64>,
    pub data_size_compressed: Option<u64>,
    pub index_size: Option<u64>,
    pub number_of_blocks: Option<u64>,
    pub number_of_segments: Option<u64>,
}

/// What a compaction works on.
pub enum CompactTarget {
    Blocks,
    Segments,
}

/// How rows come to be appended.
pub enum AppendMode {
    /// By an insert or a recluster.
    Normal,
    /// By a copy or a streaming load.
    Copy,
}

/// The statistics of one column that an optimizer can use.
#[derive(Debug, Clone, Copy, PartialEq, Eq, Structural)]
pub struct BasicColumnStatistics {
    pub null_count: u64,
    pub number_of_distinct_values: u64,
}

/// A provider of column statistics that knows nothing.
pub struct DummyColumnStatisticsProvider;

impl DummyColumnStatisticsProvider {
    /// The statistics of column `column_id`: none.
    pub fn column_statistics(&self, _column_id: ColumnId) -> (stats: Option<BasicColumnStatistics>)
        ensures
            stats is None,
    {
        None
    }

    /// The number of rows of the table: unknown.
    pub fn num_rows(&self) -> (rows: Option<u64>)
        ensures
            rows is None,
    {
        None
    }
}

/// The message of the error for a write to a read-only table `name`.
pub open spec fn spec_read_only_message(name: Seq<char>) -> Seq<char> {
    "Mutation not allowed, table ["@ + name + "] is READ ONLY."@
}

/// Whether the table `name` may be changed: a read-only table may not, and
/// the attempt is an `InvalidOperation`.
pub fn check_mutable(is_read_only: bool, name: &str) -> (res: Result<(), ErrorCode>)
    ensures
        !is_read_only ==> res is Ok,
        is_read_only ==> (res matches Err(ErrorCode::InvalidOperation(msg)) && msg@
            == spec_read_only_message(name@)),
{
    if is_read_only {
        Err(ErrorCode::InvalidOperation(read_only_message(name)))
    } else {
        Ok(())
    }
}

/// The text "Mutation not allowed, table [`name`] is READ ONLY.".
fn read_only_message(name: &str) -> (msg: String)
    ensures
        msg@ == spec_read_only_message(name@),
{
    let mut msg = "Mutation not allowed, table [".to_string();
    msg.append(name);
    msg.append("] is READ ONLY.");
    msg
}

} // verus!
