//! What a join is: its type, and the constants of its marker column.

use vstd::prelude::*;

verus! {

/// Marker of a probe row that found a match.
pub const MARKER_KIND_TRUE: u8 = 0;

/// Marker of a probe row that found no match.
pub const MARKER_KIND_FALSE: u8 = 1;

/// Marker of a probe row for which a null left the answer open.
pub const MARKER_KIND_NULL: u8 = 2;

/// The kinds of join the engine runs.
#[derive(Debug, Clone, Copy, PartialEq, Eq, Structural)]
pub enum JoinType {
    Inner,
    Left,
    LeftSingle,
    Right,
    RightSingle,
    RightSemi,
    RightAnti,
    Full,
    RightMark,
    Cross,
}

impl JoinType {
    /// Whether the join has to remember which build rows found a match.
    pub open spec fn spec_needs_outer_scan_map(self) -> bool {
        self == JoinType::Right || self == JoinType::RightSingle || self == JoinType::RightSemi
            || self == JoinType::RightAnti || self == JoinType::Full || self == JoinType::RightMark
    }

    /// Whether the join has to remember which build rows found a match.
    pub fn needs_outer_scan_map(&self) -> (needed: bool)
        ensures
            needed == self.spec_needs_outer_scan_map(),
    {
        match self {
            JoinType::Right
            | JoinType::RightSingle
            | JoinType::RightSemi
            | JoinType::RightAnti
            | JoinType::Full
            | JoinType::RightMark => true,
            _ => false,
        }
    }

    /// Whether the join counts the matches of each probe row.
    pub open spec fn spec_tracks_row_state(self) -> bool {
        self == JoinType::Left || self == JoinType::LeftSingle || self == JoinType::Full
    }

    /// Whether the join counts the matches of each probe row.
    pub fn tracks_row_state(&self) -> (counted: bool)
        ensures
            counted == self.spec_tracks_row_state(),
    {
        match self {
            JoinType::Left | JoinType::LeftSingle | JoinType::Full => true,
            _ => false,
        }
    }
}

} // verus!
