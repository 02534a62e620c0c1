//! What the probing threads of one join share: the join's description and
//! the flag that cancels it.

use std::sync::atomic::AtomicBool;
use std::sync::atomic::Ordering;
use vstd::prelude::*;
use crate::exception::ErrorCode;
use crate::hash_join::desc::JoinType;

verus! {

/// The description of a join, fixed when it is planned.
pub struct HashJoinDesc {
    /// The kind of join.
    pub join_type: JoinType,
    /// Whether matched pairs must also pass a residual predicate.
    pub has_other_predicate: bool,
    /// Early filtering is preferred while fewer than this many of a hundred
    /// probed keys hit a bucket in use.
    pub early_filtering_percent: u64,
}

/// The state shared by all threads that probe for one join.
pub struct HashJoinState {
    pub hash_join_desc: HashJoinDesc,
    /// Set once the query is killed or the server shuts down; never cleared.
    pub interrupt: AtomicBool,
}

impl HashJoinState {
    /// The shared state of a join that has not been cancelled.
    pub fn create(hash_join_desc: HashJoinDesc) -> (state: HashJoinState)
        ensures
            state.hash_join_desc == hash_join_desc,
    {
        HashJoinState { hash_join_desc, interrupt: AtomicBool::new(false) }
    }

    /// Cancels the join: every probe stops at its next check.
    pub fn interrupt(&self) {
        self.interrupt.store(true, Ordering::Relaxed);
    }

    /// Reads the cancel flag. The flag belongs to all threads, so nothing is
    /// known of the answer beforehand.
    pub fn is_interrupted(&self) -> bool {
        self.interrupt.load(Ordering::Relaxed)
    }
}

/// The message of the error that a cancelled probe returns.
pub open spec fn spec_aborted_message() -> Seq<char> {
    "Aborted query, because the server is shutting down or the query was killed."@
}

/// Whether `res` is the failure of a cancelled probe.
pub open spec fn is_aborted<T>(res: Result<T, ErrorCode>) -> bool {
    res matches Err(ErrorCode::AbortedQuery(msg)) && msg@ == spec_aborted_message()
}

/// What a check of the cancel flag decides: the probe fails as aborted if
/// the flag was found set, and goes on if not.
pub fn check_interrupt(interrupted: bool) -> (res: Result<(), ErrorCode>)
    ensures
        interrupted ==> is_aborted(res),
        !interrupted ==> res is Ok,
{
    if interrupted {
        Err(
            ErrorCode::AbortedQuery(
                "Aborted query, because the server is shutting down or the query was killed.".to_string(),
            ),
        )
    } else {
        Ok(())
    }
}

} // verus!
