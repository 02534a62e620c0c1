//! The plan of a sort.

use std::sync::Arc;
use vstd::prelude::*;
use crate::exception::ErrorCode;
use crate::planners::plan_node::{clone_arc, ExpressionPlan, PlanNode};

verus! {

/// Sorts the rows of its input.
pub struct SortPlan {
    /// The expressions to sort on.
    pub order_by: Vec<ExpressionPlan>,
    /// The plan whose rows are sorted.
    pub input: Arc<PlanNode>,
}

impl SortPlan {
    /// The plan whose rows are sorted.
    pub fn input(&self) -> (input: Arc<PlanNode>)
        ensures
            input == self.input,
    {
        clone_arc(&self.input)
    }

    /// Makes a copy of `input` the plan whose rows are sorted. This cannot
    /// fail.
    pub fn set_input(&mut self, input: &PlanNode) -> (res: Result<(), ErrorCode>)
        ensures
            res is Ok,
            *final(self).input == *input,
            final(self).order_by == old(self).order_by,
    {
        self.input = Arc::new(input.duplicate());
        Ok(())
    }
}

} // verus!
