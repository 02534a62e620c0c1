//! The nodes of a query plan.

use std::sync::Arc;
use vstd::prelude::*;

verus! {

/// An expression of a plan.
pub enum ExpressionPlan {
    /// A column, by name.
    Column(String),
    /// A sort key: a column with its direction.
    Sort { column: String, asc: bool, nulls_first: bool },
}

/// A node of a query plan.
pub enum PlanNode {
    /// Yields nothing.
    Empty,
    /// Reads a table.
    ReadSource { db: String, table: String },
    /// Lets through the first `n` rows of its input.
    Limit { n: u64, input: Arc<PlanNode> },
}

/// Another handle to the value that `shared` points to.
///
/// This is `Arc::clone` of the standard library, which makes a new pointer
/// to the same allocation: the value pointed to is the same. The contract
/// states that and is not proved here.
#[verifier::external_body]
pub(crate) fn clone_arc<T>(shared: &Arc<T>) -> (res: Arc<T>)
    ensures
        res == *shared,
{
    shared.clone()
}

impl ExpressionPlan {
    /// A copy of the expression.
    pub fn duplicate(&self) -> (copy: ExpressionPlan)
        ensures
            copy == *self,
    {
        match self {
            ExpressionPlan::Column(name) => ExpressionPlan::Column(name.clone()),
            ExpressionPlan::Sort { column, asc, nulls_first } => ExpressionPlan::Sort {
                column: column.clone(),
                asc: *asc,
                nulls_first: *nulls_first,
            },
        }
    }
}

impl PlanNode {
    /// A copy of the node; the copy shares the inputs of the node.
    pub fn duplicate(&self) -> (copy: PlanNode)
        ensures
            copy == *self,
    {
        match self {
            PlanNode::Empty => PlanNode::Empty,
            PlanNode::ReadSource { db, table } => PlanNode::ReadSource {
                db: db.clone(),
                table: table.clone(),
            },
            PlanNode::Limit { n, input } => PlanNode::Limit { n: *n, input: clone_arc(input) },
        }
    }
}

} // verus!
