//! Query plans.

pub mod plan_node;
pub mod plan_sort;
