//! The probe procedures, one file per family of join types.

pub mod full_join;
pub mod inner_join;
pub mod left_join;
pub mod right_join;
pub mod right_semi_anti_join;
pub mod with_conjunct;
