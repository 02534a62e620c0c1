//! Plans of statements.

pub mod copy_into_table;
