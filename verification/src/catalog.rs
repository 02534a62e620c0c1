//! What the engine knows of tables.

pub mod table;
