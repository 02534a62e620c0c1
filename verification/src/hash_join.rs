//! The hash join: key encoding, the build-side table, per-thread probe state
//! and the probe procedures.

pub mod build_state;
pub mod desc;
pub mod early_filtering;
pub mod hash_join_probe_state;
pub mod hash_join_state;
pub mod hashtable;
pub mod join;
pub mod join_spec;
pub mod keys;
pub mod nested_loop;
pub mod outer_scan_map;
pub mod probe;
pub mod probe_cursor;
pub mod probe_join;
pub mod probe_state;
pub mod row_ptr;
