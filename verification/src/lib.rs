//! Vectorized hash-join execution core of a SQL query engine, with the
//! small services around it.
//!
//! The build side of a join is loaded into a chained hash table that maps an
//! encoded key to the build rows holding it; probe batches are then matched
//! against it page by page, each page bounded by the configured block size.

pub mod catalog;
pub mod cloud_control;
pub mod ee;
pub mod exception;
pub mod hash_join;
pub mod metrics;
pub mod planners;
pub mod plans;
