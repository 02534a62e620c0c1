//! Counters of the engine's services.

pub mod counter;
pub mod http;
