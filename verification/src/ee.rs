//! The services of the enterprise edition.

pub mod enterprise_services;
