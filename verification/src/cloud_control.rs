//! The way to the cloud control service.

pub mod cloud_api;
