//! The data that the service holds.

pub mod user;
