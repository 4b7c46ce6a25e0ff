//! Record types of the three tables.

pub mod entry;
pub mod journey;
pub mod user;
