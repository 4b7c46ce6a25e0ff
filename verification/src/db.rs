//! The relational store and its record types: users, journeys and entries.

pub mod models;
pub mod store;
