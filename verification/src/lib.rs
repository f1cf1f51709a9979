//! A verified scoreboard library: score entries are submitted to a numbered
//! scoreboard and listed back ordered by points, highest first.
//!
//! The library holds the data model, the ordering and partitioning rules, the
//! request validation, and the mapping of store outcomes to responses. The
//! HTTP transport and the relational store live outside it and hand it plain
//! values.

pub mod entry;
pub mod laws;
pub mod rank;
pub mod service;
pub mod store;
pub mod validate;
