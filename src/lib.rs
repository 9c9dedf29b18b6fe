//! Commit storage that writes every change to an append-only legacy log and to an
//! id-mapped segment graph, reads through the graph with the log as fallback, and answers
//! graph queries from the graph alone.

pub mod debugscmstore;
pub mod debugscmstorereplay;
pub mod doublewrite;
pub mod graph;
pub mod history;
pub mod legacy;
pub mod test_manifest;
pub mod vertex;
