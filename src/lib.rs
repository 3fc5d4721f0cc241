//! A replicated, versioned namespace store driven by a Viewstamped Replication
//! replica state machine, with the pieces a command-line client needs.

pub mod api;
pub mod text;
pub mod namespace;
pub mod client_table;
pub mod quorum;
pub mod log;
pub mod replica;
pub mod cli;
