//! Checkpoint aggregation for Ethereum beacon nodes.
//!
//! Several beacon nodes are asked for the finality checkpoints of a state.
//! What each of them answers is turned into one record, the successful
//! answers are grouped by the finalized block root they report, and a
//! quorum rule decides whether the nodes agree on one root.
//!
//! The library holds the records, the grouping, the rule, and the layout
//! of what is reported; sending requests, reading files and writing to a
//! terminal are left to the program around it.

pub mod args;
pub mod checkpoint_server;
pub mod client;
pub mod errors;
pub mod groups;
pub mod processor;
pub mod report;
pub mod status;
pub mod text;
