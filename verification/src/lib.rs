//! Replaying scripted HTTP requests under a concurrency bound, and reducing
//! what comes back to a statistical report.
//!
//! The crate holds the decisions: which request may start, which outcome
//! belongs to which ordinal, how latencies fall into buckets. Sockets,
//! clocks and interpreters are the caller's business; the caller hands in
//! plain values and carries out the actions it is handed back.

pub mod batch;
pub mod codec;
pub mod dispatch;
pub mod dump;
pub mod error;
pub mod groups;
pub mod ledger;
pub mod logger;
pub mod rearranged;
pub mod registry;
pub mod render;
pub mod repl;
pub mod request;
pub mod response;
pub mod runtime;
pub mod stats;
pub mod tally;
pub mod tasks;
pub mod text;
pub mod version;
pub mod vm;
