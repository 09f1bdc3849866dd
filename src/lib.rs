//! Concurrent TCP port scanning: partitioning of the port space over
//! workers, the result channel's completion protocol, aggregation of the
//! open ports into a sorted report, and the command-line decisions.
pub mod args;
pub mod channel;
pub mod config;
pub mod engine;
pub mod partition;
pub mod report;
pub mod text;
