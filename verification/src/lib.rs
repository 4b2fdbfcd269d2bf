//! The core of an HTTP-triggered function host: convention-based route
//! discovery over a directory tree, a route table with duplicate detection,
//! query-string parsing, request encoding, and the dispatch decisions of the
//! single-consumer execution engine. The transport, the script runtime and
//! the filesystem walk live outside, around this crate.

pub mod engine;
pub mod envelope;
pub mod query;
pub mod route;
pub mod scan;
pub mod table;
