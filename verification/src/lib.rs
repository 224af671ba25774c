//! An in-memory key-value cache speaking a line-oriented text protocol:
//! a byte-stream framer that assembles commands, an executor that applies
//! them to a sharded TTL store with a per-key lock table, and a sampling
//! sweeper that evicts expired entries.

pub mod cleaner;
pub mod clock;
pub mod connection;
pub mod error;
pub mod executor;
pub mod instruction;
pub mod store;
pub mod text;
