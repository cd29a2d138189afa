//! Coordination layer of a replicated key-value store.
//!
//! Replication itself is delegated to a consensus engine that runs once per
//! cluster member. This crate holds the decisions made around that engine:
//! how a replica materialises the decided log into a key-value view, how a
//! conditional write is checked, how a write is tracked until it is decided,
//! which event a message pump serves next, and how an unreachable node is
//! brought back. Every function is stated over mathematical models and
//! proved against them.
//!
//! The engine, the timers, the channels and the HTTP front end stay with the
//! caller. It hands in what they answered, as plain values, and is told what
//! to do next.

pub mod consistency;
pub mod directory;
pub mod error;
pub mod kv;
pub mod kv_controller;
pub mod kv_map;
pub mod log;
pub mod nodes;
pub mod recovery;
pub mod routing;
pub mod server;
pub mod storage;
