//! A minimal single-node key-value server core speaking a Redis-like wire
//! protocol: the wire codec, the typed command model, the expiry-aware
//! key-value store, the replication role state, and the replica handshake
//! state machine. Connection handling, clocks and process bootstrap live
//! outside this crate and call in through plain values.

pub mod cli;
pub mod command;
pub mod handler;
pub mod handshake;
pub mod resp;
pub mod server_state;
pub mod store;
pub mod text;
