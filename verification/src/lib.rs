//! Replication core for a networked multiplayer vehicle simulation.
//!
//! A single authoritative server owns the physics state of every player's
//! car; each client sends its directive input every tick and receives full
//! world snapshots plus reliable lifecycle events (player create / remove).
//! This crate holds the verified protocol logic: the wire message types and
//! their canonical binary codec, the channel policy table, the entity
//! mapping layer, the per-tick server replication decisions, and the
//! per-tick client reconciliation.  Transport, physics and rendering are
//! external collaborators driven from unverified harness code.

use vstd::prelude::*;

pub mod client;
pub mod codec;
pub mod mapping;
pub mod registry;
pub mod server;
pub mod wire;

verus! {

/// Protocol identifier exchanged at connection time; mismatching peers are
/// rejected by the transport layer before any message reaches this crate.
pub const PROTOCOL_ID: u64 = 7;

} // verus!
