//! A discrete network simulator for a drone-relay mesh carrying source-routed
//! packets between client and server hosts.
//!
//! The crate is organised around a simulation controller: a labelled topology
//! with structural invariants, a lifecycle state machine, per-node command and
//! packet queues, an event stream projected onto traffic metrics, and a small
//! command surface for operators (load a configuration, start and stop the
//! simulation, mutate the live topology, inject packets).
//!
//! Every topology mutation validates a proposed copy of the graph and commits
//! it only when the structural invariants hold, so observers never see a
//! partially updated graph.

use vstd::prelude::*;

pub mod channels;
pub mod config;
pub mod controller;
pub mod errors;
pub mod listener;
pub mod metrics;
pub mod node;
pub mod packet;
pub mod state;
pub mod stats;
pub mod topology;
pub mod validation;

verus! {

/// Identifier of a node in the simulated network; the id space is the whole
/// of `u8`, so dense tables indexed by id have exactly [`ID_SPACE`] slots.
pub type NodeId = u8;

/// Number of distinct node identifiers.
pub const ID_SPACE: usize = 256;

} // verus!
