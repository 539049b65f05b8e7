//! A trust and orchestration protocol for a network of autonomous agents.

use vstd::prelude::*;

pub mod capability;
pub mod connection;
pub mod constants;
pub mod convergence;
pub mod defense;
pub mod detection;
pub mod handoff;
pub mod interaction;
pub mod node;
pub mod routing;
pub mod scalar;
pub mod sim;
pub mod table;
pub mod trust;
pub mod types;
pub mod workflow;

verus! {

/// The version of the protocol.
pub const VERSION: &'static str = "1.0.0";

} // verus!
