//! The simulation: a network of nodes that is driven tick by tick.

pub mod arithmetic;
pub mod events;
pub mod figures;
pub mod metrics;
pub mod agents;
pub mod network;
pub mod scenarios;
pub mod runner;
