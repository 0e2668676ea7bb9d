//! Simulation core of an agent-based settlement and barter economy.
//!
//! Autonomous agents forage, age, reproduce, die and trade on a bounded or
//! wrapped 2D grid shared with stationary food sources that grow on a seasonal
//! cycle.  The crate holds the world state, the per-tick systems that advance
//! it, and proofs of the geometric, economic and spatial-consistency
//! invariants the simulation maintains.

pub mod ai;
pub mod config;
pub mod interactions;
pub mod lookup;
pub mod measures;
pub mod people;
pub mod perf;
pub mod planet;
pub mod rng;
pub mod stats;
pub mod world;
