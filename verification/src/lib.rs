//! Simulation of periodic tasks on a multi-core processor under a pluggable
//! scheduling policy. Every function carries a contract that Verus proves.

pub mod arith;
pub mod error;
pub mod laws;
pub mod model;
pub mod processor;
pub mod schedule;
pub mod scheduler;
pub mod soundness;
pub mod task;
