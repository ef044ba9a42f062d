//! Flocking simulation on fixed-point vectors: perception, steering forces,
//! heading smoothing and integration, one tick at a time.
//!
//! Lengths are integers with `vector::SCALE` units to a world unit, and a
//! direction is a vector of length `SCALE`. A tick (`store::AgentStore::advance`)
//! takes a snapshot of every agent's position and heading, computes each
//! agent's forces from that snapshot alone, turns and moves the agent, and
//! applies the world's boundary policy.
//!
//! - `vector`: fixed-point vectors, integer square roots, normalization.
//! - `agent`: one agent's state and the ranges that keep it valid.
//! - `perception`: which agents of a snapshot an agent sees.
//! - `forces`: separation, alignment and cohesion.
//! - `motion`: blending, turning, moving, and the boundary policies.
//! - `store`: the agent store and the tick.
//! - `config`: configuration, validation and spawning.
pub mod agent;
pub mod config;
pub mod forces;
pub mod motion;
pub mod perception;
pub mod store;
pub mod vector;
