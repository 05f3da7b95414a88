//! A deterministic 2D rigid-particle physics simulator.
//!
//! Particle motion is integrated under gravity with semi-implicit Euler,
//! collisions are resolved against a fixed rectangular boundary and between
//! particle pairs with impulse-based responses, and a fixed-timestep
//! accumulator decouples the simulation rate from the rendering frame rate.
//! All quantities are fixed-point scalars (see [`fixed`]), so every state the
//! simulator produces is pinned down exactly by the contracts.

pub mod boundary;
pub mod collision;
pub mod config;
pub mod fixed;
pub mod laws;
pub mod particle;
pub mod sim;
