//! A flocking simulation over fixed-point integer coordinates.
//!
//! Lengths are counted in millionths of a world unit, so that every rule of
//! the simulation is exact integer arithmetic with a proof behind it.
pub mod vec2;
mod random;
pub mod config;
pub mod boid;
pub mod index;
pub mod system;
