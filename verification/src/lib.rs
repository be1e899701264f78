//! Verified two-dimensional flocking ("boids") simulation core.
//!
//! The library keeps every quantity in signed fixed-point arithmetic:
//! a value of `v` stands for the real number `v / SCALE`. All geometry,
//! neighbor search and integration logic is stated and proved over that
//! integer model.

pub mod config;
pub mod fixed;
pub mod flock;
pub mod hash_grid;
pub mod integrate;
pub mod sim;
