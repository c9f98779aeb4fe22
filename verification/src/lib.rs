//! A 2D particle-physics engine: soft circular bodies advanced by Verlet
//! integration under a caller-supplied acceleration field, with pairwise
//! penalty collision resolution on a spatial partition grid, confined to a
//! rectangular domain.
//!
//! All physical quantities are fixed-point integers ([`fixed::FP_ONE`] is
//! one unit), so every formula the engine computes is stated exactly in its
//! contract.

pub mod accel;
pub mod bounds;
pub mod collision;
pub mod column;
pub mod fixed;
pub mod grid;
pub mod laws;
pub mod particle;
pub mod sets;
pub mod sim;
pub mod stopwatch;
pub mod vec2;
