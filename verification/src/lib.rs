//! Decision core of a branch-and-bound solver for quadratic unconstrained
//! binary optimization: branching-variable selection policies, seeded
//! pseudo-random draws, starting-point generation, and the sparse-matrix
//! format adapter that feeds the convex relaxation solver.
//!
//! Real-valued data (solution entries, objective deltas) is carried as plain
//! 64-bit payloads: either raw IEEE-754 bit patterns, where the value is only
//! stored and moved, or order-preserving keys, where the logic compares
//! values. The caller performs the encoding at the boundary.

pub mod branching;
pub mod initial_points;
pub mod rng;
pub mod sparse;
