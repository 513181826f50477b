//! A verified model of the sticker state of a 3x3x3 twisty puzzle.
//!
//! The crate derives a collision-free naming of all 54 sticker positions
//! from the cyclic adjacency of the six faces, and implements the
//! permutation algebra of face turns and whole-cube reorientations on the
//! label assignment, preserving the 54-position and colour-count
//! invariants at every step.

pub mod cube;
pub mod face;
pub mod laws;
pub mod sticker;
