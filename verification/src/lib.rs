//! Hilbert-curve indexing for 2D points with a precomputed per-point
//! correction state.
//!
//! A point's position along the Hilbert space-filling curve (its "distance")
//! is obtained by correcting the raw coordinate bits with two per-point masks
//! ("flip" and "swap") and interleaving the corrected bits. Deriving the two
//! masks once per pivot point makes repeated distance and order queries
//! against that pivot cheap: a comparison only has to look at the first bit
//! where the two points disagree.
//!
//! One module per coordinate width offers the same interface for 8-, 16-,
//! 32- and 64-bit coordinates, each paired with a double-width distance
//! type; `reference_impl` holds the brute-force oracle the tests compare
//! against.

pub mod bit_util;
pub mod interleave;
pub mod precompute_u16;
pub mod precompute_u32;
pub mod precompute_u64;
pub mod precompute_u8;
pub mod reference_impl;
