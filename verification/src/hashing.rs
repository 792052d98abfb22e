//! Precomputed masks, sliding-attack lookup and position hashing.

pub mod bitmask;
pub mod magic;
pub mod zobrist;
