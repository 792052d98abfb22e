//! Bitboard chess position, attack tables and legal move generation.

pub mod bits;
pub mod board;
pub mod game;
pub mod hashing;
pub mod parse;
