//! The position, the packed move, make and unmake, and move generation.

pub mod board_move;
pub mod move_gen;
pub mod position;
