//! Text forms: the characters of colors, files, ranks, squares and pieces,
//! positions in Forsyth-Edwards notation, and moves in pure algebraic
//! coordinate notation.

pub mod chr;
pub mod err;
pub mod fen;
pub mod pacn;
pub mod round_trip;
pub mod validate;
