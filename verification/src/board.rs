//! Board geometry: colors, pieces, lines, squares, directions and castling
//! quadrants, each a small closed set with a dense index.

pub mod color;
pub mod direction;
pub mod line;
pub mod piece;
pub mod square;
pub mod zone;
