//! A falling-block puzzle: the pieces, the board they fall on, and the rules
//! by which a piece moves, locks and clears rows.

pub mod board;
pub mod grid;
pub mod laws;
pub mod tetro;
