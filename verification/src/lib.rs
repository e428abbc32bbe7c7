//! A verified chess position engine: a 64-bit set-of-squares primitive,
//! board-geometry attack tables, a board state with incremental hashing, a
//! full legal-move generator, move application, and FEN import and export.

pub mod attack;
pub mod bit;
pub mod builder;
pub mod fen;
pub mod movegen;
pub mod moves;
pub mod position;
pub mod state;
pub mod units;
