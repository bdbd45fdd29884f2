//! Static evaluation, pawn-structure hashing and move ordering for a
//! bitboard chess engine.

pub mod bits;
pub mod board;
pub mod consts;
pub mod eval;
pub mod pawn;
pub mod pruning;
pub mod sorting;
