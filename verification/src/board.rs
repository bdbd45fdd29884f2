//! Board state as the evaluation reads it, and the move encoding.

use vstd::prelude::*;

verus! {

/// Piece kinds as stored in `Position::squares`; `EMPTY` marks an empty square.
pub const PAWN: u8 = 0;
pub const KNIGHT: u8 = 1;
pub const BISHOP: u8 = 2;
pub const ROOK: u8 = 3;
pub const QUEEN: u8 = 4;
pub const KING: u8 = 5;
pub const EMPTY: u8 = 6;

/// A board: one bitboard per side and piece kind, the piece kind on each
/// square, and the side to move (0 for white, 1 for black).
pub struct Position {
    pub pieces: [[u64; 6]; 2],
    pub squares: [u8; 64],
    pub side_to_move: usize,
}

impl Position {
    /// Every square holds a piece kind or `EMPTY`.
    pub open spec fn squares_valid(&self) -> bool {
        forall|i: int| 0 <= i < 64 ==> #[trigger] self.squares[i] <= EMPTY
    }
}

/// A position as the move ordering reads it.
pub struct EnginePosition {
    pub board: Position,
}

/// A move packs its origin square in bits 0..6, its destination in bits
/// 6..12 and a four-bit flag in bits 12..16: flags 2 and 3 are castles,
/// bit 14 marks a capture and bit 15 a promotion, whose piece (knight,
/// bishop, rook, queen) is given by bits 12..14.
pub open spec fn move_from(m: u16) -> int {
    (m & 0x3f) as int
}

pub open spec fn move_to(m: u16) -> int {
    ((m >> 6u16) & 0x3f) as int
}

pub open spec fn move_flag(m: u16) -> int {
    (m >> 12u16) as int
}

/// The squares move `m` leaves and enters hold a piece kind or `EMPTY`.
pub open spec fn move_squares_valid(board: Position, m: u16) -> bool {
    board.squares[move_from(m)] <= EMPTY && board.squares[move_to(m)] <= EMPTY
}

pub open spec fn spec_is_capture(m: u16) -> bool {
    m & 0x4000 != 0
}

pub open spec fn spec_is_promotion(m: u16) -> bool {
    m & 0x8000 != 0
}

pub open spec fn spec_is_castling(m: u16) -> bool {
    move_flag(m) == 2 || move_flag(m) == 3
}

/// Whether the move captures a piece.
#[verifier::when_used_as_spec(spec_is_capture)]
pub fn is_capture(m: u16) -> (r: bool)
    returns
        spec_is_capture(m),
{
    m & 0x4000 != 0
}

/// Whether the move promotes a pawn.
#[verifier::when_used_as_spec(spec_is_promotion)]
pub fn is_promotion(m: u16) -> (r: bool)
    returns
        spec_is_promotion(m),
{
    m & 0x8000 != 0
}

/// Whether the move castles.
#[verifier::when_used_as_spec(spec_is_castling)]
pub fn is_castling(m: u16) -> (r: bool)
    returns
        spec_is_castling(m),
{
    let flag = m >> 12;
    flag == 2 || flag == 3
}

} // verus!
