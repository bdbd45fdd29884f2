//! Evaluation constants: piece values, game-phase weights, pawn-structure
//! weights and the bitboard masks the pawn evaluation reads.

use vstd::prelude::*;

verus! {

/// Game-phase contribution of each piece kind (pawn, knight, bishop, rook,
/// queen, king, empty square).
pub const PHASE_VALS: [i16; 7] = [0, 1, 1, 2, 4, 0, 0];

/// Phase of the starting position; phases at or above it count as the full middlegame.
pub const TOTALPHASE: i32 = 24;

/// Middlegame material value of each piece kind.
pub const MG_PC_VALS: [i16; 6] = [82, 337, 365, 477, 1025, 0];

/// Endgame material value of each piece kind.
pub const EG_PC_VALS: [i16; 6] = [94, 281, 297, 512, 936, 0];

/// Pawn-structure weights, middlegame and endgame.
pub const DOUBLED_MG: i16 = -10;
pub const DOUBLED_EG: i16 = -20;
pub const ISOLATED_MG: i16 = -15;
pub const ISOLATED_EG: i16 = -10;
pub const PASSED_MG: i16 = 15;
pub const PASSED_EG: i16 = 50;
pub const CHAINED_MG: i16 = 5;
pub const CHAINED_EG: i16 = 3;

/// The squares of each file.
pub const FILES: [u64; 8] = [
    0x0101010101010101, 0x0202020202020202, 0x0404040404040404, 0x0808080808080808,
    0x1010101010101010, 0x2020202020202020, 0x4040404040404040, 0x8080808080808080,
];

/// The squares of the files beside each file.
pub const RAILS: [u64; 8] = [
    0x0202020202020202, 0x0505050505050505, 0x0a0a0a0a0a0a0a0a, 0x1414141414141414,
    0x2828282828282828, 0x5050505050505050, 0xa0a0a0a0a0a0a0a0, 0x4040404040404040,
];

/// The squares diagonally adjacent to each square.
pub const CHAINS: [u64; 64] = [
    0x0000000000000200, 0x0000000000000500, 0x0000000000000a00, 0x0000000000001400,
    0x0000000000002800, 0x0000000000005000, 0x000000000000a000, 0x0000000000004000,
    0x0000000000020002, 0x0000000000050005, 0x00000000000a000a, 0x0000000000140014,
    0x0000000000280028, 0x0000000000500050, 0x0000000000a000a0, 0x0000000000400040,
    0x0000000002000200, 0x0000000005000500, 0x000000000a000a00, 0x0000000014001400,
    0x0000000028002800, 0x0000000050005000, 0x00000000a000a000, 0x0000000040004000,
    0x0000000200020000, 0x0000000500050000, 0x0000000a000a0000, 0x0000001400140000,
    0x0000002800280000, 0x0000005000500000, 0x000000a000a00000, 0x0000004000400000,
    0x0000020002000000, 0x0000050005000000, 0x00000a000a000000, 0x0000140014000000,
    0x0000280028000000, 0x0000500050000000, 0x0000a000a0000000, 0x0000400040000000,
    0x0002000200000000, 0x0005000500000000, 0x000a000a00000000, 0x0014001400000000,
    0x0028002800000000, 0x0050005000000000, 0x00a000a000000000, 0x0040004000000000,
    0x0200020000000000, 0x0500050000000000, 0x0a000a0000000000, 0x1400140000000000,
    0x2800280000000000, 0x5000500000000000, 0xa000a00000000000, 0x4000400000000000,
    0x0002000000000000, 0x0005000000000000, 0x000a000000000000, 0x0014000000000000,
    0x0028000000000000, 0x0050000000000000, 0x00a0000000000000, 0x0040000000000000,
];

/// For each side and square, the squares ahead of it on its own and the adjacent files.
pub const IN_FRONT: [[u64; 64]; 2] = [
    [
        0x0303030303030300, 0x0707070707070700, 0x0e0e0e0e0e0e0e00, 0x1c1c1c1c1c1c1c00,
        0x3838383838383800, 0x7070707070707000, 0xe0e0e0e0e0e0e000, 0xc0c0c0c0c0c0c000,
        0x0303030303030000, 0x0707070707070000, 0x0e0e0e0e0e0e0000, 0x1c1c1c1c1c1c0000,
        0x3838383838380000, 0x7070707070700000, 0xe0e0e0e0e0e00000, 0xc0c0c0c0c0c00000,
        0x0303030303000000, 0x0707070707000000, 0x0e0e0e0e0e000000, 0x1c1c1c1c1c000000,
        0x3838383838000000, 0x7070707070000000, 0xe0e0e0e0e0000000, 0xc0c0c0c0c0000000,
        0x0303030300000000, 0x0707070700000000, 0x0e0e0e0e00000000, 0x1c1c1c1c00000000,
        0x3838383800000000, 0x7070707000000000, 0xe0e0e0e000000000, 0xc0c0c0c000000000,
        0x0303030000000000, 0x0707070000000000, 0x0e0e0e0000000000, 0x1c1c1c0000000000,
        0x3838380000000000, 0x7070700000000000, 0xe0e0e00000000000, 0xc0c0c00000000000,
        0x0303000000000000, 0x0707000000000000, 0x0e0e000000000000, 0x1c1c000000000000,
        0x3838000000000000, 0x7070000000000000, 0xe0e0000000000000, 0xc0c0000000000000,
        0x0300000000000000, 0x0700000000000000, 0x0e00000000000000, 0x1c00000000000000,
        0x3800000000000000, 0x7000000000000000, 0xe000000000000000, 0xc000000000000000,
        0x0000000000000000, 0x0000000000000000, 0x0000000000000000, 0x0000000000000000,
        0x0000000000000000, 0x0000000000000000, 0x0000000000000000, 0x0000000000000000,
    ],
    [
        0x0000000000000000, 0x0000000000000000, 0x0000000000000000, 0x0000000000000000,
        0x0000000000000000, 0x0000000000000000, 0x0000000000000000, 0x0000000000000000,
        0x0000000000000003, 0x0000000000000007, 0x000000000000000e, 0x000000000000001c,
        0x0000000000000038, 0x0000000000000070, 0x00000000000000e0, 0x00000000000000c0,
        0x0000000000000303, 0x0000000000000707, 0x0000000000000e0e, 0x0000000000001c1c,
        0x0000000000003838, 0x0000000000007070, 0x000000000000e0e0, 0x000000000000c0c0,
        0x0000000000030303, 0x0000000000070707, 0x00000000000e0e0e, 0x00000000001c1c1c,
        0x0000000000383838, 0x0000000000707070, 0x0000000000e0e0e0, 0x0000000000c0c0c0,
        0x0000000003030303, 0x0000000007070707, 0x000000000e0e0e0e, 0x000000001c1c1c1c,
        0x0000000038383838, 0x0000000070707070, 0x00000000e0e0e0e0, 0x00000000c0c0c0c0,
        0x0000000303030303, 0x0000000707070707, 0x0000000e0e0e0e0e, 0x0000001c1c1c1c1c,
        0x0000003838383838, 0x0000007070707070, 0x000000e0e0e0e0e0, 0x000000c0c0c0c0c0,
        0x0000030303030303, 0x0000070707070707, 0x00000e0e0e0e0e0e, 0x00001c1c1c1c1c1c,
        0x0000383838383838, 0x0000707070707070, 0x0000e0e0e0e0e0e0, 0x0000c0c0c0c0c0c0,
        0x0003030303030303, 0x0007070707070707, 0x000e0e0e0e0e0e0e, 0x001c1c1c1c1c1c1c,
        0x0038383838383838, 0x0070707070707070, 0x00e0e0e0e0e0e0e0, 0x00c0c0c0c0c0c0c0,
    ],
];

} // verus!
