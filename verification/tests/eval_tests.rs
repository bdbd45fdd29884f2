use kimbo::bits::{count_ones, ls1b_scan};
use kimbo::board::{Position, EMPTY};
use kimbo::eval::{calc_material, calc_pst, calculate_phase, eval_factor, taper, Engine, EvalStats};
use kimbo::pawn::PawnHashTable;

fn bb(squares: &[&str]) -> u64 {
    let mut x = 0u64;
    for s in squares {
        let b = s.as_bytes();
        let sq = (b[1] - b'1') as u64 * 8 + (b[0] - b'a') as u64;
        x |= 1u64 << sq;
    }
    x
}

fn start_position() -> Position {
    let white = [0xff00, 0x42, 0x24, 0x81, 0x08, 0x10];
    let black = [
        0x00ff_0000_0000_0000,
        0x4200_0000_0000_0000,
        0x2400_0000_0000_0000,
        0x8100_0000_0000_0000,
        0x0800_0000_0000_0000,
        0x1000_0000_0000_0000,
    ];
    let mut squares = [EMPTY; 64];
    for side in [white, black] {
        for (kind, board) in side.iter().enumerate() {
            for sq in 0..64 {
                if (board >> sq) & 1 == 1 {
                    squares[sq] = kind as u8;
                }
            }
        }
    }
    Position { pieces: [white, black], squares, side_to_move: 0 }
}

fn pawn_engine(phase: i16, side_to_move: usize) -> Engine {
    let mut pieces = [[0u64; 6]; 2];
    pieces[0][0] = bb(&["a2", "b2", "b3", "e4", "h5", "c4", "d5"]);
    pieces[1][0] = bb(&["a7", "b7", "c7", "f7", "g6", "h7"]);
    Engine {
        board: Position { pieces, squares: [EMPTY; 64], side_to_move },
        phase,
        mat_mg: [100, 50],
        mat_eg: [80, 80],
        pst_mg: [0, 0],
        pst_eg: [0, 0],
        pawnhash: 0x1234_0000_0000_0005,
        stats: EvalStats { pwn_hits: 0, pwn_misses: 0 },
    }
}

#[test]
fn count_ones_counts_set_bits() {
    assert_eq!(count_ones(0), 0);
    assert_eq!(count_ones(0xff00), 8);
    assert_eq!(count_ones(u64::MAX), 64);
    assert_eq!(count_ones(0x8000_0000_0000_0001), 2);
}

#[test]
fn ls1b_scan_finds_lowest_bit() {
    assert_eq!(ls1b_scan(1), 0);
    assert_eq!(ls1b_scan(0xff00), 8);
    assert_eq!(ls1b_scan(0x8000_0000_0000_0000), 63);
    assert_eq!(ls1b_scan(0b1010_0000), 5);
    assert_eq!(ls1b_scan(0), 64);
}

#[test]
fn phase_of_start_position_is_full() {
    assert_eq!(calculate_phase(&start_position()), 24);
}

#[test]
fn phase_of_bare_kings_is_zero() {
    let mut pos = start_position();
    pos.squares = [EMPTY; 64];
    pos.squares[4] = 5;
    pos.squares[60] = 5;
    assert_eq!(calculate_phase(&pos), 0);
    pos.squares[3] = 4;
    pos.squares[0] = 3;
    assert_eq!(calculate_phase(&pos), 6);
}

#[test]
fn material_of_start_position() {
    let pos = start_position();
    assert_eq!(calc_material::<true>(&pos), [4039, 4039]);
    assert_eq!(calc_material::<false>(&pos), [3868, 3868]);
}

#[test]
fn material_of_uneven_sides() {
    let mut pos = start_position();
    pos.pieces[1][4] = 0;
    pos.pieces[0][1] = 0x02;
    assert_eq!(calc_material::<true>(&pos), [4039 - 337, 4039 - 1025]);
    assert_eq!(calc_material::<false>(&pos), [3868 - 281, 3868 - 936]);
}

#[test]
fn static_eval_full_phase_miss_then_hit() {
    let mut table = PawnHashTable::new(4096);
    let mut engine = pawn_engine(24, 0);
    // material: 50; pawns: white 5 minus black 20
    assert_eq!(engine.static_eval::<true>(&mut table), 35);
    assert_eq!(engine.stats.pwn_misses, 1);
    assert_eq!(engine.stats.pwn_hits, 0);
    assert_eq!(table.hashfull(), 1000 / 1024);
    let stored = table.get(engine.pawnhash).unwrap();
    assert_eq!(stored.key, 0x1234);
    assert_eq!(stored.score, -15);
    assert_eq!(engine.static_eval::<true>(&mut table), 35);
    assert_eq!(engine.stats.pwn_misses, 1);
    assert_eq!(engine.stats.pwn_hits, 1);
}

#[test]
fn static_eval_without_stats_counts_nothing() {
    let mut table = PawnHashTable::new(64);
    let mut engine = pawn_engine(24, 0);
    assert_eq!(engine.static_eval::<false>(&mut table), 35);
    assert_eq!(engine.stats.pwn_misses, 0);
    assert_eq!(engine.stats.pwn_hits, 0);
}

#[test]
fn static_eval_is_relative_to_side_to_move() {
    let mut table = PawnHashTable::new(4096);
    let mut engine = pawn_engine(24, 1);
    assert_eq!(engine.static_eval::<false>(&mut table), -35);
}

#[test]
fn static_eval_caps_phase() {
    let mut table = PawnHashTable::new(4096);
    let mut engine = pawn_engine(30, 0);
    assert_eq!(engine.static_eval::<false>(&mut table), 35);
}

#[test]
fn static_eval_endgame_and_midpoint() {
    let mut table = PawnHashTable::new(4096);
    let mut engine = pawn_engine(0, 0);
    // material: 0; pawns: white -26 minus black 12
    assert_eq!(engine.static_eval::<false>(&mut table), -38);
    let mut table = PawnHashTable::new(4096);
    let mut engine = pawn_engine(12, 0);
    // material: 600 / 24 = 25; pawns: white -10 minus black 16
    assert_eq!(engine.static_eval::<false>(&mut table), -1);
}

#[test]
fn static_eval_reads_stored_pawn_term() {
    let mut table = PawnHashTable::new(4096);
    let mut engine = pawn_engine(24, 0);
    table.push(engine.pawnhash, 7);
    assert_eq!(engine.static_eval::<false>(&mut table), 57);
}

#[test]
fn static_eval_blends_negative_differences_toward_zero() {
    let mut table = PawnHashTable::new(4096);
    let mut engine = pawn_engine(1, 0);
    engine.board.pieces = [[0; 6]; 2];
    engine.mat_mg = [0, 0];
    engine.mat_eg = [0, 13];
    // (23 * -13) / 24 = -299 / 24, rounded toward zero
    assert_eq!(engine.static_eval::<false>(&mut table), -12);
}

#[test]
fn pst_sums_square_weights() {
    let mut weights = [[[0i16; 64]; 6]; 2];
    for sq in 0..64 {
        weights[0][0][sq] = sq as i16;
        weights[1][0][sq] = -(sq as i16);
        weights[0][4][sq] = 100;
        weights[1][5][sq] = 1000;
    }
    let pos = start_position();
    // white pawns on 8..16: sum 92; white queen: 100
    // black pawns on 48..56: sum -412; black king: 1000
    assert_eq!(calc_pst(&pos, &weights), [192, 588]);
}

#[test]
fn pst_of_empty_board_is_zero() {
    let weights = [[[7i16; 64]; 6]; 2];
    let mut pos = start_position();
    pos.pieces = [[0; 6]; 2];
    assert_eq!(calc_pst(&pos, &weights), [0, 0]);
}

#[test]
fn taper_end_points_and_equal_scores() {
    assert_eq!(taper(24, 100, -40), 100);
    assert_eq!(taper(0, 100, -40), -40);
    assert_eq!(taper(12, 100, -40), 30);
    for phase in [-1000, -1, 0, 7, 24, 100] {
        assert_eq!(taper(phase, 37, 37), 37);
        assert_eq!(taper(phase, -5, -5), -5);
    }
    // rounds toward zero
    assert_eq!(taper(1, 0, -13), -12);
    assert_eq!(taper(1, 0, 13), 12);
}

#[test]
fn eval_factor_negates_when_sides_swap() {
    assert_eq!(eval_factor(10, [300, 100], [50, 80]), 65);
    assert_eq!(eval_factor(10, [100, 300], [80, 50]), -65);
    assert_eq!(eval_factor(5, [7, 0], [0, 6]), -3);
    assert_eq!(eval_factor(5, [0, 7], [6, 0]), 3);
}

#[test]
fn side_pawn_score_counts_structure() {
    let e = pawn_engine(24, 0);
    assert_eq!(e.side_pawn_score(0, 24), 5);
    assert_eq!(e.side_pawn_score(1, 24), 20);
    assert_eq!(e.side_pawn_score(0, 0), -26);
    assert_eq!(e.side_pawn_score(1, 12), 16);
}

#[test]
fn side_without_pawns_scores_zero_at_any_phase() {
    let mut e = pawn_engine(24, 0);
    e.board.pieces[0][0] = 0;
    for phase in [-100000, -1, 0, 24, 100000] {
        assert_eq!(e.side_pawn_score(0, phase), 0);
    }
}

#[test]
fn phase_ignores_where_pieces_stand() {
    let pos = start_position();
    let mut mirrored = start_position();
    for sq in 0..64 {
        mirrored.squares[sq] = pos.squares[sq ^ 56];
    }
    assert_eq!(calculate_phase(&mirrored), calculate_phase(&pos));
    let mut shuffled = start_position();
    shuffled.squares.reverse();
    assert_eq!(calculate_phase(&shuffled), 24);
}

#[test]
fn second_evaluation_matches_first_for_both_sides() {
    let mut table = PawnHashTable::new(4096);
    let mut white = pawn_engine(12, 0);
    let mut black = pawn_engine(12, 1);
    let w = white.static_eval::<false>(&mut table);
    let b = black.static_eval::<false>(&mut table);
    assert_eq!(b, -w);
    assert_eq!(white.static_eval::<false>(&mut table), w);
}
