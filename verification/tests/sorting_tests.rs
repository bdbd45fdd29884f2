use kimbo::board::{EnginePosition, Position, EMPTY};
use kimbo::sorting::{get_next_move, MoveList, MoveScores};

fn mv(from: u16, to: u16, flag: u16) -> u16 {
    from | (to << 6) | (flag << 12)
}

fn position() -> EnginePosition {
    let mut squares = [EMPTY; 64];
    squares[12] = 0; // white pawn e2
    squares[1] = 1; // white knight b1
    squares[3] = 4; // white queen d1
    squares[19] = 3; // black rook d3
    squares[51] = 4; // black queen d7
    squares[60] = 5; // black king e8
    EnginePosition { board: Position { pieces: [[0; 6]; 2], squares, side_to_move: 0 } }
}

#[test]
fn mvv_lva_ranks_victim_then_attacker() {
    let pos = position();
    assert_eq!(pos.mvv_lva(mv(12, 51, 4)), 55); // pawn takes queen
    assert_eq!(pos.mvv_lva(mv(3, 51, 4)), 51); // queen takes queen
    assert_eq!(pos.mvv_lva(mv(12, 19, 4)), 45); // pawn takes rook
    assert_eq!(pos.mvv_lva(mv(1, 19, 4)), 44); // knight takes rook
    assert_eq!(pos.mvv_lva(mv(3, 60, 4)), 0); // king as victim
    assert_eq!(pos.mvv_lva(mv(3, 40, 4)), 0); // empty target
    assert_eq!(pos.mvv_lva(mv(40, 51, 4)), 0); // no attacker
}

#[test]
fn score_move_orders_hash_captures_promotions_castles_quiets() {
    let pos = position();
    let mut hit = false;
    let hash = mv(1, 18, 0);
    assert_eq!(pos.score_move(hash, hash, &mut hit), 125);
    assert!(hit);
    let mut hit = false;
    assert_eq!(pos.score_move(mv(12, 51, 4), hash, &mut hit), 55);
    assert_eq!(pos.score_move(mv(12, 51, 15), hash, &mut hit), 55); // capture-promotion
    assert_eq!(pos.score_move(mv(52, 60, 8), hash, &mut hit), 95); // knight promotion
    assert_eq!(pos.score_move(mv(52, 60, 9), hash, &mut hit), 85);
    assert_eq!(pos.score_move(mv(52, 60, 10), hash, &mut hit), 90);
    assert_eq!(pos.score_move(mv(52, 60, 11), hash, &mut hit), 100);
    assert_eq!(pos.score_move(mv(4, 6, 2), hash, &mut hit), 80);
    assert_eq!(pos.score_move(mv(4, 2, 3), hash, &mut hit), 80);
    assert_eq!(pos.score_move(mv(12, 28, 1), hash, &mut hit), 0);
    assert!(!hit);
}

fn sample_moves() -> MoveList {
    let mut moves = MoveList::new();
    moves.push(mv(12, 28, 1)); // quiet: 0
    moves.push(mv(1, 19, 4)); // knight takes rook: 44
    moves.push(mv(4, 6, 2)); // castle: 80
    moves.push(mv(12, 51, 4)); // pawn takes queen: 55
    moves.push(mv(3, 19, 4)); // queen takes rook: 41
    moves
}

#[test]
fn score_moves_scores_each_move() {
    let pos = position();
    let moves = sample_moves();
    let mut scores = MoveScores::default();
    let mut hit = false;
    pos.score_moves(&moves, &mut scores, moves.get(4), &mut hit);
    assert!(hit);
    assert_eq!(scores.len(), 5);
    let got: Vec<i8> = (0..5).map(|i| scores.get(i)).collect();
    assert_eq!(got, vec![0, 44, 80, 55, 125]);
    assert_eq!(scores.start_idx(), 0);
}

#[test]
fn score_captures_scores_by_mvv_lva() {
    let pos = position();
    let moves = sample_moves();
    let mut scores = MoveScores::default();
    pos.score_captures(&moves, &mut scores);
    let got: Vec<i8> = (0..scores.len()).map(|i| scores.get(i)).collect();
    assert_eq!(got, vec![0, 44, 0, 55, 41]);
}

#[test]
fn score_captures_on_empty_list_does_nothing() {
    let pos = position();
    let moves = MoveList::new();
    let mut scores = MoveScores::default();
    pos.score_captures(&moves, &mut scores);
    assert_eq!(scores.len(), 0);
}

#[test]
fn get_next_move_hands_out_best_first() {
    let pos = position();
    let mut moves = sample_moves();
    let mut scores = MoveScores::default();
    let mut hit = false;
    pos.score_moves(&moves, &mut scores, 0xffff, &mut hit);
    let mut order = Vec::new();
    while let Some(m) = get_next_move(&mut moves, &mut scores) {
        order.push(m);
    }
    assert_eq!(
        order,
        vec![mv(4, 6, 2), mv(12, 51, 4), mv(1, 19, 4), mv(3, 19, 4), mv(12, 28, 1)]
    );
    assert_eq!(scores.start_idx(), 5);
    assert_eq!(get_next_move(&mut moves, &mut scores), None);
}

#[test]
fn get_next_move_takes_first_of_equal_scores() {
    let pos = position();
    let mut moves = MoveList::new();
    moves.push(mv(12, 28, 1));
    moves.push(mv(12, 20, 0));
    moves.push(mv(1, 18, 0));
    let mut scores = MoveScores::default();
    let mut hit = false;
    pos.score_moves(&moves, &mut scores, 0xffff, &mut hit);
    assert_eq!(get_next_move(&mut moves, &mut scores), Some(mv(12, 28, 1)));
    assert_eq!(get_next_move(&mut moves, &mut scores), Some(mv(12, 20, 0)));
    assert_eq!(get_next_move(&mut moves, &mut scores), Some(mv(1, 18, 0)));
}

#[test]
fn get_next_move_swaps_pick_to_front() {
    let pos = position();
    let mut moves = sample_moves();
    let mut scores = MoveScores::default();
    let mut hit = false;
    pos.score_moves(&moves, &mut scores, 0xffff, &mut hit);
    assert_eq!(get_next_move(&mut moves, &mut scores), Some(mv(4, 6, 2)));
    assert_eq!(moves.get(0), mv(4, 6, 2));
    assert_eq!(moves.get(2), mv(12, 28, 1));
    assert_eq!(scores.get(0), 80);
    assert_eq!(scores.get(2), 0);
    assert_eq!(scores.start_idx(), 1);
}

#[test]
fn scoring_after_a_pick_continues_from_start() {
    let pos = position();
    let mut moves = sample_moves();
    let mut scores = MoveScores::default();
    pos.score_captures(&moves, &mut scores);
    assert_eq!(get_next_move(&mut moves, &mut scores), Some(mv(12, 51, 4)));
    // scoring again appends scores for the moves from the start on
    let mut hit = false;
    pos.score_moves(&moves, &mut scores, 0xffff, &mut hit);
    assert_eq!(scores.len(), 9);
    assert_eq!(scores.start_idx(), 1);
}

#[test]
fn move_list_basics() {
    let mut moves = MoveList::new();
    assert!(moves.is_empty());
    moves.push(7);
    moves.push(9);
    assert_eq!(moves.len(), 2);
    moves.swap(0, 1);
    assert_eq!(moves.get(0), 9);
    assert_eq!(moves.get(1), 7);
}

#[test]
fn picking_hands_out_each_move_once_after_rescoring() {
    let pos = position();
    let mut moves = sample_moves();
    let mut scores = MoveScores::default();
    pos.score_captures(&moves, &mut scores);
    let first = get_next_move(&mut moves, &mut scores).unwrap();
    let mut rest = Vec::new();
    while let Some(m) = get_next_move(&mut moves, &mut scores) {
        rest.push(m);
    }
    assert_eq!(first, mv(12, 51, 4));
    assert_eq!(rest, vec![mv(1, 19, 4), mv(3, 19, 4), mv(12, 28, 1), mv(4, 6, 2)]);
    let mut all = rest.clone();
    all.push(first);
    all.sort();
    let mut expected: Vec<u16> = (0..5).map(|i| sample_moves().get(i)).collect();
    expected.sort();
    assert_eq!(all, expected);
}
