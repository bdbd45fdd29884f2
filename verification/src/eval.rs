//! Static evaluation: game phase, material, tapered scores and pawn structure.

use vstd::prelude::*;

verus! {

use crate::bits::{
    popcount, sum_set_bits, unit_weight, count_ones, ls1b_scan, lemma_sum_clear_lowest,
    lemma_sum_empty, lemma_sum_bounds, lemma_popcount_bounds, lemma_sum_same_bits,
    lemma_sum_skip_clear, lemma_clear_lowest_suffix, lemma_no_bit_of_zero, bit, lowest_bit,
    lemma_sum_disjoint_union, lemma_sum_add_square, lemma_sum_same_weights,
};
use crate::board::Position;
use vstd::multiset::Multiset;
use crate::pawn::{PawnHashTable, probe, stored, filled_after};
use crate::consts::{
    TOTALPHASE, PHASE_VALS, MG_PC_VALS, EG_PC_VALS, FILES, RAILS, CHAINS, IN_FRONT, DOUBLED_MG,
    DOUBLED_EG, ISOLATED_MG, ISOLATED_EG, PASSED_MG, PASSED_EG, CHAINED_MG, CHAINED_EG,
};

/// Integer division rounding toward zero, as Rust's `/` does.
pub open spec fn trunc_div(a: int, b: int) -> int {
    if a >= 0 { a / b } else { -((-a) / b) }
}

/// The blend of a middlegame and an endgame score by game phase: the
/// weighted mean `(phase * mg + (TOTALPHASE - phase) * eg) / TOTALPHASE`,
/// rounded toward zero.
pub open spec fn taper_value(phase: int, mg: int, eg: int) -> int {
    trunc_div(phase * mg + (TOTALPHASE - phase) * eg, TOTALPHASE as int)
}

pub open spec fn fits_i32(x: int) -> bool {
    i32::MIN <= x <= i32::MAX
}

/// The 32-bit intermediate values of the blend do not overflow.
pub open spec fn taper_fits(phase: int, mg: int, eg: int) -> bool {
    &&& fits_i32(phase * mg)
    &&& fits_i32(TOTALPHASE - phase)
    &&& fits_i32((TOTALPHASE - phase) * eg)
    &&& fits_i32(phase * mg + (TOTALPHASE - phase) * eg)
}

/// Sum of the phase values of the pieces on the first `n` squares.
pub open spec fn phase_sum(squares: [u8; 64], n: int) -> int
    decreases n,
{
    if n <= 0 {
        0
    } else {
        phase_sum(squares, n - 1) + PHASE_VALS[squares[n - 1] as int]
    }
}

/// Game phase of a position, computed from scratch: the sum of the phase
/// values of the pieces on all 64 squares.
pub fn calculate_phase(pos: &Position) -> (r: i16)
    requires
        pos.squares_valid(),
    ensures
        r == phase_sum(pos.squares, 64),
        0 <= r <= 256,
{
    let mut phase: i16 = 0;
    let mut i: usize = 0;
    while i < 64
        invariant
            i <= 64,
            pos.squares_valid(),
            phase == phase_sum(pos.squares, i as int),
            0 <= phase <= 4 * i,
        decreases 64 - i,
    {
        let pc = pos.squares[i];
        phase += PHASE_VALS[pc as usize];
        i += 1;
    }
    phase
}

/// Sum over the first `k` piece kinds of phase value times how many pieces
/// of that kind `m` holds.
pub open spec fn kinds_weight(m: Multiset<u8>, k: int) -> int
    decreases k,
{
    if k <= 0 {
        0
    } else {
        kinds_weight(m, k - 1) + PHASE_VALS[k - 1] * m.count((k - 1) as u8)
    }
}

proof fn lemma_kinds_insert(m: Multiset<u8>, x: u8, k: int)
    requires
        0 <= k <= 7,
    ensures
        kinds_weight(m.insert(x), k) == kinds_weight(m, k) + (if x < k {
            PHASE_VALS[x as int] as int
        } else {
            0
        }),
    decreases k,
{
    broadcast use vstd::multiset::group_multiset_axioms;

    if k > 0 {
        lemma_kinds_insert(m, x, k - 1);
        let y = (k - 1) as u8;
        let v = PHASE_VALS[k - 1] as int;
        let c = m.count(y) as int;
        if x == y {
            assert(m.insert(x).count(y) == c + 1);
            assert(v * (c + 1) == v * c + v) by (nonlinear_arith);
        } else {
            assert(m.insert(x).count(y) == c);
        }
    }
}

proof fn lemma_phase_sum_counts(squares: [u8; 64], n: int)
    requires
        0 <= n <= 64,
        forall|i: int| 0 <= i < 64 ==> #[trigger] squares[i] <= 6,
    ensures
        phase_sum(squares, n) == kinds_weight(squares@.subrange(0, n).to_multiset(), 7),
    decreases n,
{
    broadcast use vstd::multiset::group_multiset_axioms;

    if n == 0 {
        assert(squares@.subrange(0, 0) =~= Seq::<u8>::empty());
        vstd::seq_lib::to_multiset_len(squares@.subrange(0, 0));
        vstd::multiset::lemma_multiset_empty_len(squares@.subrange(0, 0).to_multiset());
        lemma_kinds_empty(7);
    } else {
        lemma_phase_sum_counts(squares, n - 1);
        let x = squares[n - 1];
        assert(squares@.subrange(0, n) =~= squares@.subrange(0, n - 1).push(x));
        vstd::seq_lib::to_multiset_build(squares@.subrange(0, n - 1), x);
        lemma_kinds_insert(squares@.subrange(0, n - 1).to_multiset(), x, 7);
    }
}

proof fn lemma_kinds_empty(k: int)
    requires
        0 <= k <= 7,
    ensures
        kinds_weight(Multiset::<u8>::empty(), k) == 0,
    decreases k,
{
    broadcast use vstd::multiset::group_multiset_axioms;

    if k > 0 {
        lemma_kinds_empty(k - 1);
    }
}

/// The game phase depends only on which pieces are on the board, not on
/// where they stand: boards holding the same pieces have the same phase.
pub proof fn lemma_phase_by_pieces(a: &Position, b: &Position)
    requires
        a.squares_valid(),
        b.squares_valid(),
        a.squares@.to_multiset() == b.squares@.to_multiset(),
    ensures
        phase_sum(a.squares, 64) == phase_sum(b.squares, 64),
{
    lemma_phase_sum_counts(a.squares, 64);
    lemma_phase_sum_counts(b.squares, 64);
    assert(a.squares@.subrange(0, 64) =~= a.squares@);
    assert(b.squares@.subrange(0, 64) =~= b.squares@);
}

proof fn lemma_phase_sum_update(a: [u8; 64], b: [u8; 64], sq: int, n: int)
    requires
        0 <= sq < 64,
        0 <= n <= 64,
        forall|i: int| 0 <= i < 64 && i != sq ==> #[trigger] b[i] == a[i],
    ensures
        phase_sum(b, n) == phase_sum(a, n) + (if sq < n {
            PHASE_VALS[b[sq] as int] - PHASE_VALS[a[sq] as int]
        } else {
            0
        }),
    decreases n,
{
    if n > 0 {
        lemma_phase_sum_update(a, b, sq, n - 1);
        if n - 1 != sq {
            assert(b[n - 1] == a[n - 1]);
        }
    }
}

proof fn lemma_phase_sum_empty(a: [u8; 64], n: int)
    requires
        0 <= n <= 64,
        forall|i: int| 0 <= i < 64 ==> #[trigger] a[i] == 6,
    ensures
        phase_sum(a, n) == 0,
    decreases n,
{
    if n > 0 {
        lemma_phase_sum_empty(a, n - 1);
        assert(a[n - 1] == 6);
    }
}

/// The phase counts each piece at its kind's phase value: an empty board
/// has phase zero, and putting a piece of kind `kind` on an empty square
/// raises the phase by `PHASE_VALS[kind]` (knights and bishops one, rooks
/// two, queens four, pawns and kings nothing).
pub proof fn lemma_phase_add_piece(pos: &Position, pos2: &Position, sq: int, kind: u8)
    requires
        0 <= sq < 64,
        kind <= 6,
        pos.squares[sq] == 6,
        pos2.squares[sq] == kind,
        forall|i: int| 0 <= i < 64 && i != sq ==> #[trigger] pos2.squares[i] == pos.squares[i],
    ensures
        phase_sum(pos2.squares, 64) == phase_sum(pos.squares, 64) + PHASE_VALS[kind as int],
        (forall|i: int| 0 <= i < 64 ==> #[trigger] pos.squares[i] == 6) ==> phase_sum(
            pos.squares,
            64,
        ) == 0,
{
    lemma_phase_sum_update(pos.squares, pos2.squares, sq, 64);
    if forall|i: int| 0 <= i < 64 ==> #[trigger] pos.squares[i] == 6 {
        lemma_phase_sum_empty(pos.squares, 64);
    }
}

/// Piece values for the middlegame (`mg`) or the endgame.
pub open spec fn piece_vals(mg: bool) -> [i16; 6] {
    if mg { MG_PC_VALS } else { EG_PC_VALS }
}

/// Material of the first `n` piece kinds: value times number of pieces.
pub open spec fn material_upto(bbs: [u64; 6], vals: [i16; 6], n: int) -> int
    decreases n,
{
    if n <= 0 {
        0
    } else {
        material_upto(bbs, vals, n - 1) + vals[n - 1] * popcount(bbs[n - 1])
    }
}

/// Material of `side` on `pos` with the middlegame or endgame values.
pub open spec fn material(pos: &Position, side: int, mg: bool) -> int {
    material_upto(pos.pieces[side], piece_vals(mg), 6)
}

proof fn lemma_material_monotone(bbs: [u64; 6], vals: [i16; 6], m: int, n: int)
    requires
        0 <= m <= n <= 6,
        forall|j: int| 0 <= j < 6 ==> 0 <= #[trigger] vals[j],
    ensures
        0 <= material_upto(bbs, vals, m) <= material_upto(bbs, vals, n),
    decreases n,
{
    if m < n {
        lemma_material_monotone(bbs, vals, m, n - 1);
        lemma_popcount_bounds(bbs[n - 1], 0);
        let v = vals[n - 1] as int;
        let c = popcount(bbs[n - 1]);
        assert(0 <= v * c) by (nonlinear_arith)
            requires 0 <= v, 0 <= c;
    } else if m > 0 {
        lemma_material_monotone(bbs, vals, m - 1, m - 1);
        lemma_popcount_bounds(bbs[m - 1], 0);
        let v = vals[m - 1] as int;
        let c = popcount(bbs[m - 1]);
        assert(0 <= v * c) by (nonlinear_arith)
            requires 0 <= v, 0 <= c;
    }
}

/// Material of both sides computed from scratch, with the middlegame piece
/// values when `MG` holds and the endgame values otherwise.
pub fn calc_material<const MG: bool>(pos: &Position) -> (r: [i16; 2])
    requires
        material(pos, 0, MG) <= i16::MAX,
        material(pos, 1, MG) <= i16::MAX,
    ensures
        r[0] == material(pos, 0, MG),
        r[1] == material(pos, 1, MG),
{
    let mut scores: [i16; 2] = [0; 2];
    let vals = if MG { MG_PC_VALS } else { EG_PC_VALS };
    assert(vals == piece_vals(MG));
    assert(forall|j: int| 0 <= j < 6 ==> 0 <= #[trigger] vals[j]);
    let mut i: usize = 0;
    while i < 2
        invariant
            i <= 2,
            vals == piece_vals(MG),
            forall|j: int| 0 <= j < 6 ==> 0 <= #[trigger] vals[j],
            material(pos, 0, MG) <= i16::MAX,
            material(pos, 1, MG) <= i16::MAX,
            forall|k: int| 0 <= k < i ==> #[trigger] scores[k] == material(pos, k, MG),
        decreases 2 - i,
    {
        let side = pos.pieces[i];
        let mut score: i16 = 0;
        let mut j: usize = 0;
        while j < 6
            invariant
                i < 2,
                j <= 6,
                side == pos.pieces[i as int],
                forall|t: int| 0 <= t < 6 ==> 0 <= #[trigger] vals[t],
                material_upto(side, vals, 6) <= i16::MAX,
                score == material_upto(side, vals, j as int),
            decreases 6 - j,
        {
            let piece_val = vals[j];
            let mut piece = side[j];
            proof {
                lemma_material_monotone(side, vals, j as int + 1, 6);
                lemma_material_monotone(side, vals, j as int, 6);
            }
            while piece > 0
                invariant
                    j < 6,
                    piece_val == vals[j as int],
                    0 <= piece_val,
                    material_upto(side, vals, j as int + 1) <= i16::MAX,
                    material_upto(side, vals, j as int + 1) == material_upto(side, vals, j as int)
                        + piece_val * popcount(side[j as int]),
                    0 <= score,
                    score + piece_val * popcount(piece) == material_upto(side, vals, j as int + 1),
                decreases piece,
            {
                proof {
                    lemma_sum_clear_lowest(piece, unit_weight(), 0);
                    let next = piece & ((piece - 1) as u64);
                    lemma_popcount_bounds(next, 0);
                    let c = popcount(next);
                    let v = piece_val as int;
                    assert(v * (c + 1) == v + v * c && 0 <= v * c) by (nonlinear_arith)
                        requires 0 <= v, 0 <= c;
                    assert(next < piece) by (bit_vector)
                        requires piece != 0, next == piece & ((piece - 1) as u64);
                }
                score += piece_val;
                piece &= piece - 1;
            }
            proof {
                lemma_sum_empty(unit_weight(), 0);
            }
            j += 1;
        }
        scores[i] = score;
        i += 1;
    }
    scores
}

proof fn lemma_material_pointwise(bbs: [u64; 6], bbs2: [u64; 6], vals: [i16; 6], n: int)
    requires
        0 <= n <= 6,
        forall|k: int| 0 <= k < 6 ==> #[trigger] bbs2[k] == bbs[k],
    ensures
        material_upto(bbs2, vals, n) == material_upto(bbs, vals, n),
    decreases n,
{
    if n > 0 {
        lemma_material_pointwise(bbs, bbs2, vals, n - 1);
        assert(bbs2[n - 1] == bbs[n - 1]);
    }
}

proof fn lemma_material_add(bbs: [u64; 6], bbs2: [u64; 6], vals: [i16; 6], j: int, sq: int, n: int)
    requires
        0 <= n <= 6,
        0 <= j < 6,
        0 <= sq < 64,
        !bit(bbs[j], sq),
        bbs2[j] == bbs[j] | (1u64 << (sq as u64)),
        forall|k: int| 0 <= k < 6 && k != j ==> #[trigger] bbs2[k] == bbs[k],
    ensures
        material_upto(bbs2, vals, n) == material_upto(bbs, vals, n) + (if j < n {
            vals[j] as int
        } else {
            0
        }),
    decreases n,
{
    if n > 0 {
        lemma_material_add(bbs, bbs2, vals, j, sq, n - 1);
        if n - 1 == j {
            lemma_sum_add_square(bbs[j], sq, unit_weight());
            let v = vals[j] as int;
            let c = popcount(bbs[j]);
            assert(v * (c + 1) == v * c + v) by (nonlinear_arith);
        } else {
            assert(bbs2[n - 1] == bbs[n - 1]);
        }
    }
}

/// Material counts each piece at the value of its kind: putting one more
/// piece of kind `kind` for side `side` on a square that piece kind does
/// not yet occupy raises that side's material by exactly the kind's value
/// (`MG_PC_VALS[kind]` or `EG_PC_VALS[kind]`) and leaves the other side's
/// material as it was.
pub proof fn lemma_material_add_piece(
    pos: &Position,
    pos2: &Position,
    side: int,
    kind: int,
    sq: int,
    mg: bool,
)
    requires
        0 <= side < 2,
        0 <= kind < 6,
        0 <= sq < 64,
        !bit(pos.pieces[side][kind], sq),
        pos2.pieces[side][kind] == pos.pieces[side][kind] | (1u64 << (sq as u64)),
        forall|s: int, k: int|
            0 <= s < 2 && 0 <= k < 6 && !(s == side && k == kind) ==> #[trigger] pos2.pieces[s][k]
                == pos.pieces[s][k],
    ensures
        material(pos2, side, mg) == material(pos, side, mg) + (if mg {
            MG_PC_VALS[kind] as int
        } else {
            EG_PC_VALS[kind] as int
        }),
        material(pos2, 1 - side, mg) == material(pos, 1 - side, mg),
{
    let vals = piece_vals(mg);
    assert forall|k: int| 0 <= k < 6 && k != kind implies #[trigger] pos2.pieces[side][k]
        == pos.pieces[side][k] by {
        assert(pos2.pieces[side][k] == pos.pieces[side][k]);
    }
    lemma_material_add(pos.pieces[side], pos2.pieces[side], vals, kind, sq, 6);
    assert forall|k: int| 0 <= k < 6 implies #[trigger] pos2.pieces[1 - side][k]
        == pos.pieces[1 - side][k] by {
        assert(pos2.pieces[1 - side][k] == pos.pieces[1 - side][k]);
    }
    lemma_material_pointwise(pos.pieces[1 - side], pos2.pieces[1 - side], vals, 6);
}

/// A side with no pieces has no material.
pub proof fn lemma_material_empty(pos: &Position, side: int, mg: bool)
    requires
        0 <= side < 2,
        forall|k: int| 0 <= k < 6 ==> #[trigger] pos.pieces[side][k] == 0,
    ensures
        material(pos, side, mg) == 0,
{
    lemma_material_none(pos.pieces[side], piece_vals(mg), 6);
}

proof fn lemma_material_none(bbs: [u64; 6], vals: [i16; 6], n: int)
    requires
        0 <= n <= 6,
        forall|k: int| 0 <= k < 6 ==> #[trigger] bbs[k] == 0,
    ensures
        material_upto(bbs, vals, n) == 0,
    decreases n,
{
    if n > 0 {
        lemma_material_none(bbs, vals, n - 1);
        assert(bbs[n - 1] == 0);
        lemma_sum_empty(unit_weight(), 0);
    }
}

/// The piece-square weight of each square for a side and piece kind.
pub open spec fn square_weight(weights: [[[i16; 64]; 6]; 2], side: int, kind: int) -> spec_fn(
    int,
) -> int {
    |sq: int| weights[side][kind][sq] as int
}

/// Piece-square score of the first `n` piece kinds of `side`: the weights
/// of the squares their pieces stand on.
pub open spec fn pst_upto(pos: &Position, weights: [[[i16; 64]; 6]; 2], side: int, n: int) -> int
    decreases n,
{
    if n <= 0 {
        0
    } else {
        pst_upto(pos, weights, side, n - 1) + sum_set_bits(
            pos.pieces[side][n - 1],
            square_weight(weights, side, n - 1),
            0,
        )
    }
}

/// Piece-square score of `side` on `pos`.
pub open spec fn pst_score(pos: &Position, weights: [[[i16; 64]; 6]; 2], side: int) -> int {
    pst_upto(pos, weights, side, 6)
}

/// Every running total of the piece-square score of `side`, taken piece
/// kind by piece kind and square by square upwards, fits in 16 bits.
pub open spec fn pst_fits(pos: &Position, weights: [[[i16; 64]; 6]; 2], side: int) -> bool {
    forall|j: int, k: int|
        0 <= j < 6 && 0 <= k <= 64 ==> i16::MIN <= pst_upto(pos, weights, side, j) + sum_set_bits(
            pos.pieces[side][j],
            square_weight(weights, side, j),
            0,
        ) - #[trigger] sum_set_bits(pos.pieces[side][j], square_weight(weights, side, j), k)
            <= i16::MAX
}

proof fn lemma_pst_add(
    pos: &Position,
    pos2: &Position,
    weights: [[[i16; 64]; 6]; 2],
    side: int,
    kind: int,
    sq: int,
    n: int,
)
    requires
        0 <= side < 2,
        0 <= kind < 6,
        0 <= sq < 64,
        0 <= n <= 6,
        !bit(pos.pieces[side][kind], sq),
        pos2.pieces[side][kind] == pos.pieces[side][kind] | (1u64 << (sq as u64)),
        forall|k: int| 0 <= k < 6 && k != kind ==> #[trigger] pos2.pieces[side][k]
            == pos.pieces[side][k],
    ensures
        pst_upto(pos2, weights, side, n) == pst_upto(pos, weights, side, n) + (if kind < n {
            weights[side][kind][sq] as int
        } else {
            0
        }),
    decreases n,
{
    if n > 0 {
        lemma_pst_add(pos, pos2, weights, side, kind, sq, n - 1);
        if n - 1 == kind {
            lemma_sum_add_square(pos.pieces[side][kind], sq, square_weight(weights, side, kind));
        } else {
            assert(pos2.pieces[side][n - 1] == pos.pieces[side][n - 1]);
        }
    }
}

proof fn lemma_pst_same(
    pos: &Position,
    pos2: &Position,
    weights: [[[i16; 64]; 6]; 2],
    side: int,
    n: int,
)
    requires
        0 <= side < 2,
        0 <= n <= 6,
        forall|k: int| 0 <= k < 6 ==> #[trigger] pos2.pieces[side][k] == pos.pieces[side][k],
    ensures
        pst_upto(pos2, weights, side, n) == pst_upto(pos, weights, side, n),
    decreases n,
{
    if n > 0 {
        lemma_pst_same(pos, pos2, weights, side, n - 1);
        assert(pos2.pieces[side][n - 1] == pos.pieces[side][n - 1]);
    }
}

/// Each piece scores the weight of its own square: putting one more piece
/// of kind `kind` for side `side` on square `sq`, not yet occupied by that
/// kind, raises that side's piece-square score by `weights[side][kind][sq]`
/// and leaves the other side's score as it was.
pub proof fn lemma_pst_add_piece(
    pos: &Position,
    pos2: &Position,
    weights: [[[i16; 64]; 6]; 2],
    side: int,
    kind: int,
    sq: int,
)
    requires
        0 <= side < 2,
        0 <= kind < 6,
        0 <= sq < 64,
        !bit(pos.pieces[side][kind], sq),
        pos2.pieces[side][kind] == pos.pieces[side][kind] | (1u64 << (sq as u64)),
        forall|s: int, k: int|
            0 <= s < 2 && 0 <= k < 6 && !(s == side && k == kind) ==> #[trigger] pos2.pieces[s][k]
                == pos.pieces[s][k],
    ensures
        pst_score(pos2, weights, side) == pst_score(pos, weights, side)
            + weights[side][kind][sq],
        pst_score(pos2, weights, 1 - side) == pst_score(pos, weights, 1 - side),
{
    assert forall|k: int| 0 <= k < 6 && k != kind implies #[trigger] pos2.pieces[side][k]
        == pos.pieces[side][k] by {
        assert(pos2.pieces[side][k] == pos.pieces[side][k]);
    }
    lemma_pst_add(pos, pos2, weights, side, kind, sq, 6);
    assert forall|k: int| 0 <= k < 6 implies #[trigger] pos2.pieces[1 - side][k]
        == pos.pieces[1 - side][k] by {
        assert(pos2.pieces[1 - side][k] == pos.pieces[1 - side][k]);
    }
    lemma_pst_same(pos, pos2, weights, 1 - side, 6);
}

/// Piece-square scores of both sides computed from scratch: each piece
/// scores the weight `weights[side][kind][square]` of its square.
pub fn calc_pst(pos: &Position, weights: &[[[i16; 64]; 6]; 2]) -> (r: [i16; 2])
    requires
        pst_fits(pos, *weights, 0),
        pst_fits(pos, *weights, 1),
    ensures
        r[0] == pst_score(pos, *weights, 0),
        r[1] == pst_score(pos, *weights, 1),
{
    let mut scores: [i16; 2] = [0; 2];
    let mut i: usize = 0;
    while i < 2
        invariant
            i <= 2,
            pst_fits(pos, *weights, 0),
            pst_fits(pos, *weights, 1),
            forall|s: int| 0 <= s < i ==> #[trigger] scores[s] == pst_score(pos, *weights, s),
        decreases 2 - i,
    {
        let side = pos.pieces[i];
        let mut score: i16 = 0;
        let mut j: usize = 0;
        while j < 6
            invariant
                i < 2,
                j <= 6,
                side == pos.pieces[i as int],
                pst_fits(pos, *weights, i as int),
                score == pst_upto(pos, *weights, i as int, j as int),
            decreases 6 - j,
        {
            let mut piece = side[j];
            let ghost orig = piece;
            let ghost f = square_weight(*weights, i as int, j as int);
            let ghost mut k: int = 0;
            proof {
                assert(sum_set_bits(orig, f, 0) - sum_set_bits(orig, f, 0) == 0);
            }
            while piece > 0
                invariant
                    i < 2,
                    j < 6,
                    orig == pos.pieces[i as int][j as int],
                    f == square_weight(*weights, i as int, j as int),
                    pst_fits(pos, *weights, i as int),
                    0 <= k <= 64,
                    forall|x: int| 0 <= x < 64 ==> #[trigger] bit(piece, x) == (x >= k && bit(orig, x)),
                    score == pst_upto(pos, *weights, i as int, j as int) + sum_set_bits(orig, f, 0)
                        - sum_set_bits(orig, f, k),
                decreases piece,
            {
                let idx = ls1b_scan(piece) as usize;
                proof {
                    let next = piece & ((piece - 1) as u64);
                    let t = lowest_bit(piece);
                    lemma_clear_lowest_suffix(orig, piece, k);
                    lemma_sum_clear_lowest(piece, f, 0);
                    lemma_sum_skip_clear(piece, f, 0, k);
                    lemma_sum_same_bits(piece, orig, f, k);
                    lemma_sum_skip_clear(next, f, 0, t + 1);
                    lemma_sum_same_bits(next, orig, f, t + 1);
                    assert(i16::MIN <= pst_upto(pos, *weights, i as int, j as int) + sum_set_bits(
                        orig,
                        f,
                        0,
                    ) - sum_set_bits(orig, f, t + 1) <= i16::MAX);
                    assert(next < piece) by (bit_vector)
                        requires piece != 0, next == piece & ((piece - 1) as u64);
                    k = t + 1;
                }
                score += weights[i][j][idx];
                piece &= piece - 1;
            }
            proof {
                assert forall|x: int| k <= x < 64 implies !#[trigger] bit(orig, x) by {
                    assert(bit(piece, x) == (x >= k && bit(orig, x)));
                    lemma_no_bit_of_zero(x);
                }
                lemma_sum_skip_clear(orig, f, k, 64);
            }
            j += 1;
        }
        scores[i] = score;
        i += 1;
    }
    scores
}

/// Blends a middlegame and an endgame score by phase.
pub fn taper(phase: i32, mg: i16, eg: i16) -> (r: i16)
    requires
        taper_fits(phase as int, mg as int, eg as int),
    ensures
        r == taper_value(phase as int, mg as int, eg as int) as i16,
{
    ((phase * mg as i32 + (TOTALPHASE - phase) * eg as i32) / TOTALPHASE) as i16
}

/// A blend at a phase between zero and `TOTALPHASE` lies between the two
/// scores it blends: at the full phase it is the middlegame score, at phase
/// zero the endgame score, and its intermediate values fit in 32 bits.
pub proof fn lemma_taper_between(phase: int, mg: int, eg: int)
    requires
        0 <= phase <= TOTALPHASE,
        i16::MIN <= mg <= i16::MAX,
        i16::MIN <= eg <= i16::MAX,
    ensures
        taper_fits(phase, mg, eg),
        (if mg <= eg { mg } else { eg }) <= taper_value(phase, mg, eg),
        taper_value(phase, mg, eg) <= (if mg <= eg { eg } else { mg }),
        phase == TOTALPHASE ==> taper_value(phase, mg, eg) == mg,
        phase == 0 ==> taper_value(phase, mg, eg) == eg,
{
    let t = TOTALPHASE as int;
    let lo = if mg <= eg { mg } else { eg };
    let hi = if mg <= eg { eg } else { mg };
    let x = phase * mg + (t - phase) * eg;
    assert(t * lo <= x <= t * hi) by (nonlinear_arith)
        requires
            0 <= phase <= t,
            lo <= mg <= hi,
            lo <= eg <= hi,
            x == phase * mg + (t - phase) * eg,
    ;
    assert(-32768 * 24 <= phase * mg <= 32768 * 24) by (nonlinear_arith)
        requires 0 <= phase <= 24, -32768 <= mg <= 32767;
    assert(-32768 * 24 <= (t - phase) * eg <= 32768 * 24) by (nonlinear_arith)
        requires 0 <= t - phase <= 24, -32768 <= eg <= 32767;
    if phase == t {
        assert(x == t * mg) by (nonlinear_arith)
            requires phase == t, x == phase * mg + (t - phase) * eg;
        assert(trunc_div(t * mg, t) == mg) by (nonlinear_arith)
            requires t == 24;
    }
    assert(lo <= trunc_div(x, t) <= hi) by (nonlinear_arith)
        requires
            t == 24,
            t * lo <= x <= t * hi,
    {
        if x >= 0 {
            assert(x / t <= hi);
            assert(lo <= x / t);
        } else {
            assert((-x) / t <= -lo);
            assert(-hi <= (-x) / t);
        }
    }
}

/// Sign applied to a white-relative score for the side to move.
pub const SIDE_FACTOR: [i16; 3] = [1, -1, 0];

/// White-minus-black difference of a pair of side scores.
pub open spec fn side_diff(scores: [i16; 2]) -> int {
    scores[0] - scores[1]
}

/// The side difference of a middlegame and of an endgame pair of scores,
/// blended by phase, as a 16-bit score.
pub open spec fn factor_value(phase: int, mg: [i16; 2], eg: [i16; 2]) -> int {
    taper_value(phase, side_diff(mg), side_diff(eg)) as i16 as int
}

/// The differences fit in 16 bits and their blend in 32-bit arithmetic.
pub open spec fn factor_fits(phase: int, mg: [i16; 2], eg: [i16; 2]) -> bool {
    &&& i16::MIN <= side_diff(mg) <= i16::MAX
    &&& i16::MIN <= side_diff(eg) <= i16::MAX
    &&& taper_fits(phase, side_diff(mg), side_diff(eg))
}

/// Blends the white-minus-black differences of a middlegame and an endgame
/// pair of scores by phase.
pub fn eval_factor(phase: i32, mg: [i16; 2], eg: [i16; 2]) -> (r: i16)
    requires
        factor_fits(phase as int, mg, eg),
    ensures
        r == factor_value(phase as int, mg, eg),
{
    let eval_mg = mg[0] - mg[1];
    let eval_eg = eg[0] - eg[1];
    taper(phase, eval_mg, eval_eg)
}

/// Counters of pawn-hash hits and misses during evaluation.
pub struct EvalStats {
    pub pwn_hits: u64,
    pub pwn_misses: u64,
}

/// The evaluation state of a position: the board, its game phase, and the
/// incrementally kept material and piece-square scores of each side.
pub struct Engine {
    pub board: Position,
    pub phase: i16,
    pub mat_mg: [i16; 2],
    pub mat_eg: [i16; 2],
    pub pst_mg: [i16; 2],
    pub pst_eg: [i16; 2],
    pub pawnhash: u64,
    pub stats: EvalStats,
}

/// Number of pawns of `pawns` on file `file`.
pub open spec fn file_count(pawns: u64, file: int) -> int {
    popcount(FILES[file] & pawns)
}

/// Pawns standing on the first `files` files with another pawn of the side on the same file.
pub open spec fn doubled_count(pawns: u64, files: int) -> int
    decreases files,
{
    if files <= 0 {
        0
    } else {
        doubled_count(pawns, files - 1) + (if file_count(pawns, files - 1) > 1 {
            file_count(pawns, files - 1)
        } else {
            0
        })
    }
}

/// Files among the first `files` that hold pawns while neither neighbouring file does.
pub open spec fn isolated_count(pawns: u64, files: int) -> int
    decreases files,
{
    if files <= 0 {
        0
    } else {
        isolated_count(pawns, files - 1) + (if file_count(pawns, files - 1) > 0 && popcount(
            RAILS[files - 1] & pawns,
        ) == 0 {
            1int
        } else {
            0int
        })
    }
}

/// One for a pawn of `side` on `sq` with no enemy pawn ahead of it on its own or an adjacent file.
pub open spec fn passed_weight(side: int, enemies: u64) -> spec_fn(int) -> int {
    |sq: int| if popcount(IN_FRONT[side][sq] & enemies) == 0 { 1int } else { 0int }
}

/// The number of pawns of `own` diagonally adjacent to `sq`.
pub open spec fn chain_weight(own: u64) -> spec_fn(int) -> int {
    |sq: int| popcount(CHAINS[sq] & own)
}

/// The pawns of `side` on `board`.
pub open spec fn side_pawns(board: Position, side: int) -> u64 {
    board.pieces[side][0]
}

pub open spec fn doubled_pawns(board: Position, side: int) -> int {
    doubled_count(side_pawns(board, side), 8)
}

pub open spec fn isolated_pawns(board: Position, side: int) -> int {
    isolated_count(side_pawns(board, side), 8)
}

pub open spec fn passed_pawns(board: Position, side: int) -> int {
    sum_set_bits(side_pawns(board, side), passed_weight(side, side_pawns(board, 1 - side)), 0)
}

pub open spec fn chained_pawns(board: Position, side: int) -> int {
    sum_set_bits(side_pawns(board, side), chain_weight(side_pawns(board, side)), 0)
}

/// Middlegame pawn-structure score of `side`.
pub open spec fn pawn_mg(board: Position, side: int) -> int {
    doubled_pawns(board, side) * DOUBLED_MG + isolated_pawns(board, side) * ISOLATED_MG
        + passed_pawns(board, side) * PASSED_MG + chained_pawns(board, side) * CHAINED_MG
}

/// Endgame pawn-structure score of `side`.
pub open spec fn pawn_eg(board: Position, side: int) -> int {
    doubled_pawns(board, side) * DOUBLED_EG + isolated_pawns(board, side) * ISOLATED_EG
        + passed_pawns(board, side) * PASSED_EG + chained_pawns(board, side) * CHAINED_EG
}

/// Pawn-structure score of `side`, blended by phase.
pub open spec fn pawn_score(board: Position, side: int, phase: int) -> int {
    taper_value(phase, pawn_mg(board, side), pawn_eg(board, side)) as i16 as int
}

proof fn lemma_count_steps(pawns: u64, files: int)
    requires
        0 <= files <= 8,
    ensures
        0 <= doubled_count(pawns, files) <= 64 * files,
        0 <= isolated_count(pawns, files) <= files,
    decreases files,
{
    if files > 0 {
        lemma_count_steps(pawns, files - 1);
        lemma_popcount_bounds(FILES[files - 1] & pawns, 0);
    }
}

/// The pawn-structure counts lie within what 64 squares and 8 files allow,
/// so both pawn-structure scores stay within 21440 in magnitude.
pub proof fn lemma_pawn_terms_bounds(board: Position, side: int)
    requires
        0 <= side < 2,
    ensures
        0 <= doubled_pawns(board, side) <= 512,
        0 <= isolated_pawns(board, side) <= 8,
        0 <= passed_pawns(board, side) <= 64,
        0 <= chained_pawns(board, side) <= 4096,
        -21440 <= pawn_mg(board, side) <= 21440,
        -21440 <= pawn_eg(board, side) <= 21440,
{
    let own = side_pawns(board, side);
    let enemies = side_pawns(board, 1 - side);
    lemma_count_steps(own, 8);
    let pw = passed_weight(side, enemies);
    let cw = chain_weight(own);
    assert forall|i: int| 0 <= i < 64 implies 0 <= #[trigger] pw(i) <= 1 by {}
    assert forall|i: int| 0 <= i < 64 implies 0 <= #[trigger] cw(i) <= 64 by {
        lemma_popcount_bounds(CHAINS[i] & own, 0);
    }
    lemma_sum_bounds(own, pw, 0, 1);
    lemma_sum_bounds(own, cw, 0, 64);
}

/// The phase used for blending: the engine's phase, capped at `TOTALPHASE`.
pub open spec fn eval_phase(e: &Engine) -> int {
    if e.phase > TOTALPHASE {
        TOTALPHASE as int
    } else {
        e.phase as int
    }
}

/// The pawn-structure difference computed from the board: white's score minus black's.
pub open spec fn pawn_diff(e: &Engine) -> int {
    pawn_score(e.board, 0, eval_phase(e)) - pawn_score(e.board, 1, eval_phase(e))
}

/// The pawn-structure term: the score the table holds under the engine's
/// pawn hash, else the difference computed from the board.
pub open spec fn pawn_term(e: &Engine, slots: Seq<(u16, i16)>) -> int {
    match probe(slots, e.pawnhash) {
        Some(entry) => entry.1 as int,
        None => pawn_diff(e),
    }
}

/// Material, piece-square and pawn terms, summed in that order.
pub open spec fn eval_sum(e: &Engine, slots: Seq<(u16, i16)>) -> int {
    factor_value(eval_phase(e), e.mat_mg, e.mat_eg) + factor_value(eval_phase(e), e.pst_mg, e.pst_eg)
        + pawn_term(e, slots)
}

/// The static evaluation: the white-relative sum of the terms, signed for
/// the side to move.
pub open spec fn static_value(e: &Engine, slots: Seq<(u16, i16)>) -> int {
    SIDE_FACTOR[e.board.side_to_move as int] * eval_sum(e, slots)
}

/// Every intermediate 16- and 32-bit value of the evaluation fits its type.
pub open spec fn static_eval_fits(e: &Engine, slots: Seq<(u16, i16)>) -> bool {
    let mat = factor_value(eval_phase(e), e.mat_mg, e.mat_eg);
    let pst = factor_value(eval_phase(e), e.pst_mg, e.pst_eg);
    &&& e.board.side_to_move < 3
    &&& factor_fits(eval_phase(e), e.mat_mg, e.mat_eg)
    &&& factor_fits(eval_phase(e), e.pst_mg, e.pst_eg)
    &&& probe(slots, e.pawnhash) is None ==> i16::MIN <= pawn_diff(e) <= i16::MAX
    &&& i16::MIN <= mat + pst <= i16::MAX
    &&& i16::MIN <= eval_sum(e, slots) <= i16::MAX
    &&& i16::MIN <= static_value(e, slots) <= i16::MAX
}

/// Whether the pawn term is read from the table or computed from the board
/// and then stored, the evaluation is the same: after a miss stores the
/// computed term, the same evaluation reads back that very term.
pub proof fn lemma_static_value_after_store(e: &Engine, slots: Seq<(u16, i16)>)
    requires
        slots.len() > 0,
        probe(slots, e.pawnhash) is None,
        i16::MIN <= pawn_diff(e) <= i16::MAX,
    ensures
        probe(stored(slots, e.pawnhash, pawn_diff(e) as i16), e.pawnhash) is Some,
        static_value(e, stored(slots, e.pawnhash, pawn_diff(e) as i16)) == static_value(e, slots),
{
    crate::pawn::lemma_probe_after_store(slots, e.pawnhash, pawn_diff(e) as i16);
}

/// The table slots after an evaluation: unchanged on a hit; on a miss the
/// computed pawn term is stored under the engine's pawn hash.
pub open spec fn slots_after_eval(e: &Engine, slots: Seq<(u16, i16)>) -> Seq<(u16, i16)> {
    if probe(slots, e.pawnhash) is Some {
        slots
    } else {
        stored(slots, e.pawnhash, pawn_diff(e) as i16)
    }
}

/// Evaluating twice in a row gives the same score: the second evaluation
/// finds the pawn term the first one found or stored, leaves the table as
/// it is, and can itself be made.
pub proof fn lemma_static_eval_repeatable(e: &Engine, slots: Seq<(u16, i16)>)
    requires
        slots.len() > 0,
        static_eval_fits(e, slots),
    ensures
        slots_after_eval(e, slots).len() == slots.len(),
        probe(slots_after_eval(e, slots), e.pawnhash) is Some,
        static_eval_fits(e, slots_after_eval(e, slots)),
        static_value(e, slots_after_eval(e, slots)) == static_value(e, slots),
        slots_after_eval(e, slots_after_eval(e, slots)) == slots_after_eval(e, slots),
{
    if probe(slots, e.pawnhash) is None {
        lemma_static_value_after_store(e, slots);
    }
}

/// Evaluating the position with black to move right after evaluating it
/// with white to move, on the same table, gives the opposite score.
pub proof fn lemma_static_eval_side_symmetry_in_turn(
    white: &Engine,
    black: &Engine,
    slots: Seq<(u16, i16)>,
)
    requires
        slots.len() > 0,
        static_eval_fits(white, slots),
        white.board.side_to_move == 0,
        black.board.side_to_move == 1,
        black.board.pieces == white.board.pieces,
        black.phase == white.phase,
        black.mat_mg == white.mat_mg,
        black.mat_eg == white.mat_eg,
        black.pst_mg == white.pst_mg,
        black.pst_eg == white.pst_eg,
        black.pawnhash == white.pawnhash,
    ensures
        static_value(black, slots_after_eval(white, slots)) == -static_value(white, slots),
{
    lemma_static_eval_repeatable(white, slots);
    lemma_static_value_side_symmetry(white, black, slots_after_eval(white, slots));
}

/// The sign of the evaluation for each side to move: plus for white, minus
/// for black.
pub open spec fn side_sign(side_to_move: usize) -> int {
    if side_to_move == 0 {
        1
    } else if side_to_move == 1 {
        -1
    } else {
        0
    }
}

/// At full phase the evaluation is the side-to-move sign times the sum of
/// the white-minus-black middlegame material, the white-minus-black
/// middlegame piece-square score and the pawn term; at phase zero the same
/// with the endgame scores.
pub proof fn lemma_static_value_end_phases(e: &Engine, slots: Seq<(u16, i16)>)
    requires
        e.board.side_to_move < 3,
        i16::MIN <= e.mat_mg[0] - e.mat_mg[1] <= i16::MAX,
        i16::MIN <= e.mat_eg[0] - e.mat_eg[1] <= i16::MAX,
        i16::MIN <= e.pst_mg[0] - e.pst_mg[1] <= i16::MAX,
        i16::MIN <= e.pst_eg[0] - e.pst_eg[1] <= i16::MAX,
    ensures
        e.phase >= TOTALPHASE ==> static_value(e, slots) == side_sign(e.board.side_to_move) * (
        (e.mat_mg[0] - e.mat_mg[1]) + (e.pst_mg[0] - e.pst_mg[1]) + pawn_term(e, slots)),
        e.phase == 0 ==> static_value(e, slots) == side_sign(e.board.side_to_move) * ((e.mat_eg[0]
            - e.mat_eg[1]) + (e.pst_eg[0] - e.pst_eg[1]) + pawn_term(e, slots)),
{
    let p = eval_phase(e);
    let mat = factor_value(p, e.mat_mg, e.mat_eg);
    let pst = factor_value(p, e.pst_mg, e.pst_eg);
    assert(SIDE_FACTOR[0] == 1 && SIDE_FACTOR[1] == -1 && SIDE_FACTOR[2] == 0);
    assert(SIDE_FACTOR[e.board.side_to_move as int] == side_sign(e.board.side_to_move));
    assert(static_value(e, slots) == side_sign(e.board.side_to_move) * (mat + pst + pawn_term(
        e,
        slots,
    )));
    if e.phase >= TOTALPHASE {
        lemma_taper_between(p, side_diff(e.mat_mg), side_diff(e.mat_eg));
        lemma_taper_between(p, side_diff(e.pst_mg), side_diff(e.pst_eg));
        assert(mat == side_diff(e.mat_mg));
        assert(pst == side_diff(e.pst_mg));
    }
    if e.phase == 0 {
        lemma_taper_between(p, side_diff(e.mat_mg), side_diff(e.mat_eg));
        lemma_taper_between(p, side_diff(e.pst_mg), side_diff(e.pst_eg));
        assert(mat == side_diff(e.mat_eg));
        assert(pst == side_diff(e.pst_eg));
    }
}

/// Each piece-square point counts in the evaluation: at full phase,
/// raising white's middlegame piece-square score by `d`, all else equal,
/// raises a white-to-move evaluation by `d`.
pub proof fn lemma_static_value_pst_delta(e1: &Engine, e2: &Engine, slots: Seq<(u16, i16)>, d: int)
    requires
        e1.board == e2.board,
        e1.board.side_to_move == 0,
        e1.phase == e2.phase,
        e1.phase >= TOTALPHASE,
        e1.pawnhash == e2.pawnhash,
        e1.mat_mg == e2.mat_mg,
        e1.mat_eg == e2.mat_eg,
        e1.pst_eg == e2.pst_eg,
        e2.pst_mg[1] == e1.pst_mg[1],
        e2.pst_mg[0] == e1.pst_mg[0] + d,
        i16::MIN <= e1.mat_mg[0] - e1.mat_mg[1] <= i16::MAX,
        i16::MIN <= e1.mat_eg[0] - e1.mat_eg[1] <= i16::MAX,
        i16::MIN <= e1.pst_mg[0] - e1.pst_mg[1] <= i16::MAX,
        i16::MIN <= e2.pst_mg[0] - e2.pst_mg[1] <= i16::MAX,
        i16::MIN <= e1.pst_eg[0] - e1.pst_eg[1] <= i16::MAX,
    ensures
        static_value(e2, slots) == static_value(e1, slots) + d,
{
    lemma_static_value_end_phases(e1, slots);
    lemma_static_value_end_phases(e2, slots);
    assert(pawn_term(e2, slots) == pawn_term(e1, slots));
}

/// The evaluation is relative to the side to move: the same position with
/// white to move and with black to move gets opposite scores.
pub proof fn lemma_static_value_side_symmetry(
    white: &Engine,
    black: &Engine,
    slots: Seq<(u16, i16)>,
)
    requires
        white.board.side_to_move == 0,
        black.board.side_to_move == 1,
        black.board.pieces == white.board.pieces,
        black.phase == white.phase,
        black.mat_mg == white.mat_mg,
        black.mat_eg == white.mat_eg,
        black.pst_mg == white.pst_mg,
        black.pst_eg == white.pst_eg,
        black.pawnhash == white.pawnhash,
    ensures
        static_value(black, slots) == -static_value(white, slots),
{
    assert forall|side: int| 0 <= side < 2 implies side_pawns(black.board, side) == side_pawns(
        white.board,
        side,
    ) by {}
    assert(pawn_score(black.board, 0, eval_phase(black)) == pawn_score(
        white.board,
        0,
        eval_phase(white),
    ));
    assert(pawn_score(black.board, 1, eval_phase(black)) == pawn_score(
        white.board,
        1,
        eval_phase(white),
    ));
    assert(pawn_diff(black) == pawn_diff(white));
    assert(pawn_term(black, slots) == pawn_term(white, slots));
    assert(eval_sum(black, slots) == eval_sum(white, slots));
    assert(SIDE_FACTOR[0] == 1 && SIDE_FACTOR[1] == -1);
    let v = eval_sum(white, slots);
    assert(static_value(white, slots) == v);
    assert(static_value(black, slots) == -1 * v);
}

/// The pawn-structure terms read only the pawns: doubled, isolated and
/// chained pawns of a side depend only on that side's pawns, and passed
/// pawns on that side's and the enemy's pawns, whatever else the boards hold.
pub proof fn lemma_pawn_terms_read_pawns(b1: Position, b2: Position, side: int)
    requires
        0 <= side < 2,
        side_pawns(b1, side) == side_pawns(b2, side),
    ensures
        doubled_pawns(b1, side) == doubled_pawns(b2, side),
        isolated_pawns(b1, side) == isolated_pawns(b2, side),
        chained_pawns(b1, side) == chained_pawns(b2, side),
        side_pawns(b1, 1 - side) == side_pawns(b2, 1 - side) ==> passed_pawns(b1, side)
            == passed_pawns(b2, side),
{
}

/// A side with at most one pawn on each file has no doubled pawns.
pub proof fn lemma_no_doubled_when_files_single(board: Position, side: int)
    requires
        0 <= side < 2,
        forall|f: int| 0 <= f < 8 ==> #[trigger] file_count(side_pawns(board, side), f) <= 1,
    ensures
        doubled_pawns(board, side) == 0,
{
    lemma_doubled_single(side_pawns(board, side), 8);
}

proof fn lemma_doubled_single(pawns: u64, files: int)
    requires
        0 <= files <= 8,
        forall|f: int| 0 <= f < 8 ==> #[trigger] file_count(pawns, f) <= 1,
    ensures
        doubled_count(pawns, files) == 0,
    decreases files,
{
    if files > 0 {
        lemma_doubled_single(pawns, files - 1);
        assert(file_count(pawns, files - 1) <= 1);
    }
}

/// With no enemy pawns on the board every pawn of the side is passed: the
/// passed count is the number of the side's pawns.
pub proof fn lemma_passed_without_enemies(board: Position, side: int)
    requires
        0 <= side < 2,
        side_pawns(board, 1 - side) == 0,
    ensures
        passed_pawns(board, side) == popcount(side_pawns(board, side)),
{
    let w = passed_weight(side, 0);
    assert forall|i: int| 0 <= i < 64 implies #[trigger] w(i) == unit_weight()(i) by {
        let m = IN_FRONT[side][i];
        assert(m & 0u64 == 0u64) by (bit_vector);
        lemma_sum_empty(unit_weight(), 0);
    }
    lemma_sum_same_weights(side_pawns(board, side), w, unit_weight(), 0);
}

/// Only enemy pawns stop a pawn from being passed: with the enemy pawns
/// fixed, the passed count over two sets of the side's pawns with no square
/// in common is the sum of their passed counts, so a pawn of the side's own
/// colour ahead of a pawn never changes whether that pawn is passed.
pub proof fn lemma_passed_additive(b1: Position, b2: Position, b3: Position, side: int)
    requires
        0 <= side < 2,
        side_pawns(b1, 1 - side) == side_pawns(b3, 1 - side),
        side_pawns(b2, 1 - side) == side_pawns(b3, 1 - side),
        side_pawns(b1, side) & side_pawns(b2, side) == 0,
        side_pawns(b3, side) == side_pawns(b1, side) | side_pawns(b2, side),
    ensures
        passed_pawns(b3, side) == passed_pawns(b1, side) + passed_pawns(b2, side),
{
    lemma_sum_disjoint_union(
        side_pawns(b1, side),
        side_pawns(b2, side),
        passed_weight(side, side_pawns(b3, 1 - side)),
        0,
    );
}

/// At any phase from -32768 up to `TOTALPHASE` the blend of the pawn
/// scores stays within 32-bit arithmetic.
pub proof fn lemma_pawn_taper_fits(board: Position, side: int, phase: int)
    requires
        0 <= side < 2,
        -32768 <= phase <= TOTALPHASE,
    ensures
        taper_fits(phase, pawn_mg(board, side), pawn_eg(board, side)),
{
    lemma_pawn_terms_bounds(board, side);
    let mg = pawn_mg(board, side);
    let eg = pawn_eg(board, side);
    let t = TOTALPHASE as int;
    assert(taper_fits(phase, mg, eg)) by (nonlinear_arith)
        requires
            -32768 <= phase <= 24,
            t == 24,
            -21440 <= mg <= 21440,
            -21440 <= eg <= 21440,
    ;
}

proof fn lemma_counts_of_no_pawns(files: int)
    requires
        0 <= files <= 8,
    ensures
        doubled_count(0, files) == 0,
        isolated_count(0, files) == 0,
    decreases files,
{
    if files > 0 {
        lemma_counts_of_no_pawns(files - 1);
        let m = FILES[files - 1];
        assert(m & 0u64 == 0u64) by (bit_vector);
        lemma_sum_empty(unit_weight(), 0);
    }
}

/// A side without pawns has no pawn-structure score, whatever the enemy
/// pawns, at every phase whose blend fits in 32 bits.
pub proof fn lemma_no_pawns_no_score(board: Position, side: int, phase: int)
    requires
        0 <= side < 2,
        side_pawns(board, side) == 0,
        fits_i32(TOTALPHASE - phase),
    ensures
        pawn_mg(board, side) == 0,
        pawn_eg(board, side) == 0,
        taper_fits(phase, pawn_mg(board, side), pawn_eg(board, side)),
        pawn_score(board, side, phase) == 0,
{
    lemma_counts_of_no_pawns(8);
    lemma_sum_empty(passed_weight(side, side_pawns(board, 1 - side)), 0);
    lemma_sum_empty(chain_weight(0), 0);
    lemma_taper_equal(phase, 0);
}

/// Equal middlegame and endgame scores blend to themselves at every phase.
pub proof fn lemma_taper_equal(phase: int, x: int)
    ensures
        taper_value(phase, x, x) == x,
{
    let t = TOTALPHASE as int;
    assert(phase * x + (t - phase) * x == t * x) by (nonlinear_arith);
    assert(trunc_div(t * x, t) == x) by (nonlinear_arith)
        requires t == 24;
}

/// Swapping the sides negates a blended difference, wherever the blend is
/// a 16-bit value other than `i16::MIN`.
pub proof fn lemma_eval_factor_side_swap(
    phase: int,
    mg: [i16; 2],
    eg: [i16; 2],
    mg_swapped: [i16; 2],
    eg_swapped: [i16; 2],
)
    requires
        mg_swapped[0] == mg[1],
        mg_swapped[1] == mg[0],
        eg_swapped[0] == eg[1],
        eg_swapped[1] == eg[0],
        i16::MIN < taper_value(phase, side_diff(mg), side_diff(eg)) <= i16::MAX,
    ensures
        factor_value(phase, mg_swapped, eg_swapped) == -factor_value(phase, mg, eg),
{
    let t = TOTALPHASE as int;
    let x = side_diff(mg);
    let y = side_diff(eg);
    assert(side_diff(mg_swapped) == -x);
    assert(side_diff(eg_swapped) == -y);
    let a = phase * x + (t - phase) * y;
    assert(phase * (-x) + (t - phase) * (-y) == -a) by (nonlinear_arith)
        requires a == phase * x + (t - phase) * y;
    assert(trunc_div(-a, t) == -trunc_div(a, t));
}

impl Engine {
    /// Static evaluation of the position from the side to move's point of
    /// view. The pawn-structure term is read from `table` under the pawn
    /// hash; on a miss it is computed and stored there. With `STATS`, the
    /// hit or miss is counted.
    pub fn static_eval<const STATS: bool>(&mut self, table: &mut PawnHashTable) -> (r: i16)
        requires
            old(table).wf(),
            old(table)@.len() > 0,
            static_eval_fits(&*old(self), old(table)@),
            STATS && probe(old(table)@, old(self).pawnhash) is Some ==> old(self).stats.pwn_hits
                < u64::MAX,
            STATS && probe(old(table)@, old(self).pawnhash) is None ==> old(self).stats.pwn_misses
                < u64::MAX,
        ensures
            r == static_value(&*old(self), old(table)@),
            final(table).wf(),
            final(table)@ == slots_after_eval(&*old(self), old(table)@),
            probe(old(table)@, old(self).pawnhash) is Some ==> final(table)@ == old(table)@
                && final(table).filled_count() == old(table).filled_count(),
            probe(old(table)@, old(self).pawnhash) is None ==> final(table)@ == stored(
                old(table)@,
                old(self).pawnhash,
                pawn_diff(&*old(self)) as i16,
            ) && final(table).filled_count() == filled_after(
                old(table)@,
                old(table).filled_count(),
                old(self).pawnhash,
            ),
            final(self).board == old(self).board,
            final(self).phase == old(self).phase,
            final(self).mat_mg == old(self).mat_mg,
            final(self).mat_eg == old(self).mat_eg,
            final(self).pst_mg == old(self).pst_mg,
            final(self).pst_eg == old(self).pst_eg,
            final(self).pawnhash == old(self).pawnhash,
            final(self).stats.pwn_hits == old(self).stats.pwn_hits + if STATS && probe(
                old(table)@,
                old(self).pawnhash,
            ) is Some {
                1int
            } else {
                0int
            },
            final(self).stats.pwn_misses == old(self).stats.pwn_misses + if STATS && probe(
                old(table)@,
                old(self).pawnhash,
            ) is None {
                1int
            } else {
                0int
            },
    {
        let mut phase = self.phase as i32;
        if phase > TOTALPHASE {
            phase = TOTALPHASE
        };
        let mat = eval_factor(phase, self.mat_mg, self.mat_eg);
        let pst = eval_factor(phase, self.pst_mg, self.pst_eg);
        let pwn: i16;
        if let Some(val) = table.get(self.pawnhash) {
            if STATS {
                self.stats.pwn_hits += 1
            }
            pwn = val.score;
        } else {
            if STATS {
                self.stats.pwn_misses += 1
            }
            proof {
                lemma_pawn_taper_fits(self.board, 0, phase as int);
                lemma_pawn_taper_fits(self.board, 1, phase as int);
            }
            pwn = self.side_pawn_score(0, phase) - self.side_pawn_score(1, phase);
            table.push(self.pawnhash, pwn);
        }
        SIDE_FACTOR[self.board.side_to_move] * (mat + pst + pwn)
    }

    /// Pawn-structure score of `side`: doubled, isolated, passed and chained
    /// pawns weighted and blended by phase.
    pub fn side_pawn_score(&self, side: usize, phase: i32) -> (r: i16)
        requires
            side < 2,
            taper_fits(
                phase as int,
                pawn_mg(self.board, side as int),
                pawn_eg(self.board, side as int),
            ),
        ensures
            r == pawn_score(self.board, side as int, phase as int),
    {
        let mut doubled: i16 = 0;
        let mut isolated: i16 = 0;
        let mut passed: i16 = 0;
        let mut chained: i16 = 0;
        let mut pawns = self.board.pieces[side][0];
        let ghost own = pawns;
        // doubled and isolated pawns
        for file in 0..8
            invariant
                pawns == own,
                own == side_pawns(self.board, side as int),
                doubled == doubled_count(own, file as int),
                isolated == isolated_count(own, file as int),
                0 <= doubled <= 64 * file,
                0 <= isolated <= file,
        {
            let count = count_ones(FILES[file] & pawns);
            if count > 1 {
                doubled += count as i16;
            }
            if count > 0 {
                let rail_count = count_ones(RAILS[file] & pawns);
                if rail_count == 0 {
                    isolated += 1;
                }
            }
        }
        // chained and passed pawns
        let other = side ^ 1;
        proof {
            assert(side ^ 1 == 1 - side) by (bit_vector)
                requires side < 2;
        }
        let enemies = self.board.pieces[other][0];
        let ghost pw = passed_weight(side as int, enemies);
        let ghost cw = chain_weight(own);
        proof {
            lemma_pawn_terms_bounds(self.board, side as int);
            assert forall|i: int| 0 <= i < 64 implies 0 <= #[trigger] pw(i) <= 1 by {}
            assert forall|i: int| 0 <= i < 64 implies 0 <= #[trigger] cw(i) <= 64 by {
                lemma_popcount_bounds(CHAINS[i] & own, 0);
            }
        }
        while pawns > 0
            invariant
                side < 2,
                own == side_pawns(self.board, side as int),
                own == self.board.pieces[side as int][0],
                enemies == side_pawns(self.board, 1 - side),
                pw == passed_weight(side as int, enemies),
                cw == chain_weight(own),
                forall|i: int| 0 <= i < 64 ==> 0 <= #[trigger] pw(i) <= 1,
                forall|i: int| 0 <= i < 64 ==> 0 <= #[trigger] cw(i) <= 64,
                passed + sum_set_bits(pawns, pw, 0) == passed_pawns(self.board, side as int),
                chained + sum_set_bits(pawns, cw, 0) == chained_pawns(self.board, side as int),
                0 <= passed_pawns(self.board, side as int) <= 64,
                0 <= chained_pawns(self.board, side as int) <= 4096,
                0 <= passed,
                0 <= chained,
            decreases pawns,
        {
            let pawn = ls1b_scan(pawns) as usize;
            proof {
                lemma_sum_clear_lowest(pawns, pw, 0);
                lemma_sum_clear_lowest(pawns, cw, 0);
                lemma_sum_bounds(pawns & ((pawns - 1) as u64), pw, 0, 1);
                lemma_sum_bounds(pawns & ((pawns - 1) as u64), cw, 0, 64);
                assert(pawns & ((pawns - 1) as u64) < pawns) by (bit_vector)
                    requires pawns != 0;
            }
            chained += count_ones(CHAINS[pawn] & self.board.pieces[side][0]) as i16;
            let enemies_ahead = count_ones(IN_FRONT[side][pawn] & enemies);
            if enemies_ahead == 0 {
                passed += 1;
            }
            pawns &= pawns - 1;
        }
        proof {
            lemma_sum_empty(pw, 0);
            lemma_sum_empty(cw, 0);
        }
        // score
        let mg = doubled * DOUBLED_MG + isolated * ISOLATED_MG + passed * PASSED_MG + chained
            * CHAINED_MG;
        let eg = doubled * DOUBLED_EG + isolated * ISOLATED_EG + passed * PASSED_EG + chained
            * CHAINED_EG;
        taper(phase, mg, eg)
    }
}

} // verus!
