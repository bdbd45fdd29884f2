//! Move ordering: scoring moves and picking the best-scored one next.

use vstd::prelude::*;

verus! {

use crate::board::{
    EnginePosition, Position, move_squares_valid, move_from, move_to, move_flag, is_capture,
    is_promotion, is_castling,
};

// Move ordering scores
pub const HASH_MOVE: i8 = 125;
pub const PROMOTIONS: [i8; 4] = [95, 85, 90, 100];
pub const CASTLE: i8 = 80;
pub const QUIET: i8 = 0;
pub const MVV_LVA: [[i8; 7]; 7] = [
    [15, 14, 13, 12, 11, 10, 0], // victim PAWN
    [25, 24, 23, 22, 21, 20, 0], // victim KNIGHT
    [35, 34, 33, 32, 31, 30, 0], // victim BISHOP
    [45, 44, 43, 42, 41, 40, 0], // victim ROOK
    [55, 54, 53, 52, 51, 50, 0], // victim QUEEN
    [0, 0, 0, 0, 0, 0, 0], // victim KING (will not be referenced)
    [0, 0, 0, 0, 0, 0, 0], // empty square
];

/// Most valuable victim, least valuable attacker: ten per victim rank
/// (pawn 10 up to queen 50) plus five less the attacker's kind; zero when
/// the victim is a king or no piece, or no piece moves.
pub open spec fn mvv_lva_value(victim: int, attacker: int) -> int {
    if 0 <= victim < 5 && 0 <= attacker < 6 {
        10 * (victim + 1) + 5 - attacker
    } else {
        0
    }
}

/// Most valuable victim first, least valuable attacker next: capturing a
/// more valuable piece (pawn, knight, bishop, rook, queen in rising value)
/// always scores higher, whatever the attackers; for the same victim a less
/// valuable attacker scores higher; capturing a king or an empty square, or
/// a capture with no attacker, scores zero, and every real capture scores
/// between 10 and 55.
pub proof fn lemma_mvv_lva_order(v1: int, v2: int, a1: int, a2: int)
    ensures
        0 <= v1 < v2 < 5 && 0 <= a1 < 6 && 0 <= a2 < 6 ==> mvv_lva_value(v1, a1) < mvv_lva_value(
            v2,
            a2,
        ),
        0 <= v1 < 5 && 0 <= a1 < a2 < 6 ==> mvv_lva_value(v1, a1) > mvv_lva_value(v1, a2),
        !(0 <= v1 < 5 && 0 <= a1 < 6) ==> mvv_lva_value(v1, a1) == 0,
        0 <= v1 < 5 && 0 <= a1 < 6 ==> 10 <= mvv_lva_value(v1, a1) <= 55,
{
}

/// MVV-LVA score of move `m` on `board`.
pub open spec fn capture_score(board: Position, m: u16) -> int {
    mvv_lva_value(board.squares[move_to(m)] as int, board.squares[move_from(m)] as int)
}

/// The ordering score of move `m`, by the first case that applies: the
/// hash move scores `HASH_MOVE`, a capture its MVV-LVA score (at most 55),
/// a promotion the score of its piece (85 to 100), a castle `CASTLE`, and
/// any other move `QUIET`.
pub open spec fn move_score(board: Position, m: u16, hash_move: u16) -> int {
    if m == hash_move {
        HASH_MOVE as int
    } else if is_capture(m) {
        capture_score(board, m)
    } else if is_promotion(m) {
        PROMOTIONS[move_flag(m) % 4] as int
    } else if is_castling(m) {
        CASTLE as int
    } else {
        QUIET as int
    }
}

/// The hash move outranks every other move, and no move scores below a
/// quiet move.
pub proof fn lemma_hash_move_first(board: Position, m: u16, hash_move: u16)
    requires
        m != hash_move,
    ensures
        QUIET <= move_score(board, m, hash_move) < move_score(board, hash_move, hash_move),
        move_score(board, hash_move, hash_move) == HASH_MOVE,
{
    if !is_capture(m) && is_promotion(m) {
        let p = move_flag(m) % 4;
        assert(0 <= p < 4);
    }
}

/// A list of moves.
pub struct MoveList {
    list: Vec<u16>,
}

impl View for MoveList {
    type V = Seq<u16>;

    closed spec fn view(&self) -> Seq<u16> {
        self.list@
    }
}

impl MoveList {
    /// An empty list.
    pub fn new() -> (r: Self)
        ensures
            r@ == Seq::<u16>::empty(),
    {
        MoveList { list: Vec::new() }
    }

    /// Appends a move.
    pub fn push(&mut self, m: u16)
        ensures
            final(self)@ == old(self)@.push(m),
    {
        self.list.push(m);
    }

    /// Number of moves.
    pub fn len(&self) -> (r: usize)
        ensures
            r == self@.len(),
    {
        self.list.len()
    }

    /// Whether the list holds no move.
    pub fn is_empty(&self) -> (r: bool)
        ensures
            r == (self@.len() == 0),
    {
        self.list.len() == 0
    }

    /// The move at `i`.
    pub fn get(&self, i: usize) -> (r: u16)
        requires
            i < self@.len(),
        ensures
            r == self@[i as int],
    {
        self.list[i]
    }

    /// Exchanges the moves at `i` and `j`.
    pub fn swap(&mut self, i: usize, j: usize)
        requires
            i < old(self)@.len(),
            j < old(self)@.len(),
        ensures
            final(self)@ == old(self)@.update(i as int, old(self)@[j as int]).update(
                j as int,
                old(self)@[i as int],
            ),
    {
        let a = self.list[i];
        let b = self.list[j];
        self.list.set(i, b);
        self.list.set(j, a);
    }
}

/// `s` with the entries at `i` and `j` exchanged.
pub open spec fn swap_seq<A>(s: Seq<A>, i: int, j: int) -> Seq<A> {
    s.update(i, s[j]).update(j, s[i])
}

/// Capacity of a score list.
pub const MAX_SCORES: usize = 255;

/// Score list for move list: the scores pushed so far, of which those
/// before `start` have been handed out.
pub struct MoveScores {
    list: [i8; 255],
    len: usize,
    start_idx: usize,
}

impl View for MoveScores {
    type V = Seq<i8>;

    /// The scores pushed so far.
    closed spec fn view(&self) -> Seq<i8> {
        self.list@.subrange(0, self.len as int)
    }
}

impl MoveScores {
    #[verifier::type_invariant]
    spec fn well_formed(&self) -> bool {
        self.start_idx <= self.len <= MAX_SCORES
    }

    /// Index of the first score not yet handed out.
    pub closed spec fn start(&self) -> nat {
        self.start_idx as nat
    }

    /// All entries of the fixed-size score array, pushed or not.
    pub closed spec fn slots(&self) -> Seq<i8> {
        self.list@
    }

    #[inline(always)]
    fn push(&mut self, m: i8)
        requires
            old(self)@.len() < MAX_SCORES,
        ensures
            final(self)@ == old(self)@.push(m),
            final(self).start() == old(self).start(),
            final(self).start() <= final(self)@.len() <= MAX_SCORES,
    {
        proof {
            use_type_invariant(&*self);
        }
        self.list[self.len] = m;
        self.len += 1;
        assert(self@ =~= old(self)@.push(m));
    }

    /// Exchanges entries `i` and `j` of the score array; the number of
    /// pushed scores and the start stay as they were.
    #[inline(always)]
    fn swap_unchecked(&mut self, i: usize, j: usize)
        requires
            i < MAX_SCORES,
            j < MAX_SCORES,
        ensures
            final(self).slots() == swap_seq(old(self).slots(), i as int, j as int),
            final(self)@.len() == old(self)@.len(),
            final(self).start() == old(self).start(),
            i < old(self)@.len() && j < old(self)@.len() ==> final(self)@ == swap_seq(
                old(self)@,
                i as int,
                j as int,
            ),
    {
        proof {
            use_type_invariant(&*self);
        }
        let a = self.list[i];
        let b = self.list[j];
        self.list[i] = b;
        self.list[j] = a;
        proof {
            assert(self.slots() =~= swap_seq(old(self).slots(), i as int, j as int));
            if i < old(self)@.len() && j < old(self)@.len() {
                assert(self@ =~= swap_seq(old(self)@, i as int, j as int));
            }
        }
    }

    /// Number of scores pushed.
    pub fn len(&self) -> (r: usize)
        ensures
            r == self@.len(),
            self.start() <= r <= MAX_SCORES,
    {
        proof {
            use_type_invariant(self);
        }
        self.len
    }

    /// Index of the first score not yet handed out.
    pub fn start_idx(&self) -> (r: usize)
        ensures
            r == self.start(),
            r <= self@.len() <= MAX_SCORES,
    {
        proof {
            use_type_invariant(self);
        }
        self.start_idx
    }

    /// The score at `i`.
    pub fn get(&self, i: usize) -> (r: i8)
        requires
            i < self@.len(),
        ensures
            r == self@[i as int],
    {
        proof {
            use_type_invariant(self);
        }
        self.list[i]
    }
}

impl Default for MoveScores {
    fn default() -> (r: Self)
        ensures
            r@ == Seq::<i8>::empty(),
            r.start() == 0,
            r.slots() == Seq::new(255, |i: int| 0i8),
    {
        let r = Self { list: [0; 255], len: 0, start_idx: 0 };
        assert(r@ =~= Seq::<i8>::empty());
        assert(r.slots() =~= Seq::new(255, |i: int| 0i8));
        r
    }
}

/// Number of moves of `moves` from index `start` on.
pub open spec fn scored_count(moves: Seq<u16>, start: nat) -> int {
    if moves.len() > start {
        moves.len() - start
    } else {
        0
    }
}

impl EnginePosition {
    /// Calculates MVV-LVA score for a move.
    pub fn mvv_lva(&self, m: u16) -> (r: i8)
        requires
            move_squares_valid(self.board, m),
        ensures
            r == capture_score(self.board, m),
    {
        let from_idx = m & 0b111111;
        let to_idx = (m >> 6) & 0b111111;
        assert(from_idx < 64) by (bit_vector)
            requires from_idx == m & 0b111111u16;
        assert(to_idx < 64) by (bit_vector)
            requires to_idx == (m >> 6u16) & 0b111111u16;
        let moved_pc = self.board.squares[from_idx as usize] as usize;
        let captured_pc = self.board.squares[to_idx as usize] as usize;
        MVV_LVA[captured_pc][moved_pc]
    }

    /// Scores moves by the first of these cases that applies:
    /// 1. Hash move
    /// 2. Captures sorted via MVV-LVA
    /// 3. Promotions
    /// 4. Castling
    /// 5. Quiets
    pub fn score_move(&self, m: u16, hash_move: u16, move_hit: &mut bool) -> (r: i8)
        requires
            m != hash_move && is_capture(m) ==> move_squares_valid(self.board, m),
        ensures
            r == move_score(self.board, m, hash_move),
            *final(move_hit) == (*old(move_hit) || m == hash_move),
    {
        if m == hash_move {
            *move_hit = true;
            HASH_MOVE
        } else if is_capture(m) {
            self.mvv_lva(m)
        } else if is_promotion(m) {
            let pc = (m >> 12) & 3;
            assert(pc == (m >> 12u16) % 4) by (bit_vector)
                requires pc == (m >> 12u16) & 3u16;
            PROMOTIONS[pc as usize]
        } else if is_castling(m) {
            CASTLE
        } else {
            QUIET
        }
    }

    /// Pushes the ordering score of each move of `moves` from the score
    /// list's start onwards.
    pub fn score_moves(
        &self,
        moves: &MoveList,
        move_scores: &mut MoveScores,
        hash_move: u16,
        move_hit: &mut bool,
    )
        requires
            forall|k: int|
                old(move_scores).start() <= k < moves@.len() && #[trigger] moves@[k] != hash_move
                    && is_capture(moves@[k]) ==> move_squares_valid(self.board, moves@[k]),
            old(move_scores)@.len() + scored_count(moves@, old(move_scores).start()) <= MAX_SCORES,
        ensures
            final(move_scores)@ == old(move_scores)@ + Seq::new(
                scored_count(moves@, old(move_scores).start()) as nat,
                |k: int| move_score(self.board, moves@[old(move_scores).start() + k], hash_move) as i8,
            ),
            final(move_scores).start() == old(move_scores).start(),
            final(move_scores).start() <= final(move_scores)@.len() <= MAX_SCORES,
            *final(move_hit) == (*old(move_hit) || exists|k: int|
                old(move_scores).start() <= k < moves@.len() && #[trigger] moves@[k] == hash_move),
    {
        proof {
            use_type_invariant(&*move_scores);
        }
        let start = move_scores.start_idx;
        let ghost base = move_scores@;
        let ghost hit0 = *move_hit;
        let mut i = start;
        while i < moves.len()
            invariant
                forall|k: int|
                    start <= k < moves@.len() && #[trigger] moves@[k] != hash_move && is_capture(
                        moves@[k],
                    ) ==> move_squares_valid(self.board, moves@[k]),
                start == old(move_scores).start(),
                base == old(move_scores)@,
                hit0 == *old(move_hit),
                start <= i,
                i == start || i <= moves@.len(),
                move_scores.start() == start,
                base.len() + scored_count(moves@, start as nat) <= MAX_SCORES,
                move_scores@ == base + Seq::new(
                    (i - start) as nat,
                    |k: int| move_score(self.board, moves@[start + k], hash_move) as i8,
                ),
                *move_hit == (hit0 || exists|k: int|
                    start <= k < i && #[trigger] moves@[k] == hash_move),
            decreases moves@.len() - i,
        {
            let m = moves.get(i);
            let sc = self.score_move(m, hash_move, move_hit);
            move_scores.push(sc);
            proof {
                assert(move_scores@ =~= base + Seq::new(
                    (i + 1 - start) as nat,
                    |k: int| move_score(self.board, moves@[start + k], hash_move) as i8,
                ));
                if m == hash_move {
                    assert(moves@[i as int] == hash_move);
                }
            }
            i += 1;
        }
        proof {
            assert(move_scores@ =~= base + Seq::new(
                scored_count(moves@, start as nat) as nat,
                |k: int| move_score(self.board, moves@[start + k], hash_move) as i8,
            ));
        }
    }

    /// Pushes the MVV-LVA score of each move of `moves` from the score
    /// list's start onwards.
    pub fn score_captures(&self, moves: &MoveList, move_scores: &mut MoveScores)
        requires
            forall|k: int|
                old(move_scores).start() <= k < moves@.len() ==> move_squares_valid(
                    self.board,
                    #[trigger] moves@[k],
                ),
            old(move_scores)@.len() + scored_count(moves@, old(move_scores).start()) <= MAX_SCORES,
        ensures
            final(move_scores)@ == old(move_scores)@ + Seq::new(
                scored_count(moves@, old(move_scores).start()) as nat,
                |k: int| capture_score(self.board, moves@[old(move_scores).start() + k]) as i8,
            ),
            final(move_scores).start() == old(move_scores).start(),
            final(move_scores).start() <= final(move_scores)@.len() <= MAX_SCORES,
    {
        proof {
            use_type_invariant(&*move_scores);
        }
        if moves.is_empty() {
            assert(move_scores@ =~= old(move_scores)@ + Seq::new(
                scored_count(moves@, old(move_scores).start()) as nat,
                |k: int| capture_score(self.board, moves@[old(move_scores).start() + k]) as i8,
            ));
            return ;
        }
        proof {
            use_type_invariant(&*move_scores);
        }
        let start = move_scores.start_idx;
        let ghost base = move_scores@;
        let mut i = start;
        while i < moves.len()
            invariant
                forall|k: int|
                    start <= k < moves@.len() ==> move_squares_valid(
                        self.board,
                        #[trigger] moves@[k],
                    ),
                start == old(move_scores).start(),
                base == old(move_scores)@,
                start <= i,
                i == start || i <= moves@.len(),
                move_scores.start() == start,
                base.len() + scored_count(moves@, start as nat) <= MAX_SCORES,
                move_scores@ == base + Seq::new(
                    (i - start) as nat,
                    |k: int| capture_score(self.board, moves@[start + k]) as i8,
                ),
            decreases moves@.len() - i,
        {
            let m = moves.get(i);
            let sc = self.mvv_lva(m);
            move_scores.push(sc);
            proof {
                assert(move_scores@ =~= base + Seq::new(
                    (i + 1 - start) as nat,
                    |k: int| capture_score(self.board, moves@[start + k]) as i8,
                ));
            }
            i += 1;
        }
        proof {
            assert(move_scores@ =~= base + Seq::new(
                scored_count(moves@, start as nat) as nat,
                |k: int| capture_score(self.board, moves@[start + k]) as i8,
            ));
        }
    }
}

/// Index of the first highest score among `s[lo..hi]`.
pub open spec fn first_max(s: Seq<i8>, lo: int, hi: int) -> int
    decreases hi - lo,
{
    if hi <= lo + 1 {
        lo
    } else {
        let b = first_max(s, lo, hi - 1);
        if s[hi - 1] > s[b] {
            hi - 1
        } else {
            b
        }
    }
}

/// The index the next pick takes: the first highest of the scores
/// `s[start..]` not yet handed out.
pub open spec fn pick_index(s: Seq<i8>, start: int) -> int {
    first_max(s, start, s.len() as int)
}

/// Each move paired with its score, for the scored moves.
pub open spec fn pairs(moves: Seq<u16>, scores: Seq<i8>) -> Seq<(u16, i8)> {
    Seq::new(scores.len(), |i: int| (moves[i], scores[i]))
}

/// The moves, with their scores, that picking hands out from `start` on,
/// in the order it hands them out: each pick takes the first highest
/// remaining score and swaps it to the front of the remaining ones.
pub open spec fn picks(moves: Seq<u16>, scores: Seq<i8>, start: int) -> Seq<(u16, i8)>
    decreases scores.len() - start,
{
    if start < 0 || start >= scores.len() {
        Seq::empty()
    } else {
        let b = pick_index(scores, start);
        proof {
            lemma_first_max(scores, start, scores.len() as int);
        }
        seq![(moves[b], scores[b])] + picks(
            swap_seq(moves, b, start),
            swap_seq(scores, b, start),
            start + 1,
        )
    }
}

/// The first maximum of a nonempty range lies in it, no score of the range
/// exceeds it, and every score before it is lower.
pub proof fn lemma_first_max(s: Seq<i8>, lo: int, hi: int)
    requires
        lo < hi,
    ensures
        lo <= first_max(s, lo, hi) < hi,
        forall|k: int| lo <= k < hi ==> #[trigger] s[k] <= s[first_max(s, lo, hi)],
        forall|k: int| lo <= k < first_max(s, lo, hi) ==> #[trigger] s[k] < s[first_max(s, lo, hi)],
    decreases hi - lo,
{
    if hi > lo + 1 {
        lemma_first_max(s, lo, hi - 1);
    }
}

/// A pick hands out a remaining score, the first of the highest remaining ones.
pub proof fn lemma_pick_is_highest(s: Seq<i8>, start: int)
    requires
        0 <= start < s.len(),
    ensures
        start <= pick_index(s, start) < s.len(),
        forall|k: int| start <= k < s.len() ==> #[trigger] s[k] <= s[pick_index(s, start)],
        forall|k: int| start <= k < pick_index(s, start) ==> #[trigger] s[k] < s[pick_index(
            s,
            start,
        )],
{
    lemma_first_max(s, start, s.len() as int);
}

/// After a pick swaps the highest remaining score to the front, every
/// score still remaining is at most the one handed out.
pub proof fn lemma_pick_order(s: Seq<i8>, start: int)
    requires
        0 <= start < s.len(),
    ensures
        ({
            let b = pick_index(s, start);
            let after = swap_seq(s, b, start);
            forall|k: int| start < k < s.len() ==> #[trigger] after[k] <= after[start]
        }),
{
    lemma_pick_is_highest(s, start);
}

/// Swapping two entries only reorders a sequence: it holds the same items
/// as many times as before.
pub proof fn lemma_swap_permutes<A>(s: Seq<A>, i: int, j: int)
    requires
        0 <= i < s.len(),
        0 <= j < s.len(),
    ensures
        swap_seq(s, i, j).to_multiset() == s.to_multiset(),
{
    broadcast use vstd::multiset::group_multiset_axioms;

    let s1 = s.update(i, s[j]);
    vstd::seq_lib::to_multiset_update(s, i, s[j]);
    vstd::seq_lib::to_multiset_update(s1, j, s[i]);
    vstd::seq_lib::to_multiset_contains(s, s[i]);
    assert(s1[j] == s[j]);
    let m = s.to_multiset();
    assert(m.insert(s[j]).remove(s[i]).insert(s[i]).remove(s[j]) =~= m);
}

proof fn lemma_cons_multiset<A>(head: A, rest: Seq<A>)
    ensures
        (seq![head] + rest).to_multiset() == rest.to_multiset().insert(head),
{
    assert(seq![head] + rest =~= rest.insert(0, head));
    vstd::seq_lib::to_multiset_insert(rest, 0, head);
}

proof fn lemma_swap_in_range_multiset<A>(p: Seq<A>, b: int, start: int, len: int)
    requires
        0 <= start <= b < len <= p.len(),
    ensures
        swap_seq(p, b, start).subrange(start, len).to_multiset() == p.subrange(
            start,
            len,
        ).to_multiset(),
        swap_seq(p, b, start).subrange(start, len).to_multiset() == swap_seq(
            p,
            b,
            start,
        ).subrange(start + 1, len).to_multiset().insert(p[b]),
{
    let q = swap_seq(p, b, start);
    assert(q.subrange(start, len) =~= swap_seq(p.subrange(start, len), b - start, 0));
    lemma_swap_permutes(p.subrange(start, len), b - start, 0);
    assert(q.subrange(start, len) =~= seq![p[b]] + q.subrange(start + 1, len));
    lemma_cons_multiset(p[b], q.subrange(start + 1, len));
}

proof fn lemma_in_multiset<A>(a: Seq<A>, b: Seq<A>, x: A)
    requires
        a.to_multiset() == b.to_multiset(),
        a.contains(x),
    ensures
        exists|k: int| 0 <= k < b.len() && b[k] == x,
{
    vstd::seq_lib::to_multiset_contains(a, x);
    vstd::seq_lib::to_multiset_contains(b, x);
}

/// Picking sorts: picking until nothing remains hands out each remaining
/// move exactly once, with its score, and the scores come out from highest
/// to lowest.
pub proof fn lemma_picks_sort(moves: Seq<u16>, scores: Seq<i8>, start: int)
    requires
        0 <= start <= scores.len() <= moves.len(),
    ensures
        picks(moves, scores, start).len() == scores.len() - start,
        picks(moves, scores, start).to_multiset() == pairs(moves, scores).subrange(
            start,
            scores.len() as int,
        ).to_multiset(),
        forall|i: int, j: int|
            0 <= i < j < picks(moves, scores, start).len() ==> #[trigger] picks(
                moves,
                scores,
                start,
            )[i].1 >= #[trigger] picks(moves, scores, start)[j].1,
    decreases scores.len() - start,
{
    let len = scores.len() as int;
    let p = pairs(moves, scores);
    let out = picks(moves, scores, start);
    if start == len {
        assert(p.subrange(start, len) =~= Seq::<(u16, i8)>::empty());
        assert(out =~= Seq::<(u16, i8)>::empty());
    } else {
        let b = pick_index(scores, start);
        lemma_pick_is_highest(scores, start);
        lemma_pick_order(scores, start);
        let m2 = swap_seq(moves, b, start);
        let s2 = swap_seq(scores, b, start);
        let rest = picks(m2, s2, start + 1);
        let head = (moves[b], scores[b]);
        lemma_picks_sort(m2, s2, start + 1);
        let q = pairs(m2, s2);
        assert(q =~= swap_seq(p, b, start));
        assert(out == seq![head] + rest);
        lemma_cons_multiset(head, rest);
        lemma_swap_in_range_multiset(p, b, start, len);
        let qs = q.subrange(start + 1, len);
        assert forall|i: int, j: int| 0 <= i < j < out.len() implies #[trigger] out[i].1
            >= #[trigger] out[j].1 by {
            if i > 0 {
                assert(out[i] == rest[i - 1]);
                assert(out[j] == rest[j - 1]);
            } else {
                let x = rest[j - 1];
                assert(out[j] == x);
                assert(rest.contains(x));
                lemma_in_multiset(rest, qs, x);
                let k = choose|k: int| 0 <= k < qs.len() && qs[k] == x;
                assert(qs[k] == q[start + 1 + k]);
                assert(s2[start + 1 + k] <= s2[start]);
            }
        }
    }
}

/// Move sort function: hands out the move with the first highest score
/// among those not yet handed out, and swaps it, with its score, to the
/// front of the remaining ones. Calls until it returns `None` hand out the
/// moves as `picks` lists them (see `lemma_picks_sort`).
pub fn get_next_move(moves: &mut MoveList, move_scores: &mut MoveScores) -> (r: Option<u16>)
    requires
        old(move_scores).start() < old(move_scores)@.len() ==> pick_index(
            old(move_scores)@,
            old(move_scores).start() as int,
        ) < old(moves)@.len() && old(move_scores).start() < old(moves)@.len(),
    ensures
        final(move_scores).start() <= final(move_scores)@.len() <= MAX_SCORES,
        old(move_scores).start() == old(move_scores)@.len() ==> r is None && final(moves)@ == old(
            moves,
        )@ && final(move_scores)@ == old(move_scores)@ && final(move_scores).start() == old(
            move_scores,
        ).start(),
        old(move_scores).start() < old(move_scores)@.len() ==> {
            let s = old(move_scores)@;
            let start = old(move_scores).start() as int;
            let b = pick_index(s, start);
            &&& r == Some(old(moves)@[b])
            &&& final(moves)@ == swap_seq(old(moves)@, b, start)
            &&& final(move_scores)@ == swap_seq(s, b, start)
            &&& final(move_scores).start() == start + 1
            &&& picks(old(moves)@, s, start) == seq![(old(moves)@[b], s[b])] + picks(
                final(moves)@,
                final(move_scores)@,
                start + 1,
            )
        },
{
    proof {
        use_type_invariant(&*move_scores);
    }
    if move_scores.start_idx == move_scores.len {
        return None;
    }
    let ghost s = move_scores@;
    let start = move_scores.start_idx;
    let len = move_scores.len;
    let mut best_idx: usize = start;
    let mut best_score = i8::MIN;
    let mut i = start;
    while i < len
        invariant
            s == move_scores@,
            len == s.len(),
            start < len,
            start <= i <= len,
            i == start ==> best_idx == start && best_score == i8::MIN,
            i > start ==> best_idx == first_max(s, start as int, i as int),
            i > start ==> best_score == s[first_max(s, start as int, i as int)],
        decreases len - i,
    {
        let score = move_scores.get(i);
        proof {
            if i > start {
                lemma_first_max(s, start as int, i as int);
            }
        }
        if score > best_score {
            best_score = score;
            best_idx = i;
        }
        i += 1;
    }
    proof {
        lemma_first_max(s, start as int, len as int);
    }
    let m = moves.get(best_idx);
    // swap the found element to the front of the remaining ones
    move_scores.swap_unchecked(best_idx, start);
    moves.swap(best_idx, start);
    proof {
        use_type_invariant(&*move_scores);
        assert(move_scores@.len() == len);
    }
    move_scores.start_idx += 1;
    Some(m)
}

} // verus!
