//! Cutoffs from transposition-table entries.

use vstd::prelude::*;

verus! {

/// Kinds of score bound a transposition-table entry records.
pub struct Bound;

impl Bound {
    pub const INVALID: u8 = 0;
    pub const LOWER: u8 = 1;
    pub const UPPER: u8 = 2;
    pub const EXACT: u8 = 3;
}

/// A transposition-table entry as the search reads it.
pub struct HashResult {
    pub key: u16,
    pub best_move: u16,
    pub score: i16,
    pub depth: u8,
    pub bound: u8,
}

/// The value a stored entry allows the search to return at once: its
/// score when exact, `beta` when it is a lower bound at or above `beta`,
/// `alpha` when it is an upper bound at or below `alpha`; nothing when the
/// entry was searched shallower than `depth`, or one shallower for an
/// exact entry.
pub open spec fn prune_value(res: HashResult, depth: u8, alpha: i16, beta: i16) -> Option<i16> {
    let needed = depth - (if res.bound == Bound::EXACT { 1int } else { 0int });
    if res.depth >= needed {
        if res.bound == Bound::EXACT {
            Some(res.score)
        } else if res.bound == Bound::LOWER && res.score >= beta {
            Some(beta)
        } else if res.bound == Bound::UPPER && res.score <= alpha {
            Some(alpha)
        } else {
            None
        }
    } else {
        None
    }
}

/// Based on a hash result and given search parameters returns
/// `Some(value)` if pruning is appropriate, else `None`.
pub fn tt_prune(res: HashResult, depth: u8, alpha: i16, beta: i16) -> (r: Option<i16>)
    requires
        depth > 0 || res.bound != Bound::EXACT,
    ensures
        r == prune_value(res, depth, alpha, beta),
{
    let exact: u8 = if res.bound == Bound::EXACT { 1 } else { 0 };
    if res.depth >= depth - exact {
        if res.bound == Bound::EXACT {
            return Some(res.score);
        } else if res.bound == Bound::LOWER {
            if res.score >= beta {
                return Some(beta);
            }
        } else if res.bound == Bound::UPPER {
            if res.score <= alpha {
                return Some(alpha);
            }
        }
    }
    None
}

/// When an entry prunes: an exact entry searched at least one ply less
/// than required prunes with its score; a lower bound searched as deep as
/// required prunes with `beta` once its score reaches `beta`; an upper
/// bound searched as deep as required prunes with `alpha` once its score is
/// at most `alpha`. A shallower entry, a bound on the wrong side of the
/// window, or an entry of another kind never prunes.
pub proof fn lemma_prune_cases(res: HashResult, depth: u8, alpha: i16, beta: i16)
    ensures
        res.bound == 3 && res.depth + 1 >= depth ==> prune_value(res, depth, alpha, beta) == Some(
            res.score,
        ),
        res.bound == 1 && res.depth >= depth && res.score >= beta ==> prune_value(
            res,
            depth,
            alpha,
            beta,
        ) == Some(beta),
        res.bound == 2 && res.depth >= depth && res.score <= alpha ==> prune_value(
            res,
            depth,
            alpha,
            beta,
        ) == Some(alpha),
        res.bound == 3 && res.depth + 1 < depth ==> prune_value(res, depth, alpha, beta) is None,
        res.bound != 3 && res.depth < depth ==> prune_value(res, depth, alpha, beta) is None,
        res.bound == 1 && res.score < beta ==> prune_value(res, depth, alpha, beta) is None,
        res.bound == 2 && res.score > alpha ==> prune_value(res, depth, alpha, beta) is None,
        res.bound != 1 && res.bound != 2 && res.bound != 3 ==> prune_value(res, depth, alpha, beta)
            is None,
{
}

/// Pruning is monotone in the required depth: an entry that prunes at some
/// required depth prunes with the same value at every smaller one.
pub proof fn lemma_prune_monotone(res: HashResult, depth: u8, shallower: u8, alpha: i16, beta: i16)
    requires
        shallower <= depth,
        prune_value(res, depth, alpha, beta) is Some,
    ensures
        prune_value(res, shallower, alpha, beta) == prune_value(res, depth, alpha, beta),
{
}

/// A cutoff value is always the entry's own score or an edge of the
/// window: a lower bound prunes only at `beta` and an upper bound only at
/// `alpha`, and an entry marked neither never prunes.
pub proof fn lemma_prune_value_source(res: HashResult, depth: u8, alpha: i16, beta: i16)
    ensures
        prune_value(res, depth, alpha, beta) matches Some(v) ==> (res.bound == Bound::EXACT
            && v == res.score) || (res.bound == Bound::LOWER && v == beta && res.score >= beta)
            || (res.bound == Bound::UPPER && v == alpha && res.score <= alpha),
        res.bound != Bound::EXACT && res.bound != Bound::LOWER && res.bound != Bound::UPPER
            ==> prune_value(res, depth, alpha, beta) is None,
{
}

} // verus!
