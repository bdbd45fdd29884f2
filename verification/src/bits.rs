//! Bitboard primitives: bits, population counts and sums over set bits.

use vstd::prelude::*;

verus! {

use vstd::std_specs::bits::{u64_trailing_zeros, axiom_u64_trailing_zeros};

/// Whether square `i` (bit `i`) is set in the bitboard `x`.
pub open spec fn bit(x: u64, i: int) -> bool {
    (x >> (i as u64)) & 1u64 == 1u64
}

/// The sum of `f(i)` over the squares `i` in `from..64` that are set in `x`.
pub open spec fn sum_set_bits(x: u64, f: spec_fn(int) -> int, from: int) -> int
    decreases 64 - from,
{
    if from >= 64 {
        0
    } else {
        (if bit(x, from) { f(from) } else { 0 }) + sum_set_bits(x, f, from + 1)
    }
}

/// The constant weight one, so that a sum of it over set bits counts them.
pub open spec fn unit_weight() -> spec_fn(int) -> int {
    |i: int| 1int
}

/// The number of set bits of `x`.
pub open spec fn popcount(x: u64) -> int {
    sum_set_bits(x, unit_weight(), 0)
}

/// The index of the lowest set bit of `x` (64 for zero).
pub open spec fn lowest_bit(x: u64) -> int {
    u64_trailing_zeros(x) as int
}

proof fn lemma_clear_lowest_bit_bits(x: u64, t: u64, i: u64)
    by (bit_vector)
    requires
        x != 0,
        t < 64,
        i < 64,
        (x >> t) & 1u64 == 1u64,
        x << ((64 - t) as u64) == 0,
    ensures
        ((x & ((x - 1) as u64)) >> i) & 1u64 == (if i == t { 0u64 } else { (x >> i) & 1u64 }),
{
}

proof fn lemma_bit_one_or_zero(x: u64, i: u64)
    by (bit_vector)
    ensures
        (x >> i) & 1u64 == 1u64 || (x >> i) & 1u64 == 0u64,
{
}

/// Clearing the lowest set bit of a nonzero bitboard removes exactly that
/// square from any sum over its set bits.
pub proof fn lemma_sum_clear_lowest(x: u64, f: spec_fn(int) -> int, from: int)
    requires
        x != 0,
        0 <= from <= 64,
    ensures
        0 <= lowest_bit(x) < 64,
        bit(x, lowest_bit(x)),
        sum_set_bits(x, f, from) == (if from <= lowest_bit(x) { f(lowest_bit(x)) } else { 0 })
            + sum_set_bits(x & ((x - 1) as u64), f, from),
    decreases 64 - from,
{
    axiom_u64_trailing_zeros(x);
    let t = u64_trailing_zeros(x) as u64;
    let y = x & ((x - 1) as u64);
    if from < 64 {
        lemma_sum_clear_lowest(x, f, from + 1);
        let i = from as u64;
        lemma_clear_lowest_bit_bits(x, t, i);
        lemma_bit_one_or_zero(x, i);
        if i < t {
            assert((x >> i) & 1u64 == 0u64);
        }
        assert(bit(y, from) == (bit(x, from) && from != t));
    }
}

/// The empty bitboard has no square set.
pub proof fn lemma_no_bit_of_zero(i: int)
    ensures
        !bit(0, i),
{
    let iu = i as u64;
    assert((0u64 >> iu) & 1u64 == 0u64) by (bit_vector);
}

/// The sum over the set bits of the empty bitboard is zero.
pub proof fn lemma_sum_empty(f: spec_fn(int) -> int, from: int)
    ensures
        sum_set_bits(0, f, from) == 0,
    decreases 64 - from,
{
    if from < 64 {
        let i = from as u64;
        assert((0u64 >> i) & 1u64 == 0u64) by (bit_vector);
        lemma_sum_empty(f, from + 1);
    }
}

/// A population count over `from..64` lies between zero and the number of squares.
pub proof fn lemma_popcount_bounds(x: u64, from: int)
    requires
        0 <= from <= 64,
    ensures
        0 <= sum_set_bits(x, unit_weight(), from) <= 64 - from,
    decreases 64 - from,
{
    if from < 64 {
        lemma_popcount_bounds(x, from + 1);
    }
}

proof fn lemma_clear_lowest_decreases(x: u64)
    by (bit_vector)
    requires
        x != 0,
    ensures
        x & ((x - 1) as u64) < x,
{
}

/// A sum of weights between zero and `b` over the set bits in `from..64`
/// lies between zero and `b` times the number of squares.
pub proof fn lemma_sum_bounds(x: u64, f: spec_fn(int) -> int, from: int, b: int)
    requires
        0 <= from <= 64,
        forall|i: int| 0 <= i < 64 ==> 0 <= #[trigger] f(i) <= b,
    ensures
        0 <= sum_set_bits(x, f, from) <= b * (64 - from),
    decreases 64 - from,
{
    if from < 64 {
        lemma_sum_bounds(x, f, from + 1, b);
        let rest = sum_set_bits(x, f, from + 1);
        let here = if bit(x, from) { f(from) } else { 0 };
        assert(0 <= f(from) <= b);
        assert(0 <= here <= b);
        assert(here + rest <= b * (64 - from)) by (nonlinear_arith)
            requires here <= b, rest <= b * (64 - (from + 1));
    }
}

/// Sums over two bitboards that agree on the squares `from..64` are equal.
pub proof fn lemma_sum_same_bits(a: u64, b: u64, f: spec_fn(int) -> int, from: int)
    requires
        0 <= from <= 64,
        forall|i: int| from <= i < 64 ==> #[trigger] bit(a, i) == bit(b, i),
    ensures
        sum_set_bits(a, f, from) == sum_set_bits(b, f, from),
    decreases 64 - from,
{
    if from < 64 {
        assert(bit(a, from) == bit(b, from));
        lemma_sum_same_bits(a, b, f, from + 1);
    }
}

/// A sum over `from..64` equals the sum over `to..64` when no square of
/// `from..to` is set.
pub proof fn lemma_sum_skip_clear(a: u64, f: spec_fn(int) -> int, from: int, to: int)
    requires
        0 <= from <= to <= 64,
        forall|i: int| from <= i < to ==> !#[trigger] bit(a, i),
    ensures
        sum_set_bits(a, f, from) == sum_set_bits(a, f, to),
    decreases to - from,
{
    if from < to {
        assert(!bit(a, from));
        lemma_sum_skip_clear(a, f, from + 1, to);
    }
}

/// Clearing the lowest set bit `t` of `cur`, where `cur` holds exactly the
/// squares of `orig` from `k` on, leaves exactly the squares of `orig` from
/// `t + 1` on.
pub proof fn lemma_clear_lowest_suffix(orig: u64, cur: u64, k: int)
    requires
        cur != 0,
        0 <= k <= 64,
        forall|i: int| 0 <= i < 64 ==> #[trigger] bit(cur, i) == (i >= k && bit(orig, i)),
    ensures
        k <= lowest_bit(cur) < 64,
        forall|i: int|
            0 <= i < 64 ==> #[trigger] bit(cur & ((cur - 1) as u64), i) == (i >= lowest_bit(cur) + 1
                && bit(orig, i)),
{
    axiom_u64_trailing_zeros(cur);
    let t = u64_trailing_zeros(cur) as u64;
    assert(bit(cur, t as int));
    assert forall|i: int| 0 <= i < 64 implies #[trigger] bit(cur & ((cur - 1) as u64), i) == (i
        >= t + 1 && bit(orig, i)) by {
        let iu = i as u64;
        lemma_clear_lowest_bit_bits(cur, t, iu);
        lemma_bit_one_or_zero(cur, iu);
        assert(bit(cur, i) == (i >= k && bit(orig, i)));
        if i < t {
            assert((cur >> iu) & 1u64 == 0u64);
        }
    }
}

proof fn lemma_or_bits(a: u64, b: u64, i: u64)
    by (bit_vector)
    requires
        i < 64,
    ensures
        ((a | b) >> i) & 1u64 == 1u64 <==> ((a >> i) & 1u64 == 1u64 || (b >> i) & 1u64 == 1u64),
        a & b == 0u64 ==> !((a >> i) & 1u64 == 1u64 && (b >> i) & 1u64 == 1u64),
{
}

proof fn lemma_single_bit(sq: u64, i: u64)
    by (bit_vector)
    requires
        sq < 64,
        i < 64,
    ensures
        ((1u64 << sq) >> i) & 1u64 == 1u64 <==> i == sq,
{
}

/// A sum over the union of two bitboards with no square in common is the
/// sum over the one plus the sum over the other.
pub proof fn lemma_sum_disjoint_union(a: u64, b: u64, f: spec_fn(int) -> int, from: int)
    requires
        a & b == 0,
        0 <= from <= 64,
    ensures
        sum_set_bits(a | b, f, from) == sum_set_bits(a, f, from) + sum_set_bits(b, f, from),
    decreases 64 - from,
{
    if from < 64 {
        lemma_or_bits(a, b, from as u64);
        lemma_sum_disjoint_union(a, b, f, from + 1);
    }
}

/// The sum over a single square is the weight of that square.
pub proof fn lemma_sum_single(sq: int, f: spec_fn(int) -> int, from: int)
    requires
        0 <= sq < 64,
        0 <= from <= 64,
    ensures
        sum_set_bits(1u64 << (sq as u64), f, from) == if from <= sq { f(sq) } else { 0 },
    decreases 64 - from,
{
    if from < 64 {
        lemma_single_bit(sq as u64, from as u64);
        lemma_sum_single(sq, f, from + 1);
    }
}

/// Adding a square that is not yet set adds its weight to the sum.
pub proof fn lemma_sum_add_square(x: u64, sq: int, f: spec_fn(int) -> int)
    requires
        0 <= sq < 64,
        !bit(x, sq),
    ensures
        sum_set_bits(x | (1u64 << (sq as u64)), f, 0) == sum_set_bits(x, f, 0) + f(sq),
{
    let s = sq as u64;
    lemma_bit_one_or_zero(x, s);
    assert(x & (1u64 << s) == 0u64) by (bit_vector)
        requires s < 64, (x >> s) & 1u64 == 0u64;
    lemma_sum_disjoint_union(x, 1u64 << s, f, 0);
    lemma_sum_single(sq, f, 0);
}

/// The empty bitboard has no set bits, and setting a square that is not
/// yet set adds exactly one set bit.
pub proof fn lemma_popcount_add_square(x: u64, sq: int)
    requires
        0 <= sq < 64,
        !bit(x, sq),
    ensures
        popcount(0) == 0,
        popcount(x | (1u64 << (sq as u64))) == popcount(x) + 1,
{
    lemma_sum_empty(unit_weight(), 0);
    lemma_sum_add_square(x, sq, unit_weight());
}

/// Sums with weights that agree on every square are equal.
pub proof fn lemma_sum_same_weights(x: u64, f: spec_fn(int) -> int, g: spec_fn(int) -> int, from: int)
    requires
        0 <= from <= 64,
        forall|i: int| 0 <= i < 64 ==> #[trigger] f(i) == g(i),
    ensures
        sum_set_bits(x, f, from) == sum_set_bits(x, g, from),
    decreases 64 - from,
{
    if from < 64 {
        assert(f(from) == g(from));
        lemma_sum_same_weights(x, f, g, from + 1);
    }
}

/// Index of the lowest set bit of a bitboard; 64 for the empty one.
pub fn ls1b_scan(x: u64) -> (r: u32)
    ensures
        r == lowest_bit(x),
        x == 0 ==> r == 64,
        x != 0 ==> r < 64 && bit(x, r as int),
        forall|i: int| 0 <= i < r ==> !#[trigger] bit(x, i),
{
    proof {
        axiom_u64_trailing_zeros(x);
    }
    x.trailing_zeros()
}

/// Number of set bits of `x`.
pub fn count_ones(x: u64) -> (r: u32)
    ensures
        r == popcount(x),
        r <= 64,
{
    let mut p = x;
    let mut c: u32 = 0;
    proof {
        lemma_popcount_bounds(x, 0);
    }
    while p != 0
        invariant
            c + popcount(p) == popcount(x),
            popcount(x) <= 64,
        decreases p,
    {
        proof {
            lemma_sum_clear_lowest(p, unit_weight(), 0);
            lemma_popcount_bounds(p & ((p - 1) as u64), 0);
            lemma_clear_lowest_decreases(p);
        }
        c = c + 1;
        p = p & (p - 1);
    }
    proof {
        lemma_sum_empty(unit_weight(), 0);
    }
    c
}

} // verus!
