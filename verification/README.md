# kimbo

Evaluation and move-ordering core of a bitboard chess engine, verified with Verus.

- `src/bits.rs`: set bits of a bitboard, population counts and sums over set
  bits, with the lemmas on clearing the lowest set bit.
- `src/board.rs`: the board as the evaluation reads it and the move encoding.
- `src/consts.rs`: piece values, phase weights, pawn-structure weights and masks.
- `src/eval.rs`: game phase, material, piece-square scores, tapered blending,
  pawn structure and the static evaluation.
- `src/pawn.rs`: the direct-mapped pawn-structure hash table.
- `src/pruning.rs`: cutoffs from transposition-table entries.
- `src/sorting.rs`: move scoring and best-first move picking.

`tests/` exercises the library on concrete positions.
