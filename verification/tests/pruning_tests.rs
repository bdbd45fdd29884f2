use kimbo::pruning::{tt_prune, Bound, HashResult};

fn entry(score: i16, depth: u8, bound: u8) -> HashResult {
    HashResult { key: 0, best_move: 0, score, depth, bound }
}

#[test]
fn exact_entry_prunes_one_ply_shallower() {
    assert_eq!(tt_prune(entry(42, 5, Bound::EXACT), 6, -100, 100), Some(42));
    assert_eq!(tt_prune(entry(42, 5, Bound::EXACT), 5, -100, 100), Some(42));
    assert_eq!(tt_prune(entry(42, 5, Bound::EXACT), 7, -100, 100), None);
    assert_eq!(tt_prune(entry(-3, 0, Bound::EXACT), 1, -100, 100), Some(-3));
}

#[test]
fn lower_bound_prunes_at_beta() {
    assert_eq!(tt_prune(entry(100, 5, Bound::LOWER), 5, -50, 50), Some(50));
    assert_eq!(tt_prune(entry(50, 5, Bound::LOWER), 5, -50, 50), Some(50));
    assert_eq!(tt_prune(entry(49, 5, Bound::LOWER), 5, -50, 50), None);
    assert_eq!(tt_prune(entry(100, 4, Bound::LOWER), 5, -50, 50), None);
}

#[test]
fn upper_bound_prunes_at_alpha() {
    assert_eq!(tt_prune(entry(-100, 5, Bound::UPPER), 3, -50, 50), Some(-50));
    assert_eq!(tt_prune(entry(-50, 5, Bound::UPPER), 3, -50, 50), Some(-50));
    assert_eq!(tt_prune(entry(-49, 5, Bound::UPPER), 3, -50, 50), None);
    assert_eq!(tt_prune(entry(-100, 2, Bound::UPPER), 3, -50, 50), None);
}

#[test]
fn invalid_entry_never_prunes() {
    assert_eq!(tt_prune(entry(0, 9, Bound::INVALID), 1, -50, 50), None);
    assert_eq!(tt_prune(entry(0, 9, 7), 0, -50, 50), None);
}
