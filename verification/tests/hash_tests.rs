use kimbo::pawn::{PawnHashEntry, PawnHashResult, PawnHashTable};

#[test]
fn new_table_has_size_over_entry_size_slots() {
    let table = PawnHashTable::new(16);
    assert_eq!(table.hashfull(), 0);
    // every slot starts with key 0 and score 0
    assert_eq!(table.get(0), Some(PawnHashResult { key: 0, score: 0 }));
    assert_eq!(table.get(3), Some(PawnHashResult { key: 0, score: 0 }));
    assert_eq!(table.get(0x0001_0000_0000_0000), None);
}

#[test]
fn get_after_push_returns_stored_score() {
    let mut table = PawnHashTable::new(16);
    let hash = 0x0001_0000_0000_0002u64;
    table.push(hash, -7);
    assert_eq!(table.get(hash), Some(PawnHashResult { key: 1, score: -7 }));
    table.push(hash, i16::MIN);
    assert_eq!(table.get(hash), Some(PawnHashResult { key: 1, score: i16::MIN }));
    table.push(hash, i16::MAX);
    assert_eq!(table.get(hash).unwrap().score, i16::MAX);
}

#[test]
fn get_with_other_key_in_same_slot_misses() {
    let mut table = PawnHashTable::new(16);
    table.push(0x0001_0000_0000_0002, 5);
    assert_eq!(table.get(0x0002_0000_0000_0002), None);
    assert_eq!(table.get(0x0001_0000_0000_0006), Some(PawnHashResult { key: 1, score: 5 }));
}

#[test]
fn push_leaves_other_slots_alone() {
    let mut table = PawnHashTable::new(16);
    table.push(0x00aa_0000_0000_0001, 11);
    table.push(0x00bb_0000_0000_0002, 22);
    assert_eq!(table.get(0x00aa_0000_0000_0001), Some(PawnHashResult { key: 0xaa, score: 11 }));
    assert_eq!(table.get(0x00bb_0000_0000_0002), Some(PawnHashResult { key: 0xbb, score: 22 }));
}

#[test]
fn push_overwrites_slot() {
    let mut table = PawnHashTable::new(16);
    table.push(0x00aa_0000_0000_0001, 11);
    table.push(0x00cc_0000_0000_0005, 33);
    assert_eq!(table.get(0x00aa_0000_0000_0001), None);
    assert_eq!(table.get(0x00cc_0000_0000_0001), Some(PawnHashResult { key: 0xcc, score: 33 }));
}

#[test]
fn hashfull_counts_stores_into_zero_key_slots() {
    let mut table = PawnHashTable::new(16);
    table.push(0x0001_0000_0000_0002, 1);
    assert_eq!(table.hashfull(), 250);
    // same slot, key now nonzero: not counted again
    table.push(0x0005_0000_0000_0002, 1);
    assert_eq!(table.hashfull(), 250);
    // key zero into an empty slot: counted, and counted again each time
    table.push(3, 9);
    assert_eq!(table.hashfull(), 500);
    table.push(3, 9);
    assert_eq!(table.hashfull(), 750);
}

#[test]
fn hashfull_of_full_large_table() {
    let mut table = PawnHashTable::new(4000);
    for i in 0..1000u64 {
        table.push((1u64 << 48) | i, 0);
    }
    assert_eq!(table.hashfull(), 1000);
}

#[test]
fn table_of_fewer_bytes_than_an_entry_has_no_slots() {
    let table = PawnHashTable::new(3);
    assert_eq!(table.len(), 0);
    assert_eq!(PawnHashTable::new(16).len(), 4);
    assert_eq!(PawnHashTable::new(19).len(), 4);
}

#[test]
fn default_result_is_zero() {
    let r = PawnHashResult::default();
    assert_eq!(r, PawnHashResult { key: 0, score: 0 });
}

#[test]
fn entry_load_returns_what_store_packed() {
    let mut e = PawnHashEntry::default();
    assert_eq!(e.load(), PawnHashResult { key: 0, score: 0 });
    for (k, sc) in [(1u16, -1i16), (0xffff, i16::MIN), (0x8000, i16::MAX), (42, 0)] {
        e.store(k, sc);
        assert_eq!(e.load(), PawnHashResult { key: k, score: sc });
    }
}

#[test]
fn fill_count_tracks_occupied_slots_under_nonzero_keys() {
    let mut table = PawnHashTable::new(40);
    let hashes = [
        (1u64 << 48) | 3,
        (2u64 << 48) | 3,
        (3u64 << 48) | 7,
        (4u64 << 48) | 13,
        (5u64 << 48) | 17,
        (6u64 << 48) | 9,
    ];
    for h in hashes {
        table.push(h, 1);
    }
    // slots 3, 7, 9 hold nonzero keys: three of ten
    assert_eq!(table.hashfull(), 300);
}
