//! A direct-mapped hash table of pawn-structure scores.

use vstd::prelude::*;

verus! {

/// Bytes taken by one table entry.
pub const ENTRY_SIZE: usize = 4;

/// An entry word holds the key in its low 16 bits and the score in its high 16 bits.
pub open spec fn pack(key: u16, score: i16) -> u32 {
    (key as u32) | (((score as u16) as u32) << 16u32)
}

pub open spec fn unpack_key(data: u32) -> u16 {
    data as u16
}

pub open spec fn unpack_score(data: u32) -> i16 {
    (data >> 16u32) as i16
}

/// The key under which a hash is stored: its top 16 bits.
pub open spec fn key_of(hash: u64) -> u16 {
    (hash >> 48u64) as u16
}

/// The slot a hash maps to in a table of `n` entries.
pub open spec fn slot_of(hash: u64, n: int) -> int {
    (hash as usize) as int % n
}

/// The entry found for `hash` in the slots `slots`, if its key matches.
pub open spec fn probe(slots: Seq<(u16, i16)>, hash: u64) -> Option<(u16, i16)> {
    let e = slots[slot_of(hash, slots.len() as int)];
    if e.0 == key_of(hash) {
        Some(e)
    } else {
        None
    }
}

/// The slots after storing `score` for `hash`.
pub open spec fn stored(slots: Seq<(u16, i16)>, hash: u64, score: i16) -> Seq<(u16, i16)> {
    slots.update(slot_of(hash, slots.len() as int), (key_of(hash), score))
}

/// The count of zero-key stores after storing for `hash` into `slots`
/// with `filled` counted before: one more, wrapping at 2^64, when the
/// slot's key was zero.
pub open spec fn filled_after(slots: Seq<(u16, i16)>, filled: u64, hash: u64) -> int {
    if slots[slot_of(hash, slots.len() as int)].0 == 0 {
        (filled + 1) % 0x1_0000_0000_0000_0000
    } else {
        filled as int
    }
}

/// A probe right after a store finds what was stored, under the hash's key.
pub proof fn lemma_probe_after_store(slots: Seq<(u16, i16)>, hash: u64, score: i16)
    requires
        slots.len() > 0,
    ensures
        probe(stored(slots, hash, score), hash) == Some((key_of(hash), score)),
{
}

/// A store leaves every other slot as it was: a probe for a hash that maps
/// elsewhere finds what it found before.
pub proof fn lemma_probe_other_slot(slots: Seq<(u16, i16)>, hash: u64, score: i16, other: u64)
    requires
        slots.len() > 0,
        slot_of(other, slots.len() as int) != slot_of(hash, slots.len() as int),
    ensures
        probe(stored(slots, hash, score), other) == probe(slots, other),
{
}

/// Number of the first `n` slots whose key is not zero.
pub open spec fn occupied(slots: Seq<(u16, i16)>, n: int) -> int
    decreases n,
{
    if n <= 0 {
        0
    } else {
        occupied(slots, n - 1) + (if slots[n - 1].0 != 0 { 1int } else { 0int })
    }
}

/// Number of slots whose key is not zero.
pub open spec fn occupied_slots(slots: Seq<(u16, i16)>) -> int {
    occupied(slots, slots.len() as int)
}

proof fn lemma_unoccupied(slots: Seq<(u16, i16)>, n: int)
    requires
        0 <= n <= slots.len(),
        forall|i: int| 0 <= i < slots.len() ==> #[trigger] slots[i] == (0u16, 0i16),
    ensures
        occupied(slots, n) == 0,
    decreases n,
{
    if n > 0 {
        lemma_unoccupied(slots, n - 1);
    }
}

proof fn lemma_occupied_update(slots: Seq<(u16, i16)>, n: int, i: int, v: (u16, i16))
    requires
        0 <= n <= slots.len(),
        0 <= i < slots.len(),
    ensures
        occupied(slots.update(i, v), n) == occupied(slots, n) - (if i < n && slots[i].0 != 0 {
            1int
        } else {
            0int
        }) + (if i < n && v.0 != 0 {
            1int
        } else {
            0int
        }),
        0 <= occupied(slots, n) <= n,
    decreases n,
{
    if n > 0 {
        lemma_occupied_update(slots, n - 1, i, v);
    }
}

/// The fill count counts occupied slots: while it equals the number of
/// slots with a nonzero key, a store under a nonzero key keeps it so, and
/// it never exceeds the number of slots.
pub proof fn lemma_fill_counts_keys(slots: Seq<(u16, i16)>, filled: u64, hash: u64, score: i16)
    requires
        0 < slots.len() <= u64::MAX,
        filled == occupied_slots(slots),
        key_of(hash) != 0,
    ensures
        filled_after(slots, filled, hash) == occupied_slots(stored(slots, hash, score)),
        occupied_slots(stored(slots, hash, score)) <= slots.len(),
{
    let i = slot_of(hash, slots.len() as int);
    lemma_occupied_update(slots, slots.len() as int, i, (key_of(hash), score));
    lemma_occupied_update(
        stored(slots, hash, score),
        slots.len() as int,
        i,
        (key_of(hash), score),
    );
}

/// Packing a key and a score into an entry word and unpacking it gives both back.
pub proof fn lemma_pack_roundtrip(key: u16, score: i16)
    ensures
        unpack_key(pack(key, score)) == key,
        unpack_score(pack(key, score)) == score,
{
    assert(((key as u32) | (((score as u16) as u32) << 16u32)) as u16 == key) by (bit_vector);
    assert((((key as u32) | (((score as u16) as u32) << 16u32)) >> 16u32) as i16 == score)
        by (bit_vector);
}

/// One table slot.
#[derive(Clone, Copy)]
pub struct PawnHashEntry {
    data: u32,
}

impl PawnHashEntry {
    /// The entry word.
    pub closed spec fn word(&self) -> u32 {
        self.data
    }

    /// Packs `key` and `score` into the entry.
    pub fn store(&mut self, key: u16, score: i16)
        ensures
            final(self).word() == pack(key, score),
    {
        let data = (key as u32) | (((score as u16) as u32) << 16);
        self.data = data;
    }

    /// Unpacks the entry's key and score.
    pub fn load(&self) -> (r: PawnHashResult)
        ensures
            r.key == unpack_key(self.word()),
            r.score == unpack_score(self.word()),
    {
        let data = self.data;
        PawnHashResult { key: data as u16, score: (data >> 16) as i16 }
    }
}

impl Default for PawnHashEntry {
    fn default() -> (r: Self)
        ensures
            r.word() == 0,
    {
        PawnHashEntry { data: 0 }
    }
}

/// A key and the pawn-structure score stored with it.
#[derive(Clone, Copy, Debug, PartialEq, Eq, Structural)]
pub struct PawnHashResult {
    pub key: u16,
    pub score: i16,
}

impl Default for PawnHashResult {
    fn default() -> (r: Self)
        ensures
            r.key == 0,
            r.score == 0,
    {
        PawnHashResult { key: 0, score: 0 }
    }
}

/// A table of `num_entries` slots, each holding a 16-bit key and a score,
/// and a count of stores into slots whose key was zero.
pub struct PawnHashTable {
    table: Vec<PawnHashEntry>,
    num_entries: usize,
    filled: u64,
}

impl View for PawnHashTable {
    type V = Seq<(u16, i16)>;

    /// The key and score held in each slot.
    closed spec fn view(&self) -> Seq<(u16, i16)> {
        self.table@.map_values(|e: PawnHashEntry| (unpack_key(e.word()), unpack_score(e.word())))
    }
}

impl PawnHashTable {
    /// The slot count matches the slots held.
    pub closed spec fn wf(&self) -> bool {
        self.table@.len() == self.num_entries
    }

    /// Count of stores made into a slot whose key was zero.
    pub closed spec fn filled_count(&self) -> u64 {
        self.filled
    }

    /// A table taking `size` bytes: `size / ENTRY_SIZE` empty slots.
    pub fn new(size: usize) -> (r: Self)
        ensures
            r.wf(),
            r@.len() == size / ENTRY_SIZE,
            forall|i: int| 0 <= i < r@.len() ==> #[trigger] r@[i] == (0u16, 0i16),
            r.filled_count() == 0,
            occupied_slots(r@) == 0,
    {
        let num_entries = size / ENTRY_SIZE;
        let mut table: Vec<PawnHashEntry> = Vec::new();
        let mut i: usize = 0;
        while i < num_entries
            invariant
                i <= num_entries,
                table@.len() == i,
                forall|j: int| 0 <= j < i ==> #[trigger] table@[j].word() == 0,
            decreases num_entries - i,
        {
            table.push(PawnHashEntry::default());
            i += 1;
        }
        proof {
            assert(0u32 as u16 == 0u16);
            assert((0u32 >> 16u32) as i16 == 0i16) by (bit_vector);
        }
        let r = Self { table, num_entries, filled: 0 };
        proof {
            lemma_unoccupied(r@, r@.len() as int);
        }
        r
    }

    /// Number of slots.
    pub fn len(&self) -> (r: usize)
        requires
            self.wf(),
        ensures
            r == self@.len(),
    {
        self.num_entries
    }

    /// Stores `score` under the top 16 bits of `hash` in the slot `hash`
    /// maps to, counting the store when that slot's key was zero.
    pub fn push(&mut self, hash: u64, score: i16)
        requires
            old(self).wf(),
            old(self)@.len() > 0,
        ensures
            final(self).wf(),
            final(self)@ == stored(old(self)@, hash, score),
            final(self).filled_count() == filled_after(old(self)@, old(self).filled_count(), hash),
    {
        let key = (hash >> 48) as u16;
        let idx = (hash as usize) % self.num_entries;
        if self.table[idx].data as u16 == 0 {
            self.filled = self.filled.wrapping_add(1);
        }
        let mut entry = PawnHashEntry { data: 0 };
        entry.store(key, score);
        self.table.set(idx, entry);
        proof {
            lemma_pack_roundtrip(key, score);
            assert(self@ =~= stored(old(self)@, hash, score));
        }
    }

    /// The key and score in the slot `zobrist` maps to, when that key is
    /// the top 16 bits of `zobrist`.
    pub fn get(&self, zobrist: u64) -> (r: Option<PawnHashResult>)
        requires
            self.wf(),
            self@.len() > 0,
        ensures
            r == match probe(self@, zobrist) {
                Some(e) => Some(PawnHashResult { key: e.0, score: e.1 }),
                None => None,
            },
    {
        let key = (zobrist >> 48) as u16;
        let idx = (zobrist as usize) % self.num_entries;
        let entry = &self.table[idx];
        let data = entry.load();
        if data.key == key {
            return Some(data);
        }
        None
    }

    /// Per-mille fill of the table: counted stores times 1000 over the number of slots.
    pub fn hashfull(&self) -> (r: u64)
        requires
            self.wf(),
            self@.len() > 0,
            self.filled_count() * 1000 <= u64::MAX,
        ensures
            r == self.filled_count() * 1000 / (self@.len() as int),
            self.filled_count() <= self@.len() ==> r <= 1000,
    {
        proof {
            let f = self.filled_count() as int;
            let n = self@.len() as int;
            assert(f <= n ==> f * 1000 / n <= 1000) by (nonlinear_arith)
                requires n > 0, f >= 0;
        }
        self.filled * 1000 / self.num_entries as u64
    }
}

} // verus!
