//! A fixed-size, direct-mapped cache of search results: the slot of a position
//! is its hash modulo the table size, and a store always replaces.

use vstd::prelude::*;
use crate::moves::Move;

verus! {

pub const TABLE_SIZE: usize = 1048576;

#[derive(Clone, Copy, Debug, PartialEq, Eq, Structural)]
pub struct TtEntry {
    pub hash: u64,
    pub depth: u8,
    pub score: i32,
    pub best_move: Move,
}

/// The slot of a hash.
pub open spec fn slot_of(hash: u64) -> int {
    hash as int % 1048576
}

/// What a lookup of `hash` finds in the slots `t`: the entry of its slot, where
/// that entry was stored under this very hash.
pub open spec fn lookup(t: Seq<Option<TtEntry>>, hash: u64) -> Option<TtEntry> {
    match t[slot_of(hash)] {
        Some(e) => if e.hash == hash {
            Some(e)
        } else {
            None
        },
        None => None,
    }
}

/// The slots `t` after `entry` was stored.
pub open spec fn stored(t: Seq<Option<TtEntry>>, entry: TtEntry) -> Seq<Option<TtEntry>> {
    t.update(slot_of(entry.hash), Some(entry))
}

/// A lookup right after a store under the same hash finds the stored entry.
pub proof fn lemma_get_after_store(t: Seq<Option<TtEntry>>, entry: TtEntry)
    requires
        t.len() == TABLE_SIZE,
    ensures
        lookup(stored(t, entry), entry.hash) == Some(entry),
{
}

/// Once another hash of the same slot has been stored, the earlier hash misses.
pub proof fn lemma_miss_after_replace(t: Seq<Option<TtEntry>>, first: TtEntry, second: TtEntry)
    requires
        t.len() == TABLE_SIZE,
        slot_of(first.hash) == slot_of(second.hash),
        first.hash != second.hash,
    ensures
        lookup(stored(stored(t, first), second), first.hash) is None,
{
}

/// A store leaves the lookups of every other slot as they were.
pub proof fn lemma_other_slots_kept(t: Seq<Option<TtEntry>>, entry: TtEntry, hash: u64)
    requires
        t.len() == TABLE_SIZE,
        slot_of(hash) != slot_of(entry.hash),
    ensures
        lookup(stored(t, entry), hash) == lookup(t, hash),
{
}

/// Calls `boxarray::boxarray`, which allocates the array on the heap and writes a
/// clone of its argument into every element: here `None` into every slot.
#[verifier::external_body]
fn empty_slots() -> (table: Box<[Option<TtEntry>; TABLE_SIZE]>)
    ensures
        forall|i: int| 0 <= i < TABLE_SIZE ==> table@[i] is None,
{
    boxarray::boxarray(None)
}

pub struct TranspositionTable {
    table: Box<[Option<TtEntry>; TABLE_SIZE]>,
}

impl View for TranspositionTable {
    type V = Seq<Option<TtEntry>>;

    /// The slots, by index.
    closed spec fn view(&self) -> Seq<Option<TtEntry>> {
        self.table@
    }
}

impl TranspositionTable {
    pub fn new() -> (t: TranspositionTable)
        ensures
            t@.len() == TABLE_SIZE,
            forall|i: int| 0 <= i < TABLE_SIZE ==> t@[i] is None,
            forall|hash: u64| lookup(t@, hash) is None,
    {
        TranspositionTable { table: empty_slots() }
    }

    pub fn store(&mut self, entry: TtEntry)
        ensures
            final(self)@ == stored(old(self)@, entry),
            final(self)@.len() == TABLE_SIZE,
            lookup(final(self)@, entry.hash) == Some(entry),
    {
        let index = (entry.hash % (TABLE_SIZE as u64)) as usize;
        self.table[index] = Some(entry);
    }

    pub fn get(&self, hash: u64) -> (r: Option<&TtEntry>)
        ensures
            self@.len() == TABLE_SIZE,
            r matches Some(e) ==> lookup(self@, hash) == Some(*e),
            r is None ==> lookup(self@, hash) is None,
    {
        let index = (hash % (TABLE_SIZE as u64)) as usize;
        let entry = &self.table[index];
        match entry {
            Some(e) => if e.hash == hash {
                Some(e)
            } else {
                None
            },
            None => None,
        }
    }
}

} // verus!
