//! The bounded rewind buffer: one slot per position of a ring of depth N,
//! each holding the undo records that one block application produced. A valid
//! block spends an outpoint at most once, so a slot holds at most one entry
//! per outpoint and entries are kept in insertion order.
use vstd::prelude::*;
use crate::utxo::{UTXOData, UTXOID};

verus! {

/// What one spent outpoint needs to be restored: the outpoint itself, the
/// indexed address data when the spend was tracked, and the raw transaction
/// bytes when they were cached.
#[derive(Debug)]
pub struct RewindEntry {
    pub id: UTXOID,
    pub data: Option<UTXOData>,
    pub raw: Option<Vec<u8>>,
}

/// The fields of an entry as plain values.
pub open spec fn entry_view(e: RewindEntry) -> (
    (Seq<u8>, u32),
    Option<(Option<Seq<u8>>, u64)>,
    Option<Seq<u8>>,
) {
    (
        (e.id.txid@, e.id.vout),
        match e.data {
            Some(d) => Some(d.data_view()),
            None => None,
        },
        match e.raw {
            Some(r) => Some(r@),
            None => None,
        },
    )
}

pub struct Rewind {
    slots: Vec<Vec<RewindEntry>>,
}

impl View for Rewind {
    type V = Seq<Seq<RewindEntry>>;

    closed spec fn view(&self) -> Seq<Seq<RewindEntry>> {
        self.slots@.map_values(|v: Vec<RewindEntry>| v@)
    }
}

impl Rewind {
    /// A ring of `n` empty slots; `n` is the confirmation horizon.
    pub fn new(n: usize) -> (r: Rewind)
        requires
            n >= 1,
        ensures
            r@.len() == n,
            forall|i: int| 0 <= i < n ==> r@[i] == Seq::<RewindEntry>::empty(),
    {
        let mut slots: Vec<Vec<RewindEntry>> = Vec::new();
        let mut i: usize = 0;
        while i < n
            invariant
                i <= n,
                slots@.len() == i,
                forall|j: int| 0 <= j < i ==> slots@[j]@ == Seq::<RewindEntry>::empty(),
            decreases n - i,
        {
            slots.push(Vec::new());
            i += 1;
        }
        let r = Rewind { slots };
        proof {
            assert(forall|j: int| 0 <= j < n ==> r@[j] == Seq::<RewindEntry>::empty());
        }
        r
    }

    pub fn depth(&self) -> (r: usize)
        ensures
            r == self@.len(),
    {
        self.slots.len()
    }

    /// Empty the slot that a new block application is about to reuse.
    pub fn clear(&mut self, i: usize)
        requires
            i < old(self)@.len(),
        ensures
            final(self)@ == old(self)@.update(i as int, Seq::<RewindEntry>::empty()),
    {
        let s = &mut self.slots[i];
        *s = Vec::new();
        proof {
            assert(self@ =~~= old(self)@.update(i as int, Seq::<RewindEntry>::empty()));
        }
    }

    /// Record one undo entry in a slot.
    pub fn push_entry(&mut self, i: usize, e: RewindEntry)
        requires
            i < old(self)@.len(),
        ensures
            final(self)@ == old(self)@.update(i as int, old(self)@[i as int].push(e)),
    {
        let s = &mut self.slots[i];
        s.push(e);
        proof {
            assert(self@ =~~= old(self)@.update(i as int, old(self)@[i as int].push(e)));
        }
    }

    /// Hand out a slot's entries and leave the slot empty.
    pub fn take_slot(&mut self, i: usize) -> (r: Vec<RewindEntry>)
        requires
            i < old(self)@.len(),
        ensures
            r@ == old(self)@[i as int],
            final(self)@ == old(self)@.update(i as int, Seq::<RewindEntry>::empty()),
    {
        let mut out: Vec<RewindEntry> = Vec::new();
        let s = &mut self.slots[i];
        core::mem::swap(s, &mut out);
        proof {
            assert(self@ =~~= old(self)@.update(i as int, Seq::<RewindEntry>::empty()));
        }
        out
    }

    pub fn entry_count(&self, i: usize) -> (r: usize)
        requires
            i < self@.len(),
        ensures
            r == self@[i as int].len(),
    {
        self.slots[i].len()
    }

    pub fn entry_at(&self, i: usize, j: usize) -> (r: &RewindEntry)
        requires
            i < self@.len(),
            j < self@[i as int].len(),
        ensures
            *r == self@[i as int][j as int],
    {
        &self.slots[i][j]
    }
}

} // verus!
