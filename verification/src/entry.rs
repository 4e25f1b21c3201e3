//! One storage slot of a pool.

use vstd::prelude::*;

verus! {

/// The position of one entry inside a pool: the block it lies in and its
/// index within that block. Entries never move, so a reference stays valid
/// for as long as the pool keeps its blocks.
#[derive(Clone, Copy, PartialEq, Eq, Structural, Debug)]
pub struct EntryRef {
    /// Index of the owning block in the pool's block sequence.
    pub block: usize,
    /// Index of the entry inside that block.
    pub index: usize,
}

/// One slot of a pool. The same slot is reused for different purposes over
/// its lifetime: reserved but not yet written, holding a value, or resting on
/// the freelist with its two neighbour links kept in place of the value.
pub enum Entry<T> {
    /// Reserved by an allocation, not written yet.
    Uninit,
    /// Holds a live value.
    Data(T),
    /// On the freelist; the slot stores its cyclic neighbour links.
    Free {
        /// The previous free entry on the cyclic freelist.
        prev: EntryRef,
        /// The next free entry on the cyclic freelist.
        next: EntryRef,
    },
}

impl<T> Entry<T> {
    /// True when the entry rests on the freelist.
    pub open spec fn is_free(self) -> bool {
        self is Free
    }

    /// True when the entry holds a live value.
    pub open spec fn is_data(self) -> bool {
        self is Data
    }

    /// The value held by a `Data` entry.
    pub open spec fn value(self) -> T
        recommends
            self is Data,
    {
        self->Data_0
    }

    /// Writes new data into a reserved entry. Nothing is dropped: the entry
    /// must still be unwritten, as handed out by an allocation.
    pub fn write(&mut self, val: T)
        requires
            *old(self) is Uninit,
        ensures
            *final(self) == Entry::Data(val),
    {
        *self = Entry::Data(val);
    }
}

} // verus!
