//! The backing store: fixed-capacity blocks of entries.

use vstd::prelude::*;

use crate::entry::Entry;

verus! {

/// Ceiling of a bound on block capacities. Keeping every capacity below this
/// bound lets capacity sums and the doubling step stay inside `usize`.
pub const MAX_CAPACITY: usize = usize::MAX / 8;

/// The smallest power of two that is at least `n` (and at least 1).
pub open spec fn next_power_of_two(n: nat) -> nat
    decreases n,
{
    if n <= 1 {
        1
    } else {
        2 * next_power_of_two((n + 1) / 2)
    }
}

/// `next_power_of_two` rounds up, and at most doubles (plus a rounding term).
pub proof fn lemma_next_power_of_two_bounds(n: nat)
    ensures
        n <= next_power_of_two(n) || n == 0,
        1 <= next_power_of_two(n),
        n >= 2 ==> next_power_of_two(n) <= 2 * n - 2,
    decreases n,
{
    if n > 1 {
        lemma_next_power_of_two_bounds(((n + 1) / 2) as nat);
    }
}

/// The capacity of a pool's first block: at least 64 entries and at least
/// the configured minimum, rounded up to a power of two.
pub open spec fn first_block_capacity(min_entries: usize) -> nat {
    next_power_of_two(if min_entries < 64 {
        64nat
    } else {
        min_entries as nat
    })
}

/// One contiguous run of entries. A block is bump-allocated: entries up to
/// `entries.len()` have been handed out at least once; the tail up to
/// `capacity` is still untouched. A block never shrinks and never moves its
/// entries.
pub struct Block<T> {
    /// The entries handed out so far, in bump order.
    pub entries: Vec<Entry<T>>,
    /// How many entries this block may hold in total.
    pub capacity: usize,
}

impl<T> Block<T> {
    /// How many entries have been bump-allocated from this block.
    pub open spec fn len_used(&self) -> nat {
        self.entries@.len()
    }

    /// The bump count never exceeds the capacity, and the capacity is small
    /// enough that sums of capacities cannot overflow.
    pub open spec fn wf(&self) -> bool {
        &&& self.entries@.len() <= self.capacity
        &&& self.capacity <= MAX_CAPACITY
    }

    // internal ctor
    fn new(capacity: usize) -> (b: Block<T>)
        ensures
            b.capacity == capacity,
            b.entries@ =~= Seq::<Entry<T>>::empty(),
    {
        Block { entries: Vec::new(), capacity }
    }

    /// Create a new first block, takes `min_entries` as a hint: the block
    /// holds at least `max(64, min_entries)` entries, rounded up to a power
    /// of two.
    pub fn new_first(min_entries: usize) -> (b: Block<T>)
        requires
            4 * min_entries + 130 <= MAX_CAPACITY,
        ensures
            b.entries@ =~= Seq::<Entry<T>>::empty(),
            b.capacity == first_block_capacity(min_entries),
            b.wf(),
    {
        let min = if min_entries < 64 { 64 } else { min_entries };
        proof {
            lemma_next_power_of_two_bounds(min as nat);
        }
        let capacity = next_power_of_two_exec(min);
        Self::new(capacity)
    }

    /// Create a successor block with twice the capacity of `self`.
    pub fn new_next(&self) -> (b: Block<T>)
        requires
            2 * self.capacity <= MAX_CAPACITY,
        ensures
            b.entries@ =~= Seq::<Entry<T>>::empty(),
            b.capacity == 2 * self.capacity,
            b.wf(),
    {
        Self::new(self.capacity * 2)
    }

    /// True when the block's capacity is exhausted.
    pub fn is_full(&self) -> (r: bool)
        ensures
            r == (self.len_used() == self.capacity),
    {
        self.entries.len() == self.capacity
    }

    /// Reserves one entry from the unused capacity and returns its index.
    /// The new entry is handed out unwritten.
    pub fn extend(&mut self) -> (i: usize)
        requires
            old(self).len_used() < old(self).capacity,
        ensures
            i == old(self).len_used(),
            final(self).entries@ =~= old(self).entries@.push(Entry::Uninit),
            final(self).capacity == old(self).capacity,
    {
        let i = self.entries.len();
        self.entries.push(Entry::Uninit);
        i
    }

    /// True when `index` names an entry that this block has handed out.
    pub fn contains_entry(&self, index: usize) -> (r: bool)
        ensures
            r == (index < self.len_used()),
    {
        index < self.entries.len()
    }

    /// Diagnostics: the `(used + free, capacity)` pair of this block.
    pub fn reserved(&self) -> (r: (usize, usize))
        ensures
            r.0 == self.len_used(),
            r.1 == self.capacity,
    {
        (self.entries.len(), self.capacity)
    }
}

/// Computes [`next_power_of_two`].
fn next_power_of_two_exec(n: usize) -> (r: usize)
    requires
        2 * n + 2 <= MAX_CAPACITY,
    ensures
        r == next_power_of_two(n as nat),
    decreases n,
{
    if n <= 1 {
        1
    } else {
        proof {
            lemma_next_power_of_two_bounds(((n + 1) / 2) as nat);
            assert((n as nat + 1) / 2 == (n / 2 + n % 2) as nat);
        }
        2 * next_power_of_two_exec(n / 2 + n % 2)
    }
}

} // verus!
