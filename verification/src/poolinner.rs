//! The algorithmic core of a pool: the block sequence and the freelist.

use vstd::prelude::*;

use crate::NUM_BLOCKS;
use crate::block::Block;
use crate::block::MAX_CAPACITY;
use crate::block::first_block_capacity;
use crate::entry::Entry;
use crate::entry::EntryRef;

verus! {

/// Index of the cyclic successor of position `i` in a cycle of length `n`.
pub open spec fn next_index(i: int, n: int) -> int {
    if i + 1 == n {
        0
    } else {
        i + 1
    }
}

/// Index of the cyclic predecessor of position `i` in a cycle of length `n`.
pub open spec fn prev_index(i: int, n: int) -> int {
    if i == 0 {
        n - 1
    } else {
        i - 1
    }
}

/// 1 for an entry on the freelist, 0 otherwise.
pub open spec fn free_ind<T>(e: Entry<T>) -> nat {
    if e is Free {
        1
    } else {
        0
    }
}

/// How many entries of `s` are on the freelist.
pub open spec fn seq_free_count<T>(s: Seq<Entry<T>>) -> nat
    decreases s.len(),
{
    if s.len() == 0 {
        0
    } else {
        seq_free_count(s.drop_last()) + free_ind(s.last())
    }
}

/// How many entries of all of `blocks` are on the freelist.
pub open spec fn blocks_free_count<T>(blocks: Seq<Block<T>>) -> nat
    decreases blocks.len(),
{
    if blocks.len() == 0 {
        0
    } else {
        blocks_free_count(blocks.drop_last()) + seq_free_count(blocks.last().entries@)
    }
}

/// Sum of the bump counts of all of `blocks`.
pub open spec fn blocks_used_sum<T>(blocks: Seq<Block<T>>) -> nat
    decreases blocks.len(),
{
    if blocks.len() == 0 {
        0
    } else {
        blocks_used_sum(blocks.drop_last()) + blocks.last().len_used()
    }
}

/// 1 for an entry that is not on the freelist, 0 otherwise.
pub open spec fn live_ind<T>(e: Entry<T>) -> nat {
    if e is Free {
        0
    } else {
        1
    }
}

/// How many entries of `s` are live: bump-allocated and not on the freelist.
pub open spec fn seq_live_count<T>(s: Seq<Entry<T>>) -> nat
    decreases s.len(),
{
    if s.len() == 0 {
        0
    } else {
        seq_live_count(s.drop_last()) + live_ind(s.last())
    }
}

/// How many entries of all of `blocks` are live.
pub open spec fn blocks_live_count<T>(blocks: Seq<Block<T>>) -> nat
    decreases blocks.len(),
{
    if blocks.len() == 0 {
        0
    } else {
        blocks_live_count(blocks.drop_last()) + seq_live_count(blocks.last().entries@)
    }
}

/// Every bump-allocated entry is either live or free: the two counts
/// partition the bump count, in each sequence and over all blocks.
pub proof fn lemma_live_free_partition<T>(blocks: Seq<Block<T>>)
    ensures
        blocks_live_count(blocks) + blocks_free_count(blocks) == blocks_used_sum(blocks),
    decreases blocks.len(),
{
    if blocks.len() > 0 {
        lemma_live_free_partition(blocks.drop_last());
        lemma_seq_partition(blocks.last().entries@);
    }
}

proof fn lemma_seq_partition<T>(s: Seq<Entry<T>>)
    ensures
        seq_live_count(s) + seq_free_count(s) == s.len(),
    decreases s.len(),
{
    if s.len() > 0 {
        lemma_seq_partition(s.drop_last());
    }
}

/// Sum of the capacities of all of `blocks`.
pub open spec fn blocks_capacity_sum<T>(blocks: Seq<Block<T>>) -> nat
    decreases blocks.len(),
{
    if blocks.len() == 0 {
        0
    } else {
        blocks_capacity_sum(blocks.drop_last()) + blocks.last().capacity as nat
    }
}

/// Replacing the entry at one position shifts the freelist count by the
/// difference of the two entries' freelist indicators.
proof fn lemma_seq_free_count_update<T>(s: Seq<Entry<T>>, i: int, e: Entry<T>)
    requires
        0 <= i < s.len(),
    ensures
        seq_free_count(s.update(i, e)) + free_ind(s[i]) == seq_free_count(s) + free_ind(e),
    decreases s.len(),
{
    let t = s.update(i, e);
    if i == s.len() - 1 {
        assert(t.drop_last() =~= s.drop_last());
    } else {
        assert(t.drop_last() =~= s.drop_last().update(i, e));
        assert(t.last() == s.last());
        lemma_seq_free_count_update(s.drop_last(), i, e);
    }
}

/// Appending an entry adds its freelist indicator to the count.
proof fn lemma_seq_free_count_push<T>(s: Seq<Entry<T>>, e: Entry<T>)
    ensures
        seq_free_count(s.push(e)) == seq_free_count(s) + free_ind(e),
{
    assert(s.push(e).drop_last() =~= s);
}

/// Replacing one block shifts the pool-wide freelist count by the difference
/// of the two blocks' counts.
proof fn lemma_blocks_free_count_update<T>(blocks: Seq<Block<T>>, b: int, blk: Block<T>)
    requires
        0 <= b < blocks.len(),
    ensures
        blocks_free_count(blocks.update(b, blk)) + seq_free_count(blocks[b].entries@)
            == blocks_free_count(blocks) + seq_free_count(blk.entries@),
    decreases blocks.len(),
{
    let t = blocks.update(b, blk);
    if b == blocks.len() - 1 {
        assert(t.drop_last() =~= blocks.drop_last());
    } else {
        assert(t.drop_last() =~= blocks.drop_last().update(b, blk));
        assert(t.last() == blocks.last());
        lemma_blocks_free_count_update(blocks.drop_last(), b, blk);
    }
}

/// Appending a block adds its freelist count to the pool-wide count.
proof fn lemma_blocks_free_count_push<T>(blocks: Seq<Block<T>>, blk: Block<T>)
    ensures
        blocks_free_count(blocks.push(blk)) == blocks_free_count(blocks) + seq_free_count(
            blk.entries@,
        ),
{
    assert(blocks.push(blk).drop_last() =~= blocks);
}

/// The pool core. Blocks are appended in order of creation and only the last
/// one still has unused capacity; freed entries are threaded onto a cyclic
/// doubly-linked freelist kept inside the entries themselves. The ghost
/// `free_order` names the freelist's cyclic order, starting at the head.
pub struct PoolInner<T> {
    /// The backing blocks, oldest first.
    pub blocks: Vec<Block<T>>,
    /// Capacity hint for the first block, see [`Block::new_first`].
    pub min_entries: usize,
    /// The head of the freelist, when any entry is free.
    pub freelist: Option<EntryRef>,
    /// The freelist's cyclic order, head first.
    pub free_order: Ghost<Seq<EntryRef>>,
}

impl<T> PoolInner<T> {
    /// The freelist's cyclic order, head first.
    pub open spec fn fl(&self) -> Seq<EntryRef> {
        self.free_order@
    }

    /// True when `r` names an entry that this pool has handed out.
    pub open spec fn valid_ref(&self, r: EntryRef) -> bool {
        &&& r.block < self.blocks@.len()
        &&& r.index < self.blocks@[r.block as int].entries@.len()
    }

    /// The entry named by `r`.
    pub open spec fn entry_of(&self, r: EntryRef) -> Entry<T>
        recommends
            self.valid_ref(r),
    {
        self.blocks@[r.block as int].entries@[r.index as int]
    }

    /// True when `r` names an entry resting on the freelist.
    pub open spec fn is_free(&self, r: EntryRef) -> bool {
        self.valid_ref(r) && self.entry_of(r) is Free
    }

    /// True when `r` names an entry holding a live value.
    pub open spec fn is_data(&self, r: EntryRef) -> bool {
        self.valid_ref(r) && self.entry_of(r) is Data
    }

    /// True when `r` names a reserved, unwritten entry.
    pub open spec fn is_uninit(&self, r: EntryRef) -> bool {
        self.valid_ref(r) && self.entry_of(r) is Uninit
    }

    /// The value stored at `r`.
    pub open spec fn value_of(&self, r: EntryRef) -> T
        recommends
            self.is_data(r),
    {
        self.entry_of(r).value()
    }

    /// Position `i` of the cycle `fl` carries the links that a cyclic
    /// doubly-linked list requires there.
    pub open spec fn wf_cycle_at(&self, fl: Seq<EntryRef>, i: int) -> bool {
        &&& self.valid_ref(fl[i])
        &&& self.entry_of(fl[i]) == (Entry::<T>::Free {
            prev: fl[prev_index(i, fl.len() as int)],
            next: fl[next_index(i, fl.len() as int)],
        })
    }

    /// `fl` names pairwise distinct, valid entries that form a cyclic
    /// doubly-linked list in this pool, threaded through the entries'
    /// own link fields.
    pub open spec fn wf_cycle(&self, fl: Seq<EntryRef>) -> bool {
        &&& forall|i: int| 0 <= i < fl.len() ==> #[trigger] self.wf_cycle_at(fl, i)
        &&& fl.no_duplicates()
    }

    /// The freelist invariant: the ghost order is a well-formed cycle, the
    /// head field names its first element, and every free entry of the pool
    /// is on it.
    pub open spec fn wf_freelist(&self) -> bool {
        &&& self.wf_cycle(self.fl())
        &&& self.freelist is None <==> self.fl().len() == 0
        &&& self.fl().len() > 0 ==> self.freelist == Some(self.fl()[0])
        &&& forall|r: EntryRef| #[trigger] self.is_free(r) ==> self.fl().contains(r)
    }

    /// The block invariant: blocks are bounded in number, filled in order
    /// (only the last may have unused capacity, and it is never empty), and
    /// capacities double from block to block.
    pub open spec fn wf_blocks(&self) -> bool {
        let blocks = self.blocks@;
        &&& blocks.len() <= NUM_BLOCKS
        &&& forall|b: int| 0 <= b < blocks.len() ==> (#[trigger] blocks[b]).wf()
        &&& forall|b: int|
            0 <= b < blocks.len() - 1 ==> (#[trigger] blocks[b]).len_used() == blocks[b].capacity
        &&& forall|b: int|
            1 <= b < blocks.len() ==> (#[trigger] blocks[b]).capacity
                == 2 * blocks[b - 1].capacity
        &&& forall|b: int| 0 <= b < blocks.len() ==> (#[trigger] blocks[b]).capacity >= 64
        &&& blocks.len() > 0 ==> blocks[0].capacity == first_block_capacity(self.min_entries)
        &&& blocks.len() > 0 ==> blocks[blocks.len() - 1].len_used() >= 1
    }

    /// The whole pool invariant; every operation preserves it.
    pub open spec fn wf(&self) -> bool {
        &&& self.wf_blocks()
        &&& self.wf_freelist()
        &&& blocks_free_count(self.blocks@) == self.fl().len()
    }

    /// How many entries have been bump-allocated over all blocks
    /// (live values plus reserved entries plus free entries).
    pub open spec fn reserved_count(&self) -> nat {
        blocks_used_sum(self.blocks@)
    }

    /// How many entries rest on the freelist.
    pub open spec fn free_count(&self) -> nat {
        self.fl().len()
    }

    /// How many entries are live: handed out and not returned. Counted over
    /// the entries themselves, not derived from the freelist.
    pub open spec fn used_count(&self) -> nat {
        blocks_live_count(self.blocks@)
    }

    /// Sum of all block capacities.
    pub open spec fn capacity_total(&self) -> nat {
        blocks_capacity_sum(self.blocks@)
    }

    /// The blocks' shape: which entries exist and what the capacities are.
    /// Operations that neither grow a block nor add one preserve this.
    pub open spec fn same_shape(self, other: Self) -> bool {
        &&& other.blocks@.len() == self.blocks@.len()
        &&& forall|b: int|
            0 <= b < self.blocks@.len() ==> (#[trigger] other.blocks@[b]).capacity
                == self.blocks@[b].capacity && other.blocks@[b].entries@.len()
                == self.blocks@[b].entries@.len()
        &&& other.min_entries == self.min_entries
    }

    /// Creates an empty pool core: no blocks, nothing free.
    pub fn new() -> (r: PoolInner<T>)
        ensures
            r.wf(),
            r.blocks@.len() == 0,
            r.freelist is None,
            r.fl().len() == 0,
            r.min_entries == 64,
            r.reserved_count() == 0,
            r.capacity_total() == 0,
    {
        PoolInner {
            blocks: Vec::new(),
            min_entries: 64,
            freelist: None,
            free_order: Ghost(Seq::empty()),
        }
    }

    /// Configures the minimum entry count of the first block. Has no effect
    /// once block 0 exists, since the capacity is fixed at block creation.
    pub fn min_entries(&mut self, min_entries: usize)
        requires
            old(self).blocks@.len() == 0,
        ensures
            *final(self) == (PoolInner { min_entries, ..*old(self) }),
    {
        self.min_entries = min_entries;
    }

    /// Overwrites the entry at `r`. Internal: callers restore the pool
    /// invariant around this.
    fn set_entry(&mut self, r: EntryRef, e: Entry<T>)
        requires
            old(self).valid_ref(r),
        ensures
            final(self).blocks@.len() == old(self).blocks@.len(),
            forall|b: int|
                0 <= b < old(self).blocks@.len() && b != r.block ==> final(self).blocks@[b] == old(
                    self,
                ).blocks@[b],
            final(self).blocks@[r.block as int].capacity == old(self).blocks@[r.block
                as int].capacity,
            final(self).blocks@[r.block as int].entries@ == old(self).blocks@[r.block
                as int].entries@.update(r.index as int, e),
            final(self).entry_of(r) == e,
            forall|r2: EntryRef|
                old(self).valid_ref(r2) && r2 != r ==> final(self).entry_of(r2) == old(
                    self,
                ).entry_of(r2),
            forall|r2: EntryRef| old(self).valid_ref(r2) <==> final(self).valid_ref(r2),
            old(self).same_shape(*final(self)),
            final(self).min_entries == old(self).min_entries,
            final(self).freelist == old(self).freelist,
            final(self).free_order == old(self).free_order,
            blocks_free_count(final(self).blocks@) + free_ind(old(self).entry_of(r))
                == blocks_free_count(old(self).blocks@) + free_ind(e),
            blocks_used_sum(final(self).blocks@) == blocks_used_sum(old(self).blocks@),
            blocks_capacity_sum(final(self).blocks@) == blocks_capacity_sum(old(self).blocks@),
    {
        let ghost pre = *self;
        self.blocks[r.block].entries[r.index] = e;
        proof {
            let preblk = pre.blocks@[r.block as int];
            let postblk = self.blocks@[r.block as int];
            assert(postblk.entries@ =~= preblk.entries@.update(r.index as int, e));
            assert(self.blocks@ =~= pre.blocks@.update(r.block as int, postblk));
            lemma_seq_free_count_update(preblk.entries@, r.index as int, e);
            lemma_blocks_free_count_update(pre.blocks@, r.block as int, postblk);
            lemma_blocks_used_capacity_update(pre.blocks@, r.block as int, postblk);
            assert forall|r2: EntryRef| pre.valid_ref(r2) && r2 != r implies self.entry_of(r2)
                == pre.entry_of(r2) by {}
        }
    }

    /// True when the entry at `r` holds a live value.
    pub fn entry_is_data(&self, r: EntryRef) -> (b: bool)
        requires
            self.valid_ref(r),
        ensures
            b == (self.entry_of(r) is Data),
    {
        match &self.blocks[r.block].entries[r.index] {
            Entry::Data(_) => true,
            _ => false,
        }
    }

    /// Reads the freelist links of the free entry at `r`.
    fn read_links(&self, r: EntryRef) -> (links: (EntryRef, EntryRef))
        requires
            self.valid_ref(r),
            self.entry_of(r) is Free,
        ensures
            self.entry_of(r) == (Entry::<T>::Free { prev: links.0, next: links.1 }),
    {
        match &self.blocks[r.block].entries[r.index] {
            Entry::Free { prev, next } => (*prev, *next),
            _ => vstd::pervasive::unreached(),
        }
    }

    /// What a free operation does to the pool: the freed entry becomes the
    /// freelist head, everything else keeps its state, and the bookkeeping
    /// moves one entry from live to free.
    pub open spec fn free_post(pre: Self, post: Self, r: EntryRef) -> bool {
        &&& pre.same_shape(post)
        &&& post.freelist == Some(r)
        &&& post.fl().len() == pre.fl().len() + 1
        &&& post.fl()[0] == r
        &&& forall|r2: EntryRef| pre.valid_ref(r2) <==> post.valid_ref(r2)
        &&& forall|r2: EntryRef| #[trigger] post.is_free(r2) <==> pre.is_free(r2) || r2 == r
        &&& forall|r2: EntryRef|
            pre.valid_ref(r2) && !pre.is_free(r2) && r2 != r ==> #[trigger] post.entry_of(r2)
                == pre.entry_of(r2)
        &&& post.reserved_count() == pre.reserved_count()
        &&& post.capacity_total() == pre.capacity_total()
        &&& post.free_count() == pre.free_count() + 1
        &&& post.used_count() + 1 == pre.used_count()
    }

    /// A total order on entry positions, standing in for address order:
    /// blocks in creation order, then bump order inside a block.
    fn entry_key(&self, r: EntryRef) -> (k: u128)
        requires
            r.block < NUM_BLOCKS,
        ensures
            k < 0x2D0000000000000000u128,
    {
        r.block as u128 * 0x10000000000000000u128 + r.index as u128
    }

    /// Threads the reserved entry `r` into the freelist between cycle
    /// positions `j` and `j + 1`, and makes `r` the new head.
    fn splice(&mut self, r: EntryRef, a: EntryRef, b: EntryRef, Ghost(j): Ghost<int>)
        requires
            old(self).wf(),
            old(self).is_uninit(r),
            old(self).fl().len() > 0,
            0 <= j < old(self).fl().len(),
            a == old(self).fl()[j],
            b == old(self).fl()[next_index(j, old(self).fl().len() as int)],
        ensures
            final(self).wf(),
            Self::free_post(*old(self), *final(self), r),
    {
        let ghost pre = *self;
        let ghost fl = pre.fl();
        let ghost n = fl.len() as int;
        proof {
            assert(pre.wf_cycle_at(fl, j));
            assert(pre.wf_cycle_at(fl, next_index(j, n)));
        }
        self.set_entry(r, Entry::Free { prev: a, next: b });
        let (ap, _an) = self.read_links(a);
        self.set_entry(a, Entry::Free { prev: ap, next: r });
        let (_bp, bn) = self.read_links(b);
        self.set_entry(b, Entry::Free { prev: r, next: bn });
        self.freelist = Some(r);
        self.free_order = Ghost(seq![r] + fl.subrange(j + 1, n) + fl.subrange(0, j + 1));
        proof {
            lemma_splice(pre, *self, r, a, b, j);
        }
    }

    /// Puts the reserved entry `r` back onto the freelist and makes it the
    /// head. The insert is partially address-ordered: `r` lands next to the
    /// old head, stepping one node outward when its position sorts past the
    /// head's neighbour. This cheap local sort improves the locality of
    /// popped entries without paying for a fully ordered list.
    ///
    /// The caller must have moved the value out of the entry first.
    pub fn free_entry(&mut self, r: EntryRef)
        requires
            old(self).wf(),
            old(self).is_uninit(r),
        ensures
            final(self).wf(),
            Self::free_post(*old(self), *final(self), r),
    {
        let ghost pre = *self;
        let ghost fl = pre.fl();
        let ghost n = fl.len() as int;
        match self.freelist {
            None => {
                // The freed entry becomes a cycle of one.
                self.set_entry(r, Entry::Free { prev: r, next: r });
                self.freelist = Some(r);
                self.free_order = Ghost(Seq::empty().push(r));
                proof {
                    let post = *self;
                    let fl2 = post.fl();
                    assert forall|i: int| 0 <= i < fl2.len() implies post.wf_cycle_at(fl2, i) by {
                        assert(fl2[0] == r);
                    }
                    assert forall|r2: EntryRef| post.is_free(r2) implies fl2.contains(r2) by {
                        if r2 != r {
                            assert(pre.is_free(r2));
                            assert(pre.fl().contains(r2));
                        } else {
                            assert(fl2[0] == r);
                        }
                    }
                    assert forall|r2: EntryRef| #[trigger] post.is_free(r2) <==> pre.is_free(r2)
                        || r2 == r by {
                        if r2 != r && pre.is_free(r2) {
                            assert(pre.fl().contains(r2));
                        }
                    }
                    lemma_live_free_partition(pre.blocks@);
                    lemma_live_free_partition(post.blocks@);
                }
            },
            Some(head) => {
                proof {
                    assert(pre.wf_cycle_at(fl, 0));
                    assert(pre.wf_cycle_at(fl, prev_index(0, n)));
                    assert(pre.wf_cycle_at(fl, next_index(0, n)));
                }
                let (hp, hn) = self.read_links(head);
                let kr = self.entry_key(r);
                let kh = self.entry_key(head);
                if kr < kh {
                    // insert before the head
                    let kp = self.entry_key(hp);
                    if kr < kp {
                        // one more sorting step: insert before the head's prev
                        let (pp, _) = self.read_links(hp);
                        self.splice(r, pp, hp, Ghost(prev_index(prev_index(0, n), n)));
                    } else {
                        self.splice(r, hp, head, Ghost(prev_index(0, n)));
                    }
                } else {
                    // insert after the head
                    let kn = self.entry_key(hn);
                    if kr > kn {
                        // one more sorting step: insert after the head's next
                        let (_, nn) = self.read_links(hn);
                        self.splice(r, hn, nn, Ghost(next_index(0, n)));
                    } else {
                        self.splice(r, head, hn, Ghost(0));
                    }
                }
            },
        }
    }

    /// Puts the reserved entry `r` back onto the freelist without any
    /// membership test. In a pointer-based layout the checked path would
    /// scan the blocks' address ranges; an [`EntryRef`] carries its block,
    /// so here the fast path and [`Self::free_entry`] coincide.
    pub fn fast_free_entry_unchecked(&mut self, r: EntryRef)
        requires
            old(self).wf(),
            old(self).is_uninit(r),
        ensures
            final(self).wf(),
            Self::free_post(*old(self), *final(self), r),
    {
        self.free_entry(r);
    }

    /// What must hold for an allocation to be possible: either the freelist
    /// has an entry, or there is room to bump or grow within machine limits
    /// (a fresh capacity must stay below [`MAX_CAPACITY`] and the block table
    /// below [`NUM_BLOCKS`]).
    pub open spec fn can_alloc(self) -> bool {
        let blocks = self.blocks@;
        ||| self.freelist is Some
        ||| if blocks.len() == 0 {
            4 * self.min_entries + 130 <= MAX_CAPACITY
        } else if blocks.last().len_used() == blocks.last().capacity {
            blocks.len() < NUM_BLOCKS && 2 * blocks.last().capacity <= MAX_CAPACITY
        } else {
            true
        }
    }

    /// What an allocation does to the pool. The entry handed out is
    /// reserved and unwritten; nothing live changes. When the freelist had an
    /// entry, its head is reused and the blocks stay as they were; otherwise
    /// the pool bump-allocates: the first allocation creates block 0, a full
    /// last block gets a successor of twice its capacity, and existing
    /// blocks are never touched or reallocated.
    pub open spec fn alloc_post(pre: Self, post: Self, r: EntryRef) -> bool {
        let blocks = pre.blocks@;
        &&& post.is_uninit(r)
        &&& post.min_entries == pre.min_entries
        &&& forall|r2: EntryRef| pre.valid_ref(r2) ==> post.valid_ref(r2)
        &&& forall|r2: EntryRef|
            pre.valid_ref(r2) && !pre.is_free(r2) ==> #[trigger] post.entry_of(r2)
                == pre.entry_of(r2)
        &&& forall|r2: EntryRef| #[trigger] post.is_free(r2) <==> (pre.is_free(r2) && r2 != r)
        &&& post.used_count() == pre.used_count() + 1
        &&& if pre.freelist is Some {
            &&& Some(r) == pre.freelist
            &&& pre.same_shape(post)
            &&& post.free_count() + 1 == pre.free_count()
            &&& post.reserved_count() == pre.reserved_count()
            &&& post.capacity_total() == pre.capacity_total()
        } else {
            &&& post.free_count() == 0
            &&& pre.free_count() == 0
            &&& post.reserved_count() == pre.reserved_count() + 1
            &&& r.block as int + 1 == post.blocks@.len()
            &&& r.index as int + 1 == post.blocks@[r.block as int].entries@.len()
            &&& if blocks.len() == 0 {
                &&& post.blocks@.len() == 1
                &&& post.blocks@[0].capacity == first_block_capacity(pre.min_entries)
                &&& r == (EntryRef { block: 0, index: 0 })
            } else if blocks.last().len_used() == blocks.last().capacity {
                &&& post.blocks@.len() == blocks.len() + 1
                &&& forall|b: int| 0 <= b < blocks.len() ==> post.blocks@[b] == blocks[b]
                &&& post.blocks@.last().capacity == 2 * blocks.last().capacity
                &&& r.index == 0
            } else {
                &&& post.blocks@.len() == blocks.len()
                &&& forall|b: int| 0 <= b < blocks.len() - 1 ==> post.blocks@[b] == blocks[b]
                &&& post.blocks@.last().capacity == blocks.last().capacity
                &&& post.capacity_total() == pre.capacity_total()
                &&& r.index as int == blocks.last().len_used()
            }
        }
    }

    /// What an allocation that stores a value does: the composition of
    /// [`Self::alloc_post`] and [`Self::write_post`]. The slot holds exactly
    /// the stored value; nothing else live changes.
    pub open spec fn alloc_value_post(pre: Self, post: Self, r: EntryRef, x: T) -> bool {
        let blocks = pre.blocks@;
        &&& post.is_data(r)
        &&& post.value_of(r) == x
        &&& post.min_entries == pre.min_entries
        &&& forall|r2: EntryRef| pre.valid_ref(r2) ==> post.valid_ref(r2)
        &&& forall|r2: EntryRef|
            pre.valid_ref(r2) && !pre.is_free(r2) && r2 != r ==> #[trigger] post.entry_of(r2)
                == pre.entry_of(r2)
        &&& forall|r2: EntryRef| #[trigger] post.is_free(r2) <==> (pre.is_free(r2) && r2 != r)
        &&& post.used_count() == pre.used_count() + 1
        &&& if pre.freelist is Some {
            &&& Some(r) == pre.freelist
            &&& pre.same_shape(post)
            &&& post.free_count() + 1 == pre.free_count()
            &&& post.reserved_count() == pre.reserved_count()
            &&& post.capacity_total() == pre.capacity_total()
        } else {
            &&& post.free_count() == 0
            &&& pre.free_count() == 0
            &&& post.reserved_count() == pre.reserved_count() + 1
            &&& r.block as int + 1 == post.blocks@.len()
            &&& r.index as int + 1 == post.blocks@[r.block as int].entries@.len()
            &&& if blocks.len() == 0 {
                &&& post.blocks@.len() == 1
                &&& post.blocks@[0].capacity == first_block_capacity(pre.min_entries)
                &&& r == (EntryRef { block: 0, index: 0 })
            } else if blocks.last().len_used() == blocks.last().capacity {
                &&& post.blocks@.len() == blocks.len() + 1
                &&& forall|b: int| 0 <= b < blocks.len() ==> post.blocks@[b] == blocks[b]
                &&& post.blocks@.last().capacity == 2 * blocks.last().capacity
                &&& r.index == 0
            } else {
                &&& post.blocks@.len() == blocks.len()
                &&& forall|b: int| 0 <= b < blocks.len() - 1 ==> post.blocks@[b] == blocks[b]
                &&& post.blocks@.last().capacity == blocks.last().capacity
                &&& post.capacity_total() == pre.capacity_total()
                &&& r.index as int == blocks.last().len_used()
            }
        }
    }

    /// What a deallocation does: the composition of [`Self::take_post`] and
    /// [`Self::free_post`]. The entry moves from live to free and becomes
    /// the freelist head; nothing else live changes.
    pub open spec fn dealloc_post(pre: Self, post: Self, r: EntryRef) -> bool {
        &&& pre.same_shape(post)
        &&& post.freelist == Some(r)
        &&& post.fl().len() == pre.fl().len() + 1
        &&& post.fl()[0] == r
        &&& forall|r2: EntryRef| pre.valid_ref(r2) <==> post.valid_ref(r2)
        &&& forall|r2: EntryRef| #[trigger] post.is_free(r2) <==> pre.is_free(r2) || r2 == r
        &&& forall|r2: EntryRef|
            pre.valid_ref(r2) && !pre.is_free(r2) && r2 != r ==> #[trigger] post.entry_of(r2)
                == pre.entry_of(r2)
        &&& post.reserved_count() == pre.reserved_count()
        &&& post.capacity_total() == pre.capacity_total()
        &&& post.free_count() == pre.free_count() + 1
        &&& post.used_count() + 1 == pre.used_count()
    }

    /// Pops the freelist head and hands it out as a reserved entry.
    fn pop_free(&mut self) -> (r: EntryRef)
        requires
            old(self).wf(),
            old(self).freelist is Some,
        ensures
            final(self).wf(),
            Self::alloc_post(*old(self), *final(self), r),
            Some(r) == old(self).freelist,
    {
        let ghost pre = *self;
        let ghost fl = pre.fl();
        let ghost n = fl.len() as int;
        let head = match self.freelist {
            Some(h) => h,
            None => vstd::pervasive::unreached(),
        };
        proof {
            assert(pre.wf_cycle_at(fl, 0));
            assert(pre.wf_cycle_at(fl, prev_index(0, n)));
            assert(pre.wf_cycle_at(fl, next_index(0, n)));
        }
        let (hp, hn) = self.read_links(head);
        if hn == head {
            // single node: the freelist becomes empty
            proof {
                assert(n == 1);
            }
            self.set_entry(head, Entry::Uninit);
            self.freelist = None;
            self.free_order = Ghost(Seq::empty());
            proof {
                let post = *self;
                assert forall|r2: EntryRef| !post.is_free(r2) by {
                    if post.is_free(r2) && r2 != head {
                        assert(pre.is_free(r2));
                        assert(pre.fl().contains(r2));
                    }
                }
                lemma_live_free_partition(pre.blocks@);
                lemma_live_free_partition(post.blocks@);
            }
            head
        } else {
            proof {
                assert(n >= 2);
                assert(hp == fl[n - 1] && hn == fl[1]);
                assert(pre.wf_cycle_at(fl, prev_index(prev_index(0, n), n)));
            }
            // unlink the head from the cycle
            let (pp, _) = self.read_links(hp);
            self.set_entry(hp, Entry::Free { prev: pp, next: hn });
            let (_, nn) = self.read_links(hn);
            self.set_entry(hn, Entry::Free { prev: hp, next: nn });
            self.set_entry(head, Entry::Uninit);
            // Prefer the neighbour farther from the removed head, so the
            // head does not drift to one end of the address order.
            let kh = self.entry_key(head);
            let kp = self.entry_key(hp);
            let kn = self.entry_key(hn);
            if (kn + kp) / 2 < kh {
                self.freelist = Some(hp);
                self.free_order = Ghost(fl.subrange(n - 1, n) + fl.subrange(1, n - 1));
                proof {
                    lemma_pop(pre, *self, true);
                }
            } else {
                self.freelist = Some(hn);
                self.free_order = Ghost(fl.subrange(1, n));
                proof {
                    lemma_pop(pre, *self, false);
                }
            }
            head
        }
    }

    /// Allocates an entry: pops the freelist when it is non-empty, otherwise
    /// bump-allocates, creating block 0 or a doubled successor block first
    /// when needed. The entry comes back reserved and unwritten.
    pub fn alloc_entry(&mut self) -> (r: EntryRef)
        requires
            old(self).wf(),
            old(self).can_alloc(),
        ensures
            final(self).wf(),
            Self::alloc_post(*old(self), *final(self), r),
    {
        let ghost pre = *self;
        if self.freelist.is_some() {
            self.pop_free()
        } else {
            if self.blocks.len() == 0 {
                // allocate the initial block
                let b = Block::new_first(self.min_entries);
                proof {
                    crate::block::lemma_next_power_of_two_bounds(
                        if pre.min_entries < 64 {
                            64nat
                        } else {
                            pre.min_entries as nat
                        },
                    );
                    assert(b.capacity >= 64);
                    lemma_blocks_free_count_push(pre.blocks@, b);
                    lemma_blocks_live_count_push(pre.blocks@, b);
                    lemma_blocks_used_sum_push(pre.blocks@, b);
                    lemma_blocks_capacity_sum_push(pre.blocks@, b);
                }
                self.blocks.push(b);
            } else {
                let last = self.blocks.len() - 1;
                if self.blocks[last].is_full() {
                    // allocate a successor block of twice the capacity
                    let b = self.blocks[last].new_next();
                    proof {
                        lemma_blocks_free_count_push(pre.blocks@, b);
                        lemma_blocks_live_count_push(pre.blocks@, b);
                        lemma_blocks_used_sum_push(pre.blocks@, b);
                        lemma_blocks_capacity_sum_push(pre.blocks@, b);
                    }
                    self.blocks.push(b);
                }
            }
            let ghost mid = *self;
            let bi = self.blocks.len() - 1;
            let blk = &mut self.blocks[bi];
            let ghost preblk = *blk;
            let idx = blk.extend();
            let r = EntryRef { block: bi, index: idx };
            proof {
                let post = *self;
                assert(post.blocks@ =~= mid.blocks@.update(
                    bi as int,
                    post.blocks@[bi as int],
                ));
                lemma_seq_free_count_push(preblk.entries@, Entry::Uninit);
                lemma_seq_live_count_push(preblk.entries@, Entry::Uninit);
                lemma_blocks_free_count_update(mid.blocks@, bi as int, post.blocks@[bi as int]);
                lemma_blocks_live_count_update(mid.blocks@, bi as int, post.blocks@[bi as int]);
                lemma_blocks_used_sum_update(mid.blocks@, bi as int, post.blocks@[bi as int]);
                lemma_blocks_capacity_sum_update(mid.blocks@, bi as int, post.blocks@[bi as int]);
                assert(post.entry_of(r) is Uninit);
                // Entries that existed before are untouched; the one new
                // entry is reserved, so the free set does not change, and it
                // was empty to begin with.
                assert forall|r2: EntryRef|
                    pre.valid_ref(r2) implies post.valid_ref(r2) && post.entry_of(r2)
                    == pre.entry_of(r2) by {}
                assert forall|r2: EntryRef| !post.is_free(r2) by {
                    if post.is_free(r2) {
                        if r2.block as int == bi as int && r2.index == idx {
                            assert(post.entry_of(r2) is Uninit);
                        } else {
                            assert(pre.valid_ref(r2));
                            assert(pre.is_free(r2));
                            assert(pre.fl().contains(r2));
                        }
                    }
                }
                assert forall|r2: EntryRef| !pre.is_free(r2) by {
                    if pre.is_free(r2) {
                        assert(pre.fl().contains(r2));
                    }
                }
                assert(post.wf_blocks());
                assert(post.wf());
            }
            r
        }
    }

    /// Writes a value into the reserved entry `r`, making it live.
    pub fn write_entry(&mut self, r: EntryRef, value: T)
        requires
            old(self).wf(),
            old(self).is_uninit(r),
        ensures
            final(self).wf(),
            Self::write_post(*old(self), *final(self), r, value),
    {
        let ghost pre = *self;
        self.set_entry(r, Entry::Data(value));
        proof {
            lemma_same_free_set(pre, *self);
            lemma_live_free_partition(pre.blocks@);
            lemma_live_free_partition(self.blocks@);
        }
    }

    /// What writing a value does: only the one entry changes, from reserved
    /// to live with exactly this value.
    pub open spec fn write_post(pre: Self, post: Self, r: EntryRef, value: T) -> bool {
        &&& pre.same_shape(post)
        &&& forall|b: int|
            0 <= b < pre.blocks@.len() && b != r.block ==> post.blocks@[b] == pre.blocks@[b]
        &&& post.entry_of(r) == Entry::Data(value)
        &&& forall|r2: EntryRef| pre.valid_ref(r2) <==> post.valid_ref(r2)
        &&& forall|r2: EntryRef|
            pre.valid_ref(r2) && r2 != r ==> #[trigger] post.entry_of(r2) == pre.entry_of(r2)
        &&& post.freelist == pre.freelist
        &&& post.fl() == pre.fl()
        &&& post.used_count() == pre.used_count()
        &&& post.free_count() == pre.free_count()
        &&& post.reserved_count() == pre.reserved_count()
        &&& post.capacity_total() == pre.capacity_total()
    }

    /// Moves the value out of the live entry `r`, leaving it reserved.
    pub fn take_value(&mut self, r: EntryRef) -> (v: T)
        requires
            old(self).wf(),
            old(self).is_data(r),
        ensures
            final(self).wf(),
            v == old(self).value_of(r),
            Self::take_post(*old(self), *final(self), r),
    {
        let ghost pre = *self;
        let mut tmp = Entry::Uninit;
        core::mem::swap(&mut self.blocks[r.block].entries[r.index], &mut tmp);
        proof {
            let postblk = self.blocks@[r.block as int];
            let preblk = pre.blocks@[r.block as int];
            assert(postblk.entries@ =~= preblk.entries@.update(r.index as int, Entry::Uninit));
            assert(self.blocks@ =~= pre.blocks@.update(r.block as int, postblk));
            lemma_seq_free_count_update(preblk.entries@, r.index as int, Entry::Uninit);
            lemma_blocks_free_count_update(pre.blocks@, r.block as int, postblk);
            lemma_blocks_used_capacity_update(pre.blocks@, r.block as int, postblk);
            assert forall|r2: EntryRef| pre.valid_ref(r2) && r2 != r implies self.entry_of(r2)
                == pre.entry_of(r2) by {}
            lemma_same_free_set(pre, *self);
            lemma_live_free_partition(pre.blocks@);
            lemma_live_free_partition(self.blocks@);
        }
        match tmp {
            Entry::Data(v) => v,
            _ => vstd::pervasive::unreached(),
        }
    }

    /// What taking a value does: only the one entry changes, from live to
    /// reserved.
    pub open spec fn take_post(pre: Self, post: Self, r: EntryRef) -> bool {
        &&& pre.same_shape(post)
        &&& forall|b: int|
            0 <= b < pre.blocks@.len() && b != r.block ==> post.blocks@[b] == pre.blocks@[b]
        &&& post.entry_of(r) is Uninit
        &&& forall|r2: EntryRef| pre.valid_ref(r2) <==> post.valid_ref(r2)
        &&& forall|r2: EntryRef|
            pre.valid_ref(r2) && r2 != r ==> #[trigger] post.entry_of(r2) == pre.entry_of(r2)
        &&& post.freelist == pre.freelist
        &&& post.fl() == pre.fl()
        &&& post.used_count() == pre.used_count()
        &&& post.free_count() == pre.free_count()
        &&& post.reserved_count() == pre.reserved_count()
        &&& post.capacity_total() == pre.capacity_total()
    }

    /// A shared reference to the value stored at `r`.
    pub fn value_ref(&self, r: EntryRef) -> (v: &T)
        requires
            self.wf(),
            self.is_data(r),
        ensures
            *v == self.value_of(r),
    {
        match &self.blocks[r.block].entries[r.index] {
            Entry::Data(v) => v,
            _ => vstd::pervasive::unreached(),
        }
    }

    /// Replaces the value stored in the live entry `r`.
    pub fn replace_value(&mut self, r: EntryRef, value: T) -> (v: T)
        requires
            old(self).wf(),
            old(self).is_data(r),
        ensures
            final(self).wf(),
            v == old(self).value_of(r),
            Self::write_post(*old(self), *final(self), r, value),
    {
        let old_value = self.take_value(r);
        self.write_entry(r, value);
        old_value
    }

    /// The length of the freelist, found by walking the cycle from the head
    /// until it closes. This is rather expensive; the diagnostics below pay
    /// that price.
    pub fn freelist_len(&self) -> (len: usize)
        requires
            self.wf(),
        ensures
            len == self.free_count(),
    {
        let ghost fl = self.fl();
        let ghost n = fl.len() as int;
        proof {
            lemma_count_bounds(*self);
        }
        let start = match self.freelist {
            Some(h) => h,
            None => {
                return 0;
            },
        };
        proof {
            assert(self.wf_cycle_at(fl, 0));
        }
        let mut len: usize = 1;
        let mut cur = start;
        let mut nx = self.read_links(cur).1;
        while nx != start
            invariant
                self.wf(),
                fl == self.fl(),
                n == fl.len() as int,
                n <= 2 * MAX_CAPACITY,
                1 <= len <= n,
                cur == fl[len - 1],
                start == fl[0],
                nx == fl[if len == n {
                    0int
                } else {
                    len as int
                }],
            decreases n - len,
        {
            proof {
                if len == n {
                    assert(nx == start);
                }
                assert(self.wf_cycle_at(fl, len as int));
            }
            len = len + 1;
            cur = nx;
            nx = self.read_links(cur).1;
        }
        proof {
            if len < n {
                assert(fl[len as int] != fl[0]);
            }
        }
        len
    }

    /// Diagnostics: the `(used + free, capacity)` pair over all blocks.
    pub fn reserved(&self) -> (r: (usize, usize))
        requires
            self.wf(),
        ensures
            r.0 == self.reserved_count(),
            r.1 == self.capacity_total(),
    {
        let ghost blocks = self.blocks@;
        let mut used: usize = 0;
        let mut cap: usize = 0;
        let mut i: usize = 0;
        proof {
            assert(blocks.subrange(0, 0) =~= Seq::empty());
        }
        while i < self.blocks.len()
            invariant
                self.wf(),
                blocks == self.blocks@,
                i <= blocks.len(),
                used == blocks_used_sum(blocks.subrange(0, i as int)),
                cap == blocks_capacity_sum(blocks.subrange(0, i as int)),
            decreases blocks.len() - i,
        {
            let (bu, bc) = self.blocks[i].reserved();
            proof {
                lemma_sum_prefix_step(blocks, i as int);
                lemma_prefix_le(blocks, i as int + 1);
                lemma_count_bounds(*self);
            }
            used = used + bu;
            cap = cap + bc;
            i = i + 1;
        }
        proof {
            assert(blocks.subrange(0, blocks.len() as int) =~= blocks);
        }
        (used, cap)
    }

    /// Diagnostics: the `(used, free, capacity)` triple. Walks the freelist,
    /// so it costs time proportional to the number of free entries.
    pub fn stat(&self) -> (r: (usize, usize, usize))
        requires
            self.wf(),
        ensures
            r.0 == self.used_count(),
            r.1 == self.free_count(),
            r.2 == self.capacity_total(),
    {
        let (reserved, capacity) = self.reserved();
        let free = self.freelist_len();
        proof {
            lemma_count_bounds(*self);
            lemma_live_free_partition(self.blocks@);
        }
        (reserved - free, free, capacity)
    }

    /// Diagnostics: true when no allocation is live, so every handed-out
    /// entry has come back. Costs a `stat` call.
    pub fn is_all_free(&self) -> (r: bool)
        requires
            self.wf(),
        ensures
            r == (self.used_count() == 0),
    {
        let (used, _, _) = self.stat();
        used == 0
    }
}

/// Two pools whose entries agree on freeness have the same free set; used by
/// the operations that replace a value without touching the freelist.
proof fn lemma_same_free_set<T>(pre: PoolInner<T>, post: PoolInner<T>)
    requires
        pre.wf(),
        forall|r2: EntryRef| pre.is_free(r2) <==> post.is_free(r2),
        post.fl() == pre.fl(),
        post.freelist == pre.freelist,
        forall|r2: EntryRef| pre.valid_ref(r2) <==> post.valid_ref(r2),
        forall|r2: EntryRef|
            pre.is_free(r2) ==> #[trigger] post.entry_of(r2) == pre.entry_of(r2),
    ensures
        post.wf_freelist(),
{
    let fl = pre.fl();
    assert forall|i: int| 0 <= i < fl.len() implies post.wf_cycle_at(fl, i) by {
        assert(pre.wf_cycle_at(fl, i));
        assert(pre.is_free(fl[i]));
    }
}

/// The pool-wide counts stay below the capacity sum, which itself stays
/// below a fixed bound: capacities double from block to block, so the whole
/// sum is less than twice the last capacity.
proof fn lemma_count_bounds<T>(m: PoolInner<T>)
    requires
        m.wf(),
    ensures
        m.free_count() <= m.reserved_count(),
        m.reserved_count() <= m.capacity_total(),
        m.capacity_total() <= 2 * MAX_CAPACITY,
{
    lemma_free_le_used(m.blocks@);
    lemma_used_le_cap(m.blocks@);
    if m.blocks@.len() > 0 {
        lemma_cap_sum_doubling(m.blocks@);
    }
}

/// With doubling capacities the total stays under twice the last capacity.
proof fn lemma_cap_sum_doubling<T>(blocks: Seq<Block<T>>)
    requires
        blocks.len() >= 1,
        forall|b: int|
            1 <= b < blocks.len() ==> (#[trigger] blocks[b]).capacity == 2 * blocks[b - 1].capacity,
        forall|b: int| 0 <= b < blocks.len() ==> (#[trigger] blocks[b]).capacity >= 64,
    ensures
        blocks_capacity_sum(blocks) < 2 * blocks.last().capacity,
    decreases blocks.len(),
{
    if blocks.len() == 1 {
        assert(blocks[0].capacity >= 64);
        assert(blocks_capacity_sum(blocks.drop_last()) == 0);
        assert(blocks.last() == blocks[0]);
        assert(blocks_capacity_sum(blocks) == blocks[0].capacity as nat);
    } else {
        let d = blocks.drop_last();
        assert forall|b: int|
            1 <= b < d.len() implies (#[trigger] d[b]).capacity == 2 * d[b - 1].capacity by {
            assert(blocks[b].capacity == 2 * blocks[b - 1].capacity);
        }
        assert forall|b: int| 0 <= b < d.len() implies (#[trigger] d[b]).capacity >= 64 by {
            assert(blocks[b].capacity >= 64);
        }
        lemma_cap_sum_doubling(d);
        let k = blocks.len() as int;
        assert(blocks[k - 1].capacity == 2 * blocks[k - 2].capacity);
        assert(d.last() == blocks[k - 2]);
        assert(blocks.last() == blocks[k - 1]);
        assert(blocks_capacity_sum(blocks) == blocks_capacity_sum(d) + blocks[k - 1].capacity);
        assert(blocks_capacity_sum(d) < 2 * blocks[k - 2].capacity);
        assert(blocks_capacity_sum(blocks) < 2 * blocks[k - 1].capacity);
    }
}

/// Freelist entries are bump-allocated entries: per block and overall the
/// free count cannot exceed the bump count.
proof fn lemma_free_le_used<T>(blocks: Seq<Block<T>>)
    ensures
        blocks_free_count(blocks) <= blocks_used_sum(blocks),
    decreases blocks.len(),
{
    if blocks.len() > 0 {
        lemma_free_le_used(blocks.drop_last());
        lemma_seq_free_le_len(blocks.last().entries@);
    }
}

proof fn lemma_seq_free_le_len<T>(s: Seq<Entry<T>>)
    ensures
        seq_free_count(s) <= s.len(),
    decreases s.len(),
{
    if s.len() > 0 {
        lemma_seq_free_le_len(s.drop_last());
    }
}

/// The bump counts stay below the capacities, per block and overall.
proof fn lemma_used_le_cap<T>(blocks: Seq<Block<T>>)
    requires
        forall|b: int| 0 <= b < blocks.len() ==> (#[trigger] blocks[b]).wf(),
    ensures
        blocks_used_sum(blocks) <= blocks_capacity_sum(blocks),
    decreases blocks.len(),
{
    if blocks.len() > 0 {
        let d = blocks.drop_last();
        assert forall|b: int| 0 <= b < d.len() implies (#[trigger] d[b]).wf() by {
            assert(blocks[b].wf());
        }
        lemma_used_le_cap(d);
        assert(blocks.last().wf());
    }
}

/// One step of a prefix sum: extending the prefix by block `i` adds that
/// block's contribution.
proof fn lemma_sum_prefix_step<T>(blocks: Seq<Block<T>>, i: int)
    requires
        0 <= i < blocks.len(),
    ensures
        blocks_used_sum(blocks.subrange(0, i + 1)) == blocks_used_sum(blocks.subrange(0, i))
            + blocks[i].len_used(),
        blocks_capacity_sum(blocks.subrange(0, i + 1)) == blocks_capacity_sum(
            blocks.subrange(0, i),
        ) + blocks[i].capacity,
{
    assert(blocks.subrange(0, i + 1).drop_last() =~= blocks.subrange(0, i));
    assert(blocks.subrange(0, i + 1).last() == blocks[i]);
}

/// Powers of two.
pub open spec fn pow2n(e: nat) -> nat
    decreases e,
{
    if e == 0 {
        1
    } else {
        2 * pow2n((e - 1) as nat)
    }
}

/// Accounting law: in any well-formed pool the live entries, the free
/// entries and the untouched bump capacity together account for the total
/// capacity, over any sequence of allocations and frees.
pub proof fn lemma_accounting<T>(m: PoolInner<T>)
    requires
        m.wf(),
    ensures
        m.used_count() + m.free_count() + (m.capacity_total() - m.reserved_count())
            == m.capacity_total(),
        m.used_count() + m.free_count() == m.reserved_count(),
        m.free_count() <= m.reserved_count(),
        m.reserved_count() <= m.capacity_total(),
{
    lemma_live_free_partition(m.blocks@);
    lemma_count_bounds(m);
}

/// Growth law: capacities grow geometrically, and a pool with `k` blocks has
/// bump-allocated more entries than the first `k - 1` blocks hold. So after
/// `n` allocations the block count stays logarithmic in `n`.
pub proof fn lemma_geometric_growth<T>(m: PoolInner<T>)
    requires
        m.wf(),
        m.blocks@.len() >= 1,
    ensures
        forall|b: int|
            0 <= b < m.blocks@.len() ==> (#[trigger] m.blocks@[b]).capacity as nat
                == first_block_capacity(m.min_entries) * pow2n(b as nat),
        m.capacity_total() < 2 * m.blocks@.last().capacity,
        m.reserved_count() >= m.capacity_total() - m.blocks@.last().capacity + 1,
{
    assert forall|b: int|
        0 <= b < m.blocks@.len() implies (#[trigger] m.blocks@[b]).capacity as nat
        == first_block_capacity(m.min_entries) * pow2n(b as nat) by {
        lemma_cap_formula(m, b);
    }
    lemma_cap_sum_doubling(m.blocks@);
    let d = m.blocks@.drop_last();
    assert forall|b: int| 0 <= b < d.len() implies (#[trigger] d[b]).len_used() == d[b].capacity by {
        assert(m.blocks@[b].len_used() == m.blocks@[b].capacity);
    }
    lemma_full_prefix(d);
    assert(blocks_used_sum(m.blocks@) == blocks_used_sum(d) + m.blocks@.last().len_used());
    assert(blocks_capacity_sum(m.blocks@) == blocks_capacity_sum(d) + m.blocks@.last().capacity);
    assert(m.blocks@.last().len_used() >= 1);
}

proof fn lemma_cap_formula<T>(m: PoolInner<T>, b: int)
    requires
        m.wf(),
        0 <= b < m.blocks@.len(),
    ensures
        m.blocks@[b].capacity as nat == first_block_capacity(m.min_entries) * pow2n(b as nat),
    decreases b,
{
    let c0 = first_block_capacity(m.min_entries);
    if b == 0 {
        assert(pow2n(0) == 1);
        assert(c0 * 1 == c0) by (nonlinear_arith);
    } else {
        lemma_cap_formula(m, b - 1);
        assert(m.blocks@[b].capacity == 2 * m.blocks@[b - 1].capacity);
        let p = pow2n((b - 1) as nat);
        assert(pow2n(b as nat) == 2 * p);
        assert(2 * (c0 * p) == c0 * (2 * p)) by (nonlinear_arith);
    }
}

/// In a run of full blocks the bump sum equals the capacity sum.
proof fn lemma_full_prefix<T>(blocks: Seq<Block<T>>)
    requires
        forall|b: int| 0 <= b < blocks.len() ==> (#[trigger] blocks[b]).len_used() == blocks[b].capacity,
    ensures
        blocks_used_sum(blocks) == blocks_capacity_sum(blocks),
    decreases blocks.len(),
{
    if blocks.len() > 0 {
        let d = blocks.drop_last();
        assert forall|b: int| 0 <= b < d.len() implies (#[trigger] d[b]).len_used() == d[b].capacity by {
            assert(blocks[b].len_used() == blocks[b].capacity);
        }
        lemma_full_prefix(d);
        assert(blocks.last().len_used() == blocks.last().capacity);
    }
}

/// Freelist law: in a well-formed pool the free entries form a cyclic
/// doubly-linked list threaded through their own link fields, whose nodes
/// all lie in owned blocks and carry each other as neighbours, and every
/// free entry of the pool is on it.
pub proof fn lemma_freelist_cyclic<T>(m: PoolInner<T>)
    requires
        m.wf(),
    ensures
        m.wf_cycle(m.fl()),
        forall|i: int| 0 <= i < m.fl().len() ==> m.valid_ref(#[trigger] m.fl()[i]),
        forall|r: EntryRef| #[trigger] m.is_free(r) ==> m.fl().contains(r),
        blocks_free_count(m.blocks@) == m.fl().len(),
{
    assert forall|i: int| 0 <= i < m.fl().len() implies m.valid_ref(#[trigger] m.fl()[i]) by {
        assert(m.wf_cycle_at(m.fl(), i));
    }
}

/// Stability law: whatever an allocation or a free does, every position the
/// pool ever handed out keeps naming the same single block, and no block
/// shrinks or changes its capacity.
pub proof fn lemma_positions_stable<T>(pre: PoolInner<T>, post: PoolInner<T>, r: EntryRef)
    requires
        PoolInner::alloc_post(pre, post, r) || PoolInner::free_post(pre, post, r),
    ensures
        forall|r2: EntryRef| pre.valid_ref(r2) ==> post.valid_ref(r2),
        post.blocks@.len() >= pre.blocks@.len(),
        forall|b: int|
            0 <= b < pre.blocks@.len() ==> (#[trigger] post.blocks@[b]).entries@.len()
                >= pre.blocks@[b].entries@.len() && post.blocks@[b].capacity
                == pre.blocks@[b].capacity,
{
    if PoolInner::free_post(pre, post, r) {
        assert(pre.same_shape(post));
    } else {
        if pre.freelist is Some {
            assert(pre.same_shape(post));
        } else {
            let blocks = pre.blocks@;
            if blocks.len() == 0 {
            } else if blocks.last().len_used() == blocks.last().capacity {
                assert forall|b: int|
                    0 <= b < pre.blocks@.len() implies (#[trigger] post.blocks@[b]).entries@.len()
                    >= pre.blocks@[b].entries@.len() && post.blocks@[b].capacity
                    == pre.blocks@[b].capacity by {
                    assert(post.blocks@[b] == blocks[b]);
                }
            } else {
                assert forall|b: int|
                    0 <= b < pre.blocks@.len() implies (#[trigger] post.blocks@[b]).entries@.len()
                    >= pre.blocks@[b].entries@.len() && post.blocks@[b].capacity
                    == pre.blocks@[b].capacity by {
                    if b < pre.blocks@.len() - 1 {
                        assert(post.blocks@[b] == blocks[b]);
                    }
                }
            }
        }
    }
}

/// Round-trip law: taking a value out of the slot an allocation filled
/// yields that value, for every value. The allocation reserves a slot, the
/// write stores `x` there; afterwards the slot is live and holds exactly
/// `x`, which is what a take returns.
pub proof fn lemma_take_after_alloc<T>(
    m0: PoolInner<T>,
    m1: PoolInner<T>,
    m2: PoolInner<T>,
    r: EntryRef,
    x: T,
)
    requires
        PoolInner::alloc_post(m0, m1, r),
        PoolInner::write_post(m1, m2, r, x),
    ensures
        m2.is_data(r),
        m2.value_of(r) == x,
{
}

/// The two halves of an allocation compose: reserving an entry and then
/// writing the value into it is one `alloc_value` step.
pub proof fn lemma_alloc_value_compose<T>(
    pre: PoolInner<T>,
    mid: PoolInner<T>,
    post: PoolInner<T>,
    r: EntryRef,
    x: T,
)
    requires
        PoolInner::alloc_post(pre, mid, r),
        PoolInner::write_post(mid, post, r, x),
    ensures
        PoolInner::alloc_value_post(pre, post, r, x),
{
    assert forall|r2: EntryRef| #[trigger] post.is_free(r2) <==> (pre.is_free(r2) && r2 != r) by {
        if r2 == r {
            assert(post.entry_of(r) == Entry::Data(x));
        } else {
            if post.is_free(r2) {
                assert(mid.valid_ref(r2));
                assert(post.entry_of(r2) == mid.entry_of(r2));
                assert(mid.is_free(r2));
            }
            if pre.is_free(r2) {
                assert(mid.is_free(r2));
                assert(post.entry_of(r2) == mid.entry_of(r2));
            }
        }
    }
    assert forall|r2: EntryRef|
        pre.valid_ref(r2) && !pre.is_free(r2) && r2 != r implies #[trigger] post.entry_of(r2)
        == pre.entry_of(r2) by {
        assert(mid.entry_of(r2) == pre.entry_of(r2));
        assert(mid.valid_ref(r2));
        assert(post.entry_of(r2) == mid.entry_of(r2));
    }
    if pre.freelist is Some {
        assert(pre.same_shape(post));
    } else {
        let blocks = pre.blocks@;
        assert(r.block as int == mid.blocks@.len() - 1);
        if blocks.len() == 0 {
        } else if blocks.last().len_used() == blocks.last().capacity {
            assert forall|b: int| 0 <= b < blocks.len() implies post.blocks@[b] == blocks[b] by {
                assert(mid.blocks@[b] == blocks[b]);
                assert(post.blocks@[b] == mid.blocks@[b]);
            }
            assert(post.blocks@.last().capacity == mid.blocks@.last().capacity);
        } else {
            assert forall|b: int| 0 <= b < blocks.len() - 1 implies post.blocks@[b] == blocks[b] by {
                assert(mid.blocks@[b] == blocks[b]);
                assert(post.blocks@[b] == mid.blocks@[b]);
            }
        }
    }
}

/// Round-trip law: allocating a value and freeing it again restores the
/// observable pool state, whenever the allocation was served from the
/// freelist: the `(used, free, capacity)` triple and the next allocation's
/// slot (the freelist head) are as before. An allocation that bump-grows a
/// block instead leaves one more reserved slot on the freelist after the
/// free.
pub proof fn lemma_alloc_dealloc_restores<T>(
    m0: PoolInner<T>,
    m1: PoolInner<T>,
    m2: PoolInner<T>,
    m3: PoolInner<T>,
    m4: PoolInner<T>,
    r: EntryRef,
    x: T,
)
    requires
        m0.freelist is Some,
        PoolInner::alloc_post(m0, m1, r),
        PoolInner::write_post(m1, m2, r, x),
        PoolInner::take_post(m2, m3, r),
        PoolInner::free_post(m3, m4, r),
    ensures
        m4.used_count() == m0.used_count(),
        m4.free_count() == m0.free_count(),
        m4.capacity_total() == m0.capacity_total(),
        m4.reserved_count() == m0.reserved_count(),
        m4.freelist == m0.freelist,
{
}

/// A prefix never sums to more than the whole.
proof fn lemma_prefix_le<T>(blocks: Seq<Block<T>>, i: int)
    requires
        0 <= i <= blocks.len(),
    ensures
        blocks_used_sum(blocks.subrange(0, i)) <= blocks_used_sum(blocks),
        blocks_capacity_sum(blocks.subrange(0, i)) <= blocks_capacity_sum(blocks),
    decreases blocks.len() - i,
{
    if i == blocks.len() {
        assert(blocks.subrange(0, i) =~= blocks);
    } else {
        lemma_sum_prefix_step(blocks, i);
        lemma_prefix_le(blocks, i + 1);
    }
}

/// The state change of [`PoolInner::splice`] preserves the pool invariant
/// and is a free step: `post` differs from `pre` by the three rewritten
/// entries, and its ghost order is the old cycle rotated to start just after
/// the insertion point, with `r` in front.
#[verifier::spinoff_prover]
#[verifier::rlimit(100)]
proof fn lemma_splice<T>(
    pre: PoolInner<T>,
    post: PoolInner<T>,
    r: EntryRef,
    a: EntryRef,
    b: EntryRef,
    j: int,
)
    requires
        pre.wf(),
        pre.is_uninit(r),
        pre.fl().len() > 0,
        0 <= j < pre.fl().len(),
        a == pre.fl()[j],
        b == pre.fl()[next_index(j, pre.fl().len() as int)],
        pre.same_shape(post),
        forall|r2: EntryRef| pre.valid_ref(r2) <==> post.valid_ref(r2),
        post.entry_of(r) == (Entry::<T>::Free { prev: a, next: b }),
        pre.fl().len() > 1 ==> post.entry_of(a) == (Entry::<T>::Free {
            prev: pre.fl()[prev_index(j, pre.fl().len() as int)],
            next: r,
        }),
        pre.fl().len() > 1 ==> post.entry_of(b) == (Entry::<T>::Free {
            prev: r,
            next: pre.fl()[next_index(
                next_index(j, pre.fl().len() as int),
                pre.fl().len() as int,
            )],
        }),
        pre.fl().len() == 1 ==> post.entry_of(a) == (Entry::<T>::Free { prev: r, next: r }),
        forall|r2: EntryRef|
            pre.valid_ref(r2) && r2 != r && r2 != a && r2 != b ==> #[trigger] post.entry_of(r2)
                == pre.entry_of(r2),
        post.freelist == Some(r),
        post.fl() == seq![r] + pre.fl().subrange(j + 1, pre.fl().len() as int)
            + pre.fl().subrange(0, j + 1),
        blocks_free_count(post.blocks@) == blocks_free_count(pre.blocks@) + 1,
        blocks_used_sum(post.blocks@) == blocks_used_sum(pre.blocks@),
        blocks_capacity_sum(post.blocks@) == blocks_capacity_sum(pre.blocks@),
    ensures
        post.wf(),
        PoolInner::free_post(pre, post, r),
{
    let fl = pre.fl();
    let n = fl.len() as int;
    let fl2 = post.fl();
    assert(fl2.len() == n + 1);
    // The freed entry is distinct from every node of the old cycle.
    assert forall|i: int| 0 <= i < n implies fl[i] != r by {
        assert(pre.wf_cycle_at(fl, i));
    }
    assert(pre.wf_cycle_at(fl, j));
    assert(pre.wf_cycle_at(fl, next_index(j, n)));
    assert(pre.is_free(a) && pre.is_free(b));
    assert(a != r && b != r);
    assert(n == 1 ==> a == b);
    assert(n > 1 ==> a != b);
    // The new order is a well-formed cycle.
    assert forall|i: int| 0 <= i < fl2.len() implies post.wf_cycle_at(fl2, i) by {
        assert(pre.wf_cycle_at(fl, j));
        assert(pre.wf_cycle_at(fl, next_index(j, n)));
        if i == 0 {
            assert(fl2[0] == r);
            assert(fl2[next_index(0, n + 1)] == b);
            assert(fl2[prev_index(0, n + 1)] == fl2[n]);
            assert(fl2[n] == fl[j]);
        } else {
            let m = i - 1;
            let oj = if m < n - j - 1 {
                j + 1 + m
            } else {
                m - (n - j - 1)
            };
            assert(fl2[i] == fl[oj]);
            assert(pre.wf_cycle_at(fl, oj));
            if i == 1 {
                // the node after r: its prev link was redirected to r
                assert(oj == next_index(j, n));
                assert(fl2[i] == b);
                if n == 1 {
                    assert(post.entry_of(b) == (Entry::<T>::Free { prev: r, next: r }));
                    assert(fl2[next_index(1, 2)] == r);
                } else {
                    assert(fl2[next_index(i, n + 1)] == fl[next_index(oj, n)]);
                    assert(fl2[prev_index(i, n + 1)] == r);
                }
            } else if i == fl2.len() - 1 {
                // the node before r: its next link was redirected to r
                assert(oj == j);
                assert(fl2[i] == a);
                assert(post.entry_of(a) == (Entry::<T>::Free {
                    prev: fl[prev_index(j, n)],
                    next: r,
                }));
                assert(fl2[prev_index(i, n + 1)] == fl[prev_index(j, n)]);
                assert(fl2[next_index(i, n + 1)] == r);
            } else {
                // untouched middle node
                assert(oj != j && oj != next_index(j, n));
                assert(fl[oj] != a && fl[oj] != b && fl[oj] != r);
                assert(post.entry_of(fl2[i]) == pre.entry_of(fl[oj]));
                assert(fl2[prev_index(i, n + 1)] == fl[prev_index(oj, n)]);
                assert(fl2[next_index(i, n + 1)] == fl[next_index(oj, n)]);
            }
        }
    }
    // Distinctness carries over from the old cycle.
    assert forall|i1: int, i2: int|
        0 <= i1 < fl2.len() && 0 <= i2 < fl2.len() && i1 != i2 implies fl2[i1] != fl2[i2] by {
        if i1 != 0 && i2 != 0 {
            let m1 = i1 - 1;
            let o1 = if m1 < n - j - 1 {
                j + 1 + m1
            } else {
                m1 - (n - j - 1)
            };
            let m2 = i2 - 1;
            let o2 = if m2 < n - j - 1 {
                j + 1 + m2
            } else {
                m2 - (n - j - 1)
            };
            assert(fl2[i1] == fl[o1] && fl2[i2] == fl[o2]);
            assert(o1 != o2);
        }
    }
    // Free entries are exactly the old ones plus r.
    assert forall|r2: EntryRef| #[trigger] post.is_free(r2) <==> pre.is_free(r2) || r2 == r by {
        if r2 == r {
            assert(post.entry_of(r) is Free);
            assert(post.valid_ref(r));
        } else if r2 == a || r2 == b {
            assert(post.valid_ref(r2));
            assert(post.entry_of(r2) is Free);
        } else {
            if post.is_free(r2) {
                assert(pre.valid_ref(r2));
                assert(post.entry_of(r2) == pre.entry_of(r2));
            }
            if pre.is_free(r2) {
                assert(post.entry_of(r2) == pre.entry_of(r2));
            }
        }
    }
    // Every free entry is on the new cycle.
    assert forall|r2: EntryRef| post.is_free(r2) implies fl2.contains(r2) by {
        if r2 == r {
            assert(fl2[0] == r);
        } else {
            assert(pre.is_free(r2));
            assert(fl.contains(r2));
            let x = choose|x: int| 0 <= x < n && fl[x] == r2;
            let i = if x > j {
                1 + (x - j - 1)
            } else {
                1 + (n - j - 1) + x
            };
            assert(fl2[i] == fl[x]);
        }
    }
    // Bookkeeping.
    lemma_live_free_partition(pre.blocks@);
    lemma_live_free_partition(post.blocks@);
}

/// The state change of removing the freelist head preserves the pool
/// invariant and is an allocation step: the head entry became reserved, its
/// two neighbours were linked to each other, and the ghost order dropped its
/// first element, rotated to start at the chosen replacement head.
#[verifier::spinoff_prover]
#[verifier::rlimit(100)]
proof fn lemma_pop<T>(pre: PoolInner<T>, post: PoolInner<T>, chose_prev: bool)
    requires
        pre.wf(),
        pre.fl().len() >= 2,
        pre.same_shape(post),
        forall|r2: EntryRef| pre.valid_ref(r2) <==> post.valid_ref(r2),
        post.entry_of(pre.fl()[0]) is Uninit,
        pre.fl().len() == 2 ==> post.entry_of(pre.fl()[1]) == (Entry::<T>::Free {
            prev: pre.fl()[1],
            next: pre.fl()[1],
        }),
        pre.fl().len() > 2 ==> post.entry_of(pre.fl()[pre.fl().len() - 1]) == (Entry::<T>::Free {
            prev: pre.fl()[pre.fl().len() - 2],
            next: pre.fl()[1],
        }),
        pre.fl().len() > 2 ==> post.entry_of(pre.fl()[1]) == (Entry::<T>::Free {
            prev: pre.fl()[pre.fl().len() - 1],
            next: pre.fl()[2],
        }),
        forall|r2: EntryRef|
            pre.valid_ref(r2) && r2 != pre.fl()[0] && r2 != pre.fl()[1] && r2 != pre.fl()[pre.fl().len()
                - 1] ==> #[trigger] post.entry_of(r2) == pre.entry_of(r2),
        post.freelist == Some(
            if chose_prev {
                pre.fl()[pre.fl().len() - 1]
            } else {
                pre.fl()[1]
            },
        ),
        post.fl() == if chose_prev {
            pre.fl().subrange(pre.fl().len() - 1, pre.fl().len() as int) + pre.fl().subrange(
                1,
                pre.fl().len() - 1,
            )
        } else {
            pre.fl().subrange(1, pre.fl().len() as int)
        },
        blocks_free_count(post.blocks@) + 1 == blocks_free_count(pre.blocks@),
        blocks_used_sum(post.blocks@) == blocks_used_sum(pre.blocks@),
        blocks_capacity_sum(post.blocks@) == blocks_capacity_sum(pre.blocks@),
    ensures
        post.wf(),
        PoolInner::alloc_post(pre, post, pre.fl()[0]),
{
    let fl = pre.fl();
    let n = fl.len() as int;
    let fl2 = post.fl();
    let head = fl[0];
    assert(fl2.len() == n - 1);
    assert forall|i: int| 0 <= i < n implies pre.wf_cycle_at(fl, i) by {}
    // The new order is a well-formed cycle.
    assert forall|i: int| 0 <= i < fl2.len() implies post.wf_cycle_at(fl2, i) by {
        let oj = if chose_prev {
            if i == 0 {
                n - 1
            } else {
                i
            }
        } else {
            i + 1
        };
        assert(fl2[i] == fl[oj]);
        assert(pre.wf_cycle_at(fl, oj));
        if n == 2 {
            assert(fl2[i] == fl[1]);
            assert(post.entry_of(fl[1]) == (Entry::<T>::Free { prev: fl[1], next: fl[1] }));
        } else {
            if oj == 1 {
                assert(fl2[prev_index(i, n - 1)] == fl[n - 1]);
                assert(fl2[next_index(i, n - 1)] == fl[2]);
            } else if oj == n - 1 {
                assert(fl2[prev_index(i, n - 1)] == fl[n - 2]);
                assert(fl2[next_index(i, n - 1)] == fl[1]);
            } else {
                assert(fl[oj] != head && fl[oj] != fl[1] && fl[oj] != fl[n - 1]);
                assert(post.entry_of(fl[oj]) == pre.entry_of(fl[oj]));
                assert(fl2[prev_index(i, n - 1)] == fl[prev_index(oj, n)]);
                assert(fl2[next_index(i, n - 1)] == fl[next_index(oj, n)]);
            }
        }
    }
    // Distinctness carries over.
    assert forall|i1: int, i2: int|
        0 <= i1 < fl2.len() && 0 <= i2 < fl2.len() && i1 != i2 implies fl2[i1] != fl2[i2] by {
        let o1 = if chose_prev {
            if i1 == 0 {
                n - 1
            } else {
                i1
            }
        } else {
            i1 + 1
        };
        let o2 = if chose_prev {
            if i2 == 0 {
                n - 1
            } else {
                i2
            }
        } else {
            i2 + 1
        };
        assert(fl2[i1] == fl[o1] && fl2[i2] == fl[o2]);
        assert(o1 != o2);
    }
    // The free entries are the old ones minus the head.
    assert forall|r2: EntryRef| #[trigger] post.is_free(r2) <==> (pre.is_free(r2) && r2 != head) by {
        if r2 == head {
            assert(!post.is_free(r2));
        } else if r2 == fl[1] || r2 == fl[n - 1] {
            assert(pre.wf_cycle_at(fl, 1));
            assert(pre.wf_cycle_at(fl, n - 1));
            assert(pre.is_free(r2));
            assert(post.is_free(r2));
        } else {
            if post.is_free(r2) {
                assert(pre.valid_ref(r2));
                assert(post.entry_of(r2) == pre.entry_of(r2));
            }
            if pre.is_free(r2) {
                assert(post.entry_of(r2) == pre.entry_of(r2));
            }
        }
    }
    // Every free entry is on the new cycle.
    assert forall|r2: EntryRef| post.is_free(r2) implies fl2.contains(r2) by {
        assert(pre.is_free(r2));
        assert(fl.contains(r2));
        let x = choose|x: int| 0 <= x < n && fl[x] == r2;
        assert(x != 0);
        let i = if chose_prev {
            if x == n - 1 {
                0
            } else {
                x
            }
        } else {
            x - 1
        };
        assert(fl2[i] == fl[x]);
    }
    assert(pre.wf_cycle_at(fl, 0));
    assert(pre.wf_cycle_at(fl, 1));
    assert(pre.wf_cycle_at(fl, n - 1));
    assert(pre.is_free(head) && pre.is_free(fl[1]) && pre.is_free(fl[n - 1]));
    assert forall|r2: EntryRef|
        pre.valid_ref(r2) && !pre.is_free(r2) implies #[trigger] post.entry_of(r2)
        == pre.entry_of(r2) by {
        assert(r2 != head && r2 != fl[1] && r2 != fl[n - 1]);
    }
    lemma_live_free_partition(pre.blocks@);
    lemma_live_free_partition(post.blocks@);
    assert(post.used_count() == pre.used_count() + 1);
}

/// Appending a block adds its live count to the pool-wide count.
proof fn lemma_blocks_live_count_push<T>(blocks: Seq<Block<T>>, blk: Block<T>)
    ensures
        blocks_live_count(blocks.push(blk)) == blocks_live_count(blocks) + seq_live_count(
            blk.entries@,
        ),
{
    assert(blocks.push(blk).drop_last() =~= blocks);
}

/// Appending a block adds its bump count to the pool-wide sum.
proof fn lemma_blocks_used_sum_push<T>(blocks: Seq<Block<T>>, blk: Block<T>)
    ensures
        blocks_used_sum(blocks.push(blk)) == blocks_used_sum(blocks) + blk.len_used(),
{
    assert(blocks.push(blk).drop_last() =~= blocks);
}

/// Appending a block adds its capacity to the pool-wide sum.
proof fn lemma_blocks_capacity_sum_push<T>(blocks: Seq<Block<T>>, blk: Block<T>)
    ensures
        blocks_capacity_sum(blocks.push(blk)) == blocks_capacity_sum(blocks) + blk.capacity,
{
    assert(blocks.push(blk).drop_last() =~= blocks);
}

/// Appending an entry adds its live indicator to the count.
proof fn lemma_seq_live_count_push<T>(s: Seq<Entry<T>>, e: Entry<T>)
    ensures
        seq_live_count(s.push(e)) == seq_live_count(s) + live_ind(e),
{
    assert(s.push(e).drop_last() =~= s);
}

/// Replacing one block shifts the pool-wide live count by the difference of
/// the two blocks' counts.
proof fn lemma_blocks_live_count_update<T>(blocks: Seq<Block<T>>, b: int, blk: Block<T>)
    requires
        0 <= b < blocks.len(),
    ensures
        blocks_live_count(blocks.update(b, blk)) + seq_live_count(blocks[b].entries@)
            == blocks_live_count(blocks) + seq_live_count(blk.entries@),
    decreases blocks.len(),
{
    let t = blocks.update(b, blk);
    if b == blocks.len() - 1 {
        assert(t.drop_last() =~= blocks.drop_last());
    } else {
        assert(t.drop_last() =~= blocks.drop_last().update(b, blk));
        assert(t.last() == blocks.last());
        lemma_blocks_live_count_update(blocks.drop_last(), b, blk);
    }
}

/// Replacing one block shifts the pool-wide bump sum by the difference of
/// the two blocks' bump counts.
proof fn lemma_blocks_used_sum_update<T>(blocks: Seq<Block<T>>, b: int, blk: Block<T>)
    requires
        0 <= b < blocks.len(),
    ensures
        blocks_used_sum(blocks.update(b, blk)) + blocks[b].len_used() == blocks_used_sum(blocks)
            + blk.len_used(),
    decreases blocks.len(),
{
    let t = blocks.update(b, blk);
    if b == blocks.len() - 1 {
        assert(t.drop_last() =~= blocks.drop_last());
    } else {
        assert(t.drop_last() =~= blocks.drop_last().update(b, blk));
        assert(t.last() == blocks.last());
        lemma_blocks_used_sum_update(blocks.drop_last(), b, blk);
    }
}

/// Replacing one block shifts the pool-wide capacity sum by the difference
/// of the two blocks' capacities.
proof fn lemma_blocks_capacity_sum_update<T>(blocks: Seq<Block<T>>, b: int, blk: Block<T>)
    requires
        0 <= b < blocks.len(),
    ensures
        blocks_capacity_sum(blocks.update(b, blk)) + blocks[b].capacity == blocks_capacity_sum(
            blocks,
        ) + blk.capacity,
    decreases blocks.len(),
{
    let t = blocks.update(b, blk);
    if b == blocks.len() - 1 {
        assert(t.drop_last() =~= blocks.drop_last());
    } else {
        assert(t.drop_last() =~= blocks.drop_last().update(b, blk));
        assert(t.last() == blocks.last());
        lemma_blocks_capacity_sum_update(blocks.drop_last(), b, blk);
    }
}

/// Replacing one block while keeping its length and capacity keeps the
/// pool-wide used and capacity sums.
proof fn lemma_blocks_used_capacity_update<T>(blocks: Seq<Block<T>>, b: int, blk: Block<T>)
    requires
        0 <= b < blocks.len(),
        blk.len_used() == blocks[b].len_used(),
        blk.capacity == blocks[b].capacity,
    ensures
        blocks_used_sum(blocks.update(b, blk)) == blocks_used_sum(blocks),
        blocks_capacity_sum(blocks.update(b, blk)) == blocks_capacity_sum(blocks),
    decreases blocks.len(),
{
    let t = blocks.update(b, blk);
    if b == blocks.len() - 1 {
        assert(t.drop_last() =~= blocks.drop_last());
    } else {
        assert(t.drop_last() =~= blocks.drop_last().update(b, blk));
        assert(t.last() == blocks.last());
        lemma_blocks_used_capacity_update(blocks.drop_last(), b, blk);
    }
}

} // verus!
