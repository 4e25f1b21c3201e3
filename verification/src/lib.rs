//! A typed object-pool allocator.
//!
//! A pool hands out slots for values of one type `T`. Storage is carved out of
//! exponentially growing blocks; freed slots are threaded onto a cyclic
//! doubly-linked freelist kept inside the slots themselves, so that a free and
//! a following allocation are O(1). Blocks never move and are only released
//! when the whole pool goes away.
//!
//! Slots are addressed by [`EntryRef`], a (block, index) pair, so every
//! reachable slot lies in exactly one block and stays at a stable position for
//! the life of the pool.

use vstd::prelude::*;

mod basicbox;
mod block;
mod entry;
mod pool;
mod poolinner;
mod refcounted;
mod slot;
mod strongcounted;
mod unsafebox;

pub use basicbox::BasicBox;
pub use block::Block;
pub use block::MAX_CAPACITY;
pub use block::first_block_capacity;
pub use block::next_power_of_two;
pub use entry::Entry;
pub use entry::EntryRef;
pub use pool::Pool;
pub use poolinner::PoolInner;
pub use poolinner::lemma_accounting;
pub use poolinner::lemma_alloc_dealloc_restores;
pub use poolinner::lemma_freelist_cyclic;
pub use poolinner::lemma_geometric_growth;
pub use poolinner::lemma_positions_stable;
pub use poolinner::lemma_take_after_alloc;
pub use refcounted::Rc;
pub use refcounted::RcInner;
pub use refcounted::Weak;
pub use refcounted::lemma_clone_drop_preserves_record;
pub use refcounted::lemma_downgrade_keeps_value;
pub use refcounted::rc_live;
pub use refcounted::weak_live;
pub use slot::CanGetReference;
pub use slot::CanTakeValue;
pub use slot::DropPolicy;
pub use slot::Initialized;
pub use slot::Mutable;
pub use slot::NaNTagging;
pub use slot::Pinnable;
pub use slot::Policy;
pub use slot::Slot;
pub use slot::Uninitialized;
pub use slot::lemma_slot_id_roundtrip;
pub use slot::slot_id;
pub use strongcounted::Sc;
pub use strongcounted::ScInner;
pub use strongcounted::lemma_sc_clone_drop_preserves_record;
pub use strongcounted::sc_live;
pub use unsafebox::UnsafeBox;

verus! {

/// Maximum number of blocks in a pool. Block capacity doubles with each
/// block, so this many blocks exceed any plausible address space.
pub const NUM_BLOCKS: usize = 44;

/// The error returned when a cooperatively owned pool cannot be acquired or
/// released by the calling thread.
#[derive(Debug, Copy, Clone)]
pub struct PoolOwnershipError;

} // verus!
