//! Typestate handles: slots tagged with an access policy.

use core::marker::PhantomData;

use vstd::prelude::*;

use crate::NUM_BLOCKS;
use crate::entry::EntryRef;
use crate::pool::Pool;
use crate::poolinner::PoolInner;

verus! {

/// Base of the typestate policies.
pub trait Policy {

}

/// Policies of slots whose contents a drop may run; the pool operations
/// consume the value explicitly, so this stays a marker.
pub trait DropPolicy: Policy {

}

/// Permits getting an immutable reference to the value.
pub trait CanGetReference: Policy {

}

/// Permits destroying the slot by taking the value out of it.
pub trait CanTakeValue: Policy {

}

/// Holds uninitialized memory.
pub struct Uninitialized;

impl Policy for Uninitialized {

}

impl DropPolicy for Uninitialized {

}

/// Holds an initialized value.
pub struct Initialized;

impl Policy for Initialized {

}

impl DropPolicy for Initialized {

}

impl CanGetReference for Initialized {

}

impl CanTakeValue for Initialized {

}

/// Initialized, mutation is permitted.
pub struct Mutable;

impl Policy for Mutable {

}

impl DropPolicy for Mutable {

}

impl CanGetReference for Mutable {

}

impl CanTakeValue for Mutable {

}

/// Initialized, stable pinned access is permitted.
pub struct Pinnable;

impl Policy for Pinnable {

}

impl DropPolicy for Pinnable {

}

impl CanGetReference for Pinnable {

}

impl CanTakeValue for Pinnable {

}

/// Initialized, tagged-identifier conversions are permitted.
pub struct NaNTagging;

impl Policy for NaNTagging {

}

impl DropPolicy for NaNTagging {

}

impl CanGetReference for NaNTagging {

}

impl CanTakeValue for NaNTagging {

}

/// A handle to an allocated slot, tagged with a policy that decides at
/// compile time which operations are available. A slot does not track which
/// pool it belongs to; the user must hand it back to the right pool.
pub struct Slot<T, S: Policy> {
    entry: EntryRef,
    _t: PhantomData<T>,
    _s: PhantomData<S>,
}

impl<T, S: Policy> View for Slot<T, S> {
    type V = EntryRef;

    closed spec fn view(&self) -> EntryRef {
        self.entry
    }
}

impl<T, S: Policy> Slot<T, S> {
    // Private ctor
    pub(crate) fn new(entry: EntryRef) -> (s: Slot<T, S>)
        ensures
            s@ == entry,
    {
        Slot { entry, _t: PhantomData, _s: PhantomData }
    }

    /// The position of the entry this slot names.
    pub fn entry_ref(&self) -> (r: EntryRef)
        ensures
            r == self@,
    {
        self.entry
    }
}

impl<T> Slot<T, Uninitialized> {
    /// Tags the slot as initialized. The caller must have written a value
    /// first; the operations on an initialized slot demand a live entry.
    pub fn assume_init(self) -> (s: Slot<T, Initialized>)
        ensures
            s@ == self@,
    {
        Slot::new(self.entry)
    }
}

impl<T> Slot<T, Initialized> {
    /// Retags an initialized slot for mutation by references.
    pub fn for_mutation(self) -> (s: Slot<T, Mutable>)
        ensures
            s@ == self@,
    {
        Slot::new(self.entry)
    }

    /// Retags an initialized slot for pinned access: pool entries never
    /// move, so a stable reference is sound for the pool's whole life.
    pub fn for_pinning(self) -> (s: Slot<T, Pinnable>)
        ensures
            s@ == self@,
    {
        Slot::new(self.entry)
    }

    /// Retags an initialized slot for the tagged-identifier facilities.
    pub fn for_nantagging(self) -> (s: Slot<T, NaNTagging>)
        ensures
            s@ == self@,
    {
        Slot::new(self.entry)
    }
}

impl<T, S: CanGetReference> Slot<T, S> {
    /// An immutable reference to the value in the slot; the slot must hold
    /// an initialized value of this pool.
    pub fn get<'a>(&self, pool: &'a Pool<T>) -> (v: &'a T)
        requires
            pool.wf(),
            pool.is_data(self@),
        ensures
            *v == pool.value_of(self@),
    {
        pool.inner.value_ref(self.entry)
    }
}

impl<T, S: CanTakeValue> Slot<T, S> {
    /// Takes the value out of the slot and hands the slot back to the pool.
    pub fn take(self, pool: &mut Pool<T>) -> (v: T)
        requires
            old(pool).wf(),
            old(pool).is_data(self@),
        ensures
            final(pool).wf(),
            v == old(pool).value_of(self@),
            PoolInner::dealloc_post(old(pool).inner, final(pool).inner, self@),
    {
        let value = pool.inner.take_value(self.entry);
        pool.inner.free_entry(self.entry);
        value
    }
}

impl<T> Slot<T, Mutable> {
    /// Overwrites the value in the slot, dropping the previous value.
    pub fn set(&self, pool: &mut Pool<T>, value: T)
        requires
            old(pool).wf(),
            old(pool).is_data(self@),
        ensures
            final(pool).wf(),
            PoolInner::write_post(old(pool).inner, final(pool).inner, self@, value),
    {
        let _old_value = pool.inner.replace_value(self.entry, value);
    }
}

/// The tagged identifier of an entry position: 8-aligned and 48 bits wide,
/// so the top 16 bits and the low 3 bits stay clear for tag bits.
pub open spec fn slot_id(r: EntryRef) -> int {
    (r.block * 0x8000000000 + r.index) * 8
}

/// Packing an entry position into a tagged identifier and unpacking it
/// again is the identity, for every position a pool can hand out.
pub proof fn lemma_slot_id_roundtrip(r: EntryRef)
    requires
        r.block < NUM_BLOCKS,
        r.index < 0x8000000000,
    ensures
        slot_id(r) % 8 == 0,
        0 <= slot_id(r) < 0x1000000000000,
        (slot_id(r) / 8) / 0x8000000000 == r.block,
        (slot_id(r) / 8) % 0x8000000000 == r.index,
{
    let v = r.block * 0x8000000000 + r.index;
    assert((v * 8) / 8 == v && (v * 8) % 8 == 0) by (nonlinear_arith);
    assert(v / 0x8000000000 == r.block && v % 0x8000000000 == r.index) by (nonlinear_arith)
        requires
            r.index < 0x8000000000,
            v == r.block * 0x8000000000 + r.index,
    ;
    assert(v * 8 < 0x1000000000000) by (nonlinear_arith)
        requires
            r.block < NUM_BLOCKS,
            r.index < 0x8000000000,
            v == r.block * 0x8000000000 + r.index,
    ;
}

impl<T> Slot<T, NaNTagging> {
    /// Converts the slot to a `u64` identifier. The identifier is 8-aligned
    /// and fits in 48 bits, so the highest 16 bits and the lowest 3 bits are
    /// free to carry auxiliary information (NaN tagging).
    pub fn into_u64(self) -> (id: u64)
        requires
            self@.block < NUM_BLOCKS,
            self@.index < 0x8000000000,
        ensures
            id == slot_id(self@),
            id % 8 == 0,
            id < 0x1000000000000u64,
    {
        proof {
            lemma_slot_id_roundtrip(self@);
        }
        (self.entry.block as u64 * 0x8000000000u64 + self.entry.index as u64) * 8
    }

    /// Converts an identifier obtained from [`Self::into_u64`] back into a
    /// slot. The identifier must carry no auxiliary bits.
    pub fn from_u64(id: u64) -> (s: Slot<T, NaNTagging>)
        requires
            id % 8 == 0,
            id < 0x1000000000000u64,
            (id / 8) as int % 0x8000000000 <= usize::MAX,
            (id / 8) as int / 0x8000000000 <= usize::MAX,
        ensures
            s@.block == (id / 8) as int / 0x8000000000,
            s@.index == (id / 8) as int % 0x8000000000,
    {
        let v = id / 8;
        Slot::new(
            EntryRef {
                block: (v / 0x8000000000u64) as usize,
                index: (v % 0x8000000000u64) as usize,
            },
        )
    }

    /// Converts an identifier back into a slot after stripping any
    /// auxiliary bits from the free positions.
    pub fn from_u64_masked(id: u64) -> (s: Slot<T, NaNTagging>)
        requires
            ((id & 0x0000fffffffffff8u64) / 8) as int % 0x8000000000 <= usize::MAX,
            ((id & 0x0000fffffffffff8u64) / 8) as int / 0x8000000000 <= usize::MAX,
        ensures
            s@.block == ((id & 0x0000fffffffffff8u64) / 8) as int / 0x8000000000,
            s@.index == ((id & 0x0000fffffffffff8u64) / 8) as int % 0x8000000000,
    {
        let cleared = id & 0x0000fffffffffff8u64;
        proof {
            assert(cleared % 8 == 0 && cleared < 0x1000000000000u64) by (bit_vector)
                requires
                    cleared == id & 0x0000fffffffffff8u64,
            ;
        }
        Slot::from_u64(cleared)
    }
}

impl<T> Pool<T> {
    /// Allocates a slot without initializing it. Write a value through
    /// [`Pool::write_uninit`] and tag the slot with
    /// [`Slot::assume_init`] before reading it.
    pub fn alloc_uninit(&mut self) -> (s: Slot<T, Uninitialized>)
        requires
            old(self).wf(),
            old(self).can_alloc(),
        ensures
            final(self).wf(),
            PoolInner::alloc_post(old(self).inner, final(self).inner, s@),
    {
        let r = self.inner.alloc_entry();
        Slot::new(r)
    }

    /// Allocates a slot and stores `t` in it.
    pub fn alloc_slot(&mut self, t: T) -> (s: Slot<T, Initialized>)
        requires
            old(self).wf(),
            old(self).can_alloc(),
        ensures
            final(self).wf(),
            PoolInner::alloc_value_post(old(self).inner, final(self).inner, s@, t),
    {
        let ghost pre = self.inner;
        let r = self.inner.alloc_entry();
        let ghost mid = self.inner;
        self.inner.write_entry(r, t);
        proof {
            crate::poolinner::lemma_alloc_value_compose(pre, mid, self.inner, r, t);
        }
        Slot::new(r)
    }

    /// Writes the first value into an uninitialized slot.
    pub fn write_uninit(&mut self, s: &Slot<T, Uninitialized>, value: T)
        requires
            old(self).wf(),
            old(self).inner.is_uninit(s@),
        ensures
            final(self).wf(),
            PoolInner::write_post(old(self).inner, final(self).inner, s@, value),
    {
        self.inner.write_entry(s.entry_ref(), value);
    }

    /// Hands a slot back to the pool: drops the value if the slot holds
    /// one, and puts the entry back onto the freelist.
    pub fn free<S: Policy>(&mut self, s: Slot<T, S>)
        requires
            old(self).wf(),
            old(self).inner.valid_ref(s@),
            !old(self).inner.is_free(s@),
        ensures
            final(self).wf(),
            old(self).inner.is_data(s@) ==> PoolInner::dealloc_post(
                old(self).inner,
                final(self).inner,
                s@,
            ),
            old(self).inner.is_uninit(s@) ==> PoolInner::free_post(
                old(self).inner,
                final(self).inner,
                s@,
            ),
    {
        let r = s.entry_ref();
        if self.inner.entry_is_data(r) {
            let _value = self.inner.take_value(r);
        }
        self.inner.free_entry(r);
    }
}

} // verus!
