//! The single-threaded pool and its allocation API.

use vstd::prelude::*;

use crate::entry::EntryRef;
use crate::poolinner::PoolInner;
use crate::poolinner::lemma_alloc_value_compose;
use crate::unsafebox::UnsafeBox;

verus! {

/// A single-threaded memory pool holding objects of type `T`. The pool
/// obtains blocks as it grows and never gives one up while it exists, so
/// every entry keeps its position for the pool's whole life.
pub struct Pool<T> {
    /// The pool core: blocks, freelist and configuration.
    pub inner: PoolInner<T>,
}

impl<T> Pool<T> {
    /// The pool invariant; every operation preserves it.
    pub open spec fn wf(&self) -> bool {
        self.inner.wf()
    }

    /// True when an allocation is possible, see [`PoolInner::can_alloc`].
    pub open spec fn can_alloc(&self) -> bool {
        self.inner.can_alloc()
    }

    /// True when `r` names a live entry of this pool.
    pub open spec fn is_data(&self, r: EntryRef) -> bool {
        self.inner.is_data(r)
    }

    /// The value stored at `r`.
    pub open spec fn value_of(&self, r: EntryRef) -> T {
        self.inner.value_of(r)
    }

    /// How many entries are live.
    pub open spec fn used_count(&self) -> nat {
        self.inner.used_count()
    }

    /// Creates a new pool for objects of type `T`.
    pub fn new() -> (p: Pool<T>)
        ensures
            p.wf(),
            p.inner.blocks@.len() == 0,
            p.inner.freelist is None,
            p.inner.min_entries == 64,
            p.used_count() == 0,
            p.inner.capacity_total() == 0,
    {
        Pool { inner: PoolInner::new() }
    }

    /// Configures the minimum number of entries the first block will hold.
    /// Meaningful only before the first allocation: the first block's
    /// capacity is fixed when that block is created.
    pub fn with_min_entries(&mut self, min_entries: usize)
        requires
            old(self).wf(),
            old(self).inner.blocks@.len() == 0,
        ensures
            final(self).wf(),
            final(self).inner.min_entries == min_entries,
            final(self).inner.blocks@.len() == 0,
            final(self).inner.freelist == old(self).inner.freelist,
    {
        self.inner.min_entries(min_entries);
        proof {
            assert forall|r2: EntryRef| !self.inner.is_free(r2) by {
                if self.inner.is_free(r2) {
                    assert(old(self).inner.is_free(r2));
                    assert(old(self).inner.fl().contains(r2));
                }
            }
        }
    }

    /// Destroys the pool while keeping its blocks allocated for the rest of
    /// the program. The fast way out when allocations are meant to stay.
    pub fn leak(self) {
    }

    /// Allocates an entry and stores `t` in it. The handle must eventually
    /// be given back with [`Self::dealloc`], [`Self::forget`] or
    /// [`Self::take`]; one that never comes back leaks its slot inside the
    /// pool.
    pub fn allocate(&mut self, t: T) -> (b: UnsafeBox<T>)
        requires
            old(self).wf(),
            old(self).can_alloc(),
        ensures
            final(self).wf(),
            PoolInner::alloc_value_post(old(self).inner, final(self).inner, b@, t),
    {
        let ghost pre = self.inner;
        let r = self.inner.alloc_entry();
        let ghost mid = self.inner;
        self.inner.write_entry(r, t);
        proof {
            lemma_alloc_value_compose(pre, mid, self.inner, r, t);
        }
        UnsafeBox::new(r)
    }

    /// Frees the handle: drops the value and puts the entry back onto the
    /// freelist. The handle must come from this pool.
    pub fn dealloc(&mut self, b: UnsafeBox<T>)
        requires
            old(self).wf(),
            old(self).is_data(b@),
        ensures
            final(self).wf(),
            PoolInner::dealloc_post(old(self).inner, final(self).inner, b@),
    {
        let r = b.entry_ref();
        let _value = self.inner.take_value(r);
        self.inner.free_entry(r);
    }

    /// Frees the handle on the fast path. A pointer-based layout would have
    /// to scan block address ranges in the checked path; an entry position
    /// already names its block here, so only the inner call differs from
    /// [`Self::dealloc`].
    pub fn dealloc_unchecked(&mut self, b: UnsafeBox<T>)
        requires
            old(self).wf(),
            old(self).is_data(b@),
        ensures
            final(self).wf(),
            PoolInner::dealloc_post(old(self).inner, final(self).inner, b@),
    {
        let r = b.entry_ref();
        let _value = self.inner.take_value(r);
        self.inner.fast_free_entry_unchecked(r);
    }

    /// Puts the entry back onto the freelist without dropping the value:
    /// the value leaks, the slot is recovered.
    pub fn forget(&mut self, b: UnsafeBox<T>)
        requires
            old(self).wf(),
            old(self).is_data(b@),
        ensures
            final(self).wf(),
            PoolInner::dealloc_post(old(self).inner, final(self).inner, b@),
    {
        let r = b.entry_ref();
        let value = self.inner.take_value(r);
        forget_value(value);
        self.inner.free_entry(r);
    }

    /// Takes the value out of the entry, puts the entry back onto the
    /// freelist, and returns the value.
    pub fn take(&mut self, b: UnsafeBox<T>) -> (v: T)
        requires
            old(self).wf(),
            old(self).is_data(b@),
        ensures
            final(self).wf(),
            v == old(self).value_of(b@),
            PoolInner::dealloc_post(old(self).inner, final(self).inner, b@),
    {
        let r = b.entry_ref();
        let value = self.inner.take_value(r);
        self.inner.free_entry(r);
        value
    }

    /// A shared reference to the value a handle owns.
    pub fn get<'a>(&'a self, b: &UnsafeBox<T>) -> (v: &'a T)
        requires
            self.wf(),
            self.is_data(b@),
        ensures
            *v == self.value_of(b@),
    {
        self.inner.value_ref(b.entry_ref())
    }

    /// Replaces the value a handle owns and returns the previous value.
    pub fn replace(&mut self, b: &UnsafeBox<T>, value: T) -> (v: T)
        requires
            old(self).wf(),
            old(self).is_data(b@),
        ensures
            final(self).wf(),
            v == old(self).value_of(b@),
            PoolInner::write_post(old(self).inner, final(self).inner, b@, value),
    {
        self.inner.replace_value(b.entry_ref(), value)
    }

    /// Overwrites the value a handle owns, dropping the previous value.
    pub fn set(&mut self, b: &UnsafeBox<T>, value: T)
        requires
            old(self).wf(),
            old(self).is_data(b@),
        ensures
            final(self).wf(),
            PoolInner::write_post(old(self).inner, final(self).inner, b@, value),
    {
        let _old_value = self.inner.replace_value(b.entry_ref(), value);
    }

    /// Diagnostics: the `(used, free, capacity)` triple, see
    /// [`PoolInner::stat`].
    pub fn stat(&self) -> (r: (usize, usize, usize))
        requires
            self.wf(),
        ensures
            r.0 == self.inner.used_count(),
            r.1 == self.inner.free_count(),
            r.2 == self.inner.capacity_total(),
    {
        self.inner.stat()
    }

    /// Diagnostics: true when no allocation is live. A pool about to go away
    /// should report true here, else its live entries dangle.
    pub fn is_all_free(&self) -> (r: bool)
        requires
            self.wf(),
        ensures
            r == (self.inner.used_count() == 0),
    {
        self.inner.is_all_free()
    }
}

/// Relies on core::mem::forget: discards the value without running its
/// destructor, as an intentional leak.
#[verifier::external_body]
fn forget_value<T>(t: T) {
    core::mem::forget(t)
}

} // verus!
