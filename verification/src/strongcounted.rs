//! Strong-only reference-counted handles.

use vstd::prelude::*;

use crate::entry::EntryRef;
use crate::pool::Pool;
use crate::poolinner::PoolInner;
use crate::slot::Mutable;
use crate::slot::Slot;

verus! {

/// The record stored in the pool for every strong-counted value: the value
/// and its strong count. Without weak companions the record is one word
/// smaller than [`crate::refcounted::RcInner`], and the value lives exactly
/// as long as the slot.
pub struct ScInner<T> {
    /// The shared value.
    pub data: T,
    /// How many strong handles share the value.
    pub strong: usize,
}

impl<T> ScInner<T> {
    /// A fresh record: one strong handle.
    pub fn new(data: T) -> (r: ScInner<T>)
        ensures
            r.data == data,
            r.strong == 1,
    {
        ScInner { data, strong: 1 }
    }

    /// The strong count.
    pub fn get_strong(&self) -> (n: usize)
        ensures
            n == self.strong,
    {
        self.strong
    }

    /// Counts one more strong handle.
    pub fn inc_strong(&mut self)
        requires
            old(self).strong < usize::MAX,
        ensures
            *final(self) == sc_inc_strong(*old(self)),
    {
        self.strong = self.strong + 1;
    }

    /// Counts one strong handle fewer.
    pub fn dec_strong(&mut self)
        requires
            old(self).strong >= 1,
        ensures
            *final(self) == sc_dec_strong(*old(self)),
    {
        self.strong = self.strong - 1;
    }
}

/// The record with one more strong handle counted.
pub open spec fn sc_inc_strong<T>(i: ScInner<T>) -> ScInner<T> {
    ScInner { strong: (i.strong + 1) as usize, ..i }
}

/// The record with one strong handle fewer counted.
pub open spec fn sc_dec_strong<T>(i: ScInner<T>) -> ScInner<T> {
    ScInner { strong: (i.strong - 1) as usize, ..i }
}

/// A strong-only reference-counted handle to a pool-allocated value.
/// Handles to one slot share the value; the counter lives in the slot next
/// to it. Every state change goes through the pool, which the caller
/// passes in.
pub struct Sc<T> {
    slot: Slot<ScInner<T>, Mutable>,
}

impl<T> View for Sc<T> {
    type V = EntryRef;

    closed spec fn view(&self) -> EntryRef {
        self.slot@
    }
}

/// The handle invariant an `Sc` relies on: its slot is live with at least
/// one strong handle counted.
pub open spec fn sc_live<T>(p: Pool<ScInner<T>>, r: EntryRef) -> bool {
    &&& p.inner.is_data(r)
    &&& p.inner.value_of(r).strong >= 1
}

impl<T> Sc<T> {
    /// Allocates a value into the pool with a strong count of one.
    pub fn new(t: T, pool: &mut Pool<ScInner<T>>) -> (sc: Sc<T>)
        requires
            old(pool).wf(),
            old(pool).can_alloc(),
        ensures
            final(pool).wf(),
            PoolInner::alloc_value_post(
                old(pool).inner,
                final(pool).inner,
                sc@,
                (ScInner { data: t, strong: 1 }),
            ),
            sc_live(*final(pool), sc@),
    {
        let inner = ScInner::new(t);
        Sc { slot: pool.alloc_slot(inner).for_mutation() }
    }

    /// Another strong handle to the same slot; counts it.
    pub fn clone(&self, pool: &mut Pool<ScInner<T>>) -> (sc: Sc<T>)
        requires
            old(pool).wf(),
            sc_live(*old(pool), self@),
            old(pool).inner.value_of(self@).strong < usize::MAX,
        ensures
            final(pool).wf(),
            sc@ == self@,
            PoolInner::write_post(
                old(pool).inner,
                final(pool).inner,
                self@,
                sc_inc_strong(old(pool).inner.value_of(self@)),
            ),
            sc_live(*final(pool), self@),
    {
        let r = self.slot.entry_ref();
        let mut inner = pool.inner.take_value(r);
        inner.inc_strong();
        pool.inner.write_entry(r, inner);
        Sc { slot: Slot::new(r) }
    }

    /// The number of strong handles to this slot.
    pub fn strong_count(this: &Sc<T>, pool: &Pool<ScInner<T>>) -> (n: usize)
        requires
            pool.wf(),
            pool.inner.is_data(this@),
        ensures
            n == pool.inner.value_of(this@).strong,
    {
        pool.inner.value_ref(this.slot.entry_ref()).get_strong()
    }

    /// A shared reference to the shared value.
    pub fn get<'a>(&self, pool: &'a Pool<ScInner<T>>) -> (v: &'a T)
        requires
            pool.wf(),
            sc_live(*pool, self@),
        ensures
            *v == pool.inner.value_of(self@).data,
    {
        &pool.inner.value_ref(self.slot.entry_ref()).data
    }

    /// Replaces the shared value, dropping the previous one.
    pub fn set(&self, pool: &mut Pool<ScInner<T>>, value: T)
        requires
            old(pool).wf(),
            sc_live(*old(pool), self@),
        ensures
            final(pool).wf(),
            PoolInner::write_post(
                old(pool).inner,
                final(pool).inner,
                self@,
                (ScInner { data: value, strong: old(pool).inner.value_of(self@).strong }),
            ),
            sc_live(*final(pool), self@),
    {
        let r = self.slot.entry_ref();
        let mut inner = pool.inner.take_value(r);
        inner.data = value;
        pool.inner.write_entry(r, inner);
    }

    /// Gives this strong handle up and counts it off. When it was the last
    /// handle the value is dropped and the slot goes back to the pool's
    /// freelist.
    pub fn drop(this: Sc<T>, pool: &mut Pool<ScInner<T>>)
        requires
            old(pool).wf(),
            sc_live(*old(pool), this@),
        ensures
            final(pool).wf(),
            old(pool).inner.value_of(this@).strong > 1 ==> PoolInner::write_post(
                old(pool).inner,
                final(pool).inner,
                this@,
                sc_dec_strong(old(pool).inner.value_of(this@)),
            ),
            old(pool).inner.value_of(this@).strong == 1 ==> PoolInner::dealloc_post(
                old(pool).inner,
                final(pool).inner,
                this@,
            ),
    {
        let r = this.slot.entry_ref();
        let mut inner = pool.inner.take_value(r);
        inner.dec_strong();
        if inner.get_strong() == 0 {
            // the last handle: value and slot both go
            pool.inner.free_entry(r);
        } else {
            pool.inner.write_entry(r, inner);
        }
    }
}

impl<T: Default> Sc<T> {
    /// Allocates a default-initialized value with a strong count of one.
    pub fn default(pool: &mut Pool<ScInner<T>>) -> (sc: Sc<T>)
        requires
            old(pool).wf(),
            old(pool).can_alloc(),
        ensures
            final(pool).wf(),
            sc_live(*final(pool), sc@),
            exists|x: T|
                PoolInner::alloc_value_post(
                    old(pool).inner,
                    final(pool).inner,
                    sc@,
                    (ScInner { data: x, strong: 1 }),
                ),
    {
        let value = T::default();
        let sc = Sc::new(value, pool);
        proof {
            assert(PoolInner::alloc_value_post(
                old(pool).inner,
                pool.inner,
                sc@,
                (ScInner { data: value, strong: 1 }),
            ));
        }
        sc
    }
}

/// Law: a clone/drop pair leaves the record as it was, so the strong count
/// is preserved across any number of balanced clone and drop steps.
pub proof fn lemma_sc_clone_drop_preserves_record<T>(
    p0: PoolInner<ScInner<T>>,
    p1: PoolInner<ScInner<T>>,
    p2: PoolInner<ScInner<T>>,
    r: EntryRef,
)
    requires
        p0.is_data(r),
        p0.value_of(r).strong < usize::MAX,
        PoolInner::write_post(p0, p1, r, sc_inc_strong(p0.value_of(r))),
        PoolInner::write_post(p1, p2, r, sc_dec_strong(p1.value_of(r))),
    ensures
        p2.is_data(r),
        p2.value_of(r) == p0.value_of(r),
{
}

} // verus!
