//! Reference-counted handles with weak companions.

use vstd::prelude::*;

use crate::entry::EntryRef;
use crate::pool::Pool;
use crate::poolinner::PoolInner;
use crate::slot::Mutable;
use crate::slot::Slot;

verus! {

/// The record stored in the pool for every reference-counted value: the
/// value itself (absent once the last strong handle dropped it) and the two
/// counters. Strong handles keep the value alive; strong and weak handles
/// together keep the slot alive.
pub struct RcInner<T> {
    /// The shared value; `None` after the last strong handle went away
    /// while weak handles remain.
    pub data: Option<T>,
    /// How many strong handles share the value.
    pub strong: usize,
    /// How many weak handles watch the slot.
    pub weak: usize,
}

impl<T> RcInner<T> {
    /// A fresh record: one strong handle, no weak ones.
    pub fn new(data: T) -> (r: RcInner<T>)
        ensures
            r == (RcInner { data: Some(data), strong: 1, weak: 0 }),
    {
        RcInner { data: Some(data), strong: 1, weak: 0 }
    }

    /// The strong count.
    pub fn get_strong(&self) -> (n: usize)
        ensures
            n == self.strong,
    {
        self.strong
    }

    /// The weak count.
    pub fn get_weak(&self) -> (n: usize)
        ensures
            n == self.weak,
    {
        self.weak
    }

    /// Counts one more strong handle.
    pub fn inc_strong(&mut self)
        requires
            old(self).strong < usize::MAX,
        ensures
            *final(self) == rc_inc_strong(*old(self)),
    {
        self.strong = self.strong + 1;
    }

    /// Counts one strong handle fewer.
    pub fn dec_strong(&mut self)
        requires
            old(self).strong >= 1,
        ensures
            *final(self) == rc_dec_strong(*old(self)),
    {
        self.strong = self.strong - 1;
    }

    /// Counts one more weak handle.
    pub fn inc_weak(&mut self)
        requires
            old(self).weak < usize::MAX,
        ensures
            *final(self) == rc_inc_weak(*old(self)),
    {
        self.weak = self.weak + 1;
    }

    /// Counts one weak handle fewer.
    pub fn dec_weak(&mut self)
        requires
            old(self).weak >= 1,
        ensures
            *final(self) == rc_dec_weak(*old(self)),
    {
        self.weak = self.weak - 1;
    }
}

/// The record with one more strong handle counted.
pub open spec fn rc_inc_strong<T>(i: RcInner<T>) -> RcInner<T> {
    RcInner { strong: (i.strong + 1) as usize, ..i }
}

/// The record with one strong handle fewer counted.
pub open spec fn rc_dec_strong<T>(i: RcInner<T>) -> RcInner<T> {
    RcInner { strong: (i.strong - 1) as usize, ..i }
}

/// The record with one more weak handle counted.
pub open spec fn rc_inc_weak<T>(i: RcInner<T>) -> RcInner<T> {
    RcInner { weak: (i.weak + 1) as usize, ..i }
}

/// The record with one weak handle fewer counted.
pub open spec fn rc_dec_weak<T>(i: RcInner<T>) -> RcInner<T> {
    RcInner { weak: (i.weak - 1) as usize, ..i }
}

/// A reference-counted handle to a pool-allocated value. Handles to one
/// slot share the value; the counters live in the slot next to it. Every
/// state change goes through the pool, which the caller passes in.
pub struct Rc<T> {
    slot: Slot<RcInner<T>, Mutable>,
}

impl<T> View for Rc<T> {
    type V = EntryRef;

    closed spec fn view(&self) -> EntryRef {
        self.slot@
    }
}

/// The handle invariant an `Rc` relies on: its slot is live and the record
/// still holds the value, with at least one strong handle counted.
pub open spec fn rc_live<T>(p: Pool<RcInner<T>>, r: EntryRef) -> bool {
    &&& p.inner.is_data(r)
    &&& p.inner.value_of(r).data is Some
    &&& p.inner.value_of(r).strong >= 1
}

impl<T> Rc<T> {
    /// Allocates a value into the pool with a strong count of one.
    pub fn new(t: T, pool: &mut Pool<RcInner<T>>) -> (rc: Rc<T>)
        requires
            old(pool).wf(),
            old(pool).can_alloc(),
        ensures
            final(pool).wf(),
            PoolInner::alloc_value_post(
                old(pool).inner,
                final(pool).inner,
                rc@,
                (RcInner { data: Some(t), strong: 1, weak: 0 }),
            ),
            rc_live(*final(pool), rc@),
    {
        let inner = RcInner::new(t);
        Rc { slot: pool.alloc_slot(inner).for_mutation() }
    }

    /// Another strong handle to the same slot; counts it.
    pub fn clone(&self, pool: &mut Pool<RcInner<T>>) -> (rc: Rc<T>)
        requires
            old(pool).wf(),
            rc_live(*old(pool), self@),
            old(pool).inner.value_of(self@).strong < usize::MAX,
        ensures
            final(pool).wf(),
            rc@ == self@,
            PoolInner::write_post(
                old(pool).inner,
                final(pool).inner,
                self@,
                rc_inc_strong(old(pool).inner.value_of(self@)),
            ),
            rc_live(*final(pool), self@),
    {
        let r = self.slot.entry_ref();
        let mut inner = pool.inner.take_value(r);
        inner.inc_strong();
        pool.inner.write_entry(r, inner);
        Rc { slot: Slot::new(r) }
    }

    /// A weak companion handle to the same slot; counts it.
    pub fn downgrade(this: &Rc<T>, pool: &mut Pool<RcInner<T>>) -> (w: Weak<T>)
        requires
            old(pool).wf(),
            rc_live(*old(pool), this@),
            old(pool).inner.value_of(this@).weak < usize::MAX,
        ensures
            final(pool).wf(),
            w@ == this@,
            PoolInner::write_post(
                old(pool).inner,
                final(pool).inner,
                this@,
                rc_inc_weak(old(pool).inner.value_of(this@)),
            ),
            rc_live(*final(pool), this@),
    {
        let r = this.slot.entry_ref();
        let mut inner = pool.inner.take_value(r);
        inner.inc_weak();
        pool.inner.write_entry(r, inner);
        Weak { slot: Slot::new(r) }
    }

    /// The number of strong handles to this slot.
    pub fn strong_count(this: &Rc<T>, pool: &Pool<RcInner<T>>) -> (n: usize)
        requires
            pool.wf(),
            pool.inner.is_data(this@),
        ensures
            n == pool.inner.value_of(this@).strong,
    {
        pool.inner.value_ref(this.slot.entry_ref()).get_strong()
    }

    /// The number of weak handles to this slot.
    pub fn weak_count(this: &Rc<T>, pool: &Pool<RcInner<T>>) -> (n: usize)
        requires
            pool.wf(),
            pool.inner.is_data(this@),
        ensures
            n == pool.inner.value_of(this@).weak,
    {
        pool.inner.value_ref(this.slot.entry_ref()).get_weak()
    }

    /// A shared reference to the shared value.
    pub fn get<'a>(&self, pool: &'a Pool<RcInner<T>>) -> (v: &'a T)
        requires
            pool.wf(),
            rc_live(*pool, self@),
        ensures
            *v == pool.inner.value_of(self@).data->0,
    {
        match pool.inner.value_ref(self.slot.entry_ref()).data.as_ref() {
            Some(v) => v,
            None => vstd::pervasive::unreached(),
        }
    }

    /// Replaces the shared value, dropping the previous one.
    pub fn set(&self, pool: &mut Pool<RcInner<T>>, value: T)
        requires
            old(pool).wf(),
            rc_live(*old(pool), self@),
        ensures
            final(pool).wf(),
            PoolInner::write_post(
                old(pool).inner,
                final(pool).inner,
                self@,
                (RcInner { data: Some(value), ..old(pool).inner.value_of(self@) }),
            ),
            rc_live(*final(pool), self@),
    {
        let r = self.slot.entry_ref();
        let mut inner = pool.inner.take_value(r);
        inner.data = Some(value);
        pool.inner.write_entry(r, inner);
    }

    /// Gives this strong handle up and counts it off. When it was the last
    /// strong handle the value is dropped in place; when no weak handle
    /// remains either, the slot goes back to the pool's freelist.
    pub fn drop(this: Rc<T>, pool: &mut Pool<RcInner<T>>)
        requires
            old(pool).wf(),
            rc_live(*old(pool), this@),
        ensures
            final(pool).wf(),
            old(pool).inner.value_of(this@).strong > 1 ==> PoolInner::write_post(
                old(pool).inner,
                final(pool).inner,
                this@,
                rc_dec_strong(old(pool).inner.value_of(this@)),
            ),
            old(pool).inner.value_of(this@).strong == 1 && old(pool).inner.value_of(this@).weak
                == 0 ==> PoolInner::dealloc_post(old(pool).inner, final(pool).inner, this@),
            old(pool).inner.value_of(this@).strong == 1 && old(pool).inner.value_of(this@).weak
                > 0 ==> PoolInner::write_post(
                old(pool).inner,
                final(pool).inner,
                this@,
                (RcInner {
                    data: None,
                    strong: 0,
                    weak: old(pool).inner.value_of(this@).weak,
                }),
            ),
    {
        let r = this.slot.entry_ref();
        let mut inner = pool.inner.take_value(r);
        inner.dec_strong();
        if inner.get_strong() == 0 {
            if inner.get_weak() == 0 {
                // no handles remain: value and slot both go
                pool.inner.free_entry(r);
            } else {
                // weak handles remain: drop the value in place, keep the slot
                inner.data = None;
                pool.inner.write_entry(r, inner);
            }
        } else {
            pool.inner.write_entry(r, inner);
        }
    }
}

impl<T: Default> Rc<T> {
    /// Allocates a default-initialized value with a strong count of one.
    pub fn default(pool: &mut Pool<RcInner<T>>) -> (rc: Rc<T>)
        requires
            old(pool).wf(),
            old(pool).can_alloc(),
        ensures
            final(pool).wf(),
            rc_live(*final(pool), rc@),
            exists|x: T|
                PoolInner::alloc_value_post(
                    old(pool).inner,
                    final(pool).inner,
                    rc@,
                    (RcInner { data: Some(x), strong: 1, weak: 0 }),
                ),
    {
        let value = T::default();
        let rc = Rc::new(value, pool);
        proof {
            assert(PoolInner::alloc_value_post(
                old(pool).inner,
                pool.inner,
                rc@,
                (RcInner { data: Some(value), strong: 1, weak: 0 }),
            ));
        }
        rc
    }
}

/// A weak companion handle: it keeps the slot, not the value, alive.
pub struct Weak<T> {
    slot: Slot<RcInner<T>, Mutable>,
}

impl<T> View for Weak<T> {
    type V = EntryRef;

    closed spec fn view(&self) -> EntryRef {
        self.slot@
    }
}

/// The handle invariant a `Weak` relies on: its slot is live, it is
/// counted, and a record whose strong count reached zero holds no value.
pub open spec fn weak_live<T>(p: Pool<RcInner<T>>, r: EntryRef) -> bool {
    &&& p.inner.is_data(r)
    &&& p.inner.value_of(r).weak >= 1
    &&& p.inner.value_of(r).strong == 0 ==> p.inner.value_of(r).data is None
    &&& p.inner.value_of(r).strong >= 1 ==> p.inner.value_of(r).data is Some
}

impl<T> Weak<T> {
    /// The number of strong handles to this slot.
    pub fn strong_count(&self, pool: &Pool<RcInner<T>>) -> (n: usize)
        requires
            pool.wf(),
            pool.inner.is_data(self@),
        ensures
            n == pool.inner.value_of(self@).strong,
    {
        pool.inner.value_ref(self.slot.entry_ref()).get_strong()
    }

    /// The number of weak handles to this slot.
    pub fn weak_count(&self, pool: &Pool<RcInner<T>>) -> (n: usize)
        requires
            pool.wf(),
            pool.inner.is_data(self@),
        ensures
            n == pool.inner.value_of(self@).weak,
    {
        pool.inner.value_ref(self.slot.entry_ref()).get_weak()
    }

    /// Tries to win a strong handle back: succeeds exactly while strong
    /// handles still keep the value alive.
    pub fn upgrade(&self, pool: &mut Pool<RcInner<T>>) -> (rc: Option<Rc<T>>)
        requires
            old(pool).wf(),
            weak_live(*old(pool), self@),
            old(pool).inner.value_of(self@).strong < usize::MAX,
        ensures
            final(pool).wf(),
            rc is Some <==> old(pool).inner.value_of(self@).strong > 0,
            old(pool).inner.value_of(self@).strong > 0 ==> rc->0@ == self@
                && PoolInner::write_post(
                old(pool).inner,
                final(pool).inner,
                self@,
                rc_inc_strong(old(pool).inner.value_of(self@)),
            ) && rc_live(*final(pool), self@),
            old(pool).inner.value_of(self@).strong == 0 ==> *final(pool) == *old(pool),
    {
        let r = self.slot.entry_ref();
        if pool.inner.value_ref(r).get_strong() > 0 {
            let mut inner = pool.inner.take_value(r);
            inner.inc_strong();
            pool.inner.write_entry(r, inner);
            Some(Rc { slot: Slot::new(r) })
        } else {
            None
        }
    }

    /// Another weak handle to the same slot; counts it.
    pub fn clone(&self, pool: &mut Pool<RcInner<T>>) -> (w: Weak<T>)
        requires
            old(pool).wf(),
            weak_live(*old(pool), self@),
            old(pool).inner.value_of(self@).weak < usize::MAX,
        ensures
            final(pool).wf(),
            w@ == self@,
            PoolInner::write_post(
                old(pool).inner,
                final(pool).inner,
                self@,
                rc_inc_weak(old(pool).inner.value_of(self@)),
            ),
    {
        let r = self.slot.entry_ref();
        let mut inner = pool.inner.take_value(r);
        inner.inc_weak();
        pool.inner.write_entry(r, inner);
        Weak { slot: Slot::new(r) }
    }

    /// Gives this weak handle up and counts it off. When neither strong nor
    /// weak handles remain, the slot goes back to the pool's freelist.
    pub fn drop(this: Weak<T>, pool: &mut Pool<RcInner<T>>)
        requires
            old(pool).wf(),
            weak_live(*old(pool), this@),
        ensures
            final(pool).wf(),
            old(pool).inner.value_of(this@).weak == 1 && old(pool).inner.value_of(this@).strong
                == 0 ==> PoolInner::dealloc_post(old(pool).inner, final(pool).inner, this@),
            old(pool).inner.value_of(this@).weak > 1 || old(pool).inner.value_of(this@).strong
                > 0 ==> PoolInner::write_post(
                old(pool).inner,
                final(pool).inner,
                this@,
                rc_dec_weak(old(pool).inner.value_of(this@)),
            ),
    {
        let r = this.slot.entry_ref();
        let mut inner = pool.inner.take_value(r);
        inner.dec_weak();
        if inner.get_weak() == 0 && inner.get_strong() == 0 {
            // no handles remain: the slot goes back to the pool
            pool.inner.free_entry(r);
        } else {
            pool.inner.write_entry(r, inner);
        }
    }
}

/// Law: a clone/drop pair leaves the record as it was, so the strong count
/// is preserved across any number of balanced clone and drop steps.
pub proof fn lemma_clone_drop_preserves_record<T>(
    p0: PoolInner<RcInner<T>>,
    p1: PoolInner<RcInner<T>>,
    p2: PoolInner<RcInner<T>>,
    r: EntryRef,
)
    requires
        p0.is_data(r),
        p0.value_of(r).strong < usize::MAX,
        PoolInner::write_post(p0, p1, r, rc_inc_strong(p0.value_of(r))),
        PoolInner::write_post(p1, p2, r, rc_dec_strong(p1.value_of(r))),
    ensures
        p2.is_data(r),
        p2.value_of(r) == p0.value_of(r),
{
}

/// Law: a downgrade step keeps the value and the strong count, so while a
/// strong handle is live an immediate upgrade of the new weak handle
/// succeeds (see the contract of [`Weak::upgrade`]).
pub proof fn lemma_downgrade_keeps_value<T>(
    p0: PoolInner<RcInner<T>>,
    p1: PoolInner<RcInner<T>>,
    r: EntryRef,
)
    requires
        p0.is_data(r),
        p0.value_of(r).strong >= 1,
        p0.value_of(r).data is Some,
        p0.value_of(r).weak < usize::MAX,
        PoolInner::write_post(p0, p1, r, rc_inc_weak(p0.value_of(r))),
    ensures
        p1.is_data(r),
        p1.value_of(r).strong == p0.value_of(r).strong,
        p1.value_of(r).data == p0.value_of(r).data,
        p1.value_of(r).weak == p0.value_of(r).weak + 1,
{
}

} // verus!
