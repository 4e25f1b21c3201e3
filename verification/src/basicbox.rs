//! A safe box over a pool entry with explicit give-back.

use vstd::prelude::*;

use crate::entry::EntryRef;
use crate::pool::Pool;
use crate::poolinner::PoolInner;
use crate::unsafebox::UnsafeBox;

verus! {

/// A box over a pool entry. To free its memory it must be handed back to
/// the pool it came from with [`BasicBox::drop`], [`BasicBox::forget`] or
/// [`BasicBox::into_inner`]; one that never comes back leaks its slot inside
/// the pool, which is recovered when the pool itself goes away.
pub struct BasicBox<T> {
    handle: UnsafeBox<T>,
}

impl<T> View for BasicBox<T> {
    type V = EntryRef;

    closed spec fn view(&self) -> EntryRef {
        self.handle@
    }
}

impl<T> BasicBox<T> {
    /// Creates a new box holding `from`, allocated from the given pool.
    pub fn new(from: T, pool: &mut Pool<T>) -> (b: BasicBox<T>)
        requires
            old(pool).wf(),
            old(pool).can_alloc(),
        ensures
            final(pool).wf(),
            PoolInner::alloc_value_post(old(pool).inner, final(pool).inner, b@, from),
    {
        BasicBox { handle: pool.allocate(from) }
    }

    /// Deallocates the box: the value is dropped and the slot returns to
    /// the pool's freelist.
    pub fn drop(this: BasicBox<T>, pool: &mut Pool<T>)
        requires
            old(pool).wf(),
            old(pool).is_data(this@),
        ensures
            final(pool).wf(),
            PoolInner::dealloc_post(old(pool).inner, final(pool).inner, this@),
    {
        pool.dealloc(this.handle);
    }

    /// Deallocates the box on the fast path; see
    /// [`Pool::dealloc_unchecked`].
    pub fn drop_unchecked(this: BasicBox<T>, pool: &mut Pool<T>)
        requires
            old(pool).wf(),
            old(pool).is_data(this@),
        ensures
            final(pool).wf(),
            PoolInner::dealloc_post(old(pool).inner, final(pool).inner, this@),
    {
        pool.dealloc_unchecked(this.handle);
    }

    /// Deallocates the box and returns the value it held.
    pub fn into_inner(this: BasicBox<T>, pool: &mut Pool<T>) -> (v: T)
        requires
            old(pool).wf(),
            old(pool).is_data(this@),
        ensures
            final(pool).wf(),
            v == old(pool).value_of(this@),
            PoolInner::dealloc_post(old(pool).inner, final(pool).inner, this@),
    {
        pool.take(this.handle)
    }

    /// Deallocates the box without dropping its value: the value leaks, the
    /// slot returns to the freelist.
    pub fn forget(this: BasicBox<T>, pool: &mut Pool<T>)
        requires
            old(pool).wf(),
            old(pool).is_data(this@),
        ensures
            final(pool).wf(),
            PoolInner::dealloc_post(old(pool).inner, final(pool).inner, this@),
    {
        pool.forget(this.handle);
    }

    /// A shared reference to the boxed value.
    pub fn get<'a>(&self, pool: &'a Pool<T>) -> (v: &'a T)
        requires
            pool.wf(),
            pool.is_data(self@),
        ensures
            *v == pool.value_of(self@),
    {
        pool.get(&self.handle)
    }

    /// Overwrites the boxed value, dropping the previous one.
    pub fn set(&self, pool: &mut Pool<T>, value: T)
        requires
            old(pool).wf(),
            old(pool).is_data(self@),
        ensures
            final(pool).wf(),
            PoolInner::write_post(old(pool).inner, final(pool).inner, self@, value),
    {
        pool.set(&self.handle, value);
    }
}

impl<T: Default> BasicBox<T> {
    /// Creates a new box holding the default value of `T`.
    pub fn default(pool: &mut Pool<T>) -> (b: BasicBox<T>)
        requires
            old(pool).wf(),
            old(pool).can_alloc(),
        ensures
            final(pool).wf(),
            exists|x: T| PoolInner::alloc_value_post(old(pool).inner, final(pool).inner, b@, x),
    {
        let value = T::default();
        let b = BasicBox { handle: pool.allocate(value) };
        proof {
            assert(PoolInner::alloc_value_post(old(pool).inner, pool.inner, b@, value));
        }
        b
    }
}

} // verus!
