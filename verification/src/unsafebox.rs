//! The raw handle to one pool entry.

use core::marker::PhantomData;

use vstd::prelude::*;

use crate::entry::EntryRef;

verus! {

/// A raw owning handle to a pool entry. It names the entry's position but
/// does not remember which pool it came from, so the user must hand it back
/// to the right pool with `dealloc`, `forget` or `take`. Safe wrappers track
/// the pool and build on this type.
///
/// The handle does not free anything by itself: one that is never given
/// back leaks its slot inside the pool until the pool itself goes away.
pub struct UnsafeBox<T> {
    entry: EntryRef,
    _marker: PhantomData<T>,
}

impl<T> View for UnsafeBox<T> {
    type V = EntryRef;

    closed spec fn view(&self) -> EntryRef {
        self.entry
    }
}

impl<T> UnsafeBox<T> {
    // Private ctor
    pub(crate) fn new(entry: EntryRef) -> (b: UnsafeBox<T>)
        ensures
            b@ == entry,
    {
        UnsafeBox { entry, _marker: PhantomData }
    }

    /// The position of the entry this handle owns.
    pub fn entry_ref(&self) -> (r: EntryRef)
        ensures
            r == self@,
    {
        self.entry
    }
}

} // verus!
