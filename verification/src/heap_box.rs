//! An exclusive-ownership handle to a single value.
//!
//! `HeapBox` owns exactly one value: moving the box moves ownership of the
//! value, `into_inner` consumes the box and hands the value back, and the
//! accessors borrow it under the usual exclusive/shared rules.

use vstd::prelude::*;

verus! {

/// Exclusive-ownership handle to one value of type `T`.
pub struct HeapBox<T> {
    value: T,
}

/// The box that `HeapBox::allocate` builds from `value`.
pub closed spec fn spec_allocate<T>(value: T) -> HeapBox<T> {
    HeapBox { value }
}

impl<T> HeapBox<T> {
    /// The value the box currently owns.
    pub closed spec fn inner(self) -> T {
        self.value
    }

    /// Move `value` into a fresh box that owns it exclusively.
    pub fn allocate(value: T) -> (b: HeapBox<T>)
        ensures
            b == spec_allocate(value),
            b.inner() == value,
    {
        HeapBox { value }
    }

    /// Shared read access to the owned value.
    pub fn get(&self) -> (r: &T)
        ensures
            *r == self.inner(),
    {
        &self.value
    }

    /// Exclusive read-write access to the owned value.
    pub fn get_mut(&mut self) -> (r: &mut T)
        ensures
            *r == old(self).inner(),
            final(self).inner() == *final(r),
    {
        &mut self.value
    }

    /// Consume the box and move the owned value out.
    pub fn into_inner(self) -> (r: T)
        ensures
            r == self.inner(),
    {
        self.value
    }
}

/// A value moved into a box by `allocate` is handed back unchanged by
/// `into_inner`: the box neither copies nor alters what it owns.
pub proof fn lemma_allocate_round_trip<T>(value: T)
    ensures
        spec_allocate(value).inner() == value,
{
}

} // verus!
