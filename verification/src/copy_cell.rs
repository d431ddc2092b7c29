//! A cell for trivially-copyable values.
//!
//! Every access copies the whole value in or out, so no partial borrow of
//! the content is ever exposed: `get` returns a copy, `set` and `replace`
//! overwrite the stored value wholesale.

use vstd::prelude::*;

verus! {

/// Wrapper around a copyable value, read and written only as a whole.
pub struct CopyCell<T: Copy> {
    value: T,
}

impl<T: Copy> CopyCell<T> {
    /// The value the cell currently stores.
    pub closed spec fn spec_get(self) -> T {
        self.value
    }

    /// Wrap `value` in a fresh cell.
    pub fn new(value: T) -> (c: CopyCell<T>)
        ensures
            c.spec_get() == value,
    {
        CopyCell { value }
    }

    /// A copy of the stored value.
    pub fn get(&self) -> (r: T)
        ensures
            r == self.spec_get(),
    {
        self.value
    }

    /// Overwrite the stored value as a whole.
    pub fn set(&mut self, value: T)
        ensures
            final(self).spec_get() == value,
    {
        self.value = value;
    }

    /// Overwrite the stored value and hand the previous one back.
    pub fn replace(&mut self, value: T) -> (prev: T)
        ensures
            final(self).spec_get() == value,
            prev == old(self).spec_get(),
    {
        let prev = self.value;
        self.value = value;
        prev
    }
}

} // verus!
