//! A runtime-checked borrow cell.
//!
//! `RefCell` wraps an arbitrary value and enforces the aliasing discipline
//! "many readers xor one writer" at runtime instead of compile time: a
//! shared borrow succeeds while no exclusive borrow is live, an exclusive
//! borrow succeeds only while no borrow at all is live, and a violation is
//! reported as an absence result at the offending call. Each successful
//! borrow hands out a guard; giving the guard back releases the borrow, so
//! the state machine can always return to `Unborrowed`.

use vstd::prelude::*;

verus! {

/// How many borrows of the cell's content are live.
#[derive(Clone, Copy, Debug, PartialEq, Eq, Structural)]
pub enum BorrowState {
    /// No borrow is live.
    Unborrowed,
    /// This many shared, read-only borrows are live (always at least one).
    SharedBorrowed(usize),
    /// One exclusive, read-write borrow is live.
    ExclusiveBorrowed,
}

/// A live shared borrow. Give it back with `RefCell::release`.
pub struct Ref {
    token: (),
}

/// A live exclusive borrow. Give it back with `RefCell::release_mut`.
pub struct RefMut {
    token: (),
}

/// A shared borrow may be acquired unless an exclusive borrow is live.
pub open spec fn can_borrow(s: BorrowState) -> bool {
    !(s is ExclusiveBorrowed)
}

/// An exclusive borrow may be acquired only while nothing is borrowed.
pub open spec fn can_borrow_mut(s: BorrowState) -> bool {
    s is Unborrowed
}

/// The state after one more shared borrow is acquired.
pub open spec fn after_borrow(s: BorrowState) -> BorrowState {
    match s {
        BorrowState::Unborrowed => BorrowState::SharedBorrowed(1),
        BorrowState::SharedBorrowed(n) => BorrowState::SharedBorrowed((n + 1) as usize),
        BorrowState::ExclusiveBorrowed => BorrowState::ExclusiveBorrowed,
    }
}

/// The state after one shared borrow is released.
pub open spec fn after_release(s: BorrowState) -> BorrowState {
    match s {
        BorrowState::SharedBorrowed(n) => if n == 1 {
            BorrowState::Unborrowed
        } else {
            BorrowState::SharedBorrowed((n - 1) as usize)
        },
        _ => s,
    }
}

/// Wrapper around a value whose borrows are checked at runtime.
pub struct RefCell<T> {
    value: T,
    state: BorrowState,
}

impl<T> RefCell<T> {
    /// The value the cell currently stores.
    pub closed spec fn val(self) -> T {
        self.value
    }

    /// The current borrow state of the cell.
    pub closed spec fn state(self) -> BorrowState {
        self.state
    }

    /// A shared count of zero is never stored: it is `Unborrowed`.
    pub open spec fn wf(self) -> bool {
        self.state() matches BorrowState::SharedBorrowed(n) ==> n >= 1
    }

    /// Wrap `value` in a fresh, unborrowed cell.
    pub fn new(value: T) -> (c: RefCell<T>)
        ensures
            c.wf(),
            c.val() == value,
            c.state() == BorrowState::Unborrowed,
    {
        RefCell { value, state: BorrowState::Unborrowed }
    }

    /// The current borrow state, as a value.
    pub fn current_state(&self) -> (r: BorrowState)
        ensures
            r == self.state(),
    {
        self.state
    }

    /// Try to acquire one more shared, read-only borrow.
    ///
    /// Succeeds if and only if no exclusive borrow is live; on success the
    /// shared count grows by one. The stored value is never changed.
    pub fn borrow(&mut self) -> (g: Option<Ref>)
        requires
            old(self).wf(),
            old(self).state() matches BorrowState::SharedBorrowed(n) ==> n < usize::MAX,
        ensures
            final(self).wf(),
            final(self).val() == old(self).val(),
            g is Some <==> can_borrow(old(self).state()),
            g is Some ==> final(self).state() == after_borrow(old(self).state()),
            g is None ==> final(self).state() == old(self).state(),
    {
        match self.state {
            BorrowState::Unborrowed => {
                self.state = BorrowState::SharedBorrowed(1);
                Some(Ref { token: () })
            },
            BorrowState::SharedBorrowed(n) => {
                self.state = BorrowState::SharedBorrowed(n + 1);
                Some(Ref { token: () })
            },
            BorrowState::ExclusiveBorrowed => None,
        }
    }

    /// Try to acquire the one exclusive, read-write borrow.
    ///
    /// Succeeds if and only if nothing is borrowed. The stored value is
    /// never changed by the acquisition itself.
    pub fn borrow_mut(&mut self) -> (g: Option<RefMut>)
        requires
            old(self).wf(),
        ensures
            final(self).wf(),
            final(self).val() == old(self).val(),
            g is Some <==> can_borrow_mut(old(self).state()),
            g is Some ==> final(self).state() == BorrowState::ExclusiveBorrowed,
            g is None ==> final(self).state() == old(self).state(),
    {
        match self.state {
            BorrowState::Unborrowed => {
                self.state = BorrowState::ExclusiveBorrowed;
                Some(RefMut { token: () })
            },
            _ => None,
        }
    }

    /// Read the value through a live shared borrow.
    pub fn read(&self, guard: &Ref) -> (r: &T)
        requires
            self.state() matches BorrowState::SharedBorrowed(n),
        ensures
            *r == self.val(),
    {
        let _ = guard;
        &self.value
    }

    /// Read the value through the live exclusive borrow.
    pub fn read_mut(&self, guard: &RefMut) -> (r: &T)
        requires
            self.state() is ExclusiveBorrowed,
        ensures
            *r == self.val(),
    {
        let _ = guard;
        &self.value
    }

    /// Overwrite the value through the live exclusive borrow.
    pub fn write(&mut self, guard: &RefMut, value: T)
        requires
            old(self).state() is ExclusiveBorrowed,
        ensures
            final(self).val() == value,
            final(self).state() == old(self).state(),
            final(self).wf(),
    {
        let _ = guard;
        self.value = value;
    }

    /// Release one shared borrow; the last release returns to `Unborrowed`.
    pub fn release(&mut self, guard: Ref)
        requires
            old(self).wf(),
            old(self).state() matches BorrowState::SharedBorrowed(n),
        ensures
            final(self).wf(),
            final(self).val() == old(self).val(),
            final(self).state() == after_release(old(self).state()),
    {
        let _ = guard;
        match self.state {
            BorrowState::SharedBorrowed(n) => {
                if n == 1 {
                    self.state = BorrowState::Unborrowed;
                } else {
                    self.state = BorrowState::SharedBorrowed(n - 1);
                }
            },
            _ => {},
        }
    }

    /// Release the exclusive borrow, returning to `Unborrowed`.
    pub fn release_mut(&mut self, guard: RefMut)
        requires
            old(self).state() is ExclusiveBorrowed,
        ensures
            final(self).wf(),
            final(self).val() == old(self).val(),
            final(self).state() == BorrowState::Unborrowed,
    {
        let _ = guard;
        self.state = BorrowState::Unborrowed;
    }
}

/// The borrow discipline, stated over the state machine itself:
/// a shared borrow coexists with further shared borrows; while any borrow
/// is live an exclusive borrow is refused; an exclusive borrow excludes
/// every other borrow; and once every shared borrow is released, the cell
/// is unborrowed again and an exclusive borrow succeeds.
pub proof fn lemma_borrow_discipline(s: BorrowState)
    ensures
        can_borrow(s) ==> can_borrow(after_borrow(s)),
        !(s is Unborrowed) ==> !can_borrow_mut(s),
        s is ExclusiveBorrowed ==> !can_borrow(s) && !can_borrow_mut(s),
        after_release(BorrowState::SharedBorrowed(1)) == BorrowState::Unborrowed,
        can_borrow_mut(BorrowState::Unborrowed),
{
}

} // verus!
