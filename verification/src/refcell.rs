//! A runtime-checked borrow cell: holds one value and grants either any
//! number of concurrent shared views or exactly one exclusive view, decided
//! at run time by a signed borrow-state counter kept in a [`Cell`].
//!
//! Counter encoding: `0` unborrowed, `n > 0` exactly `n` shared borrows,
//! negative exactly one exclusive borrow. A borrow conflict is reported as
//! `None`; nothing panics and nothing blocks.
//!
//! The guards `Ref` and `RefMut` are ownership witnesses: a guard is handed
//! out only by a successful borrow, and the cell is passed back explicitly
//! to read through a guard or to release it — the verifier's static
//! ownership takes the place of the back-reference such guards usually
//! carry. Releasing a guard is the explicit counterpart of dropping it.

use core::marker::PhantomData;
use vstd::prelude::*;
use crate::cell::Cell;

verus! {

/// A shared borrow may be granted only when no exclusive borrow is
/// outstanding.
pub open spec fn can_borrow(state: int) -> bool {
    state >= 0
}

/// An exclusive borrow may be granted only when no borrow of either kind is
/// outstanding.
pub open spec fn can_borrow_mut(state: int) -> bool {
    state == 0
}

/// Granting a shared borrow adds one reader.
pub open spec fn after_borrow(state: int) -> int {
    state + 1
}

/// Granting an exclusive borrow moves the counter below zero.
pub open spec fn after_borrow_mut(state: int) -> int {
    state - 1
}

/// Dropping a shared guard removes one reader.
pub open spec fn after_ref_drop(state: int) -> int {
    state - 1
}

/// Dropping the exclusive guard resets the counter unconditionally.
pub open spec fn after_ref_mut_drop(state: int) -> int {
    0
}

/// One value plus the signed borrow-state counter.
pub struct RefCell<T> {
    value: T,
    reference: Cell<isize>,
}

impl<T> View for RefCell<T> {
    type V = T;

    closed spec fn view(&self) -> T {
        self.value
    }
}

impl<T> RefCell<T> {
    /// The current borrow-state counter.
    pub closed spec fn borrow_state(&self) -> int {
        self.reference@ as int
    }

    /// A fresh cell: counter 0, holding `value`.
    pub fn new(value: T) -> (c: RefCell<T>)
        ensures
            c@ == value,
            c.borrow_state() == 0,
    {
        RefCell { value, reference: Cell::new(0) }
    }

    /// Attempts a shared borrow: succeeds exactly when no exclusive borrow
    /// is outstanding, adding one reader; otherwise reports the conflict as
    /// `None` and changes nothing. The value is never touched.
    pub fn borrow(&mut self) -> (r: Option<Ref<T>>)
        requires
            old(self).borrow_state() < isize::MAX,
        ensures
            final(self)@ == old(self)@,
            can_borrow(old(self).borrow_state()) ==> r is Some && final(self).borrow_state()
                == after_borrow(old(self).borrow_state()),
            !can_borrow(old(self).borrow_state()) ==> r is None && final(self).borrow_state()
                == old(self).borrow_state(),
    {
        let reference = self.reference.get();
        if reference >= 0 {
            self.reference.set(reference + 1);
            Some(Ref { phantom: PhantomData })
        } else {
            None
        }
    }

    /// Attempts an exclusive borrow: succeeds exactly when the counter is 0,
    /// moving it to the exclusive (negative) state; otherwise reports the
    /// conflict as `None` and changes nothing. The value is never touched.
    pub fn borrow_mut(&mut self) -> (r: Option<RefMut<T>>)
        ensures
            final(self)@ == old(self)@,
            can_borrow_mut(old(self).borrow_state()) ==> r is Some && final(self).borrow_state()
                == after_borrow_mut(old(self).borrow_state()),
            !can_borrow_mut(old(self).borrow_state()) ==> r is None && final(self).borrow_state()
                == old(self).borrow_state(),
    {
        let reference = self.reference.get();
        if reference == 0 {
            self.reference.set(reference - 1);
            Some(RefMut { phantom: PhantomData })
        } else {
            None
        }
    }
}

/// A shared (read-only) guard, handed out by a successful `borrow`.
pub struct Ref<T> {
    phantom: PhantomData<T>,
}

impl<T> Ref<T> {
    /// Read-only access to the contents of the cell this guard was granted
    /// on, sanctioned while the cell is in a shared state.
    pub fn deref<'a>(&self, cell: &'a RefCell<T>) -> (r: &'a T)
        requires
            cell.borrow_state() >= 1,
        ensures
            *r == cell@,
    {
        &cell.value
    }

    /// Releases this shared borrow: one reader fewer, back to 0 or to `n-1`
    /// concurrent readers. The value is untouched.
    pub fn release(self, cell: &mut RefCell<T>)
        requires
            old(cell).borrow_state() >= 1,
        ensures
            final(cell)@ == old(cell)@,
            final(cell).borrow_state() == after_ref_drop(old(cell).borrow_state()),
    {
        let reference = cell.reference.get();
        cell.reference.set(reference - 1);
    }
}

/// The exclusive (read-write) guard, handed out by a successful
/// `borrow_mut`.
pub struct RefMut<T> {
    phantom: PhantomData<T>,
}

impl<T> RefMut<T> {
    /// Read access through the exclusive guard.
    pub fn deref<'a>(&self, cell: &'a RefCell<T>) -> (r: &'a T)
        requires
            cell.borrow_state() == after_borrow_mut(0),
        ensures
            *r == cell@,
    {
        &cell.value
    }

    /// Write access through the exclusive guard: the one sanctioned path to
    /// mutate the contents. The counter stays in the exclusive state.
    pub fn deref_mut<'a>(&self, cell: &'a mut RefCell<T>) -> (r: &'a mut T)
        requires
            old(cell).borrow_state() == after_borrow_mut(0),
        ensures
            *r == old(cell)@,
            final(cell)@ == *final(r),
            final(cell).borrow_state() == old(cell).borrow_state(),
    {
        &mut cell.value
    }

    /// Releases the exclusive borrow, resetting the counter to 0
    /// unconditionally. The value keeps whatever was last written.
    pub fn release(self, cell: &mut RefCell<T>)
        ensures
            final(cell)@ == old(cell)@,
            final(cell).borrow_state() == after_ref_mut_drop(old(cell).borrow_state()),
    {
        cell.reference.set(0);
    }
}

/// One acquisition or release of a guard, as the counter sees it.
pub enum BorrowEvent {
    Shared,
    Exclusive,
    DropShared,
    DropExclusive,
}

/// The counter after a sequence of guard events on a fresh cell.
pub open spec fn counter_after(events: Seq<BorrowEvent>) -> int
    decreases events.len(),
{
    if events.len() == 0 {
        0
    } else {
        let prev = counter_after(events.drop_last());
        match events.last() {
            BorrowEvent::Shared => after_borrow(prev),
            BorrowEvent::Exclusive => after_borrow_mut(prev),
            BorrowEvent::DropShared => after_ref_drop(prev),
            BorrowEvent::DropExclusive => after_ref_mut_drop(prev),
        }
    }
}

/// How many shared guards are live after a sequence of events.
pub open spec fn shared_live(events: Seq<BorrowEvent>) -> int
    decreases events.len(),
{
    if events.len() == 0 {
        0
    } else {
        shared_live(events.drop_last()) + (match events.last() {
            BorrowEvent::Shared => 1,
            BorrowEvent::DropShared => -1,
            _ => 0,
        })
    }
}

/// How many exclusive guards are live after a sequence of events.
pub open spec fn exclusive_live(events: Seq<BorrowEvent>) -> int
    decreases events.len(),
{
    if events.len() == 0 {
        0
    } else {
        exclusive_live(events.drop_last()) + (match events.last() {
            BorrowEvent::Exclusive => 1,
            BorrowEvent::DropExclusive => -1,
            _ => 0,
        })
    }
}

/// A history is well formed when every event happens only in a state that
/// sanctions it: borrows only when grantable, and a guard is only dropped
/// while one of its kind is recorded as outstanding.
pub open spec fn wf_borrow_history(events: Seq<BorrowEvent>) -> bool {
    forall|i: int|
        0 <= i < events.len() ==> {
            let prev = counter_after(#[trigger] events.take(i));
            match events[i] {
                BorrowEvent::Shared => can_borrow(prev),
                BorrowEvent::Exclusive => can_borrow_mut(prev),
                BorrowEvent::DropShared => prev >= 1,
                BorrowEvent::DropExclusive => prev == after_borrow_mut(0),
            }
        }
}

/// The counter accurately reflects the number and kind of live guards at
/// every point: at most one exclusive guard ever exists — the counter never
/// sinks past one level of negativity — and while none does, the counter is
/// exactly the number of live shared guards.
pub proof fn lemma_counter_reflects_guards(events: Seq<BorrowEvent>)
    requires
        wf_borrow_history(events),
    ensures
        exclusive_live(events) == 0 || exclusive_live(events) == 1,
        exclusive_live(events) == 1 ==> shared_live(events) == 0 && counter_after(events)
            == after_borrow_mut(0),
        exclusive_live(events) == 0 ==> shared_live(events) >= 0 && counter_after(events)
            == shared_live(events),
    decreases events.len(),
{
    if events.len() > 0 {
        let prefix = events.drop_last();
        assert forall|i: int| 0 <= i < prefix.len() implies {
            let prev = counter_after(#[trigger] prefix.take(i));
            match prefix[i] {
                BorrowEvent::Shared => can_borrow(prev),
                BorrowEvent::Exclusive => can_borrow_mut(prev),
                BorrowEvent::DropShared => prev >= 1,
                BorrowEvent::DropExclusive => prev == after_borrow_mut(0),
            }
        } by {
            assert(prefix.take(i) =~= events.take(i));
            assert(prefix[i] == events[i]);
        }
        lemma_counter_reflects_guards(prefix);
        assert(events.take(events.len() - 1) =~= prefix);
    }
}

/// The borrow discipline as one law over the counter's state machine, for
/// every shared depth `n`: shared borrows stack, a shared borrow excludes an
/// exclusive one, the exclusive state excludes every further borrow, and
/// dropping guards restores exactly the state that granted them.
pub proof fn lemma_borrow_state_machine(n: int)
    requires
        n >= 0,
    ensures
        can_borrow(n),
        can_borrow(after_borrow(n)),
        !can_borrow_mut(after_borrow(n)),
        !can_borrow(after_borrow_mut(0)),
        !can_borrow_mut(after_borrow_mut(0)),
        after_ref_drop(after_borrow(n)) == n,
        can_borrow(after_ref_mut_drop(after_borrow_mut(0))),
        can_borrow_mut(after_ref_mut_drop(after_borrow_mut(0))),
{
}

} // verus!
