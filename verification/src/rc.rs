//! A non-atomic reference-counted shared-ownership pointer.
//!
//! `RcInner` is the shared block: it holds the strong count (in a [`Cell`],
//! the same bookkeeping primitive the other structures use) and the value.
//! `Rc` is a thin owning handle. The classic layout keeps the block behind
//! a raw address that every handle aliases; the verifier tracks ownership
//! statically, so here the block is passed explicitly to each operation and
//! the handle itself is an ownership witness carrying only a type-level
//! marker. Deallocation of the block is the moment the last `drop_handle`
//! consumes it and returns nothing.

use core::marker::PhantomData;
use vstd::prelude::*;
use crate::cell::Cell;

verus! {

/// The shared heap block: the strong count and the value, owned jointly by
/// every outstanding handle.
pub struct RcInner<T> {
    ref_count: Cell<usize>,
    value: T,
}

impl<T> RcInner<T> {
    /// The live count recorded in the block.
    pub closed spec fn count(&self) -> usize {
        self.ref_count@
    }

    /// The shared value.
    pub closed spec fn val(&self) -> T {
        self.value
    }

    /// Reads the live count, the way a test harness inspects the block.
    pub fn strong_count(&self) -> (r: usize)
        ensures
            r == self.count(),
    {
        self.ref_count.get()
    }
}

/// An owning handle to a shared block. The marker field records that
/// dropping the last handle also drops a value of type `T`.
pub struct Rc<T> {
    phantom: PhantomData<RcInner<T>>,
}

impl<T> Rc<T> {
    /// Allocates a block holding `value` with a count of 1 and returns the
    /// first handle together with the block.
    pub fn new(value: T) -> (r: (Rc<T>, RcInner<T>))
        ensures
            r.1.count() == 1,
            r.1.val() == value,
    {
        let inner = RcInner { ref_count: Cell::new(1), value };
        (Rc { phantom: PhantomData }, inner)
    }

    /// Returns one more handle to the same block, incrementing the shared
    /// count by 1; the value is untouched and nothing is allocated.
    pub fn clone(&self, inner: &mut RcInner<T>) -> (r: Rc<T>)
        requires
            old(inner).count() >= 1,
            old(inner).count() < usize::MAX,
        ensures
            final(inner).count() == old(inner).count() + 1,
            final(inner).val() == old(inner).val(),
    {
        let count = inner.ref_count.get();
        inner.ref_count.set(count + 1);
        Rc { phantom: PhantomData }
    }

    /// Read-only access to the shared value; a live handle never grants
    /// mutable access.
    pub fn deref<'a>(&self, inner: &'a RcInner<T>) -> (r: &'a T)
        requires
            inner.count() >= 1,
        ensures
            *r == inner.val(),
    {
        &inner.value
    }

    /// Drops this handle: decrements the count, and when this was the last
    /// handle (count 1), consumes the block — the one deallocation point.
    /// Otherwise the block survives with its value untouched.
    pub fn drop_handle(self, inner: RcInner<T>) -> (r: Option<RcInner<T>>)
        requires
            inner.count() >= 1,
        ensures
            r is None <==> inner.count() == 1,
            r is Some ==> r.unwrap().count() == inner.count() - 1 && r.unwrap().val()
                == inner.val(),
    {
        let mut inner = inner;
        let count = inner.ref_count.get();
        if count == 1 {
            None
        } else {
            inner.ref_count.set(count - 1);
            Some(inner)
        }
    }
}

/// One step in the life of a shared block after its creation: a `clone` of
/// some live handle, or a drop of one.
pub enum RcEvent {
    Duplicate,
    Release,
}

/// The number of not-yet-dropped handles after a sequence of events:
/// creation hands out one handle, each clone adds one, each drop removes
/// one.
pub open spec fn live_after(events: Seq<RcEvent>) -> int
    decreases events.len(),
{
    if events.len() == 0 {
        1
    } else {
        live_after(events.drop_last()) + (match events.last() {
            RcEvent::Duplicate => 1,
            RcEvent::Release => -1,
        })
    }
}

/// A history is well formed when every event is performed through a handle
/// that still exists: at least one handle is live before each event.
pub open spec fn wf_history(events: Seq<RcEvent>) -> bool {
    forall|i: int| 0 <= i < events.len() ==> live_after(#[trigger] events.take(i)) >= 1
}

/// The block's state after a sequence of events, following exactly the
/// transitions of `clone` and `drop_handle`: `Some(count)` while the block
/// is allocated, `None` once a drop saw a count of 1 and deallocated it.
pub open spec fn block_after(events: Seq<RcEvent>) -> Option<int>
    decreases events.len(),
{
    if events.len() == 0 {
        Some(1)
    } else {
        match block_after(events.drop_last()) {
            Option::None => Option::None,
            Option::Some(c) => match events.last() {
                RcEvent::Duplicate => Some(c + 1),
                RcEvent::Release => if c == 1 {
                    Option::None
                } else {
                    Some(c - 1)
                },
            },
        }
    }
}

proof fn lemma_take_of_take(events: Seq<RcEvent>, i: int)
    requires
        0 <= i < events.len(),
    ensures
        events.drop_last().take(i) == events.take(i),
{
    assert(events.drop_last().take(i) =~= events.take(i));
}

/// Bookkeeping law, one history at a time: while any handle is live the
/// block is still allocated and its recorded count equals the number of
/// live handles; the moment the last handle is dropped the block is gone.
pub proof fn lemma_block_matches_live(events: Seq<RcEvent>)
    requires
        wf_history(events),
    ensures
        live_after(events) >= 0,
        live_after(events) >= 1 ==> block_after(events) == Some(live_after(events)),
        live_after(events) == 0 ==> block_after(events) is None,
    decreases events.len(),
{
    if events.len() > 0 {
        let prefix = events.drop_last();
        assert forall|i: int| 0 <= i < prefix.len() implies live_after(
            #[trigger] prefix.take(i),
        ) >= 1 by {
            lemma_take_of_take(events, i);
        }
        lemma_block_matches_live(prefix);
        assert(events.take(events.len() - 1) =~= prefix);
        assert(live_after(prefix) >= 1);
    }
}

/// Deallocation happens exactly once, and only as the last event: in a well
/// formed history, a drop that sees a count of 1 (the deallocating drop)
/// leaves no handle through which any further event could happen.
pub proof fn lemma_freed_only_last(events: Seq<RcEvent>, i: int)
    requires
        wf_history(events),
        0 <= i <= events.len(),
        live_after(events.take(i)) == 0,
    ensures
        i == events.len(),
{
    if i < events.len() {
        assert(live_after(events.take(i)) >= 1);
    }
}

/// Every point of a well formed history satisfies the bookkeeping law: the
/// count recorded in the block equals the number of not-yet-dropped handles,
/// at every prefix of the history.
pub proof fn lemma_count_tracks_handles(events: Seq<RcEvent>)
    requires
        wf_history(events),
    ensures
        forall|i: int|
            0 <= i <= events.len() && live_after(#[trigger] events.take(i)) >= 1
                ==> block_after(events.take(i)) == Some(live_after(events.take(i))),
{
    assert forall|i: int|
        0 <= i <= events.len() && live_after(#[trigger] events.take(i)) >= 1
        implies block_after(events.take(i)) == Some(live_after(events.take(i))) by {
        let p = events.take(i);
        assert forall|j: int| 0 <= j < p.len() implies live_after(#[trigger] p.take(j)) >= 1 by {
            assert(p.take(j) =~= events.take(j));
        }
        lemma_block_matches_live(p);
    }
}

} // verus!
