//! A multi-producer, single-consumer channel, reduced to its bookkeeping: a
//! queue of pending messages and a count of live senders. The classic
//! formulation guards this state with a mutex and parks the receiver on a
//! condition variable; in this single-threaded, verified form the shared state is
//! passed explicitly and a receive that would have blocked is ruled out by
//! contract instead of by waiting.

use core::marker::PhantomData;
use std::collections::VecDeque;
use vstd::prelude::*;

verus! {

/// The state both endpoints share: the queued messages and the number of
/// senders still alive.
pub struct Shared<T> {
    queue: VecDeque<T>,
    senders: usize,
}

impl<T> Shared<T> {
    /// The messages sent but not yet received, oldest first.
    pub closed spec fn queue(&self) -> Seq<T> {
        self.queue@
    }

    /// How many senders are still alive.
    pub closed spec fn senders(&self) -> usize {
        self.senders
    }
}

/// The sending endpoint; a channel starts with exactly one.
pub struct Sender<T> {
    marker: PhantomData<T>,
}

/// The receiving endpoint.
pub struct Receiver<T> {
    marker: PhantomData<T>,
}

/// A fresh channel: empty queue, one sender.
pub fn channel<T>() -> (r: (Sender<T>, Receiver<T>, Shared<T>))
    ensures
        r.2.queue() == Seq::<T>::empty(),
        r.2.senders() == 1,
{
    let shared = Shared { queue: VecDeque::new(), senders: 1 };
    (Sender { marker: PhantomData }, Receiver { marker: PhantomData }, shared)
}

impl<T> Sender<T> {
    /// Appends a message to the back of the queue.
    pub fn send(&mut self, shared: &mut Shared<T>, data: T)
        ensures
            final(shared).queue() == old(shared).queue().push(data),
            final(shared).senders() == old(shared).senders(),
    {
        shared.queue.push_back(data);
    }

    /// One more sender for the same channel.
    pub fn clone(&self, shared: &mut Shared<T>) -> (r: Sender<T>)
        requires
            old(shared).senders() < usize::MAX,
        ensures
            final(shared).queue() == old(shared).queue(),
            final(shared).senders() == old(shared).senders() + 1,
    {
        shared.senders = shared.senders + 1;
        Sender { marker: PhantomData }
    }

    /// Drops this sender; when the count reaches zero the channel is
    /// closed and a receiver finding the queue empty gets `None`.
    pub fn close(self, shared: &mut Shared<T>)
        requires
            old(shared).senders() >= 1,
        ensures
            final(shared).queue() == old(shared).queue(),
            final(shared).senders() == old(shared).senders() - 1,
    {
        shared.senders = shared.senders - 1;
    }
}

impl<T> Receiver<T> {
    /// Takes the oldest queued message; `None` exactly when the queue is
    /// empty and every sender is gone. A receive on an empty queue with
    /// senders still alive has no answer to give — it would wait forever —
    /// so it is ruled out here by precondition.
    pub fn recv(&mut self, shared: &mut Shared<T>) -> (r: Option<T>)
        requires
            old(shared).queue().len() > 0 || old(shared).senders() == 0,
        ensures
            old(shared).queue().len() > 0 ==> r == Some(old(shared).queue()[0])
                && final(shared).queue() == old(shared).queue().drop_first()
                && final(shared).senders() == old(shared).senders(),
            old(shared).queue().len() == 0 ==> r is None
                && final(shared).queue() == old(shared).queue()
                && final(shared).senders() == old(shared).senders(),
    {
        match shared.queue.pop_front() {
            Some(data) => {
                proof {
                    assert(old(shared).queue().subrange(1, old(shared).queue().len() as int)
                        =~= old(shared).queue().drop_first());
                }
                Some(data)
            },
            None => None,
        }
    }
}

} // verus!
