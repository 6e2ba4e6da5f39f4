//! A hand-rolled box: one heap-allocated value with exclusive ownership.
//! The classic trick keeps a raw pointer and frees it by hand; here the
//! heap allocation is tracked by the verifier, and both flavours of
//! dereference carry contracts.

use vstd::prelude::*;

verus! {

pub struct Boks<T> {
    p: Box<T>,
}

impl<T> View for Boks<T> {
    type V = T;

    closed spec fn view(&self) -> T {
        *self.p
    }
}

impl<T> Boks<T> {
    /// Moves `t` onto the heap.
    pub fn new(t: T) -> (b: Boks<T>)
        ensures
            b@ == t,
    {
        Boks { p: Box::new(t) }
    }

    /// Shared access to the boxed value.
    pub fn deref(&self) -> (r: &T)
        ensures
            *r == self@,
    {
        &*self.p
    }

    /// Exclusive access to the boxed value.
    pub fn deref_mut(&mut self) -> (r: &mut T)
        ensures
            *r == old(self)@,
            final(self)@ == *final(r),
    {
        &mut *self.p
    }
}

} // verus!
