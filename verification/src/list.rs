//! A list that tracks only how many elements were pushed into it; the
//! elements themselves are never stored, so the type is a pure counter with
//! a type-level marker for the element type.

use core::marker::PhantomData;
use vstd::prelude::*;

verus! {

pub struct List<T> {
    len: usize,
    marker: PhantomData<T>,
}

impl<T> List<T> {
    /// The number of elements pushed so far.
    pub closed spec fn spec_len(&self) -> usize {
        self.len
    }

    /// An empty list.
    pub fn new() -> (r: List<T>)
        ensures
            r.spec_len() == 0,
    {
        List { len: 0, marker: PhantomData }
    }

    /// How many elements have been pushed.
    pub fn len(&self) -> (r: usize)
        ensures
            r == self.spec_len(),
    {
        self.len
    }

    /// Whether nothing has been pushed yet.
    pub fn is_empty(&self) -> (r: bool)
        ensures
            r == (self.spec_len() == 0),
    {
        self.len == 0
    }

    /// Records one more element (and discards it).
    pub fn push(&mut self, _element: T)
        requires
            old(self).spec_len() < usize::MAX,
        ensures
            final(self).spec_len() == old(self).spec_len() + 1,
    {
        self.len = self.len + 1;
    }
}

impl<T> Default for List<T> {
    fn default() -> (r: Self)
        ensures
            r.spec_len() == 0,
    {
        Self::new()
    }
}

} // verus!
