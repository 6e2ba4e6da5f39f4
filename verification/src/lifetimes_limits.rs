//! A borrow-checker exercise: a method that takes an exclusive borrow but
//! hands back only a shared view, alongside its purely shared siblings.

use vstd::prelude::*;

verus! {

pub struct Foo;

impl Foo {
    /// Takes the receiver exclusively, but all it does is share it back:
    /// the exclusive borrow lives as long as the returned view.
    pub fn mutate_and_share<'a>(&'a mut self) -> (r: &'a Foo)
        ensures
            *r == *old(self),
            *final(self) == *old(self),
    {
        &*self
    }

    /// Shares the receiver back unchanged.
    pub fn only_share<'a>(&'a self) -> (r: &'a Foo)
        ensures
            *r == *self,
    {
        &*self
    }

    /// Observes the receiver and does nothing.
    pub fn share(&self) {
    }
}

} // verus!
