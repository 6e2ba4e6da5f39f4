//! Variance exercises: shortening a lifetime, assigning through an
//! exclusive borrow, and calling a function value on an input of matching
//! lifetime.

use vstd::prelude::*;

verus! {

/// A longer-lived borrow may stand in for a shorter-lived one.
pub fn foo<'short, 'long: 'short>(x: &'long u32) -> (r: &'short u32)
    ensures
        *r == *x,
{
    x
}

/// Stores `val` through the exclusive borrow.
pub fn assign<'a, T>(input: &'a mut T, val: T)
    ensures
        *final(input) == val,
{
    *input = val;
}

/// Calls the function with its input; both share one lifetime.
pub fn demo<'a, F: Fn(&'a str)>(input: &'a str, f: F)
    requires
        f.requires((input,)),
    ensures
        f.ensures((input,), ()),
{
    f(input);
}

} // verus!
