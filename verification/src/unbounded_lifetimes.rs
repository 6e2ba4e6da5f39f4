//! Small lifetime exercises: functions that pass string slices through or
//! hand out a static one.

use vstd::prelude::*;

verus! {

/// Hands the borrowed slice straight back.
pub fn get_str1<'a>(s: &'a str) -> (r: &'a str)
    ensures
        r@ == s@,
{
    s
}

/// A static greeting, usable at any lifetime the caller picks.
pub fn get_str2<'a>() -> (r: &'a str)
    ensures
        r@ == "hello"@,
{
    "hello"
}

/// The same greeting, spelled with its static lifetime.
pub fn get_str2_2() -> (r: &'static str)
    ensures
        r@ == "hello"@,
{
    "hello"
}

} // verus!
