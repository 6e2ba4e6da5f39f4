//! `strtok`: splits off the token before the first occurrence of a
//! delimiter character, leaving the rest in the caller's string slot.

use vstd::prelude::*;
use vstd::string::StrSliceExecFns;

verus! {

/// Returns the prefix of `*s` before the first occurrence of `delimiter`
/// and leaves the part after that occurrence in `*s`; when the delimiter
/// does not occur, returns the whole of `*s` and leaves it empty.
pub fn strtok<'a>(s: &mut &'a str, delimiter: char) -> (r: &'a str)
    ensures
        (forall|k: int| 0 <= k < old(s)@.len() ==> old(s)@[k] != delimiter) ==> r@ == old(s)@
            && final(s)@.len() == 0,
        forall|i: int|
            0 <= i < old(s)@.len() && old(s)@[i] == delimiter && (forall|k: int|
                0 <= k < i ==> old(s)@[k] != delimiter) ==> r@ == old(s)@.subrange(0, i)
                && final(s)@ == old(s)@.subrange(i + 1, old(s)@.len() as int),
{
    let len = s.unicode_len();
    let mut i: usize = 0;
    while i < len
        invariant
            len == s@.len(),
            i <= len,
            s@ == old(s)@,
            forall|k: int| 0 <= k < i ==> s@[k] != delimiter,
        decreases len - i,
    {
        if s.get_char(i) == delimiter {
            let prefix = s.substring_char(0, i);
            let suffix = s.substring_char(i + 1, len);
            *s = suffix;
            return prefix;
        }
        i = i + 1;
    }
    let prefix = *s;
    *s = "";
    proof {
        reveal_strlit("");
    }
    prefix
}

} // verus!
