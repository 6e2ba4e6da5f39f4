//! Splitting a string on a delimiter: an explicit iterator-like state that
//! hands out the pieces one by one, and a helper that takes the prefix up
//! to the first occurrence of a character.

use vstd::prelude::*;
use vstd::string::StrSliceExecFns;

verus! {

/// The delimiter occurs in `hay` at position `i`.
pub open spec fn matches_at(hay: Seq<char>, needle: Seq<char>, i: int) -> bool {
    0 <= i && i + needle.len() <= hay.len() && hay.subrange(i, i + needle.len()) == needle
}

/// `i` is the first position at which the delimiter occurs in `hay`.
pub open spec fn first_match(hay: Seq<char>, needle: Seq<char>, i: int) -> bool {
    matches_at(hay, needle, i) && forall|k: int| 0 <= k < i ==> !matches_at(hay, needle, k)
}

/// Whether the characters of `needle` stand in `hay` at position `i`.
fn match_here(hay: &str, needle: &str, i: usize) -> (b: bool)
    requires
        i + needle@.len() <= hay@.len(),
    ensures
        b == matches_at(hay@, needle@, i as int),
{
    let hay_len = hay.unicode_len();
    let needle_len = needle.unicode_len();
    let mut j: usize = 0;
    while j < needle_len
        invariant
            i + needle@.len() <= hay@.len(),
            hay_len == hay@.len(),
            needle_len == needle@.len(),
            j <= needle_len,
            forall|k: int| 0 <= k < j ==> hay@[i + k] == needle@[k],
        decreases needle_len - j,
    {
        if hay.get_char(i + j) != needle.get_char(j) {
            proof {
                assert(hay@.subrange(i as int, i + needle@.len())[j as int] == hay@[i + j]);
            }
            return false;
        }
        j = j + 1;
    }
    proof {
        assert(hay@.subrange(i as int, i + needle@.len()) =~= needle@);
    }
    true
}

/// The first position at which `needle` occurs in `hay`, if any.
pub fn find_sub(hay: &str, needle: &str) -> (r: Option<usize>)
    ensures
        match r {
            Some(i) => first_match(hay@, needle@, i as int),
            None => forall|k: int| !matches_at(hay@, needle@, k),
        },
{
    let hay_len = hay.unicode_len();
    let needle_len = needle.unicode_len();
    if needle_len > hay_len {
        return None;
    }
    if needle_len == 0 {
        proof {
            assert(hay@.subrange(0, 0) =~= needle@);
        }
        return Some(0);
    }
    let mut i: usize = 0;
    while i <= hay_len - needle_len
        invariant
            hay_len == hay@.len(),
            needle_len == needle@.len(),
            1 <= needle_len <= hay_len,
            i <= hay_len - needle_len + 1,
            forall|k: int| 0 <= k < i ==> !matches_at(hay@, needle@, k),
        decreases hay_len - i,
    {
        if match_here(hay, needle, i) {
            return Some(i);
        }
        i = i + 1;
    }
    None
}

/// Yields the pieces of a haystack between occurrences of a delimiter,
/// front to back; the remainder still to be split is `None` once the last
/// piece (the part after the final delimiter) has been handed out.
pub struct StrSplit<'r, 'd> {
    remainder: Option<&'r str>,
    delimiter: &'d str,
}

impl<'r, 'd> StrSplit<'r, 'd> {
    /// What is still to be split.
    pub closed spec fn rem(&self) -> Option<Seq<char>> {
        match self.remainder {
            Some(s) => Some(s@),
            None => None,
        }
    }

    /// The delimiter looked for.
    pub closed spec fn delim(&self) -> Seq<char> {
        self.delimiter@
    }

    /// Starts a split of `haystack` on `delimiter`.
    pub fn new(haystack: &'r str, delimiter: &'d str) -> (r: StrSplit<'r, 'd>)
        ensures
            r.rem() == Some(haystack@),
            r.delim() == delimiter@,
    {
        StrSplit { remainder: Some(haystack), delimiter }
    }

    /// The next piece: the prefix of the remainder up to the first
    /// occurrence of the delimiter (the rest after it becomes the new
    /// remainder), or the whole remainder when the delimiter no longer
    /// occurs — after which the split is exhausted and yields nothing.
    pub fn next(&mut self) -> (r: Option<&'r str>)
        ensures
            final(self).delim() == old(self).delim(),
            old(self).rem() is None ==> r is None && final(self).rem() is None,
            old(self).rem() is Some ==> r is Some,
            old(self).rem() is Some && (forall|k: int|
                !matches_at(old(self).rem().unwrap(), old(self).delim(), k)) ==> r.unwrap()@
                == old(self).rem().unwrap() && final(self).rem() is None,
            forall|i: int|
                old(self).rem() is Some && first_match(
                    old(self).rem().unwrap(),
                    old(self).delim(),
                    i,
                ) ==> r.unwrap()@ == old(self).rem().unwrap().subrange(0, i) && final(self).rem()
                    == Some(
                    old(self).rem().unwrap().subrange(
                        i + old(self).delim().len(),
                        old(self).rem().unwrap().len() as int,
                    ),
                ),
    {
        let remainder = match self.remainder {
            Some(s) => s,
            None => {
                return None;
            },
        };
        match find_sub(remainder, self.delimiter) {
            Some(next_delimiter) => {
                let remainder_len = remainder.unicode_len();
                let until_delimiter = remainder.substring_char(0, next_delimiter);
                let rest = remainder.substring_char(
                    next_delimiter + self.delimiter.unicode_len(),
                    remainder_len,
                );
                self.remainder = Some(rest);
                proof {
                    assert(matches_at(
                        old(self).rem().unwrap(),
                        old(self).delim(),
                        next_delimiter as int,
                    ));
                    assert forall|i: int|
                        first_match(remainder@, self.delimiter@, i) implies i
                        == next_delimiter as int by {
                        if i < next_delimiter as int {
                            assert(!matches_at(remainder@, self.delimiter@, i));
                        }
                        if i > next_delimiter as int {
                            assert(!matches_at(remainder@, self.delimiter@, next_delimiter as int));
                        }
                    }
                }
                Some(until_delimiter)
            },
            None => {
                self.remainder = None;
                Some(remainder)
            },
        }
    }
}

/// The prefix of `s` up to (and not including) the first occurrence of
/// `c`; the whole of `s` when `c` does not occur.
pub fn until_char<'r>(s: &'r str, c: char) -> (r: &'r str)
    ensures
        (forall|k: int| 0 <= k < s@.len() ==> s@[k] != c) ==> r@ == s@,
        forall|i: int|
            0 <= i < s@.len() && s@[i] == c && (forall|k: int| 0 <= k < i ==> s@[k] != c)
                ==> r@ == s@.subrange(0, i),
{
    let len = s.unicode_len();
    let mut i: usize = 0;
    while i < len
        invariant
            len == s@.len(),
            i <= len,
            forall|k: int| 0 <= k < i ==> s@[k] != c,
        decreases len - i,
    {
        if s.get_char(i) == c {
            return s.substring_char(0, i);
        }
        i = i + 1;
    }
    s
}

} // verus!
