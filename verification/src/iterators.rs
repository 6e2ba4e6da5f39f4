//! A toy flatten iterator over a vector of vectors, walkable from both
//! ends. Its view is the flattened sequence of the elements still to be
//! yielded.

use vstd::prelude::*;

verus! {

/// The concatenation of the views of a sequence of vectors.
pub open spec fn flat_of<T>(s: Seq<Vec<T>>) -> Seq<T>
    decreases s.len(),
{
    if s.len() == 0 {
        Seq::empty()
    } else {
        s[0]@ + flat_of(s.drop_first())
    }
}

/// The flattened sequence can also be peeled from the back.
proof fn lemma_flat_of_last<T>(s: Seq<Vec<T>>)
    requires
        s.len() > 0,
    ensures
        flat_of(s) == flat_of(s.drop_last()) + s.last()@,
    decreases s.len(),
{
    if s.len() == 1 {
        assert(s.drop_first() =~= Seq::<Vec<T>>::empty());
        assert(s.drop_last() =~= Seq::<Vec<T>>::empty());
        assert(flat_of(s) =~= flat_of(s.drop_last()) + s.last()@);
    } else {
        lemma_flat_of_last(s.drop_first());
        assert(s.drop_first().drop_last() =~= s.drop_last().drop_first());
        assert(s.drop_first().last() == s.last());
        assert(s.drop_last()[0] == s[0]);
        assert(flat_of(s) =~= flat_of(s.drop_last()) + s.last()@);
    }
}

/// The remaining elements, outer front to outer back.
pub struct Flatten<T> {
    outer: Vec<Vec<T>>,
}

impl<T> View for Flatten<T> {
    type V = Seq<T>;

    closed spec fn view(&self) -> Seq<T> {
        flat_of(self.outer@)
    }
}

/// Starts a flattening walk over `iter`.
pub fn flatten<T>(iter: Vec<Vec<T>>) -> (r: Flatten<T>)
    ensures
        r@ == flat_of(iter@),
{
    Flatten::new(iter)
}

impl<T> Flatten<T> {
    /// Wraps the outer vector without touching it.
    pub fn new(o: Vec<Vec<T>>) -> (r: Flatten<T>)
        ensures
            r@ == flat_of(o@),
    {
        Flatten { outer: o }
    }

    /// The next element from the front, if any is left.
    pub fn next(&mut self) -> (r: Option<T>)
        ensures
            old(self)@.len() == 0 ==> r is None && final(self)@ == old(self)@,
            old(self)@.len() > 0 ==> r == Some(old(self)@[0])
                && final(self)@ == old(self)@.drop_first(),
    {
        let ghost start = self@;
        loop
            invariant
                self@ == start,
                start == old(self)@,
            decreases self.outer.len(),
        {
            if self.outer.len() == 0 {
                return None;
            }
            if self.outer[0].len() == 0 {
                let ghost before = self.outer@;
                let exhausted = self.outer.remove(0);
                proof {
                    assert(before.remove(0) =~= before.drop_first());
                    assert(flat_of(before) == before[0]@ + flat_of(before.drop_first()));
                    assert(before[0]@ + flat_of(before.drop_first()) =~= flat_of(
                        before.drop_first(),
                    ));
                }
            } else {
                let ghost before = self.outer@;
                let mut first = self.outer.remove(0);
                let item = first.remove(0);
                self.outer.insert(0, first);
                proof {
                    assert(before.remove(0) =~= before.drop_first());
                    assert(self.outer@.drop_first() =~= before.drop_first());
                    assert(self.outer@[0]@ =~= before[0]@.drop_first());
                    assert(flat_of(before) == before[0]@ + flat_of(before.drop_first()));
                    assert(flat_of(self.outer@) == self.outer@[0]@ + flat_of(
                        self.outer@.drop_first(),
                    ));
                    assert(start[0] == before[0]@[0]);
                    assert(flat_of(self.outer@) =~= start.drop_first());
                }
                return Some(item);
            }
        }
    }

    /// The next element from the back, if any is left.
    pub fn next_back(&mut self) -> (r: Option<T>)
        ensures
            old(self)@.len() == 0 ==> r is None && final(self)@ == old(self)@,
            old(self)@.len() > 0 ==> r == Some(old(self)@.last())
                && final(self)@ == old(self)@.drop_last(),
    {
        let ghost start = self@;
        loop
            invariant
                self@ == start,
                start == old(self)@,
            decreases self.outer.len(),
        {
            if self.outer.len() == 0 {
                return None;
            }
            let ghost before = self.outer@;
            proof {
                lemma_flat_of_last(before);
            }
            let mut last = match self.outer.pop() {
                Some(v) => v,
                None => {
                    return None;
                },
            };
            if last.len() == 0 {
                proof {
                    assert(self.outer@ =~= before.drop_last());
                    assert(flat_of(before.drop_last()) + last@ =~= flat_of(before.drop_last()));
                }
            } else {
                let item = match last.pop() {
                    Some(x) => x,
                    None => {
                        return None;
                    },
                };
                self.outer.push(last);
                proof {
                    assert(before.subrange(0, before.len() - 1) =~= before.drop_last());
                    assert(self.outer@.drop_last() =~= before.drop_last());
                    assert(self.outer@.last()@ =~= before.last()@.drop_last());
                    lemma_flat_of_last(self.outer@);
                    assert(start.last() == before.last()@.last());
                    assert(flat_of(self.outer@) =~= start.drop_last());
                }
                return Some(item);
            }
        }
    }

    /// How many elements are left, consuming the walk.
    #[verifier::loop_isolation(false)]
    pub fn count(self) -> (r: usize)
        requires
            self@.len() <= usize::MAX,
        ensures
            r == self@.len(),
    {
        let mut this = self;
        let ghost total = this@.len();
        let mut counted: usize = 0;
        loop
            invariant
                counted + this@.len() == total,
                total <= usize::MAX,
            decreases this@.len(),
        {
            match this.next() {
                Some(_) => {
                    counted = counted + 1;
                },
                None => {
                    return counted;
                },
            }
        }
    }

    /// The remaining elements, front to back, consuming the walk.
    #[verifier::loop_isolation(false)]
    pub fn collect(self) -> (r: Vec<T>)
        ensures
            r@ == self@,
    {
        let mut this = self;
        let ghost total = this@;
        let mut out: Vec<T> = Vec::new();
        loop
            invariant
                out@ + this@ == total,
            decreases this@.len(),
        {
            match this.next() {
                Some(item) => {
                    out.push(item);
                    proof {
                        assert(out@ + this@ =~= total);
                    }
                },
                None => {
                    proof {
                        assert(out@ =~= total);
                    }
                    return out;
                },
            }
        }
    }
}

} // verus!
