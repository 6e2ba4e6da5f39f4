//! An interior-mutability cell: holds one value and hands it out only by
//! copy-out (`get`) and copy-in (`set`), so no reference to the contents ever
//! escapes.
//!
//! The point of such a cell is mutation through a non-exclusive handle;
//! here the verifier tracks ownership statically, so `set` takes the handle
//! exclusively and the "no reference escapes" discipline is enforced by the
//! API shape alone.

use vstd::prelude::*;

verus! {

/// Holds exactly one value of type `T`; all access is by copy.
pub struct Cell<T> {
    value: T,
}

impl<T> View for Cell<T> {
    type V = T;

    closed spec fn view(&self) -> T {
        self.value
    }
}

impl<T> Cell<T> {
    /// Takes ownership of `value`; always succeeds.
    pub fn new(value: T) -> (c: Cell<T>)
        ensures
            c@ == value,
    {
        Cell { value }
    }

    /// Replaces the stored value, discarding the previous one.
    pub fn set(&mut self, value: T)
        ensures
            final(self)@ == value,
    {
        self.value = value;
    }
}

impl<T: Copy> Cell<T> {
    /// Returns a copy of the current value; the cell is left unchanged.
    pub fn get(&self) -> (r: T)
        ensures
            r == self@,
    {
        self.value
    }
}

/// One step of a cell's history: a write of a given value, or a read.
pub enum CellOp<T> {
    Write(T),
    Read,
}

/// The value a cell holds after a sequence of operations, starting from
/// `init`: a write replaces the value, a read leaves it unchanged.
pub open spec fn value_after<T>(init: T, ops: Seq<CellOp<T>>) -> T
    decreases ops.len(),
{
    if ops.len() == 0 {
        init
    } else {
        let next = match ops[0] {
            CellOp::Write(v) => v,
            CellOp::Read => init,
        };
        value_after(next, ops.drop_first())
    }
}

proof fn lemma_value_after_snoc<T>(init: T, ops: Seq<CellOp<T>>, op: CellOp<T>)
    ensures
        value_after(init, ops.push(op)) == (match op {
            CellOp::Write(v) => v,
            CellOp::Read => value_after(init, ops),
        }),
    decreases ops.len(),
{
    let first = match ops.push(op)[0] {
        CellOp::Write(v) => v,
        CellOp::Read => init,
    };
    assert(value_after(init, ops.push(op)) == value_after(first, ops.push(op).drop_first()));
    if ops.len() == 0 {
        assert(ops.push(op)[0] == op);
        assert(ops.push(op).drop_first() =~= Seq::<CellOp<T>>::empty());
    } else {
        let next = match ops[0] {
            CellOp::Write(v) => v,
            CellOp::Read => init,
        };
        assert(ops.push(op)[0] == ops[0]);
        assert(first == next);
        assert(ops.push(op).drop_first() =~= ops.drop_first().push(op));
        lemma_value_after_snoc(next, ops.drop_first(), op);
        assert(value_after(init, ops) == value_after(next, ops.drop_first()));
    }
}

/// Round-trip law: after a write of `v`, a read returns exactly `v`, no
/// matter what operations preceded the write and however many reads follow
/// it — reads never disturb the stored value.
pub proof fn lemma_set_then_get<T>(init: T, pre: Seq<CellOp<T>>, v: T, reads: Seq<CellOp<T>>)
    requires
        forall|i: int| 0 <= i < reads.len() ==> reads[i] is Read,
    ensures
        value_after(init, pre.push(CellOp::Write(v)) + reads) == v,
    decreases reads.len(),
{
    if reads.len() == 0 {
        assert(pre.push(CellOp::Write(v)) + reads =~= pre.push(CellOp::Write(v)));
        lemma_value_after_snoc(init, pre, CellOp::Write(v));
    } else {
        let shorter = reads.drop_last();
        lemma_set_then_get(init, pre, v, shorter);
        assert(pre.push(CellOp::Write(v)) + reads =~= (pre.push(CellOp::Write(v)) + shorter).push(
            reads.last(),
        ));
        lemma_value_after_snoc(init, pre.push(CellOp::Write(v)) + shorter, reads.last());
    }
}

} // verus!
