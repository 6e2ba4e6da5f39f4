//! Comparison sorts over `Vec<i64>`, all meeting one contract: the data
//! ends up in nondecreasing order and holds exactly the elements it started
//! with (as a multiset).

use vstd::prelude::*;
use vstd::seq_lib::lemma_multiset_commutative;
use vstd::seq_lib::to_multiset_update;
use vstd::seq_lib::group_to_multiset_ensures;


pub mod bubblesort;
pub mod insertionsort;
pub mod quicksort;
pub mod selectionsort;


verus! {

/// The elements of `s` with index in `[lo, hi)` are in nondecreasing order.
pub open spec fn sorted_between(s: Seq<i64>, lo: int, hi: int) -> bool {
    forall|x: int, y: int| lo <= x < y < hi ==> s[x] <= s[y]
}

/// The whole sequence is in nondecreasing order.
pub open spec fn sorted(s: Seq<i64>) -> bool {
    sorted_between(s, 0, s.len() as int)
}

/// A sorting strategy: every implementation sorts in place and keeps
/// exactly the same elements.
pub trait Sorter {
    fn sort(data: &mut Vec<i64>)
        ensures
            sorted(final(data)@),
            final(data)@.to_multiset() == old(data)@.to_multiset(),
    ;
}

/// The baseline strategy: hand the work to the standard library.
pub struct StdSorter;

/// Relies on the standard library's slice `sort`: it reorders the slice in
/// place into nondecreasing order, keeping exactly the same elements.
#[verifier::external_body]
fn std_sort(data: &mut Vec<i64>)
    ensures
        sorted(final(data)@),
        final(data)@.to_multiset() == old(data)@.to_multiset(),
{
    data.sort();
}

impl Sorter for StdSorter {
    fn sort(data: &mut Vec<i64>) {
        std_sort(data);
    }
}

/// Exchanging two elements leaves the contents unchanged as a multiset.
pub proof fn lemma_swap_multiset(s: Seq<i64>, i: int, j: int)
    requires
        0 <= i < s.len(),
        0 <= j < s.len(),
    ensures
        s.update(i, s[j]).update(j, s[i]).to_multiset() == s.to_multiset(),
{
    broadcast use to_multiset_update;
    broadcast use group_to_multiset_ensures;

    assert(s.contains(s[i]));
    assert(s.update(i, s[j]).update(j, s[i]).to_multiset() =~= s.to_multiset());
}

/// A swap confined to `[lo, hi)` leaves that window's contents unchanged as
/// a multiset.
pub proof fn lemma_swap_subrange_multiset(s: Seq<i64>, lo: int, hi: int, i: int, j: int)
    requires
        0 <= lo <= i < hi <= s.len(),
        lo <= j < hi,
    ensures
        s.update(i, s[j]).update(j, s[i]).subrange(lo, hi).to_multiset() == s.subrange(
            lo,
            hi,
        ).to_multiset(),
{
    let sub = s.subrange(lo, hi);
    assert(s.update(i, s[j]).update(j, s[i]).subrange(lo, hi) =~= sub.update(
        i - lo,
        sub[j - lo],
    ).update(j - lo, sub[i - lo]));
    lemma_swap_multiset(sub, i - lo, j - lo);
}

/// Exchanges the elements at `i` and `j` in place.
pub(crate) fn swap(data: &mut Vec<i64>, i: usize, j: usize)
    requires
        i < old(data).len(),
        j < old(data).len(),
    ensures
        final(data)@ == old(data)@.update(i as int, old(data)@[j as int]).update(
            j as int,
            old(data)@[i as int],
        ),
        final(data)@.to_multiset() == old(data)@.to_multiset(),
{
    proof {
        lemma_swap_multiset(data@, i as int, j as int);
    }
    let tmp = data[i];
    data[i] = data[j];
    data[j] = tmp;
}

/// Pairwise order of neighbours already gives the full order.
pub proof fn lemma_adjacent_implies_sorted(s: Seq<i64>)
    requires
        forall|k: int| 0 <= k < s.len() - 1 ==> #[trigger] s[k] <= s[k + 1],
    ensures
        sorted(s),
{
    assert forall|x: int, y: int| 0 <= x < y < s.len() implies s[x] <= s[y] by {
        lemma_adjacent_chain(s, x, y);
    }
}

proof fn lemma_adjacent_chain(s: Seq<i64>, x: int, y: int)
    requires
        forall|k: int| 0 <= k < s.len() - 1 ==> #[trigger] s[k] <= s[k + 1],
        0 <= x < y < s.len(),
    ensures
        s[x] <= s[y],
    decreases y - x,
{
    if x + 1 < y {
        lemma_adjacent_chain(s, x, y - 1);
    }
}

/// An upper bound on every element survives any reordering: two sequences
/// with the same multiset of elements are bounded alike.
pub proof fn lemma_multiset_preserves_le(s1: Seq<i64>, s2: Seq<i64>, c: i64)
    requires
        s1.to_multiset() == s2.to_multiset(),
        forall|k: int| 0 <= k < s1.len() ==> s1[k] <= c,
    ensures
        forall|k: int| 0 <= k < s2.len() ==> s2[k] <= c,
{
    broadcast use group_to_multiset_ensures;

    assert forall|k: int| 0 <= k < s2.len() implies s2[k] <= c by {
        assert(s2.contains(s2[k]));
        assert(s2.to_multiset().count(s2[k]) > 0);
        assert(s1.to_multiset().count(s2[k]) > 0);
        assert(s1.contains(s2[k]));
    }
}

/// The mirror bound: a lower bound on every element also survives any
/// reordering.
pub proof fn lemma_multiset_preserves_ge(s1: Seq<i64>, s2: Seq<i64>, c: i64)
    requires
        s1.to_multiset() == s2.to_multiset(),
        forall|k: int| 0 <= k < s1.len() ==> s1[k] >= c,
    ensures
        forall|k: int| 0 <= k < s2.len() ==> s2[k] >= c,
{
    broadcast use group_to_multiset_ensures;

    assert forall|k: int| 0 <= k < s2.len() implies s2[k] >= c by {
        assert(s2.contains(s2[k]));
        assert(s2.to_multiset().count(s2[k]) > 0);
        assert(s1.to_multiset().count(s2[k]) > 0);
        assert(s1.contains(s2[k]));
    }
}

/// Splitting a window in two splits its multiset of elements.
pub proof fn lemma_subrange_multiset_split(s: Seq<i64>, lo: int, mid: int, hi: int)
    requires
        0 <= lo <= mid <= hi <= s.len(),
    ensures
        s.subrange(lo, hi).to_multiset() == s.subrange(lo, mid).to_multiset().add(
            s.subrange(mid, hi).to_multiset(),
        ),
{
    assert(s.subrange(lo, hi) =~= s.subrange(lo, mid) + s.subrange(mid, hi));
    lemma_multiset_commutative(s.subrange(lo, mid), s.subrange(mid, hi));
}

} // verus!
