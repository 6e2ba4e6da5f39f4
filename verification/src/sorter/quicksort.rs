//! Quicksort over an inclusive index window `[low, high]`, with the
//! partition step placing the pivot (the last element of the window) at its
//! final position.

use vstd::prelude::*;
use crate::sorter::Sorter;
use crate::sorter::lemma_multiset_preserves_ge;
use crate::sorter::lemma_multiset_preserves_le;
use crate::sorter::lemma_subrange_multiset_split;
use crate::sorter::lemma_swap_subrange_multiset;
use crate::sorter::sorted_between;
use crate::sorter::swap;

verus! {

pub struct QuickSort;

impl Sorter for QuickSort {
    fn sort(data: &mut Vec<i64>) {
        if data.len() < 2 {
            return ;
        }
        let high = data.len() - 1;
        quick_sort(data, 0, high);
        proof {
            assert(data@.subrange(0, data@.len() as int) =~= data@);
            assert(old(data)@.subrange(0, old(data)@.len() as int) =~= old(data)@);
        }
    }
}

/// Sorts the window `[low, high]` in place; everything outside the window
/// is left exactly as it was, and the window keeps its elements.
pub fn quick_sort(data: &mut Vec<i64>, low: usize, high: usize)
    requires
        high < old(data).len(),
    ensures
        final(data).len() == old(data).len(),
        sorted_between(final(data)@, low as int, high as int + 1),
        final(data)@.subrange(low as int, high as int + 1).to_multiset() == old(
            data,
        )@.subrange(low as int, high as int + 1).to_multiset(),
        forall|k: int|
            0 <= k < old(data).len() && !(low <= k <= high) ==> final(data)@[k] == old(data)@[k],
    decreases high - low,
{
    if low >= high {
        return ;
    }
    let ghost pre = data@;
    let pivot_index = partition(data, low, high);
    let ghost mid = data@;

    if pivot_index > low {
        quick_sort(data, low, pivot_index - 1);
        proof {
            lemma_quick_sort_left(pre, mid, data@, low as int, pivot_index as int, high as int);
        }
    }
    let ghost after_left = data@;
    if pivot_index < high {
        quick_sort(data, pivot_index + 1, high);
        proof {
            lemma_quick_sort_right(
                pre,
                after_left,
                data@,
                low as int,
                pivot_index as int,
                high as int,
            );
        }
    }
    proof {
        lemma_quick_sort_combine(pre, mid, after_left, data@, low as int, pivot_index as int, high as int);
    }
}

/// What `partition` guarantees of the window `[low, high]` of `post`,
/// relative to its state `pre` before the call, once the pivot has come to
/// rest at index `p`.
pub open spec fn partitioned(pre: Seq<i64>, post: Seq<i64>, low: int, p: int, high: int) -> bool {
    &&& post.len() == pre.len()
    &&& low <= p <= high
    &&& forall|k: int| low <= k < p ==> post[k] <= post[p]
    &&& forall|k: int| p < k <= high ==> post[k] >= post[p]
    &&& post.subrange(low, high + 1).to_multiset() == pre.subrange(low, high + 1).to_multiset()
    &&& forall|k: int| 0 <= k < pre.len() && !(low <= k <= high) ==> post[k] == pre[k]
}

/// Lomuto partition: the last element of the window is the pivot; returns
/// the pivot's final index. Elements before it are no greater, elements
/// after it no smaller, the window keeps its elements as a multiset, and
/// nothing outside the window moves.
pub fn partition(data: &mut Vec<i64>, low: usize, high: usize) -> (p: usize)
    requires
        low <= high,
        high < old(data).len(),
    ensures
        partitioned(old(data)@, final(data)@, low as int, p as int, high as int),
{
    let ghost pre = data@;
    let mut i: usize = low;
    let mut j: usize = low;
    while j < high
        invariant
            low <= i <= j <= high < data.len(),
            data.len() == pre.len(),
            data@.subrange(low as int, high as int + 1).to_multiset() == pre.subrange(
                low as int,
                high as int + 1,
            ).to_multiset(),
            forall|k: int| 0 <= k < pre.len() && !(low <= k <= high) ==> data@[k] == pre[k],
            data@[high as int] == pre[high as int],
            forall|k: int| low <= k < i ==> data@[k] <= data@[high as int],
            forall|k: int| i <= k < j ==> data@[k] > data@[high as int],
        decreases high - j,
    {
        if data[j] <= data[high] {
            proof {
                lemma_swap_subrange_multiset(
                    data@,
                    low as int,
                    high as int + 1,
                    i as int,
                    j as int,
                );
            }
            swap(data, i, j);
            i = i + 1;
        }
        j = j + 1;
    }
    proof {
        lemma_swap_subrange_multiset(data@, low as int, high as int + 1, i as int, high as int);
    }
    swap(data, i, high);
    i
}

proof fn lemma_quick_sort_left(pre: Seq<i64>, mid: Seq<i64>, post: Seq<i64>, low: int, p: int, high: int)
    requires
        0 <= low < p <= high < pre.len(),
        mid.len() == pre.len(),
        post.len() == mid.len(),
        partitioned(pre, mid, low, p, high),
        sorted_between(post, low, p),
        post.subrange(low, p).to_multiset() == mid.subrange(low, p).to_multiset(),
        forall|k: int| 0 <= k < mid.len() && !(low <= k <= p - 1) ==> post[k] == mid[k],
    ensures
        partitioned(pre, post, low, p, high),
        sorted_between(post, low, p),
{
    assert(post[p] == mid[p]);
    assert forall|k: int| low <= k < p implies post[k] <= post[p] by {
        let left_before = mid.subrange(low, p);
        let left_after = post.subrange(low, p);
        lemma_multiset_preserves_le(left_before, left_after, mid[p]);
        assert(left_after[k - low] == post[k]);
    }
    assert(post.subrange(low, high + 1).to_multiset() == pre.subrange(low, high + 1).to_multiset())
        by {
        lemma_subrange_multiset_split(mid, low, p, high + 1);
        lemma_subrange_multiset_split(post, low, p, high + 1);
        assert(post.subrange(p, high + 1) =~= mid.subrange(p, high + 1));
    }
}

proof fn lemma_quick_sort_right(
    orig: Seq<i64>,
    before: Seq<i64>,
    post: Seq<i64>,
    low: int,
    p: int,
    high: int,
)
    requires
        0 <= low <= p < high < orig.len(),
        before.len() == orig.len(),
        post.len() == before.len(),
        partitioned(orig, before, low, p, high),
        sorted_between(post, p + 1, high + 1),
        post.subrange(p + 1, high + 1).to_multiset() == before.subrange(
            p + 1,
            high + 1,
        ).to_multiset(),
        forall|k: int| 0 <= k < before.len() && !(p + 1 <= k <= high) ==> post[k] == before[k],
    ensures
        partitioned(orig, post, low, p, high),
        sorted_between(post, p + 1, high + 1),
        forall|k: int| low <= k < p ==> post[k] == before[k],
{
    assert(post[p] == before[p]);
    assert forall|k: int| p < k <= high implies post[k] >= post[p] by {
        let right_before = before.subrange(p + 1, high + 1);
        let right_after = post.subrange(p + 1, high + 1);
        lemma_multiset_preserves_ge(right_before, right_after, before[p]);
        assert(right_after[k - (p + 1)] == post[k]);
    }
    assert(post.subrange(low, high + 1).to_multiset() == orig.subrange(low, high + 1).to_multiset())
        by {
        lemma_subrange_multiset_split(before, low, p + 1, high + 1);
        lemma_subrange_multiset_split(post, low, p + 1, high + 1);
        assert(post.subrange(low, p + 1) =~= before.subrange(low, p + 1));
    }
}

proof fn lemma_quick_sort_combine(
    pre: Seq<i64>,
    mid: Seq<i64>,
    after_left: Seq<i64>,
    post: Seq<i64>,
    low: int,
    p: int,
    high: int,
)
    requires
        0 <= low <= p <= high < pre.len(),
        low < high,
        mid.len() == pre.len(),
        after_left.len() == pre.len(),
        post.len() == pre.len(),
        partitioned(pre, mid, low, p, high),
        // state after the left half is handled (identical to mid when p == low)
        partitioned(pre, after_left, low, p, high),
        sorted_between(after_left, low, p),
        // state after the right half is handled (identical when p == high)
        partitioned(pre, post, low, p, high),
        sorted_between(post, low, p),
        sorted_between(post, p + 1, high + 1),
        forall|k: int| low <= k < p ==> post[k] == after_left[k],
    ensures
        sorted_between(post, low, high + 1),
{
    assert forall|x: int, y: int| low <= x < y < high + 1 implies post[x] <= post[y] by {
        if y <= p {
        } else if x >= p {
        } else {
            assert(post[x] <= post[p]);
            assert(post[y] >= post[p]);
        }
    }
}

} // verus!
