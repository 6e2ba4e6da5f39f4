//! Bubble sort: repeated passes swap adjacent out-of-order pairs until a
//! pass makes no swap. Each pass settles one more element at the top, which
//! bounds the number of passes and so proves the `while swapped` loop
//! terminates.

use vstd::prelude::*;
use crate::sorter::Sorter;
use crate::sorter::lemma_adjacent_implies_sorted;
use crate::sorter::sorted;
use crate::sorter::sorted_between;
use crate::sorter::swap;

verus! {

/// After `p` completed passes the last `p` positions are settled: they are
/// sorted among themselves and dominate everything before them.
pub open spec fn suffix_settled(s: Seq<i64>, p: int) -> bool {
    &&& sorted_between(s, s.len() - p, s.len() as int)
    &&& forall|a: int, b: int| 0 <= a < s.len() - p <= b < s.len() ==> s[a] <= s[b]
}

proof fn lemma_settled_all_but_one_is_sorted(s: Seq<i64>)
    requires
        s.len() >= 1,
        suffix_settled(s, s.len() - 1),
    ensures
        sorted(s),
{
}

pub struct BubbleSort;

impl Sorter for BubbleSort {
    fn sort(data: &mut Vec<i64>) {
        let n = data.len();
        let ghost orig = data@.to_multiset();
        if n < 2 {
            return ;
        }
        let mut swapped = true;
        let mut pass: usize = 0;
        while swapped
            invariant
                n == data.len(),
                2 <= n,
                pass <= n,
                data@.to_multiset() == orig,
                swapped ==> pass < n,
                !swapped ==> sorted(data@),
                suffix_settled(data@, pass as int),
            decreases n - pass,
        {
            swapped = false;
            let ghost snap = data@;
            let mut i: usize = 0;
            while i < n - 1
                invariant
                    n == data.len(),
                    2 <= n,
                    i <= n - 1,
                    pass < n,
                    data@.to_multiset() == orig,
                    !swapped ==> data@ == snap,
                    sorted(snap) ==> !swapped,
                    !swapped ==> forall|k: int| 0 <= k < i ==> #[trigger] data@[k] <= data@[k + 1],
                    forall|k: int| 0 <= k <= i ==> data@[k] <= data@[i as int],
                    suffix_settled(data@, pass as int),
                    i as int >= n - pass - 1 ==> suffix_settled(data@, pass as int + 1),
                decreases n - 1 - i,
            {
                if data[i] > data[i + 1] {
                    swap(data, i, i + 1);
                    swapped = true;
                }
                i = i + 1;
            }
            proof {
                if !swapped {
                    lemma_adjacent_implies_sorted(data@);
                }
                if pass + 1 == n {
                    lemma_settled_all_but_one_is_sorted(snap);
                }
            }
            pass = pass + 1;
        }
    }
}

} // verus!
