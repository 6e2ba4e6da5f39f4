//! Insertion sort: grow a sorted prefix by sifting each next element down
//! to its place.

use vstd::prelude::*;
use crate::sorter::Sorter;
use crate::sorter::sorted_between;
use crate::sorter::swap;

verus! {

pub struct InsertionSort;

impl Sorter for InsertionSort {
    fn sort(data: &mut Vec<i64>) {
        let n = data.len();
        let ghost orig = data@.to_multiset();
        if n < 2 {
            return ;
        }
        let mut i: usize = 1;
        while i < n
            invariant
                n == data.len(),
                1 <= i <= n,
                data@.to_multiset() == orig,
                sorted_between(data@, 0, i as int),
            decreases n - i,
        {
            let mut j: usize = i;
            while j > 0 && data[j - 1] > data[j]
                invariant
                    n == data.len(),
                    j <= i < n,
                    data@.to_multiset() == orig,
                    // every pair not involving the sifting position is ordered
                    forall|x: int, y: int|
                        0 <= x < y <= i && x != j && y != j ==> data@[x] <= data@[y],
                    // the sifting element is below everything after it
                    forall|y: int| j < y <= i ==> data@[j as int] <= data@[y],
                decreases j,
            {
                swap(data, j - 1, j);
                j = j - 1;
            }
            proof {
                assert forall|x: int, y: int| 0 <= x < y <= i implies data@[x] <= data@[y] by {
                    if y == j {
                        assert(data@[j as int - 1] <= data@[j as int]);
                        if x < j - 1 {
                            assert(data@[x] <= data@[j as int - 1]);
                        }
                    }
                }
            }
            i = i + 1;
        }
    }
}

} // verus!
