//! Selection sort: repeatedly move the smallest remaining element to the
//! front of the unsorted tail.

use vstd::prelude::*;
use crate::sorter::Sorter;
use crate::sorter::sorted_between;
use crate::sorter::swap;

verus! {

pub struct SelectionSort;

impl Sorter for SelectionSort {
    fn sort(data: &mut Vec<i64>) {
        let n = data.len();
        let ghost orig = data@.to_multiset();
        let mut i: usize = 0;
        while i < n
            invariant
                n == data.len(),
                i <= n,
                data@.to_multiset() == orig,
                sorted_between(data@, 0, i as int),
                // the sorted prefix is below everything after it
                forall|a: int, b: int| 0 <= a < i <= b < n ==> data@[a] <= data@[b],
            decreases n - i,
        {
            let mut min: usize = i;
            let mut k: usize = i + 1;
            while k < n
                invariant
                    n == data.len(),
                    i <= min < n,
                    i < k <= n,
                    // min points at the least element seen so far
                    forall|m: int| i <= m < k ==> data@[min as int] <= data@[m],
                decreases n - k,
            {
                if data[k] < data[min] {
                    min = k;
                }
                k = k + 1;
            }
            swap(data, i, min);
            i = i + 1;
        }
    }
}

} // verus!
