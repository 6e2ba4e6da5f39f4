use pointers::sorter::Sorter;
use pointers::sorter::StdSorter;
use pointers::sorter::bubblesort::BubbleSort;
use pointers::sorter::insertionsort::InsertionSort;
use pointers::sorter::quicksort::QuickSort;
use pointers::sorter::selectionsort::SelectionSort;

#[test]
fn lib_test_one() {
    let mut slice = vec![1];
    StdSorter::sort(&mut slice);

    assert_eq!(slice, vec![1]);
}

#[test]
fn lib_test_sorted() {
    let mut slice = vec![1, 2, 3, 4];
    StdSorter::sort(&mut slice);

    assert_eq!(slice, vec![1, 2, 3, 4]);
}

#[test]
fn lib_test_unsorted() {
    let mut slice = vec![4, 3, 1, 2];
    StdSorter::sort(&mut slice);

    assert_eq!(slice, vec![1, 2, 3, 4]);
}

#[test]
fn lib_test_reversed() {
    let mut slice = vec![4, 3, 2, 1];
    StdSorter::sort(&mut slice);

    assert_eq!(slice, vec![1, 2, 3, 4]);
}

#[test]
fn bubblesort_test_one() {
    let mut slice = vec![1];
    BubbleSort::sort(&mut slice);

    assert_eq!(slice, vec![1]);
}

#[test]
fn bubblesort_test_sorted() {
    let mut slice = vec![1, 2, 3, 4];
    BubbleSort::sort(&mut slice);

    assert_eq!(slice, vec![1, 2, 3, 4]);
}

#[test]
fn bubblesort_test_unsorted() {
    let mut slice = vec![4, 3, 1, 2];
    BubbleSort::sort(&mut slice);

    assert_eq!(slice, vec![1, 2, 3, 4]);
}

#[test]
fn bubblesort_test_reversed() {
    let mut slice = vec![4, 3, 2, 1];
    BubbleSort::sort(&mut slice);

    assert_eq!(slice, vec![1, 2, 3, 4]);
}

#[test]
fn insertionsort_test_one() {
    let mut slice = vec![1];
    InsertionSort::sort(&mut slice);

    assert_eq!(slice, vec![1]);
}

#[test]
fn insertionsort_test_sorted() {
    let mut slice = vec![1, 2, 3, 4];
    InsertionSort::sort(&mut slice);

    assert_eq!(slice, vec![1, 2, 3, 4]);
}

#[test]
fn insertionsort_test_unsorted() {
    let mut slice = vec![4, 3, 1, 2];
    InsertionSort::sort(&mut slice);

    assert_eq!(slice, vec![1, 2, 3, 4]);
}

#[test]
fn insertionsort_test_reversed() {
    let mut slice = vec![4, 3, 2, 1];
    InsertionSort::sort(&mut slice);

    assert_eq!(slice, vec![1, 2, 3, 4]);
}

#[test]
fn selectionsort_test_one() {
    let mut slice = vec![1];
    SelectionSort::sort(&mut slice);

    assert_eq!(slice, vec![1]);
}

#[test]
fn selectionsort_test_sorted() {
    let mut slice = vec![1, 2, 3, 4];
    SelectionSort::sort(&mut slice);

    assert_eq!(slice, vec![1, 2, 3, 4]);
}

#[test]
fn selectionsort_test_unsorted() {
    let mut slice = vec![4, 3, 1, 2];
    SelectionSort::sort(&mut slice);

    assert_eq!(slice, vec![1, 2, 3, 4]);
}

#[test]
fn selectionsort_test_reversed() {
    let mut slice = vec![4, 3, 2, 1];
    SelectionSort::sort(&mut slice);

    assert_eq!(slice, vec![1, 2, 3, 4]);
}

#[test]
fn quicksort_test_one() {
    let mut slice = vec![1];
    QuickSort::sort(&mut slice);

    assert_eq!(slice, vec![1]);
}

#[test]
fn quicksort_test_sorted() {
    let mut slice = vec![1, 2, 3, 4];
    QuickSort::sort(&mut slice);

    assert_eq!(slice, vec![1, 2, 3, 4]);
}

#[test]
fn quicksort_test_unsorted() {
    let mut slice = vec![4, 3, 1, 2];
    QuickSort::sort(&mut slice);

    assert_eq!(slice, vec![1, 2, 3, 4]);
}

#[test]
fn quicksort_test_reversed() {
    let mut slice = vec![4, 3, 2, 1];
    QuickSort::sort(&mut slice);

    assert_eq!(slice, vec![1, 2, 3, 4]);
}

#[test]
fn sorts_agree_on_duplicates() {
    let input: Vec<i64> = vec![5, 3, 5, 1, 3, 3, 9, 0];
    let expected: Vec<i64> = vec![0, 1, 3, 3, 3, 5, 5, 9];

    let mut a = input.clone();
    BubbleSort::sort(&mut a);
    assert_eq!(a, expected);

    let mut b = input.clone();
    InsertionSort::sort(&mut b);
    assert_eq!(b, expected);

    let mut c = input.clone();
    SelectionSort::sort(&mut c);
    assert_eq!(c, expected);

    let mut d = input.clone();
    QuickSort::sort(&mut d);
    assert_eq!(d, expected);
}

#[test]
fn sorts_handle_empty_input() {
    let mut empty: Vec<i64> = vec![];
    BubbleSort::sort(&mut empty);
    assert!(empty.is_empty());
    QuickSort::sort(&mut empty);
    assert!(empty.is_empty());
}
