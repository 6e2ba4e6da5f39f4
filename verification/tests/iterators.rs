use pointers::iterators::Flatten;
use pointers::iterators::flatten;

fn drain_back<T>(mut iter: Flatten<T>) -> Vec<T> {
    let mut out = Vec::new();
    while let Some(item) = iter.next_back() {
        out.push(item);
    }
    out
}

#[test]
fn empty() {
    assert_eq!(flatten(Vec::<Vec<()>>::new()).count(), 0)
}

#[test]
fn empty_wide() {
    assert_eq!(flatten(vec![Vec::<()>::new(), vec![], vec![]]).count(), 0)
}

#[test]
fn once() {
    assert_eq!(flatten(vec![vec!["a"]]).count(), 1)
}

#[test]
fn two() {
    assert_eq!(flatten(vec![vec!["a", "b"]]).count(), 2)
}

#[test]
fn two_4() {
    assert_eq!(flatten(vec![vec!["a", "b"], vec!["c", "d"]]).count(), 4)
}

#[test]
fn two_wide() {
    assert_eq!(flatten(vec![vec!["a"], vec!["b"]]).count(), 2)
}

#[test]
fn eight() {
    assert_eq!(
        flatten(vec![
            vec!["a", "b"],
            vec!["c", "d"],
            vec!["e", "f"],
            vec!["g", "h"]
        ])
        .count(),
        8
    )
}

#[test]
fn reverse() {
    assert_eq!(drain_back(flatten(vec![vec!["a", "b"]])), vec!["b", "a"])
}

#[test]
fn reverse_wide() {
    assert_eq!(drain_back(flatten(vec![vec!["a"], vec!["b"]])), vec!["b", "a"])
}

#[test]
fn both_ends() {
    let mut iter = flatten(vec![vec!["a1", "a2", "a3"], vec!["b1", "b2", "b3"]]);
    assert_eq!(iter.next(), Some("a1"));
    assert_eq!(iter.next_back(), Some("b3"));
    assert_eq!(iter.next(), Some("a2"));
    assert_eq!(iter.next_back(), Some("b2"));
    assert_eq!(iter.next(), Some("a3"));
    assert_eq!(iter.next_back(), Some("b1"));
    assert_eq!(iter.next(), None);
    assert_eq!(iter.next_back(), None);
}

#[test]
fn deep() {
    let once_flattened: Vec<Vec<i32>> = flatten(vec![vec![vec![1, 2, 3]]]).collect();
    assert_eq!(flatten(once_flattened).collect(), vec![1, 2, 3]);
}
