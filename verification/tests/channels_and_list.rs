use pointers::channels::channel;
use pointers::list::List;

#[test]
fn ping_pong() {
    let (mut tx, mut rx, mut shared) = channel();
    tx.send(&mut shared, 42);

    assert_eq!(rx.recv(&mut shared), Some(42));
}

#[test]
fn closed() {
    let (tx, mut rx, mut shared) = channel::<()>();
    tx.close(&mut shared);

    assert_eq!(rx.recv(&mut shared), None);
}

#[test]
fn queued_messages_keep_their_order() {
    let (mut tx, mut rx, mut shared) = channel();
    let tx2 = tx.clone(&mut shared);
    tx.send(&mut shared, 1);
    tx.send(&mut shared, 2);
    tx.send(&mut shared, 3);
    tx.close(&mut shared);
    tx2.close(&mut shared);

    assert_eq!(rx.recv(&mut shared), Some(1));
    assert_eq!(rx.recv(&mut shared), Some(2));
    assert_eq!(rx.recv(&mut shared), Some(3));
    assert_eq!(rx.recv(&mut shared), None);
}

#[test]
fn test_new_list_is_empty_and_has_zero_len() {
    let list: List<i32> = List::new();

    assert_eq!(list.len(), 0);
    assert!(list.is_empty())
}

#[test]
fn test_push_increases_len() {
    let mut list: List<i32> = List::new();

    list.push(1);

    assert_eq!(list.len(), 1);
}
