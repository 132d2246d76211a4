use naia_socket::TimeQueue;

#[test]
fn empty_queue_has_nothing() {
    let mut q: TimeQueue<u32> = TimeQueue::new();
    assert!(!q.has_item(1000));
    assert_eq!(q.pop_item(1000), None);
    assert_eq!(q.len(), 0);
}

#[test]
fn items_leave_by_time_then_insertion() {
    let mut q: TimeQueue<&str> = TimeQueue::new();
    q.add_item(30, "c");
    q.add_item(10, "a");
    q.add_item(20, "b1");
    q.add_item(20, "b2");
    assert_eq!(q.pop_item(100), Some("a"));
    assert_eq!(q.pop_item(100), Some("b1"));
    assert_eq!(q.pop_item(100), Some("b2"));
    assert_eq!(q.pop_item(100), Some("c"));
    assert_eq!(q.pop_item(100), None);
}

#[test]
fn nothing_leaves_before_its_time() {
    let mut q: TimeQueue<u8> = TimeQueue::new();
    q.add_item(50, 1);
    assert!(!q.has_item(49));
    assert_eq!(q.pop_item(49), None);
    assert_eq!(q.len(), 1);
    assert!(q.has_item(50));
    assert_eq!(q.pop_item(50), Some(1));
    assert_eq!(q.len(), 0);
}

#[test]
fn only_the_earliest_leaves_per_pop() {
    let mut q: TimeQueue<u8> = TimeQueue::new();
    q.add_item(5, 2);
    q.add_item(1, 1);
    q.add_item(9, 3);
    assert_eq!(q.pop_item(6), Some(1));
    assert_eq!(q.pop_item(6), Some(2));
    assert_eq!(q.pop_item(6), None);
    assert_eq!(q.len(), 1);
}
