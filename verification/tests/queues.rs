use replication_kv::queue::Queue;
use replication_kv::spsc_queue::SpscQueue;

#[test]
fn test_sync_queue() {
    let mut queue = Queue::<i32, 4>::new();
    assert_eq!(queue.pop(), None);
    assert_eq!(queue.push(1), Ok(()));
    assert_eq!(queue.push(2), Ok(()));
    assert_eq!(queue.push(3), Ok(()));
    assert_eq!(queue.push(4), Ok(()));
    assert_eq!(queue.push(5), Err(5));
    assert_eq!(queue.pop(), Some(1));
    assert_eq!(queue.pop(), Some(2));
    assert_eq!(queue.pop(), Some(3));
    assert_eq!(queue.pop(), Some(4));
    assert_eq!(queue.pop(), None);
}

#[test]
fn test_spsc_queue() {
    let mut queue = SpscQueue::<i32, 4>::new();
    assert_eq!(queue.pop(), None);
    assert_eq!(queue.push(1), Ok(()));
    assert_eq!(queue.push(2), Ok(()));
    assert_eq!(queue.push(3), Ok(()));
    assert_eq!(queue.push(4), Ok(()));
    assert_eq!(queue.push(5), Err(5));
    assert_eq!(queue.pop(), Some(1));
    assert_eq!(queue.pop(), Some(2));
    assert_eq!(queue.pop(), Some(3));
    assert_eq!(queue.pop(), Some(4));
    assert_eq!(queue.pop(), None);
}

#[test]
fn queue_refill_after_drain() {
    let mut queue = Queue::<i32, 2>::new();
    assert_eq!(queue.push(7), Ok(()));
    assert_eq!(queue.pop(), Some(7));
    assert_eq!(queue.push(8), Ok(()));
    assert_eq!(queue.push(9), Ok(()));
    assert_eq!(queue.push(10), Err(10));
    assert_eq!(queue.pop(), Some(8));
    assert_eq!(queue.pop(), Some(9));
    assert_eq!(queue.pop(), None);
}

#[test]
fn queue_of_capacity_zero_takes_nothing() {
    let mut queue = Queue::<i32, 0>::new();
    assert_eq!(queue.push(1), Err(1));
    assert_eq!(queue.pop(), None);
}
