use mqttv5::syncqueue::{QueueError, SyncQueue};

#[test]
fn syncqueue_test_basic() {
    let mut queue: SyncQueue<i32> = SyncQueue::new();
    let pushed = queue.push(1);
    assert!(!pushed.is_err());
    for n in 2..101 {
        let pushed2 = queue.push(n);
        assert!(!pushed2.is_err());
    }
    assert_eq!(queue.len(), 100);
    let popped = queue.pop();
    assert!(!popped.is_err());
    assert!(popped.is_ok());
    for n in 2..101 {
        let popped2 = queue.pop();
        assert!(!popped2.is_err());
        assert_eq!(popped2.unwrap(), n);
    }
    queue.close();
    let popped2 = queue.pop();
    assert!(popped2.is_err());
}

#[test]
fn an_open_queue_without_items_tells_to_wait() {
    let mut queue: SyncQueue<u8> = SyncQueue::new();
    assert!(queue.is_empty());
    assert_eq!(queue.pop(), Err(QueueError::Empty));
    assert_eq!(queue.push(7), Ok(()));
    assert!(!queue.is_empty());
    assert_eq!(queue.pop(), Ok(7));
    assert_eq!(queue.pop(), Err(QueueError::Empty));
}

#[test]
fn a_closed_queue_gives_and_takes_nothing() {
    let mut queue: SyncQueue<u8> = SyncQueue::new();
    assert_eq!(queue.push(1), Ok(()));
    assert_eq!(queue.push(2), Ok(()));
    queue.close();
    assert_eq!(queue.push(3), Err(QueueError::Closed));
    assert_eq!(queue.pop(), Err(QueueError::Closed));
    assert_eq!(queue.len(), 2);
    let all = queue.drain();
    assert_eq!(all.into_iter().collect::<Vec<u8>>(), vec![1, 2]);
    assert!(queue.is_empty());
    assert_eq!(queue.pop(), Err(QueueError::Closed));
    assert_eq!(QueueError::Closed.as_str(), "queue is closed");
}
