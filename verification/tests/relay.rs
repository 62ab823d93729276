use cleverdog::relay::{
    ConnectionEvent, Offer, RelayQueue, RelayWorker, RetryPolicy, WorkerAction, BACKOFF_MS,
    DEFAULT_MAX_ATTEMPTS, QUEUE_CAPACITY,
};

#[test]
fn the_usual_queue_holds_4096_entries() {
    let mut queue = RelayQueue::new();
    for i in 0..QUEUE_CAPACITY {
        assert_eq!(queue.offer(&[(i % 256) as u8]), Offer::Queued);
    }
    assert_eq!(QUEUE_CAPACITY, 4096);
    assert_eq!(queue.len(), 4096);
    assert!(queue.is_full());
    assert_eq!(queue.offer(&[1]), Offer::Dropped);
    assert_eq!(queue.len(), 4096);
}

#[test]
fn offer_queues_the_envelope_of_the_payload() {
    let mut queue = RelayQueue::with_capacity(4);
    assert_eq!(queue.offer(&[1, 2, 3]), Offer::Queued);
    assert_eq!(queue.dequeue(), Some(vec![0xc4, 3, 1, 2, 3]));
    assert_eq!(queue.dequeue(), None);
}

#[test]
fn a_full_queue_drops_and_stays_as_it_is() {
    let mut queue = RelayQueue::with_capacity(2);
    assert_eq!(queue.offer(&[1]), Offer::Queued);
    assert_eq!(queue.offer(&[2]), Offer::Queued);
    assert_eq!(queue.offer(&[3]), Offer::Dropped);
    assert_eq!(queue.offer(&[4]), Offer::Dropped);
    assert!(!queue.try_enqueue(vec![5]));
    assert_eq!(queue.len(), 2);
    assert_eq!(queue.dequeue(), Some(vec![0xc4, 1, 1]));
    assert_eq!(queue.offer(&[6]), Offer::Queued);
    assert_eq!(queue.dequeue(), Some(vec![0xc4, 1, 2]));
    assert_eq!(queue.dequeue(), Some(vec![0xc4, 1, 6]));
    assert_eq!(queue.dequeue(), None);
    assert_eq!(queue.len(), 0);
}

#[test]
fn a_queue_without_room_drops_everything() {
    let mut queue = RelayQueue::with_capacity(0);
    assert!(queue.is_full());
    assert_eq!(queue.offer(&[1]), Offer::Dropped);
    assert_eq!(queue.dequeue(), None);
}

#[test]
fn entries_leave_in_the_order_they_came() {
    let mut queue = RelayQueue::with_capacity(8);
    for i in 0..8u8 {
        assert!(queue.try_enqueue(vec![i; i as usize]));
    }
    for i in 0..8u8 {
        assert_eq!(queue.dequeue(), Some(vec![i; i as usize]));
    }
}

#[test]
fn a_worker_without_a_limit_reconnects_for_ever() {
    let mut worker = RelayWorker::new(RetryPolicy { max_attempts: None });
    for _ in 0..1000 {
        assert_eq!(
            worker.on_event(ConnectionEvent::ConnectFailed),
            WorkerAction::Reconnect { after_ms: 1000 }
        );
    }
    assert_eq!(BACKOFF_MS, 1000);
}

#[test]
fn a_worker_gives_up_when_its_attempts_are_used_up() {
    let mut worker = RelayWorker::new(RetryPolicy { max_attempts: Some(3) });
    assert_eq!(
        worker.on_event(ConnectionEvent::ConnectFailed),
        WorkerAction::Reconnect { after_ms: 1000 }
    );
    assert_eq!(
        worker.on_event(ConnectionEvent::ConnectFailed),
        WorkerAction::Reconnect { after_ms: 1000 }
    );
    assert_eq!(worker.on_event(ConnectionEvent::ConnectFailed), WorkerAction::Stop);
}

#[test]
fn a_connection_gives_the_worker_its_attempts_back() {
    let mut worker = RelayWorker::new(RetryPolicy { max_attempts: Some(2) });
    assert_eq!(
        worker.on_event(ConnectionEvent::ConnectFailed),
        WorkerAction::Reconnect { after_ms: 1000 }
    );
    assert_eq!(worker.on_event(ConnectionEvent::Connected), WorkerAction::Drain);
    assert_eq!(worker.on_event(ConnectionEvent::Written), WorkerAction::Drain);
    assert_eq!(
        worker.on_event(ConnectionEvent::WriteFailed),
        WorkerAction::Reconnect { after_ms: 1000 }
    );
    assert_eq!(
        worker.on_event(ConnectionEvent::ConnectFailed),
        WorkerAction::Reconnect { after_ms: 1000 }
    );
    assert_eq!(worker.on_event(ConnectionEvent::ConnectFailed), WorkerAction::Stop);
}

#[test]
fn a_worker_with_no_attempts_stops_at_the_first_failure() {
    let mut worker = RelayWorker::new(RetryPolicy { max_attempts: Some(0) });
    assert_eq!(worker.on_event(ConnectionEvent::ConnectFailed), WorkerAction::Stop);
    let mut one = RelayWorker::new(RetryPolicy { max_attempts: Some(1) });
    assert_eq!(one.on_event(ConnectionEvent::ConnectFailed), WorkerAction::Stop);
}

#[test]
fn the_usual_policy_is_bounded() {
    assert_eq!(RetryPolicy::default(), RetryPolicy::bounded(DEFAULT_MAX_ATTEMPTS));
    assert_eq!(RetryPolicy::default().max_attempts, Some(10));
    assert_eq!(RetryPolicy::unbounded().max_attempts, None);
    let mut worker = RelayWorker::new(RetryPolicy::default());
    for _ in 0..9 {
        assert_eq!(
            worker.on_event(ConnectionEvent::ConnectFailed),
            WorkerAction::Reconnect { after_ms: BACKOFF_MS }
        );
    }
    assert_eq!(worker.on_event(ConnectionEvent::ConnectFailed), WorkerAction::Stop);
}
