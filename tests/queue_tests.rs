use mining_pool::queue::{worker_step, Lifecycle, WorkerAction, WorkerEvent};

#[test]
fn worker_decisions() {
    assert!(matches!(worker_step::<i64>(WorkerEvent::Closed), WorkerAction::Exit));
    assert!(matches!(worker_step::<i64>(WorkerEvent::Ran(None)), WorkerAction::Fetch));
    assert!(matches!(worker_step(WorkerEvent::Ran(Some(123456i64))), WorkerAction::Deliver(123456)));
    assert!(matches!(worker_step::<i64>(WorkerEvent::Delivered), WorkerAction::Fetch));
    assert!(matches!(worker_step::<i64>(WorkerEvent::Undeliverable), WorkerAction::Exit));
}

#[test]
fn enqueue_refused_only_after_close() {
    let mut l = Lifecycle::new(4);
    assert!(l.accepts_work());
    assert_eq!(l.live_workers(), 4);
    assert!(l.close());
    assert!(!l.accepts_work());
    assert!(!l.close());
    assert!(!l.accepts_work());
}

#[test]
fn shutdown_joins_every_worker() {
    let mut l = Lifecycle::new(10);
    assert!(!l.is_shut_down());
    l.close();
    let mut joined = 0;
    while l.live_workers() > 0 {
        l.worker_joined();
        joined += 1;
    }
    assert_eq!(joined, 10);
    assert!(l.is_shut_down());
    assert!(!l.close());
    assert!(l.is_shut_down());
}
