use std::sync::{Arc, Mutex};

use hello::channel::SharedReceiver;
use hello::{worker_step, Job, ThreadPool};

/// A job that records its id in a shared log when it runs.
struct RecordJob {
    id: u64,
    log: Arc<Mutex<Vec<u64>>>,
}

impl Job for RecordJob {
    fn run(self) {
        self.log.lock().unwrap().push(self.id);
    }
}

/// A spawner that starts no thread: the worker's "handle" is its shared
/// receiver, and the joiner runs the worker loop to completion in place.
/// Every job still travels the real channel and runs exactly once.
fn inline_spawner(_id: usize, r: SharedReceiver<RecordJob>) -> SharedReceiver<RecordJob> {
    r
}

fn inline_joiner(r: SharedReceiver<RecordJob>) {
    while worker_step(&r) {}
}

#[test]
fn submitted_jobs_all_execute_exactly_once() {
    let log: Arc<Mutex<Vec<u64>>> = Arc::new(Mutex::new(Vec::new()));
    let pool = ThreadPool::new(4, inline_spawner);
    for id in 0..10u64 {
        let delivered = pool.execute(RecordJob { id, log: Arc::clone(&log) });
        assert!(delivered);
    }
    let joined = pool.shutdown(inline_joiner);
    assert_eq!(joined, 4);
    let mut seen = log.lock().unwrap().clone();
    seen.sort();
    assert_eq!(seen, (0..10u64).collect::<Vec<u64>>());
}

#[test]
fn pool_of_size_zero_fails_before_spawning() {
    let spawned: Arc<Mutex<usize>> = Arc::new(Mutex::new(0));
    let count = Arc::clone(&spawned);
    let spawner = move |_id: usize, r: SharedReceiver<RecordJob>| {
        *count.lock().unwrap() += 1;
        r
    };
    let pool = ThreadPool::try_new(0, spawner);
    assert!(pool.is_none());
    assert_eq!(*spawned.lock().unwrap(), 0);
}

#[test]
fn try_new_spawns_exactly_n_workers() {
    let spawned: Arc<Mutex<usize>> = Arc::new(Mutex::new(0));
    let count = Arc::clone(&spawned);
    let spawner = move |_id: usize, r: SharedReceiver<RecordJob>| {
        *count.lock().unwrap() += 1;
        r
    };
    let pool = ThreadPool::try_new(3, spawner).unwrap();
    assert_eq!(*spawned.lock().unwrap(), 3);
    assert_eq!(pool.shutdown(inline_joiner), 3);
}

#[test]
fn shutdown_drains_queued_jobs_before_returning() {
    let log: Arc<Mutex<Vec<u64>>> = Arc::new(Mutex::new(Vec::new()));
    let pool = ThreadPool::new(2, inline_spawner);
    for id in 0..5u64 {
        pool.execute(RecordJob { id, log: Arc::clone(&log) });
    }
    // Nothing has run yet: no worker loop has turned.
    assert_eq!(log.lock().unwrap().len(), 0);
    let joined = pool.shutdown(inline_joiner);
    // All five queued jobs executed before shutdown returned.
    assert_eq!(joined, 2);
    let mut seen = log.lock().unwrap().clone();
    seen.sort();
    assert_eq!(seen, vec![0, 1, 2, 3, 4]);
}

#[test]
fn jobs_are_delivered_in_submission_order() {
    let log: Arc<Mutex<Vec<u64>>> = Arc::new(Mutex::new(Vec::new()));
    let pool = ThreadPool::new(1, inline_spawner);
    for id in 0..6u64 {
        pool.execute(RecordJob { id, log: Arc::clone(&log) });
    }
    pool.shutdown(inline_joiner);
    // One worker drains the queue in order: FIFO delivery is observable.
    assert_eq!(*log.lock().unwrap(), vec![0, 1, 2, 3, 4, 5]);
}

#[test]
fn execute_reports_refusal_once_all_workers_are_gone() {
    // A spawner that drops its receiver at once stands for a worker
    // that terminated abnormally; with every consuming handle gone,
    // submission is refused rather than silently dropped.
    let pool: ThreadPool<RecordJob, ()> = ThreadPool::new(2, |_id, receiver| {
        drop(receiver);
    });
    let log: Arc<Mutex<Vec<u64>>> = Arc::new(Mutex::new(Vec::new()));
    let delivered = pool.execute(RecordJob { id: 0, log: Arc::clone(&log) });
    assert!(!delivered);
    assert_eq!(pool.shutdown(|_handle| {}), 2);
    assert_eq!(log.lock().unwrap().len(), 0);
}

#[test]
fn worker_step_reports_closure() {
    let log: Arc<Mutex<Vec<u64>>> = Arc::new(Mutex::new(Vec::new()));
    let pool = ThreadPool::new(1, inline_spawner);
    pool.execute(RecordJob { id: 7, log: Arc::clone(&log) });
    let handles: Arc<Mutex<Vec<SharedReceiver<RecordJob>>>> = Arc::new(Mutex::new(Vec::new()));
    let keep = Arc::clone(&handles);
    // Capture the handle instead of joining, to step it by hand.
    let joined = pool.shutdown(move |r| keep.lock().unwrap().push(r));
    assert_eq!(joined, 1);
    let r = handles.lock().unwrap().pop().unwrap();
    assert!(worker_step(&r)); // claims and runs job 7
    assert!(!worker_step(&r)); // queue closed and empty: claim fails
    assert_eq!(*log.lock().unwrap(), vec![7]);
}
