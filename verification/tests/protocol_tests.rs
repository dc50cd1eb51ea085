use hello::protocol::{Phase, PoolProtocol};

#[test]
fn submitting_k_jobs_drains_to_k_executions() {
    let mut m = PoolProtocol::new(3);
    for _ in 0..7 {
        m.submit();
    }
    assert_eq!(m.submitted_count(), 7);
    assert_eq!(m.queued_count(), 7);
    m.close();
    m.drain();
    assert!(m.is_terminated());
    assert_eq!(m.queued_count(), 0);
    let executed = m.executed_ids().clone();
    assert_eq!(executed.len(), 7);
    let mut sorted = executed;
    sorted.sort();
    assert_eq!(sorted, vec![0, 1, 2, 3, 4, 5, 6]);
}

#[test]
fn teardown_with_jobs_queued_executes_them_all() {
    let mut m = PoolProtocol::new(2);
    for _ in 0..5 {
        m.submit();
    }
    // One job is already mid-execution when shutdown begins.
    m.claim(0);
    m.close();
    m.drain();
    assert!(m.is_terminated());
    assert_eq!(m.executed_ids().len(), 5);
}

#[test]
fn workers_terminate_after_closure_with_empty_queue() {
    let mut m = PoolProtocol::new(4);
    m.close();
    m.drain();
    assert!(m.is_terminated());
    for w in 0..4 {
        assert_eq!(m.phase_of(w), Phase::Done);
    }
    assert_eq!(m.executed_ids().len(), 0);
}

#[test]
fn claims_are_fifo_and_exclusive() {
    let mut m = PoolProtocol::new(2);
    let a = m.submit();
    let b = m.submit();
    assert_eq!(a, 0);
    assert_eq!(b, 1);
    let first = m.claim(0);
    assert_eq!(first, a); // oldest job first
    assert_eq!(m.phase_of(0), Phase::Running(a));
    // The other worker claims the next job while the first still runs:
    // claiming and executing are not serialized.
    let second = m.claim(1);
    assert_eq!(second, b);
    assert_eq!(m.phase_of(0), Phase::Running(a));
    assert_eq!(m.phase_of(1), Phase::Running(b));
    let done_first = m.finish(1);
    assert_eq!(done_first, b); // completion order need not follow submission
    assert_eq!(m.finish(0), a);
    m.close();
    m.drain();
    assert_eq!(m.executed_ids(), &vec![b, a]);
}

#[test]
fn long_job_does_not_delay_short_jobs() {
    // Pool of 4; one long job, then ten short ones.
    let mut m = PoolProtocol::new(4);
    let long = m.submit();
    for _ in 0..10 {
        m.submit();
    }
    // Worker 0 claims the long job and holds it the whole time.
    assert_eq!(m.claim(0), long);
    // The other three workers turn through all ten short jobs.
    let mut turn: usize = 0;
    while m.queued_count() > 0 {
        let w = 1 + (turn % 3);
        m.claim(w);
        m.finish(w);
        turn += 1;
    }
    assert_eq!(m.executed_ids().len(), 10);
    assert!(!m.executed_ids().contains(&long));
    assert_eq!(m.phase_of(0), Phase::Running(long));
    // Only then does the long job finish; total is eleven executions.
    m.finish(0);
    m.close();
    m.drain();
    assert!(m.is_terminated());
    assert_eq!(m.executed_ids().len(), 11);
}

#[test]
fn in_flight_job_completes_during_shutdown() {
    // The shutdown notification fires while one job is mid-execution.
    let mut m = PoolProtocol::new(2);
    let in_flight = m.submit();
    m.claim(1);
    assert_eq!(m.phase_of(1), Phase::Running(in_flight));
    m.close();
    assert!(!m.is_open());
    m.drain();
    assert!(m.is_terminated());
    assert!(m.executed_ids().contains(&in_flight));
}
