use worker_pool::pool::{ChannelClosedError, PoolCreationError, RecvOutcome, ThreadPool, WorkerPhase};

#[test]
fn build_positive_capacity_yields_sequential_workers() {
    let pool = ThreadPool::build(4).unwrap();
    assert_eq!(pool.capacity(), 4);
    for i in 0..4 {
        assert_eq!(pool.worker_id(i), i);
        assert_eq!(pool.worker_phase(i), WorkerPhase::Waiting);
    }
    assert!(pool.is_open());
    assert_eq!(pool.pending_len(), 0);
    assert_eq!(pool.completed_len(), 0);
}

#[test]
fn new_positive_capacity_yields_sequential_workers() {
    let pool = ThreadPool::new(1);
    assert_eq!(pool.capacity(), 1);
    assert_eq!(pool.worker_id(0), 0);
    assert_eq!(pool.worker_phase(0), WorkerPhase::Waiting);
    assert!(pool.is_open());
}

#[test]
fn build_zero_capacity_is_rejected() {
    let r = ThreadPool::build(0);
    assert!(matches!(r, Err(PoolCreationError)));
}

#[test]
fn thousand_jobs_all_complete_exactly_once() {
    let mut pool = ThreadPool::new(3);
    for j in 0..1000u64 {
        pool.execute(j);
    }
    pool.shutdown();
    assert_eq!(pool.completed_len(), 1000);
    let mut seen: Vec<u64> = Vec::new();
    for i in 0..1000 {
        seen.push(pool.completed_at(i));
    }
    seen.sort();
    for j in 0..1000u64 {
        assert_eq!(seen[j as usize], j);
    }
}

#[test]
fn job_submitted_before_teardown_completes() {
    let mut pool = ThreadPool::new(2);
    pool.execute(42);
    pool.shutdown();
    assert_eq!(pool.completed_len(), 1);
    assert_eq!(pool.completed_at(0), 42);
}

#[test]
fn submission_after_retirement_fails() {
    let mut pool = ThreadPool::new(1);
    assert!(pool.try_execute(7).is_ok());
    pool.retire_sender();
    assert!(!pool.is_open());
    assert!(matches!(pool.try_execute(8), Err(ChannelClosedError)));
    assert_eq!(pool.pending_len(), 1);
    pool.shutdown();
    assert_eq!(pool.completed_len(), 1);
    assert_eq!(pool.completed_at(0), 7);
}

#[test]
fn two_workers_execute_concurrently() {
    let mut pool = ThreadPool::new(2);
    pool.execute(10);
    pool.execute(11);
    assert_eq!(pool.worker_receive(0), RecvOutcome::Job(10));
    assert_eq!(pool.worker_receive(1), RecvOutcome::Job(11));
    assert_eq!(pool.worker_phase(0), WorkerPhase::Executing(10));
    assert_eq!(pool.worker_phase(1), WorkerPhase::Executing(11));
    pool.worker_finish(0);
    pool.worker_finish(1);
    pool.shutdown();
    assert_eq!(pool.completed_len(), 2);
}

#[test]
fn idle_teardown_completes_cleanly() {
    let mut pool = ThreadPool::new(3);
    pool.shutdown();
    assert!(!pool.is_open());
    for i in 0..3 {
        assert_eq!(pool.worker_phase(i), WorkerPhase::Exited);
    }
    assert_eq!(pool.pending_len(), 0);
    assert_eq!(pool.completed_len(), 0);
}

#[test]
fn ten_jobs_recorded_once_each() {
    let mut pool = ThreadPool::build(4).unwrap();
    for j in 0..10u64 {
        pool.execute(j);
    }
    pool.shutdown();
    assert_eq!(pool.completed_len(), 10);
    let mut seen: Vec<u64> = Vec::new();
    for i in 0..10 {
        seen.push(pool.completed_at(i));
    }
    seen.sort();
    for j in 0..10u64 {
        assert_eq!(seen[j as usize], j);
    }
}

#[test]
fn worker_receives_disconnection_when_queue_closed() {
    let mut pool = ThreadPool::new(1);
    pool.retire_sender();
    assert_eq!(pool.worker_receive(0), RecvOutcome::Disconnected);
    assert_eq!(pool.worker_phase(0), WorkerPhase::Exited);
}

#[test]
fn worker_loop_runs_one_job_and_returns_to_waiting() {
    let mut pool = ThreadPool::new(1);
    pool.execute(5);
    assert_eq!(pool.worker_receive(0), RecvOutcome::Job(5));
    assert_eq!(pool.worker_phase(0), WorkerPhase::Executing(5));
    pool.worker_finish(0);
    assert_eq!(pool.worker_phase(0), WorkerPhase::Waiting);
    assert_eq!(pool.completed_len(), 1);
    assert_eq!(pool.completed_at(0), 5);
}

#[test]
fn jobs_from_one_submitter_are_delivered_in_order() {
    let mut pool = ThreadPool::new(1);
    pool.execute(1);
    pool.execute(2);
    pool.execute(3);
    assert_eq!(pool.worker_receive(0), RecvOutcome::Job(1));
    pool.worker_finish(0);
    assert_eq!(pool.worker_receive(0), RecvOutcome::Job(2));
    pool.worker_finish(0);
    assert_eq!(pool.worker_receive(0), RecvOutcome::Job(3));
    pool.worker_finish(0);
    assert_eq!(pool.completed_at(0), 1);
    assert_eq!(pool.completed_at(1), 2);
    assert_eq!(pool.completed_at(2), 3);
}
