use std::sync::atomic::{AtomicUsize, Ordering};
use std::sync::Arc;

use webserver::pool::{Phase, ThreadPool};
use webserver::worker::{step, ExitReason, Received, WorkerAction, WorkerState};
use webserver::message::Message;

type Job = Box<dyn FnOnce() + Send + 'static>;

fn counting_job(counter: &Arc<AtomicUsize>) -> Job {
    let c = Arc::clone(counter);
    Box::new(move || {
        c.fetch_add(1, Ordering::SeqCst);
    })
}

/// Lets worker `id` take one message; runs a job it gets and reports it done.
fn turn(pool: &mut ThreadPool<Job>, id: usize) -> Option<ExitReason> {
    match pool.receive(id) {
        WorkerAction::Run(job) => {
            job();
            pool.finish_job(id);
            None
        }
        WorkerAction::Wait => None,
        WorkerAction::Exit(reason) => Some(reason),
    }
}

#[test]
fn test_thread_pool_new_valid_size() {
    let pool: ThreadPool<Job> = ThreadPool::new(2);
    assert_eq!(pool.num_workers(), 2);
}

#[test]
fn test_thread_pool_execute() {
    let mut pool: ThreadPool<Job> = ThreadPool::new(2);
    let counter = Arc::new(AtomicUsize::new(0));
    assert!(pool.execute(counting_job(&counter)).is_ok());
    assert_eq!(turn(&mut pool, 1), None);
    assert_eq!(counter.load(Ordering::SeqCst), 1);
}

#[test]
fn test_thread_pool_drop() {
    let mut pool: ThreadPool<Job> = ThreadPool::new(2);
    let counter = Arc::new(AtomicUsize::new(0));
    assert!(pool.execute(counting_job(&counter)).is_ok());
    assert_eq!(pool.shutdown(), 2);
    assert_eq!(pool.phase(), Phase::Draining);
    assert_eq!(turn(&mut pool, 0), None);
    assert_eq!(turn(&mut pool, 0), Some(ExitReason::Told));
    assert_eq!(turn(&mut pool, 1), Some(ExitReason::Told));
    assert_eq!(pool.join_next(), Some(0));
    assert_eq!(pool.join_next(), Some(1));
    assert_eq!(pool.join_next(), None);
    assert_eq!(pool.phase(), Phase::Stopped);
    assert_eq!(counter.load(Ordering::SeqCst), 1);
}

#[test]
fn new_pool_has_every_worker_waiting() {
    let pool: ThreadPool<u64> = ThreadPool::new(5);
    assert_eq!(pool.num_workers(), 5);
    assert_eq!(pool.live_workers(), 5);
    assert_eq!(pool.pending(), 0);
    assert_eq!(pool.phase(), Phase::Active);
    for id in 0..5 {
        assert_eq!(pool.worker_state(id), WorkerState::Waiting);
    }
}

#[test]
fn single_worker_pool_runs_and_stops() {
    let mut pool: ThreadPool<Job> = ThreadPool::new(1);
    let counter = Arc::new(AtomicUsize::new(0));
    assert!(pool.execute(counting_job(&counter)).is_ok());
    assert_eq!(pool.shutdown(), 1);
    assert_eq!(turn(&mut pool, 0), None);
    assert_eq!(turn(&mut pool, 0), Some(ExitReason::Told));
    assert_eq!(pool.live_workers(), 0);
    assert_eq!(counter.load(Ordering::SeqCst), 1);
}

#[test]
fn commutative_jobs_all_counted() {
    let mut pool: ThreadPool<Job> = ThreadPool::new(3);
    let counter = Arc::new(AtomicUsize::new(0));
    for _ in 0..10 {
        assert!(pool.execute(counting_job(&counter)).is_ok());
    }
    let mut id = 0;
    while pool.pending() > 0 {
        assert_eq!(turn(&mut pool, id), None);
        id = (id + 1) % 3;
    }
    assert_eq!(counter.load(Ordering::SeqCst), 10);
}

#[test]
fn drain_takes_queued_jobs_before_any_stop() {
    let mut pool: ThreadPool<Job> = ThreadPool::new(3);
    let counter = Arc::new(AtomicUsize::new(0));
    for _ in 0..4 {
        assert!(pool.execute(counting_job(&counter)).is_ok());
    }
    assert_eq!(pool.shutdown(), 3);
    assert_eq!(pool.pending(), 7);
    let mut steps = 0;
    let mut id = 0;
    while pool.live_workers() > 0 {
        if pool.worker_state(id) == WorkerState::Waiting {
            let exited = turn(&mut pool, id).is_some();
            assert!(!exited || counter.load(Ordering::SeqCst) == 4);
        }
        id = (id + 1) % 3;
        steps += 1;
        assert!(steps < 100);
    }
    assert_eq!(counter.load(Ordering::SeqCst), 4);
    assert_eq!(pool.pending(), 0);
}

#[test]
fn interleaved_submissions_each_taken_once_in_order() {
    let mut pool: ThreadPool<u64> = ThreadPool::new(2);
    for k in 0..3u64 {
        assert!(pool.execute(100 + k).is_ok());
        assert!(pool.execute(200 + k).is_ok());
    }
    let mut taken = Vec::new();
    let mut id = 0;
    while pool.pending() > 0 {
        match pool.receive(id) {
            WorkerAction::Run(j) => {
                taken.push(j);
                pool.finish_job(id);
            }
            _ => panic!("a job was expected"),
        }
        id = 1 - id;
    }
    assert_eq!(taken, vec![100, 200, 101, 201, 102, 202]);
}

#[test]
fn waiting_worker_blocks_on_empty_queue() {
    let mut pool: ThreadPool<u64> = ThreadPool::new(2);
    assert!(matches!(pool.receive(0), WorkerAction::Wait));
    assert_eq!(pool.worker_state(0), WorkerState::Waiting);
}

#[test]
fn running_worker_is_marked_running() {
    let mut pool: ThreadPool<u64> = ThreadPool::new(2);
    assert!(pool.execute(7).is_ok());
    assert!(matches!(pool.receive(1), WorkerAction::Run(7)));
    assert_eq!(pool.worker_state(1), WorkerState::Running);
    pool.finish_job(1);
    assert_eq!(pool.worker_state(1), WorkerState::Waiting);
}

#[test]
fn submit_after_every_worker_stopped_hands_job_back() {
    let mut pool: ThreadPool<u64> = ThreadPool::new(2);
    assert_eq!(pool.shutdown(), 2);
    assert!(matches!(pool.receive(0), WorkerAction::Exit(ExitReason::Told)));
    assert!(pool.execute(5).is_ok());
    assert!(matches!(pool.receive(1), WorkerAction::Exit(ExitReason::Told)));
    assert_eq!(pool.worker_state(1), WorkerState::Terminated);
    assert_eq!(pool.execute(9), Err(9));
    assert_eq!(pool.pending(), 1);
}

#[test]
fn step_on_each_outcome() {
    assert!(matches!(step(Received::Got(Message::NewJob(3u8))), (WorkerState::Running, WorkerAction::Run(3))));
    assert!(matches!(
        step::<u8>(Received::Got(Message::Terminate)),
        (WorkerState::Terminated, WorkerAction::Exit(ExitReason::Told))
    ));
    assert!(matches!(
        step::<u8>(Received::Disconnected),
        (WorkerState::Terminated, WorkerAction::Exit(ExitReason::Disconnected))
    ));
    assert!(matches!(
        step::<u8>(Received::LockFailed),
        (WorkerState::Terminated, WorkerAction::Exit(ExitReason::LockFailed))
    ));
}

#[test]
fn message_kind() {
    assert!(Message::<u8>::Terminate.is_terminate());
    assert!(!Message::NewJob(1u8).is_terminate());
}
