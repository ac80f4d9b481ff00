use blur::pool::{Step, ThreadPool, WorkerState};

fn job_of(step: Step<u32>) -> Option<u32> {
    match step {
        Step::Run(job) => Some(job),
        _ => None,
    }
}

fn is_wait(step: &Step<u32>) -> bool {
    matches!(step, Step::Wait)
}

fn is_exit(step: &Step<u32>) -> bool {
    matches!(step, Step::Exit)
}

#[test]
fn new_pool_is_open_and_idle() {
    let pool: ThreadPool<u32> = ThreadPool::new(3);
    assert!(pool.is_open());
    assert_eq!(pool.pending(), 0);
    assert_eq!(pool.worker_count(), 3);
    for i in 0..3 {
        assert_eq!(pool.state_of(i), Some(WorkerState::Idle));
    }
    assert_eq!(pool.state_of(3), None);
    assert!(!pool.is_shut_down());
}

#[test]
fn jobs_leave_in_the_order_they_came() {
    let mut pool: ThreadPool<u32> = ThreadPool::new(2);
    assert!(pool.execute(11));
    assert!(pool.execute(22));
    assert!(pool.execute(33));
    assert_eq!(pool.pending(), 3);
    assert_eq!(job_of(pool.take(1)), Some(11));
    assert_eq!(pool.state_of(1), Some(WorkerState::Running));
    assert_eq!(job_of(pool.take(0)), Some(22));
    assert_eq!(pool.pending(), 1);
    assert_eq!(job_of(pool.take(1)), Some(33));
    assert_eq!(pool.pending(), 0);
}

#[test]
fn each_job_goes_to_one_worker() {
    let mut pool: ThreadPool<u32> = ThreadPool::new(4);
    for job in 0..10u32 {
        assert!(pool.execute(job));
    }
    let mut got = Vec::new();
    let mut worker = 0;
    while let Some(job) = job_of(pool.take(worker)) {
        got.push(job);
        worker = (worker + 3) % 4;
    }
    assert_eq!(got, (0..10u32).collect::<Vec<u32>>());
}

#[test]
fn worker_waits_while_the_pool_is_open() {
    let mut pool: ThreadPool<u32> = ThreadPool::new(1);
    assert!(is_wait(&pool.take(0)));
    assert_eq!(pool.state_of(0), Some(WorkerState::Idle));
    assert!(pool.execute(5));
    assert_eq!(job_of(pool.take(0)), Some(5));
    assert!(is_wait(&pool.take(0)));
    assert_eq!(pool.state_of(0), Some(WorkerState::Idle));
}

#[test]
fn closed_pool_takes_no_job() {
    let mut pool: ThreadPool<u32> = ThreadPool::new(1);
    assert!(pool.execute(1));
    pool.close();
    assert!(!pool.is_open());
    assert!(!pool.execute(2));
    assert_eq!(pool.pending(), 1);
    pool.close();
    assert!(!pool.is_open());
    assert!(!pool.execute(3));
    assert_eq!(pool.pending(), 1);
}

#[test]
fn closed_pool_is_drained_before_workers_leave() {
    let mut pool: ThreadPool<u32> = ThreadPool::new(2);
    for job in [7u32, 8, 9] {
        assert!(pool.execute(job));
    }
    assert_eq!(job_of(pool.take(0)), Some(7));
    pool.close();
    assert!(!pool.is_shut_down());
    assert_eq!(job_of(pool.take(1)), Some(8));
    assert_eq!(job_of(pool.take(0)), Some(9));
    assert!(is_exit(&pool.take(1)));
    assert_eq!(pool.state_of(1), Some(WorkerState::Terminated));
    assert!(!pool.is_shut_down());
    assert!(is_exit(&pool.take(0)));
    assert_eq!(pool.state_of(0), Some(WorkerState::Terminated));
    assert!(pool.is_shut_down());
    assert_eq!(pool.pending(), 0);
    assert_eq!(pool.worker_count(), 2);
}

#[test]
fn worker_that_left_stays_away() {
    let mut pool: ThreadPool<u32> = ThreadPool::new(1);
    pool.close();
    assert!(is_exit(&pool.take(0)));
    assert!(is_exit(&pool.take(0)));
    assert_eq!(pool.state_of(0), Some(WorkerState::Terminated));
    assert!(pool.is_shut_down());
}

#[test]
fn unknown_worker_is_sent_away() {
    let mut pool: ThreadPool<u32> = ThreadPool::new(2);
    assert!(pool.execute(1));
    assert!(is_exit(&pool.take(2)));
    assert!(is_exit(&pool.take(usize::MAX)));
    assert_eq!(pool.pending(), 1);
    assert_eq!(pool.state_of(0), Some(WorkerState::Idle));
    assert_eq!(pool.state_of(1), Some(WorkerState::Idle));
}

#[test]
fn pool_keeps_jobs_of_any_kind() {
    let mut pool: ThreadPool<Box<dyn FnOnce() -> u32>> = ThreadPool::new(1);
    assert!(pool.execute(Box::new(|| 40 + 2)));
    match pool.take(0) {
        Step::Run(job) => assert_eq!(job(), 42),
        _ => panic!("no job"),
    }
}
