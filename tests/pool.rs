use worker_pool::pool::{Action, PoolCore, PoolError, WorkerState};

fn ran(a: Action<&'static str>) -> (u64, &'static str) {
    match a {
        Action::Run(t, j) => (t, j),
        Action::Wait => panic!("worker was told to wait"),
        Action::Exit => panic!("worker was told to exit"),
    }
}

#[test]
fn new_pool_has_size_idle_workers() {
    for size in [1usize, 3, 8] {
        let p = PoolCore::<u32>::new(size).unwrap();
        assert_eq!(p.size(), size);
        for id in 0..size {
            assert_eq!(p.worker_state(id), WorkerState::Idle);
        }
        assert_eq!(p.queued(), 0);
        assert!(!p.is_closed());
    }
}

#[test]
fn zero_size_pool_is_refused() {
    assert!(matches!(PoolCore::<u32>::new(0), Err(PoolError::ZeroSize)));
}

#[test]
fn every_job_runs_once_in_order() {
    let mut p = PoolCore::new(2).unwrap();
    let names = ["a", "b", "c", "d", "e"];
    for (i, n) in names.iter().enumerate() {
        assert_eq!(p.execute(*n), Ok(i as u64));
    }
    let mut seen = Vec::new();
    let mut worker = 0usize;
    loop {
        match p.next_message(worker) {
            Action::Run(t, j) => {
                seen.push((t, j));
                p.finish_job(worker);
            }
            Action::Wait => break,
            Action::Exit => panic!("no shutdown was asked for"),
        }
        worker = 1 - worker;
    }
    let expected: Vec<(u64, &str)> = names.iter().enumerate().map(|(i, n)| (i as u64, *n)).collect();
    assert_eq!(seen, expected);
    assert_eq!(p.dispatched_count(), 5);
    assert_eq!(p.submitted_count(), 5);
}

#[test]
fn two_workers_never_get_the_same_job() {
    let mut p = PoolCore::new(2).unwrap();
    p.execute("first").unwrap();
    p.execute("second").unwrap();
    let (t0, j0) = ran(p.next_message(0));
    let (t1, j1) = ran(p.next_message(1));
    assert_eq!((t0, j0), (0, "first"));
    assert_eq!((t1, j1), (1, "second"));
    assert_eq!(p.worker_state(0), WorkerState::Busy(0));
    assert_eq!(p.worker_state(1), WorkerState::Busy(1));
}

#[test]
fn busy_worker_finishes_its_job_before_it_stops() {
    let mut p = PoolCore::new(1).unwrap();
    p.execute("long").unwrap();
    ran(p.next_message(0));
    p.shutdown();
    assert_eq!(p.worker_state(0), WorkerState::Busy(0));
    assert_eq!(p.queued(), 1);
    p.finish_job(0);
    assert!(matches!(p.next_message(0), Action::Exit));
    assert_eq!(p.worker_state(0), WorkerState::Stopped);
    assert!(p.all_stopped());
}

#[test]
fn jobs_queued_before_shutdown_still_run() {
    let mut p = PoolCore::new(2).unwrap();
    p.execute("x").unwrap();
    p.execute("y").unwrap();
    p.shutdown();
    assert_eq!(p.queued(), 4);
    assert_eq!(ran(p.next_message(0)), (0, "x"));
    assert_eq!(ran(p.next_message(1)), (1, "y"));
    p.finish_job(1);
    assert!(matches!(p.next_message(1), Action::Exit));
    p.finish_job(0);
    assert!(matches!(p.next_message(0), Action::Exit));
    assert!(p.all_stopped());
}

#[test]
fn shutdown_twice_sends_one_stop_per_worker() {
    let mut p = PoolCore::<u32>::new(3).unwrap();
    p.shutdown();
    assert_eq!(p.queued(), 3);
    p.shutdown();
    assert_eq!(p.queued(), 3);
    assert!(p.is_closed());
}

#[test]
fn execute_after_shutdown_is_refused() {
    let mut p = PoolCore::new(2).unwrap();
    p.shutdown();
    assert_eq!(p.execute(7u32), Err(PoolError::ShuttingDown));
    assert_eq!(p.submitted_count(), 0);
    assert_eq!(p.queued(), 2);
}

#[test]
fn four_jobs_reach_four_workers_at_once() {
    let mut p = PoolCore::new(4).unwrap();
    for n in ["j0", "j1", "j2", "j3"] {
        p.execute(n).unwrap();
    }
    for id in 0..4 {
        assert_eq!(ran(p.next_message(id)), (id as u64, ["j0", "j1", "j2", "j3"][id]));
    }
    for id in 0..4 {
        assert_eq!(p.worker_state(id), WorkerState::Busy(id as u64));
    }
    assert_eq!(p.queued(), 0);
}

#[test]
fn second_job_goes_to_idle_worker_while_first_runs() {
    let mut p = PoolCore::new(2).unwrap();
    p.execute("slow").unwrap();
    assert_eq!(ran(p.next_message(0)), (0, "slow"));
    p.execute("quick").unwrap();
    assert_eq!(ran(p.next_message(1)), (1, "quick"));
    assert_eq!(p.worker_state(0), WorkerState::Busy(0));
}

#[test]
fn empty_pool_tears_down_at_once() {
    let mut p = PoolCore::<u32>::new(3).unwrap();
    p.shutdown();
    for id in 0..3 {
        assert!(matches!(p.next_message(id), Action::Exit));
    }
    assert!(p.all_stopped());
    assert_eq!(p.queued(), 0);
}

#[test]
fn idle_worker_waits_on_empty_queue() {
    let mut p = PoolCore::<u32>::new(2).unwrap();
    assert!(matches!(p.next_message(1), Action::Wait));
    assert_eq!(p.worker_state(1), WorkerState::Idle);
    assert!(!p.all_stopped());
}
