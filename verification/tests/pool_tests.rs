use manga_pdf::pool::{JobState, PoolStep, WorkPool};

#[test]
fn pool_without_slots_does_not_exist() {
    assert!(WorkPool::new(5, 0).is_none());
    assert!(WorkPool::new(0, 1).is_some());
}

#[test]
fn pool_without_jobs_has_finished() {
    let mut pool = WorkPool::new(0, 10).unwrap();
    assert_eq!(pool.next_step(), PoolStep::Finished);
}

#[test]
fn pool_starts_jobs_in_order_up_to_capacity() {
    let mut pool = WorkPool::new(5, 2).unwrap();
    assert_eq!(pool.slots(), 2);
    assert_eq!(pool.job_count(), 5);
    assert_eq!(pool.next_step(), PoolStep::Start(0));
    assert_eq!(pool.next_step(), PoolStep::Start(1));
    assert_eq!(pool.in_flight(), 2);
    assert_eq!(pool.next_step(), PoolStep::Wait);
    assert_eq!(pool.in_flight(), 2);
    assert_eq!(pool.state_of(0), Some(JobState::Running));
    assert_eq!(pool.state_of(2), Some(JobState::Pending));
    assert_eq!(pool.state_of(5), None);
    assert!(pool.complete(1));
    assert_eq!(pool.state_of(1), Some(JobState::Done));
    assert_eq!(pool.in_flight(), 1);
    assert_eq!(pool.next_step(), PoolStep::Start(2));
    assert_eq!(pool.next_step(), PoolStep::Wait);
}

#[test]
fn completing_a_job_that_does_not_run_changes_nothing() {
    let mut pool = WorkPool::new(3, 2).unwrap();
    assert!(!pool.complete(0));
    assert_eq!(pool.next_step(), PoolStep::Start(0));
    assert!(pool.complete(0));
    assert!(!pool.complete(0));
    assert!(!pool.complete(7));
    assert_eq!(pool.in_flight(), 0);
    assert_eq!(pool.next_step(), PoolStep::Start(1));
}

#[test]
fn in_flight_never_exceeds_capacity() {
    let mut pool = WorkPool::new(37, 10).unwrap();
    let mut running: Vec<usize> = Vec::new();
    let mut peak = 0;
    let mut started = 0;
    loop {
        match pool.next_step() {
            PoolStep::Start(job) => {
                assert_eq!(job, started);
                started += 1;
                running.push(job);
            }
            PoolStep::Wait => {
                let job = running.remove(running.len() / 2);
                assert!(pool.complete(job));
            }
            PoolStep::Finished => break,
        }
        assert!(pool.in_flight() <= 10);
        assert_eq!(pool.in_flight(), running.len());
        peak = peak.max(pool.in_flight());
    }
    assert_eq!(started, 37);
    assert_eq!(peak, 10);
    assert!(running.is_empty());
}

#[test]
fn two_chapters_with_ten_slots_each_stay_within_twenty() {
    let mut first = WorkPool::new(30, 10).unwrap();
    let mut second = WorkPool::new(25, 10).unwrap();
    let mut peak = 0;
    let mut first_running: Vec<usize> = Vec::new();
    let mut second_running: Vec<usize> = Vec::new();
    let mut done = (false, false);
    while !(done.0 && done.1) {
        match first.next_step() {
            PoolStep::Start(job) => first_running.push(job),
            PoolStep::Wait => {
                assert!(first.complete(first_running.remove(0)));
            }
            PoolStep::Finished => done.0 = true,
        }
        match second.next_step() {
            PoolStep::Start(job) => second_running.push(job),
            PoolStep::Wait => {
                assert!(second.complete(second_running.pop().unwrap()));
            }
            PoolStep::Finished => done.1 = true,
        }
        let total = first.in_flight() + second.in_flight();
        assert!(total <= 20);
        peak = peak.max(total);
    }
    assert_eq!(peak, 20);
}
