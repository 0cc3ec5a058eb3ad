use threadpool::pool::ThreadPool;
use threadpool::queue::ClaimOutcome;
use threadpool::worker::WorkerPhase;

#[test]
fn construction_yields_n_idle_workers() {
    for n in 1..6 {
        let p = ThreadPool::new(n);
        assert_eq!(p.worker_count(), n);
        for wid in 0..n {
            assert!(matches!(p.phase_of(wid), WorkerPhase::Idle));
            assert_eq!(p.completed_count_of(wid), 0);
        }
        assert!(p.is_accepting());
        assert_eq!(p.queued_count(), 0);
        assert_eq!(p.submitted_so_far(), 0);
    }
}

#[test]
fn build_of_positive_size_matches_new() {
    let r = ThreadPool::build(3);
    assert!(r.is_ok());
    let p = r.unwrap();
    assert_eq!(p.worker_count(), 3);
    assert!(p.is_accepting());
}

#[test]
fn build_of_size_zero_reports_creation_error() {
    let r = ThreadPool::build(0);
    assert!(r.is_err());
    match r {
        Err(e) => assert_eq!(e.message(), "n must be greater than 0"),
        Ok(_) => panic!("a pool of size zero must be refused"),
    }
}

#[test]
fn submission_assigns_increasing_tickets() {
    let mut p = ThreadPool::new(2);
    assert_eq!(p.execute(), 0);
    assert_eq!(p.execute(), 1);
    assert_eq!(p.execute(), 2);
    assert_eq!(p.submitted_so_far(), 3);
    assert_eq!(p.queued_count(), 3);
}

#[test]
fn each_job_is_claimed_exactly_once() {
    let k: u64 = 5;
    let mut p = ThreadPool::new(2);
    for _ in 0..k {
        p.execute();
    }
    let mut seen = vec![0u32; k as usize];
    let mut wid = 0;
    loop {
        match p.claim_for(wid) {
            ClaimOutcome::Claimed(t) => {
                seen[t as usize] += 1;
                p.finish_for(wid);
            }
            ClaimOutcome::MustWait => break,
            ClaimOutcome::Disconnected => break,
        }
        wid = (wid + 1) % 2;
    }
    for t in 0..k as usize {
        assert_eq!(seen[t], 1);
    }
    assert_eq!(p.completed_count_of(0) + p.completed_count_of(1), k as usize);
}

#[test]
fn claim_order_follows_submission_order() {
    let mut p = ThreadPool::new(3);
    for _ in 0..7 {
        p.execute();
    }
    let mut last: Option<u64> = None;
    let mut wid = 0;
    for _ in 0..7 {
        match p.claim_for(wid) {
            ClaimOutcome::Claimed(t) => {
                if let Some(prev) = last {
                    assert!(prev < t, "a later claim saw an earlier ticket");
                }
                last = Some(t);
                p.finish_for(wid);
            }
            _ => panic!("seven jobs were queued"),
        }
        wid = (wid + 1) % 3;
    }
}

#[test]
fn claims_proceed_while_another_worker_executes() {
    let mut p = ThreadPool::new(2);
    p.execute();
    p.execute();
    assert_eq!(p.claim_for(0), ClaimOutcome::Claimed(0));
    // Worker 0 is still executing its job; claiming is not blocked by it.
    assert_eq!(p.claim_for(1), ClaimOutcome::Claimed(1));
    // Completion order need not follow claim order.
    p.finish_for(1);
    p.finish_for(0);
    assert_eq!(p.completed_count_of(0), 1);
    assert_eq!(p.completed_count_of(1), 1);
}

#[test]
fn teardown_finishes_in_flight_jobs() {
    let mut p = ThreadPool::new(2);
    p.execute();
    p.execute();
    p.execute();
    assert_eq!(p.claim_for(0), ClaimOutcome::Claimed(0));
    // Worker 0 is mid-execution when teardown begins; teardown still
    // delivers and completes everything.
    p.teardown();
    assert_eq!(p.completed_count_of(0) + p.completed_count_of(1), 3);
}

#[test]
fn teardown_completes_every_submitted_job() {
    let k: usize = 9;
    let mut p = ThreadPool::new(4);
    for _ in 0..k {
        p.execute();
    }
    p.teardown();
    let mut total = 0;
    for wid in 0..4 {
        total += p.completed_count_of(wid);
    }
    assert_eq!(total, k);
    assert_eq!(p.queued_count(), 0);
    assert!(!p.is_accepting());
}

#[test]
fn no_worker_survives_teardown() {
    let mut p = ThreadPool::new(3);
    p.execute();
    p.execute();
    p.teardown();
    for wid in 0..3 {
        assert!(matches!(p.phase_of(wid), WorkerPhase::Terminated));
    }
}

#[test]
fn teardown_is_idempotent() {
    let mut p = ThreadPool::new(2);
    p.execute();
    p.teardown();
    let before = [p.completed_count_of(0), p.completed_count_of(1)];
    p.teardown();
    // A second teardown leaves each terminated worker's record untouched.
    assert_eq!(p.completed_count_of(0), before[0]);
    assert_eq!(p.completed_count_of(1), before[1]);
    assert_eq!(before[0] + before[1], 1);
    for wid in 0..2 {
        assert!(matches!(p.phase_of(wid), WorkerPhase::Terminated));
    }
}

#[test]
fn teardown_of_an_idle_pool_retires_all_workers() {
    let mut p = ThreadPool::new(5);
    p.teardown();
    for wid in 0..5 {
        assert!(matches!(p.phase_of(wid), WorkerPhase::Terminated));
        assert_eq!(p.completed_count_of(wid), 0);
    }
}

#[test]
fn stress_many_jobs_complete_exactly_once() {
    let n: usize = 4;
    let m: u64 = 10_000;
    let mut p = ThreadPool::new(n);
    let mut seen = vec![false; m as usize];
    let mut wid = 0;
    // Interleave submission and claiming, as concurrent callers would.
    for batch in 0..(m / 100) {
        for _ in 0..100 {
            p.execute();
        }
        // Let the workers claim roughly half of each batch before more
        // arrives.
        for _ in 0..50 {
            if let ClaimOutcome::Claimed(t) = p.claim_for(wid) {
                assert!(!seen[t as usize], "ticket delivered twice");
                seen[t as usize] = true;
                p.finish_for(wid);
            }
            wid = (wid + 1) % n;
        }
        let _ = batch;
    }
    p.teardown();
    let mut total = 0;
    for w in 0..n {
        total += p.completed_count_of(w);
    }
    assert_eq!(total, m as usize);
    assert_eq!(p.submitted_so_far(), m);
}
