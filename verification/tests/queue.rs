use threadpool::queue::ClaimOutcome;
use threadpool::queue::JobQueue;
use threadpool::worker::next_action;
use threadpool::worker::WorkerAction;

#[test]
fn a_new_queue_is_open_and_empty() {
    let q = JobQueue::new();
    assert!(q.accepting());
    assert_eq!(q.pending_count(), 0);
}

#[test]
fn claims_come_out_in_submission_order() {
    let mut q = JobQueue::new();
    q.push(10);
    q.push(11);
    q.push(12);
    assert_eq!(q.claim(), ClaimOutcome::Claimed(10));
    assert_eq!(q.claim(), ClaimOutcome::Claimed(11));
    assert_eq!(q.claim(), ClaimOutcome::Claimed(12));
}

#[test]
fn an_empty_open_queue_makes_claimers_wait() {
    let mut q = JobQueue::new();
    assert_eq!(q.claim(), ClaimOutcome::MustWait);
    q.push(7);
    assert_eq!(q.claim(), ClaimOutcome::Claimed(7));
    assert_eq!(q.claim(), ClaimOutcome::MustWait);
}

#[test]
fn a_closed_queue_drains_then_reports_end_of_stream() {
    let mut q = JobQueue::new();
    q.push(1);
    q.push(2);
    q.close();
    assert!(!q.accepting());
    assert_eq!(q.pending_count(), 2);
    assert_eq!(q.claim(), ClaimOutcome::Claimed(1));
    assert_eq!(q.claim(), ClaimOutcome::Claimed(2));
    assert_eq!(q.claim(), ClaimOutcome::Disconnected);
    assert_eq!(q.claim(), ClaimOutcome::Disconnected);
}

#[test]
fn closing_twice_changes_nothing() {
    let mut q = JobQueue::new();
    q.push(3);
    q.close();
    q.close();
    assert_eq!(q.pending_count(), 1);
    assert_eq!(q.claim(), ClaimOutcome::Claimed(3));
    assert_eq!(q.claim(), ClaimOutcome::Disconnected);
}

#[test]
fn the_worker_loop_runs_waits_or_exits_by_claim_outcome() {
    assert_eq!(next_action(ClaimOutcome::Claimed(9)), WorkerAction::Run(9));
    assert_eq!(next_action(ClaimOutcome::MustWait), WorkerAction::Wait);
    assert_eq!(next_action(ClaimOutcome::Disconnected), WorkerAction::Exit);
}
