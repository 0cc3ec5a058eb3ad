//! The pool: owner of the workers and of the submission side of the queue.
//!
//! A pool of size `n` owns workers `0..n`, all sharing one FIFO job queue.
//! Each submission is assigned the next ticket (a monotonic sequence number);
//! the pool's invariant ties together what was submitted, what is still
//! queued, and what the workers hold, and from it follow the delivery
//! guarantees: every ticket is claimed at most once, claim order is
//! submission order, and teardown retires every worker only after the queue
//! is drained.

use vstd::prelude::*;
use vstd::multiset::Multiset;
use crate::queue::ClaimOutcome;
use crate::queue::JobQueue;
use crate::worker::Worker;
use crate::worker::WorkerPhase;

verus! {

/// The error returned by the fallible constructor when the requested pool
/// size is not positive.
#[derive(Debug)]
pub struct PoolCreationError(String);

impl PoolCreationError {
    /// The error text.
    pub closed spec fn text(self) -> Seq<char> {
        self.0@
    }

    /// Why construction failed, as text.
    pub fn message(&self) -> (m: String)
        ensures
            m@ == self.text(),
    {
        self.0.clone()
    }
}

/// The tickets `0, 1, .., n - 1`, in submission order.
pub open spec fn tickets_up_to(n: u64) -> Seq<u64> {
    Seq::new(n as nat, |i: int| i as u64)
}

/// Everything a set of workers holds: all completed jobs plus every job
/// currently being executed, over all workers together.
pub open spec fn held_by_all(ws: Seq<Worker>) -> Multiset<u64>
    decreases ws.len(),
{
    if ws.len() == 0 {
        Multiset::<u64>::empty()
    } else {
        held_by_all(ws.drop_last()).add(ws.last().held())
    }
}

/// Appending a worker adds exactly what that worker holds.
pub proof fn lemma_held_by_all_push(ws: Seq<Worker>, w: Worker)
    ensures
        held_by_all(ws.push(w)) == held_by_all(ws).add(w.held()),
{
    assert(ws.push(w).drop_last() =~= ws);
    assert(ws.push(w).last() == w);
}

/// Replacing one worker exchanges only what that worker holds; stated
/// without multiset subtraction, as an equality of the two sides each
/// extended by the other's worker.
pub proof fn lemma_held_by_all_update(ws: Seq<Worker>, i: int, w: Worker)
    requires
        0 <= i < ws.len(),
    ensures
        held_by_all(ws.update(i, w)).add(ws[i].held()) == held_by_all(ws).add(w.held()),
    decreases ws.len(),
{
    let updated = ws.update(i, w);
    if i == ws.len() - 1 {
        assert(updated.drop_last() =~= ws.drop_last());
        assert(updated.last() == w);
        assert(held_by_all(updated).add(ws[i].held()) =~= held_by_all(ws).add(w.held()));
    } else {
        let sub = ws.drop_last();
        assert(updated.drop_last() =~= sub.update(i, w));
        assert(updated.last() == ws.last());
        lemma_held_by_all_update(sub, i, w);
        assert(sub[i] == ws[i]);
        assert(held_by_all(updated.drop_last()).add(ws[i].held()) == held_by_all(sub).add(
            w.held(),
        ));
        assert forall|x: u64|
            held_by_all(updated).add(ws[i].held()).count(x) == held_by_all(ws).add(
                w.held(),
            ).count(x) by {
            assert(held_by_all(updated) == held_by_all(updated.drop_last()).add(
                ws.last().held(),
            ));
            assert(held_by_all(ws) == held_by_all(sub).add(ws.last().held()));
            assert(held_by_all(updated.drop_last()).add(ws[i].held()).count(x) == held_by_all(
                sub,
            ).add(w.held()).count(x));
        }
        assert(held_by_all(updated).add(ws[i].held()) =~= held_by_all(ws).add(w.held()));
    }
}

/// Everything a set of workers has run to completion, over all workers
/// together.
pub open spec fn completed_by_all(ws: Seq<Worker>) -> Multiset<u64>
    decreases ws.len(),
{
    if ws.len() == 0 {
        Multiset::<u64>::empty()
    } else {
        completed_by_all(ws.drop_last()).add(ws.last().done().to_multiset())
    }
}

/// In a pool where no worker is mid-execution, what the workers hold is
/// exactly what they have completed.
pub proof fn lemma_settled_pool_completed(ws: Seq<Worker>)
    requires
        forall|j: int| 0 <= j < ws.len() ==> !((#[trigger] ws[j]).phase() is Executing),
    ensures
        completed_by_all(ws) == held_by_all(ws),
    decreases ws.len(),
{
    if ws.len() > 0 {
        assert(forall|j: int|
            0 <= j < ws.drop_last().len() ==> ws.drop_last()[j] == ws[j]);
        lemma_settled_pool_completed(ws.drop_last());
        crate::worker::lemma_settled_worker_held(ws.last());
    }
}

/// A fixed-size worker pool: the workers, the shared job queue, the ticket
/// counter for submissions, and the record of claims in claim order.
pub struct ThreadPool {
    workers: Vec<Worker>,
    queue: JobQueue,
    next_ticket: u64,
    claimed: Vec<u64>,
}

impl ThreadPool {
    /// The pool's workers, by index.
    pub closed spec fn workers(self) -> Seq<Worker> {
        self.workers@
    }

    /// The shared job queue.
    pub closed spec fn queue(self) -> JobQueue {
        self.queue
    }

    /// How many jobs have been submitted so far.
    pub closed spec fn submitted_count(self) -> u64 {
        self.next_ticket
    }

    /// Every ticket submitted so far, in submission order.
    pub open spec fn submitted(self) -> Seq<u64> {
        tickets_up_to(self.submitted_count())
    }

    /// Every ticket claimed by some worker so far, in claim order.
    pub closed spec fn claimed(self) -> Seq<u64> {
        self.claimed@
    }

    /// The pool's invariant.
    ///
    /// Worker `i` carries id `i`; what was claimed followed by what is still
    /// queued is exactly what was submitted, in order; the workers together
    /// hold exactly the claimed tickets (no duplication, no loss); and a
    /// worker terminates only once the queue is closed and drained.
    pub open spec fn wf(self) -> bool {
        &&& self.workers().len() >= 1
        &&& forall|i: int|
            0 <= i < self.workers().len() ==> (#[trigger] self.workers()[i]).id() == i
        &&& self.claimed() + self.queue().pending() == self.submitted()
        &&& held_by_all(self.workers()) == self.claimed().to_multiset()
        &&& forall|i: int|
            0 <= i < self.workers().len() && (#[trigger] self.workers()[i]).phase()
                is Terminated ==> !self.queue().is_open() && self.queue().pending().len() == 0
    }

    /// A pool as construction leaves it: `n` idle workers, an open empty
    /// queue, nothing submitted.
    pub open spec fn fresh(self, n: usize) -> bool {
        &&& self.wf()
        &&& self.workers().len() == n
        &&& forall|i: int|
            0 <= i < n ==> (#[trigger] self.workers()[i]).phase() == WorkerPhase::Idle
        &&& forall|i: int| 0 <= i < n ==> (#[trigger] self.workers()[i]).done().len() == 0
        &&& self.queue().is_open()
        &&& self.queue().pending().len() == 0
        &&& self.submitted_count() == 0
        &&& self.claimed().len() == 0
    }

    /// Creates a pool of `n` workers, all idle, sharing one open, empty
    /// queue. `n` must be positive; the fallible form of this rule is
    /// `build`.
    pub fn new(n: usize) -> (p: ThreadPool)
        requires
            n >= 1,
        ensures
            p.fresh(n),
    {
        let queue = JobQueue::new();
        let mut workers: Vec<Worker> = Vec::new();
        let mut id: usize = 0;
        while id < n
            invariant
                id <= n,
                workers@.len() == id,
                forall|i: int| 0 <= i < id ==> (#[trigger] workers@[i]).id() == i,
                forall|i: int|
                    0 <= i < id ==> (#[trigger] workers@[i]).phase() == WorkerPhase::Idle,
                forall|i: int| 0 <= i < id ==> (#[trigger] workers@[i]).done().len() == 0,
                held_by_all(workers@) == Multiset::<u64>::empty(),
            decreases n - id,
        {
            let w = Worker::new(id);
            proof {
                lemma_held_by_all_push(workers@, w);
                assert(held_by_all(workers@).add(w.held()) =~= Multiset::<u64>::empty());
            }
            workers.push(w);
            id = id + 1;
        }
        let p = ThreadPool { workers, queue, next_ticket: 0, claimed: Vec::new() };
        proof {
            broadcast use vstd::seq_lib::group_to_multiset_ensures;
            broadcast use vstd::multiset::lemma_multiset_empty_len;

            assert(p.claimed() + p.queue().pending() =~= p.submitted());
            assert(p.claimed().to_multiset().len() == 0);
            assert(p.claimed().to_multiset() =~= Multiset::<u64>::empty());
        }
        p
    }

    /// Submits one job: assigns the next ticket and enqueues it at the back
    /// of the open queue. Fire-and-forget: the call returns once the job is
    /// queued; it never waits for a worker. Submitting to a pool whose queue
    /// has been closed is caller misuse and is excluded by precondition.
    pub fn execute(&mut self) -> (t: u64)
        requires
            old(self).wf(),
            old(self).queue().is_open(),
            old(self).submitted_count() < u64::MAX,
        ensures
            final(self).wf(),
            t == old(self).submitted_count(),
            final(self).submitted_count() == old(self).submitted_count() + 1,
            final(self).queue().is_open(),
            final(self).queue().pending() == old(self).queue().pending().push(t),
            final(self).claimed() == old(self).claimed(),
            final(self).workers() == old(self).workers(),
    {
        let t = self.next_ticket;
        self.queue.push(t);
        self.next_ticket = self.next_ticket + 1;
        proof {
            assert(self.submitted() =~= old(self).submitted().push(t));
            assert(self.claimed() + self.queue().pending() =~= self.submitted());
        }
        t
    }

    /// One claim attempt on behalf of idle worker `wid`, exactly the
    /// decision its loop takes: a queued job moves from the queue's front to
    /// the worker, which starts executing it; an empty open queue leaves
    /// everything unchanged (the worker must wait); a closed, drained queue
    /// retires the worker.
    pub fn claim_for(&mut self, wid: usize) -> (r: ClaimOutcome)
        requires
            old(self).wf(),
            wid < old(self).workers().len(),
            old(self).workers()[wid as int].phase() == WorkerPhase::Idle,
        ensures
            final(self).wf(),
            final(self).workers().len() == old(self).workers().len(),
            final(self).submitted_count() == old(self).submitted_count(),
            final(self).queue().is_open() == old(self).queue().is_open(),
            forall|j: int|
                0 <= j < old(self).workers().len() && j != wid ==> final(self).workers()[j]
                    == old(self).workers()[j],
            final(self).workers()[wid as int].done() == old(self).workers()[wid as int].done(),
            old(self).queue().pending().len() > 0 ==> r == ClaimOutcome::Claimed(
                old(self).queue().pending()[0],
            ),
            old(self).queue().pending().len() > 0 ==> final(self).workers()[wid as int].phase()
                == WorkerPhase::Executing(old(self).queue().pending()[0]),
            old(self).queue().pending().len() > 0 ==> final(self).claimed() == old(
                self,
            ).claimed().push(old(self).queue().pending()[0]),
            old(self).queue().pending().len() > 0 ==> final(self).queue().pending() == old(
                self,
            ).queue().pending().drop_first(),
            old(self).queue().pending().len() == 0 && old(self).queue().is_open() ==> r
                == ClaimOutcome::MustWait && *final(self) == *old(self),
            old(self).queue().pending().len() == 0 && !old(self).queue().is_open() ==> r
                == ClaimOutcome::Disconnected,
            old(self).queue().pending().len() == 0 && !old(self).queue().is_open()
                ==> final(self).workers()[wid as int].phase() == WorkerPhase::Terminated,
            old(self).queue().pending().len() == 0 ==> final(self).claimed() == old(self).claimed()
                && final(self).queue().pending() == old(self).queue().pending(),
    {
        let r = self.queue.claim();
        match r {
            ClaimOutcome::Claimed(t) => {
                let ghost ws0 = self.workers@;
                self.workers[wid].begin(t);
                self.claimed.push(t);
                proof {
                    broadcast use vstd::seq_lib::group_to_multiset_ensures;

                    let neww = self.workers@[wid as int];
                    assert(self.workers@ =~= ws0.update(wid as int, neww));
                    lemma_held_by_all_update(ws0, wid as int, neww);
                    assert forall|x: u64|
                        held_by_all(self.workers@).count(x) == self.claimed@.to_multiset().count(
                            x,
                        ) by {
                        assert(held_by_all(self.workers@).add(ws0[wid as int].held()).count(x)
                            == held_by_all(ws0).add(neww.held()).count(x));
                        assert(neww.held().count(x) == ws0[wid as int].held().insert(t).count(x));
                        assert(self.claimed@.to_multiset() =~= old(
                            self,
                        ).claimed@.to_multiset().insert(t));
                    }
                    assert(held_by_all(self.workers@) =~= self.claimed@.to_multiset());
                    assert(self.claimed() + self.queue().pending() =~= self.submitted());
                }
            },
            ClaimOutcome::MustWait => {
            },
            ClaimOutcome::Disconnected => {
                let ghost ws0 = self.workers@;
                self.workers[wid].retire();
                proof {
                    let neww = self.workers@[wid as int];
                    assert(self.workers@ =~= ws0.update(wid as int, neww));
                    lemma_held_by_all_update(ws0, wid as int, neww);
                    assert forall|x: u64|
                        held_by_all(self.workers@).count(x) == self.claimed@.to_multiset().count(
                            x,
                        ) by {
                        assert(held_by_all(self.workers@).add(ws0[wid as int].held()).count(x)
                            == held_by_all(ws0).add(neww.held()).count(x));
                    }
                    assert(held_by_all(self.workers@) =~= self.claimed@.to_multiset());
                }
            },
        }
        r
    }

    /// Worker `wid` runs its claimed job to completion and becomes idle
    /// again. The completed ticket moves onto the worker's record; nothing
    /// else changes.
    pub fn finish_for(&mut self, wid: usize)
        requires
            old(self).wf(),
            wid < old(self).workers().len(),
            old(self).workers()[wid as int].phase() is Executing,
        ensures
            final(self).wf(),
            final(self).workers().len() == old(self).workers().len(),
            final(self).submitted_count() == old(self).submitted_count(),
            final(self).queue() == old(self).queue(),
            final(self).claimed() == old(self).claimed(),
            forall|j: int|
                0 <= j < old(self).workers().len() && j != wid ==> final(self).workers()[j]
                    == old(self).workers()[j],
            final(self).workers()[wid as int].phase() == WorkerPhase::Idle,
            final(self).workers()[wid as int].done() == old(self).workers()[wid as int].done().push(
                old(self).workers()[wid as int].phase()->Executing_0,
            ),
    {
        let ghost ws0 = self.workers@;
        self.workers[wid].finish();
        proof {
            let neww = self.workers@[wid as int];
            assert(self.workers@ =~= ws0.update(wid as int, neww));
            lemma_held_by_all_update(ws0, wid as int, neww);
            assert forall|x: u64|
                held_by_all(self.workers@).count(x) == self.claimed@.to_multiset().count(x) by {
                assert(held_by_all(self.workers@).add(ws0[wid as int].held()).count(x)
                    == held_by_all(ws0).add(neww.held()).count(x));
            }
            assert(held_by_all(self.workers@) =~= self.claimed@.to_multiset());
        }
    }

    /// Phase one of teardown: revokes the submission side, closing the
    /// queue. Already queued jobs stay deliverable. Idempotent: closing a
    /// closed queue changes nothing.
    pub fn close(&mut self)
        requires
            old(self).wf(),
        ensures
            final(self).wf(),
            !final(self).queue().is_open(),
            final(self).queue().pending() == old(self).queue().pending(),
            final(self).workers() == old(self).workers(),
            final(self).claimed() == old(self).claimed(),
            final(self).submitted_count() == old(self).submitted_count(),
    {
        self.queue.close();
    }

    /// The number of workers the pool owns, terminated ones included.
    pub fn worker_count(&self) -> (n: usize)
        ensures
            n == self.workers().len(),
    {
        self.workers.len()
    }

    /// Whether the submission side of the queue is still open.
    pub fn is_accepting(&self) -> (b: bool)
        ensures
            b == self.queue().is_open(),
    {
        self.queue.accepting()
    }

    /// How many submitted jobs are still queued, not yet claimed.
    pub fn queued_count(&self) -> (n: usize)
        ensures
            n == self.queue().pending().len(),
    {
        self.queue.pending_count()
    }

    /// How many jobs have been submitted over the pool's lifetime.
    pub fn submitted_so_far(&self) -> (n: u64)
        ensures
            n == self.submitted_count(),
    {
        self.next_ticket
    }

    /// How many jobs worker `wid` has run to completion.
    pub fn completed_count_of(&self, wid: usize) -> (n: usize)
        requires
            wid < self.workers().len(),
        ensures
            n == self.workers()[wid as int].done().len(),
    {
        self.workers[wid].completed_count()
    }

    /// Reports the phase of worker `wid`.
    pub fn phase_of(&self, wid: usize) -> (ph: WorkerPhase)
        requires
            wid < self.workers().len(),
        ensures
            ph == self.workers()[wid as int].phase(),
    {
        self.workers[wid].current_phase()
    }

    /// Teardown, as the pool performs it at end of use. Phase one closes the
    /// queue; phase two settles the workers in ascending id order: each
    /// finishes the job it is executing, if any, then drains the queue until
    /// it observes it closed and empty and retires. The call returns only
    /// once every worker has terminated, so every submitted job — including
    /// ones still queued when teardown began — has completed by then.
    /// Idempotent: tearing down a pool whose workers have all terminated
    /// changes nothing.
    pub fn teardown(&mut self)
        requires
            old(self).wf(),
        ensures
            final(self).wf(),
            final(self).workers().len() == old(self).workers().len(),
            final(self).submitted_count() == old(self).submitted_count(),
            !final(self).queue().is_open(),
            final(self).queue().pending().len() == 0,
            forall|j: int|
                0 <= j < final(self).workers().len() ==> (#[trigger] final(self).workers()[
                    j
                ]).phase() is Terminated,
            final(self).claimed() == final(self).submitted(),
            completed_by_all(final(self).workers()) == final(self).submitted().to_multiset(),
            forall|j: int|
                0 <= j < old(self).workers().len() && (#[trigger] old(self).workers()[j]).phase()
                    is Terminated ==> final(self).workers()[j] == old(self).workers()[j],
    {
        let ghost ws0 = old(self).workers();
        self.close();
        let ghost sub0 = self.submitted_count();
        let n: usize = self.workers.len();
        let mut wid: usize = 0;
        while wid < n
            invariant
                self.wf(),
                !self.queue().is_open(),
                self.workers().len() == n,
                self.submitted_count() == sub0,
                wid <= n,
                forall|j: int|
                    0 <= j < wid ==> (#[trigger] self.workers()[j]).phase() is Terminated,
                forall|j: int|
                    0 <= j < n && (#[trigger] ws0[j]).phase() is Terminated ==> self.workers()[j]
                        == ws0[j],
            decreases n - wid,
        {
            loop
                invariant_except_break
                    self.wf(),
                    !self.queue().is_open(),
                    self.workers().len() == n,
                    self.submitted_count() == sub0,
                    wid < n,
                    forall|j: int|
                        0 <= j < wid ==> (#[trigger] self.workers()[j]).phase() is Terminated,
                    forall|j: int|
                        0 <= j < n && (#[trigger] ws0[j]).phase() is Terminated
                            ==> self.workers()[j] == ws0[j],
                ensures
                    self.wf(),
                    !self.queue().is_open(),
                    self.workers().len() == n,
                    self.submitted_count() == sub0,
                    wid < n,
                    forall|j: int|
                        0 <= j < wid ==> (#[trigger] self.workers()[j]).phase() is Terminated,
                    forall|j: int|
                        0 <= j < n && (#[trigger] ws0[j]).phase() is Terminated
                            ==> self.workers()[j] == ws0[j],
                    self.workers()[wid as int].phase() is Terminated,
                decreases 2 * self.queue().pending().len() + (
                if self.workers()[wid as int].phase() is Executing {
                    1int
                } else {
                    0int
                }) + (
                if self.workers()[wid as int].phase() is Terminated {
                    0int
                } else {
                    1int
                }),
            {
                let ph = self.phase_of(wid);
                match ph {
                    WorkerPhase::Terminated => {
                        break;
                    },
                    WorkerPhase::Executing(_) => {
                        self.finish_for(wid);
                    },
                    WorkerPhase::Idle => {
                        let r = self.claim_for(wid);
                        match r {
                            ClaimOutcome::MustWait => {
                                // A closed queue never asks a claimer to
                                // wait.
                                proof {
                                    assert(false);
                                }
                            },
                            _ => {
                            },
                        }
                    },
                }
            }
            wid = wid + 1;
        }
        proof {
            assert(self.claimed() =~= self.submitted());
            lemma_terminated_pool_drained(*self);
        }
    }

    /// Creates a pool of `n` workers, or reports the one construction error:
    /// a requested size of zero. The validation rule is the same as `new`'s.
    pub fn build(n: usize) -> (r: Result<ThreadPool, PoolCreationError>)
        ensures
            r is Ok <==> n >= 1,
            r matches Ok(p) ==> p.fresh(n),
            r matches Err(e) ==> e.text() == "n must be greater than 0"@,
    {
        if n > 0 {
            Ok(Self::new(n))
        } else {
            Err(PoolCreationError(String::from_str("n must be greater than 0")))
        }
    }
}

/// Each ticket below `n` occurs exactly once among the first `n` tickets,
/// and no other ticket occurs at all.
proof fn lemma_tickets_count(n: u64, t: u64)
    ensures
        tickets_up_to(n).to_multiset().count(t) == if t < n {
            1nat
        } else {
            0nat
        },
    decreases n,
{
    broadcast use vstd::seq_lib::group_to_multiset_ensures;

    if n == 0 {
        assert(tickets_up_to(0) =~= Seq::<u64>::empty());
        assert(!tickets_up_to(0).contains(t));
    } else {
        lemma_tickets_count((n - 1) as u64, t);
        assert(tickets_up_to(n) =~= tickets_up_to((n - 1) as u64).push((n - 1) as u64));
    }
}

/// Submission order is preserved as claim order: the `i`th ticket claimed
/// by any worker is the `i`th ticket submitted, so of two jobs the one
/// submitted strictly earlier is claimed strictly earlier — the claim
/// record is strictly increasing.
pub proof fn lemma_fifo_claim_order(p: ThreadPool)
    requires
        p.wf(),
    ensures
        forall|i: int| 0 <= i < p.claimed().len() ==> p.claimed()[i] == i as u64,
        forall|i: int, j: int|
            0 <= i < j < p.claimed().len() ==> p.claimed()[i] < p.claimed()[j],
{
    assert forall|i: int| 0 <= i < p.claimed().len() implies p.claimed()[i] == i as u64 by {
        assert(p.claimed()[i] == (p.claimed() + p.queue().pending())[i]);
        assert(p.submitted().len() == p.claimed().len() + p.queue().pending().len());
        assert(p.submitted()[i] == i as u64);
    }
    assert forall|i: int, j: int|
        0 <= i < j < p.claimed().len() implies p.claimed()[i] < p.claimed()[j] by {
        assert(p.claimed()[i] == i as u64);
        assert(p.claimed()[j] == j as u64);
        assert(j < p.submitted().len());
        assert(p.submitted().len() == p.submitted_count() as nat);
    }
}

/// At-most-once delivery, at every reachable state: across all workers
/// together, no ticket is held — completed or currently executing — more
/// than once. No job is ever duplicated.
pub proof fn lemma_no_duplicate_delivery(p: ThreadPool)
    requires
        p.wf(),
    ensures
        forall|t: u64| held_by_all(p.workers()).count(t) <= 1,
{
    broadcast use vstd::seq_lib::group_to_multiset_ensures;

    lemma_fifo_claim_order(p);
    assert(p.claimed().no_duplicates());
    p.claimed().lemma_multiset_has_no_duplicates();
    assert forall|t: u64| held_by_all(p.workers()).count(t) <= 1 by {
        if p.claimed().to_multiset().count(t) > 0 {
            assert(p.claimed().to_multiset().contains(t));
        }
    }
}

/// Graceful shutdown loses nothing and duplicates nothing: once every
/// worker has terminated, the claim record equals the submission record,
/// and the workers together hold every submitted ticket exactly once and
/// nothing else — each submitted job was executed exactly once, on exactly
/// one worker.
pub proof fn lemma_terminated_pool_drained(p: ThreadPool)
    requires
        p.wf(),
        forall|j: int|
            0 <= j < p.workers().len() ==> (#[trigger] p.workers()[j]).phase() is Terminated,
    ensures
        p.claimed() == p.submitted(),
        held_by_all(p.workers()) == p.submitted().to_multiset(),
        completed_by_all(p.workers()) == p.submitted().to_multiset(),
        forall|t: u64| t < p.submitted_count() ==> completed_by_all(p.workers()).count(t) == 1,
        forall|t: u64| t >= p.submitted_count() ==> completed_by_all(p.workers()).count(t) == 0,
{
    assert(p.workers()[0].phase() is Terminated);
    assert(p.queue().pending().len() == 0);
    assert(p.claimed() =~= p.submitted());
    lemma_settled_pool_completed(p.workers());
    assert forall|t: u64|
        completed_by_all(p.workers()).count(t) == if t < p.submitted_count() {
            1nat
        } else {
            0nat
        } by {
        lemma_tickets_count(p.submitted_count(), t);
    }
}

} // verus!
