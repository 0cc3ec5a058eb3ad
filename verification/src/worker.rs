//! A worker: a persistent claimer that repeatedly takes jobs from the shared
//! queue and runs each claimed job to completion.
//!
//! The state machine is Idle -> Executing -> Idle, with the terminal
//! transition Idle -> Terminated taken when a claim attempt observes the
//! queue closed and empty. A claimed job is never abandoned: Executing is
//! only left by finishing the job.

use vstd::prelude::*;
use vstd::multiset::Multiset;
use crate::queue::ClaimOutcome;

verus! {

/// The phase of a worker's claim/execute loop.
#[derive(Clone, Copy, Debug, PartialEq, Eq, Structural)]
pub enum WorkerPhase {
    /// Waiting to claim the next job.
    Idle,
    /// Running the claimed job (by ticket) to completion, uninterruptible.
    Executing(u64),
    /// The worker observed the queue closed and empty and has exited its loop.
    Terminated,
}

/// What a worker's loop does next, given the outcome of a claim attempt.
#[derive(Clone, Copy, Debug, PartialEq, Eq, Structural)]
pub enum WorkerAction {
    /// Run the claimed job, then claim again.
    Run(u64),
    /// Block until a job is submitted or the queue closes, then claim again.
    Wait,
    /// Leave the loop: the queue is closed and drained.
    Exit,
}

/// The decision at the top of the worker loop: each claimed job is run,
/// an empty open queue is waited on, and end-of-stream ends the loop.
pub fn next_action(outcome: ClaimOutcome) -> (a: WorkerAction)
    ensures
        forall|t: u64| outcome == ClaimOutcome::Claimed(t) ==> a == WorkerAction::Run(t),
        outcome == ClaimOutcome::MustWait ==> a == WorkerAction::Wait,
        outcome == ClaimOutcome::Disconnected ==> a == WorkerAction::Exit,
{
    match outcome {
        ClaimOutcome::Claimed(t) => WorkerAction::Run(t),
        ClaimOutcome::MustWait => WorkerAction::Wait,
        ClaimOutcome::Disconnected => WorkerAction::Exit,
    }
}

/// One worker of the pool, identified by its index, with the record of the
/// jobs it has completed, in the order it ran them.
pub struct Worker {
    id: usize,
    phase: WorkerPhase,
    done: Vec<u64>,
}

impl Worker {
    /// The worker's index within the pool.
    pub closed spec fn id(self) -> usize {
        self.id
    }

    /// The worker's current phase.
    pub closed spec fn phase(self) -> WorkerPhase {
        self.phase
    }

    /// The tickets of the jobs this worker has run to completion, in order.
    pub closed spec fn done(self) -> Seq<u64> {
        self.done@
    }

    /// The tickets this worker holds: completed jobs, plus the one being
    /// executed, if any.
    pub closed spec fn held(self) -> Multiset<u64> {
        match self.phase {
            WorkerPhase::Executing(t) => self.done@.to_multiset().insert(t),
            _ => self.done@.to_multiset(),
        }
    }

    /// Creates an idle worker with the given index and nothing yet run.
    pub fn new(id: usize) -> (w: Worker)
        ensures
            w.id() == id,
            w.phase() == WorkerPhase::Idle,
            w.done() == Seq::<u64>::empty(),
            w.held() == Multiset::<u64>::empty(),
    {
        let w = Worker { id, phase: WorkerPhase::Idle, done: Vec::new() };
        proof {
            broadcast use vstd::seq_lib::group_to_multiset_ensures;

            assert(w.held() =~= Multiset::<u64>::empty());
        }
        w
    }

    /// Reports the worker's current phase.
    pub fn current_phase(&self) -> (ph: WorkerPhase)
        ensures
            ph == self.phase(),
    {
        self.phase
    }

    /// How many jobs this worker has run to completion.
    pub fn completed_count(&self) -> (n: usize)
        ensures
            n == self.done().len(),
    {
        self.done.len()
    }

    /// The worker claims a job and starts executing it.
    pub fn begin(&mut self, ticket: u64)
        requires
            old(self).phase() == WorkerPhase::Idle,
        ensures
            final(self).phase() == WorkerPhase::Executing(ticket),
            final(self).id() == old(self).id(),
            final(self).done() == old(self).done(),
            final(self).held() == old(self).held().insert(ticket),
    {
        self.phase = WorkerPhase::Executing(ticket);
    }

    /// The worker runs its claimed job to completion and becomes idle again.
    pub fn finish(&mut self)
        requires
            old(self).phase() is Executing,
        ensures
            final(self).phase() == WorkerPhase::Idle,
            final(self).id() == old(self).id(),
            final(self).done() == old(self).done().push(old(self).phase()->Executing_0),
            final(self).held() == old(self).held(),
    {
        let ticket = match self.phase {
            WorkerPhase::Executing(t) => t,
            _ => 0,
        };
        self.done.push(ticket);
        self.phase = WorkerPhase::Idle;
        proof {
            broadcast use vstd::seq_lib::group_to_multiset_ensures;

            assert(self.held() =~= old(self).held());
        }
    }

    /// The worker observed end-of-stream and leaves its loop for good.
    pub fn retire(&mut self)
        requires
            old(self).phase() == WorkerPhase::Idle,
        ensures
            final(self).phase() == WorkerPhase::Terminated,
            final(self).id() == old(self).id(),
            final(self).done() == old(self).done(),
            final(self).held() == old(self).held(),
    {
        self.phase = WorkerPhase::Terminated;
    }
}

/// A worker that is not mid-execution holds exactly the jobs it has
/// completed.
pub proof fn lemma_settled_worker_held(w: Worker)
    requires
        !(w.phase() is Executing),
    ensures
        w.held() == w.done().to_multiset(),
{
}

} // verus!
