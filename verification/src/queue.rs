//! The job queue: an ordered, multi-producer/multi-consumer hand-off channel.
//!
//! Jobs are identified by the ticket assigned at submission. The queue is
//! FIFO with respect to submission order, and has two states: open (accepts
//! submissions; claimers on an empty queue must wait) and closed (no further
//! submissions; remaining jobs are drained, then claimers observe
//! end-of-stream).

use vstd::prelude::*;

verus! {

/// The result of one claim attempt on the queue.
#[derive(Clone, Copy, Debug, PartialEq, Eq, Structural)]
pub enum ClaimOutcome {
    /// The front job was removed from the queue and handed to the claimer.
    Claimed(u64),
    /// The queue is empty but still open: the claimer must wait for a
    /// submission before anything can be handed out.
    MustWait,
    /// The queue is closed and empty: end of stream; the claimer retires.
    Disconnected,
}

/// An ordered hand-off channel between submitters and workers.
pub struct JobQueue {
    open: bool,
    jobs: Vec<u64>,
}

impl JobQueue {
    /// The tickets still queued, in submission order, front first.
    pub closed spec fn pending(self) -> Seq<u64> {
        self.jobs@
    }

    /// Whether the queue still accepts submissions.
    pub closed spec fn is_open(self) -> bool {
        self.open
    }

    /// Creates an open, empty queue.
    pub fn new() -> (q: JobQueue)
        ensures
            q.is_open(),
            q.pending() == Seq::<u64>::empty(),
    {
        JobQueue { open: true, jobs: Vec::new() }
    }

    /// How many jobs are queued, awaiting a claim.
    pub fn pending_count(&self) -> (n: usize)
        ensures
            n == self.pending().len(),
    {
        self.jobs.len()
    }

    /// Whether the queue still accepts submissions.
    pub fn accepting(&self) -> (b: bool)
        ensures
            b == self.is_open(),
    {
        self.open
    }

    /// Appends a submitted job at the back of the queue.
    pub fn push(&mut self, ticket: u64)
        requires
            old(self).is_open(),
        ensures
            final(self).is_open(),
            final(self).pending() == old(self).pending().push(ticket),
    {
        self.jobs.push(ticket);
    }

    /// Closes the queue: no further submissions; already queued jobs stay
    /// deliverable. Idempotent.
    pub fn close(&mut self)
        ensures
            !final(self).is_open(),
            final(self).pending() == old(self).pending(),
    {
        self.open = false;
    }

    /// One mutually exclusive claim attempt: removes and returns the front
    /// job if any is queued; otherwise reports whether the claimer must wait
    /// (still open) or has observed end-of-stream (closed and empty).
    pub fn claim(&mut self) -> (r: ClaimOutcome)
        ensures
            old(self).pending().len() > 0 ==> r == ClaimOutcome::Claimed(old(self).pending()[0]),
            old(self).pending().len() > 0 ==> final(self).pending() == old(self).pending().drop_first(),
            old(self).pending().len() > 0 ==> final(self).is_open() == old(self).is_open(),
            old(self).pending().len() == 0 ==> *final(self) == *old(self),
            old(self).pending().len() == 0 && old(self).is_open() ==> r == ClaimOutcome::MustWait,
            old(self).pending().len() == 0 && !old(self).is_open() ==> r == ClaimOutcome::Disconnected,
    {
        if self.jobs.len() > 0 {
            let ticket = self.jobs.remove(0);
            proof {
                assert(self.jobs@ =~= old(self).jobs@.drop_first());
            }
            ClaimOutcome::Claimed(ticket)
        } else if self.open {
            ClaimOutcome::MustWait
        } else {
            ClaimOutcome::Disconnected
        }
    }
}

} // verus!
