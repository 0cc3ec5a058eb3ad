//! A fixed-size worker pool: a bounded set of persistent workers executes
//! submitted one-shot jobs, claimed from a shared FIFO queue, with a graceful
//! two-phase shutdown that drains the queue and retires every worker.
//!
//! The crate verifies the coordination logic itself: the FIFO hand-off queue,
//! the worker claim/execute state machine, and the pool lifecycle (creation,
//! submission, close, drain, join). Each submitted job carries a ticket, and
//! the pool's invariants prove exactly-once delivery, FIFO claim order, and
//! that no worker retires while deliverable jobs remain.

pub mod pool;
pub mod queue;
pub mod worker;
