//! A minimal single-threaded cooperative executor: a FIFO ready queue of task
//! identifiers, a table of task states, and the decision logic of a timer
//! resource whose background thread re-enqueues the waiting task.
//!
//! Times are nanoseconds since a clock origin chosen by the caller.

pub mod delay;
pub mod executor;
