//! What workers and the router say to each other.
use vstd::prelude::*;

verus! {

/// A message on the connection between the router and a worker.
pub enum Msg<I, O> {
    /// From a worker: it can take a job.
    Ready,
    /// To a worker: the job with this number, and its input.
    Job { id: u64, input: I },
    /// From a worker: the outcome of the job with this number.
    Done { id: u64, output: Result<O, String> },
}

/// What the router learns about a worker, which it knows by its index.
pub enum Event<I, O> {
    /// The worker sent a message.
    Msg(usize, Msg<I, O>),
    /// The connection to the worker is gone.
    Died(usize),
}

} // verus!
