//! The decisions of one transform worker and of the pool that runs them.

use crate::types::Fail;
use vstd::prelude::*;

verus! {

/// Why a worker stopped.
#[derive(Clone, Copy, Debug, PartialEq, Eq)]
pub enum Stop {
    /// The run was aborted.
    Abort,
    /// The transformation of a payload failed.
    Failure,
    /// No payload is to come.
    ClosedUpstream,
    /// Nobody takes results any more.
    ClosedDownstream,
}

/// The state of a worker.
#[derive(Clone, Copy, Debug, PartialEq, Eq)]
pub enum Worker {
    Running,
    Stopped(Stop),
}

/// What a worker learns when the work it asked for is done.
pub enum Event<P, O> {
    /// The abort signal came first.
    Abort,
    /// The next payload came.
    Payload(P),
    /// No payload is to come.
    ClosedUpstream,
    /// The transformation gave a result.
    Transformed(O),
    /// The transformation failed.
    Failed(Fail),
    /// The result was handed on.
    Forwarded,
    /// The result could not be handed on.
    ClosedDownstream,
}

/// What a worker asks for next.
pub enum Action<P, O> {
    /// Wait for the abort signal or the next payload, whichever comes first.
    Await,
    /// Transform the payload.
    Transform(P),
    /// Wait for the abort signal or for the result to be handed on.
    Forward(O),
    /// Report the failure to the broadcaster.
    Report(Fail),
    /// Do nothing more.
    Stop,
}

/// The number of threads assumed where the machine does not tell.
pub const DEFAULT_THREADS: usize = 6;

/// The number of workers for each thread.
pub const WORKERS_PER_THREAD: usize = 2;

/// The number of results that may wait to be taken: one, so that no worker
/// runs further ahead than the result it holds.
pub const QUEUE_DEPTH: usize = 1;

impl Worker {
    /// Whether the worker has stopped.
    pub open spec fn stopped(self) -> bool {
        self is Stopped
    }

    /// The state after an event, and what the worker asks for. A running
    /// worker stops at the abort signal, at a closed end and at a failure,
    /// which it reports; it transforms a payload, forwards a result and
    /// waits for the next payload once a result is handed on. A stopped
    /// worker stays stopped and still reports a failure that reaches it.
    pub open spec fn after<P, O>(self, event: Event<P, O>) -> (Worker, Action<P, O>) {
        match self {
            Worker::Running => match event {
                Event::Abort => (Worker::Stopped(Stop::Abort), Action::Stop),
                Event::Payload(payload) => (Worker::Running, Action::Transform(payload)),
                Event::ClosedUpstream => (Worker::Stopped(Stop::ClosedUpstream), Action::Stop),
                Event::Transformed(output) => (Worker::Running, Action::Forward(output)),
                Event::Failed(fail) => (Worker::Stopped(Stop::Failure), Action::Report(fail)),
                Event::Forwarded => (Worker::Running, Action::Await),
                Event::ClosedDownstream => (Worker::Stopped(Stop::ClosedDownstream), Action::Stop),
            },
            Worker::Stopped(_) => match event {
                Event::Failed(fail) => (self, Action::Report(fail)),
                _ => (self, Action::Stop),
            },
        }
    }

    /// A worker that begins: it runs, and first waits for a payload.
    pub fn start<P, O>() -> (begun: (Worker, Action<P, O>))
        ensures
            begun == (Worker::Running, Action::<P, O>::Await),
    {
        (Worker::Running, Action::Await)
    }

    /// Decides what a worker does after an event.
    pub fn step<P, O>(self, event: Event<P, O>) -> (next: (Worker, Action<P, O>))
        ensures
            next == self.after(event),
    {
        match self {
            Worker::Running => match event {
                Event::Abort => (Worker::Stopped(Stop::Abort), Action::Stop),
                Event::Payload(payload) => (Worker::Running, Action::Transform(payload)),
                Event::ClosedUpstream => (Worker::Stopped(Stop::ClosedUpstream), Action::Stop),
                Event::Transformed(output) => (Worker::Running, Action::Forward(output)),
                Event::Failed(fail) => (Worker::Stopped(Stop::Failure), Action::Report(fail)),
                Event::Forwarded => (Worker::Running, Action::Await),
                Event::ClosedDownstream => (Worker::Stopped(Stop::ClosedDownstream), Action::Stop),
            },
            Worker::Stopped(_) => match event {
                Event::Failed(fail) => (self, Action::Report(fail)),
                _ => (self, Action::Stop),
            },
        }
    }

    /// Whether the worker has stopped.
    pub fn is_stopped(&self) -> (stopped: bool)
        ensures
            stopped == self.stopped(),
    {
        match self {
            Worker::Running => false,
            Worker::Stopped(_) => true,
        }
    }
}

/// The number of threads to plan for: what the machine tells, or the
/// default where it tells nothing.
pub fn threads_or_default(detected: Option<usize>) -> (threads: usize)
    ensures
        threads == match detected {
            Some(n) => n,
            None => DEFAULT_THREADS,
        },
{
    match detected {
        Some(n) => n,
        None => DEFAULT_THREADS,
    }
}

/// The number of workers of a pool for a number of threads.
pub fn pool_size(threads: usize) -> (workers: usize)
    requires
        threads * WORKERS_PER_THREAD <= usize::MAX,
    ensures
        workers == threads * WORKERS_PER_THREAD,
{
    threads * WORKERS_PER_THREAD
}

/// Whether every worker of a pool has stopped, so that the pool is done.
pub fn pool_done(workers: &Vec<Worker>) -> (done: bool)
    ensures
        done == forall|i: int| 0 <= i < workers.len() ==> (#[trigger] workers[i]).stopped(),
{
    let mut i: usize = 0;
    while i < workers.len()
        invariant
            i <= workers.len(),
            forall|j: int| 0 <= j < i ==> (#[trigger] workers[j]).stopped(),
        decreases workers.len() - i,
    {
        if !workers[i].is_stopped() {
            return false;
        }
        i += 1;
    }
    true
}

} // verus!
