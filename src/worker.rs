use vstd::prelude::*;
use crate::message::Message;

verus! {

/// Where a worker stands in its loop.
#[derive(PartialEq, Eq, Structural, Clone, Copy, Debug)]
pub enum WorkerState {
    /// Blocked on the queue, holding no job.
    Waiting,
    /// Running the job it took last.
    Running,
    /// Out of its loop for good.
    Terminated,
}

/// What an attempt to take the next message from the queue gave.
pub enum Received<J> {
    /// A message was taken.
    Got(Message<J>),
    /// The queue is empty and every sender is gone.
    Disconnected,
    /// The lock around the receiving end could not be had.
    LockFailed,
}

/// Why a worker left its loop.
#[derive(PartialEq, Eq, Structural, Clone, Copy, Debug)]
pub enum ExitReason {
    Told,
    Disconnected,
    LockFailed,
}

/// What the thread that runs a worker does next.
pub enum WorkerAction<J> {
    /// Run this job on the worker's own thread, then report it finished.
    Run(J),
    /// Nothing to take yet: block until a message arrives.
    Wait,
    /// Leave the loop; the thread ends.
    Exit(ExitReason),
}

/// The state that a waiting worker moves to on what it received.
pub open spec fn next_state<J>(got: Received<J>) -> WorkerState {
    match got {
        Received::Got(Message::NewJob(_)) => WorkerState::Running,
        _ => WorkerState::Terminated,
    }
}

/// The action that a waiting worker takes on what it received.
pub open spec fn next_action<J>(got: Received<J>) -> WorkerAction<J> {
    match got {
        Received::Got(Message::NewJob(j)) => WorkerAction::Run(j),
        Received::Got(Message::Terminate) => WorkerAction::Exit(ExitReason::Told),
        Received::Disconnected => WorkerAction::Exit(ExitReason::Disconnected),
        Received::LockFailed => WorkerAction::Exit(ExitReason::LockFailed),
    }
}

/// One decision of a waiting worker: a job makes it run that job; a
/// terminate signal, a closed queue or a broken lock make it leave its loop
/// rather than try again.
pub fn step<J>(got: Received<J>) -> (r: (WorkerState, WorkerAction<J>))
    ensures
        r.0 == next_state(got),
        r.1 == next_action(got),
{
    match got {
        Received::Got(Message::NewJob(j)) => (WorkerState::Running, WorkerAction::Run(j)),
        Received::Got(Message::Terminate) => (
            WorkerState::Terminated,
            WorkerAction::Exit(ExitReason::Told),
        ),
        Received::Disconnected => (
            WorkerState::Terminated,
            WorkerAction::Exit(ExitReason::Disconnected),
        ),
        Received::LockFailed => (WorkerState::Terminated, WorkerAction::Exit(ExitReason::LockFailed)),
    }
}

} // verus!
