//! Status events a tracer sends back to the dispatcher over the event
//! channel: `Pending` when execution begins, `Finished` on any terminal path.
use vstd::prelude::*;

verus! {

/// The two life phases a tracer reports: it has begun executing, or it has
/// reached a terminal state (success, ack-after-failure, or retry-scheduled).
#[derive(Clone, Copy, PartialEq, Eq, Structural, Debug)]
pub enum TaskStatus {
    Pending,
    Finished,
}

/// An event on the tracer-to-dispatcher channel.
#[derive(Clone, Copy, PartialEq, Eq, Structural, Debug)]
pub struct TaskEvent {
    pub status: TaskStatus,
}

impl TaskEvent {
    /// Wrap a status as a channel event.
    pub fn new(status: TaskStatus) -> (r: Self)
        ensures
            r.status == status,
    {
        TaskEvent { status }
    }
}

} // verus!
