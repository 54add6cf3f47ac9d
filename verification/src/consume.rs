//! The consume loop as a state machine: the main loop spawns a handler per
//! delivery and tracks the pending-task count from the event channel; a
//! first interrupt starts a warm shutdown that drains pending tasks, and a
//! second interrupt during the drain forces shutdown.
use vstd::prelude::*;
use crate::events::TaskStatus;

verus! {

/// Where the loop stands: accepting deliveries, draining pending tasks
/// after a first interrupt, finished normally, or forced down by a second
/// interrupt.
#[derive(Clone, Copy, PartialEq, Eq, Structural, Debug)]
pub enum Phase {
    Main,
    Warm,
    DoneOk,
    DoneForced,
}

/// One multiplexed occurrence the loop reacts to: a delivery arrived on the
/// stream, an interrupt signal fired, or a task event came over the channel.
#[derive(Clone, Copy, PartialEq, Eq, Structural, Debug)]
pub enum LoopEvent {
    Delivery,
    Signal,
    Task(TaskStatus),
}

/// What the host must do after a step: spawn a handler for the delivery it
/// just read, log the warm-shutdown notice, report the forced shutdown, or
/// nothing.
#[derive(Clone, Copy, PartialEq, Eq, Structural, Debug)]
pub enum LoopAction {
    SpawnHandler,
    WarmShutdownNotice,
    ForcedShutdownNotice,
    NoAction,
}

/// The loop's whole state: its phase and the number of tracers that have
/// emitted `Pending` but not yet `Finished`.
#[derive(Clone, Copy, PartialEq, Eq, Structural, Debug)]
pub struct ConsumeState {
    pub phase: Phase,
    pub pending_tasks: i64,
}

/// The state after one event. In the main phase a delivery spawns a
/// handler, task events move the pending count, and a signal either ends
/// the loop (nothing pending) or starts the warm drain. In the warm phase
/// a second signal forces shutdown, and the drain ends normally once the
/// pending count is no longer positive. The finished phases absorb.
pub open spec fn consume_step_spec(s: ConsumeState, e: LoopEvent) -> ConsumeState {
    match s.phase {
        Phase::Main => match e {
            LoopEvent::Delivery => s,
            LoopEvent::Signal => if s.pending_tasks > 0 {
                ConsumeState { phase: Phase::Warm, ..s }
            } else {
                ConsumeState { phase: Phase::DoneOk, ..s }
            },
            LoopEvent::Task(st) => ConsumeState {
                pending_tasks: pending_after(s.pending_tasks, st),
                ..s
            },
        },
        Phase::Warm => match e {
            LoopEvent::Delivery => s,
            LoopEvent::Signal => ConsumeState { phase: Phase::DoneForced, ..s },
            LoopEvent::Task(st) => {
                let p = pending_after(s.pending_tasks, st);
                if p <= 0 {
                    ConsumeState { phase: Phase::DoneOk, pending_tasks: p }
                } else {
                    ConsumeState { phase: Phase::Warm, pending_tasks: p }
                }
            },
        },
        Phase::DoneOk => s,
        Phase::DoneForced => s,
    }
}

/// The pending count after one task event, clipped to the machine range.
pub open spec fn pending_after(p: i64, st: TaskStatus) -> i64 {
    match st {
        TaskStatus::Pending => (p + 1) as i64,
        TaskStatus::Finished => (p - 1) as i64,
    }
}

/// What the host does in reaction to one event.
pub open spec fn consume_action_spec(s: ConsumeState, e: LoopEvent) -> LoopAction {
    match s.phase {
        Phase::Main => match e {
            LoopEvent::Delivery => LoopAction::SpawnHandler,
            LoopEvent::Signal => LoopAction::WarmShutdownNotice,
            LoopEvent::Task(_) => LoopAction::NoAction,
        },
        Phase::Warm => match e {
            LoopEvent::Signal => LoopAction::ForcedShutdownNotice,
            _ => LoopAction::NoAction,
        },
        Phase::DoneOk => LoopAction::NoAction,
        Phase::DoneForced => LoopAction::NoAction,
    }
}

impl ConsumeState {
    /// The state the loop starts in: accepting deliveries, nothing pending.
    pub fn init() -> (r: Self)
        ensures
            r.phase is Main,
            r.pending_tasks == 0,
    {
        ConsumeState { phase: Phase::Main, pending_tasks: 0 }
    }

    /// Advance the loop by one event and say what the host must do.
    pub fn step(&mut self, e: LoopEvent) -> (a: LoopAction)
        requires
            old(self).pending_tasks < i64::MAX,
            old(self).pending_tasks > i64::MIN,
        ensures
            *final(self) == consume_step_spec(*old(self), e),
            a == consume_action_spec(*old(self), e),
    {
        match self.phase {
            Phase::Main => match e {
                LoopEvent::Delivery => LoopAction::SpawnHandler,
                LoopEvent::Signal => {
                    if self.pending_tasks > 0 {
                        self.phase = Phase::Warm;
                    } else {
                        self.phase = Phase::DoneOk;
                    }
                    LoopAction::WarmShutdownNotice
                },
                LoopEvent::Task(st) => {
                    match st {
                        TaskStatus::Pending => {
                            self.pending_tasks = self.pending_tasks + 1;
                        },
                        TaskStatus::Finished => {
                            self.pending_tasks = self.pending_tasks - 1;
                        },
                    }
                    LoopAction::NoAction
                },
            },
            Phase::Warm => match e {
                LoopEvent::Delivery => LoopAction::NoAction,
                LoopEvent::Signal => {
                    self.phase = Phase::DoneForced;
                    LoopAction::ForcedShutdownNotice
                },
                LoopEvent::Task(st) => {
                    match st {
                        TaskStatus::Pending => {
                            self.pending_tasks = self.pending_tasks + 1;
                        },
                        TaskStatus::Finished => {
                            self.pending_tasks = self.pending_tasks - 1;
                        },
                    }
                    if self.pending_tasks <= 0 {
                        self.phase = Phase::DoneOk;
                    }
                    LoopAction::NoAction
                },
            },
            Phase::DoneOk => LoopAction::NoAction,
            Phase::DoneForced => LoopAction::NoAction,
        }
    }
}

/// The state after a whole sequence of events.
pub open spec fn run_spec(s: ConsumeState, evs: Seq<LoopEvent>) -> ConsumeState
    decreases evs.len(),
{
    if evs.len() == 0 {
        s
    } else {
        run_spec(consume_step_spec(s, evs[0]), evs.drop_first())
    }
}

/// The event channel never lies to the loop: while the loop is counting, a
/// `Finished` event only arrives when a task is actually outstanding (each
/// tracer emits its `Finished` after its own `Pending`), and the pending
/// count stays within the machine range.
pub open spec fn events_consistent(s: ConsumeState, evs: Seq<LoopEvent>) -> bool
    decreases evs.len(),
{
    if evs.len() == 0 {
        true
    } else {
        let counting = s.phase is Main || s.phase is Warm;
        &&& (counting && evs[0] == LoopEvent::Task(TaskStatus::Finished) ==> s.pending_tasks >= 1)
        &&& (counting && evs[0] == LoopEvent::Task(TaskStatus::Pending) ==> s.pending_tasks
            < i64::MAX)
        &&& events_consistent(consume_step_spec(s, evs[0]), evs.drop_first())
    }
}

/// Whenever the loop finishes normally — directly from the main phase or at
/// the end of a warm-shutdown drain — no tasks are pending: over consistent
/// events the pending count never goes negative, and the loop only exits
/// normally once it reaches zero.
pub proof fn lemma_shutdown_drains(s: ConsumeState, evs: Seq<LoopEvent>)
    requires
        s.pending_tasks >= 0,
        s.phase is DoneOk ==> s.pending_tasks == 0,
        events_consistent(s, evs),
    ensures
        run_spec(s, evs).pending_tasks >= 0,
        run_spec(s, evs).phase is DoneOk ==> run_spec(s, evs).pending_tasks == 0,
    decreases evs.len(),
{
    if evs.len() > 0 {
        let s2 = consume_step_spec(s, evs[0]);
        assert(s2.pending_tasks >= 0);
        assert(s2.phase is DoneOk ==> s2.pending_tasks == 0);
        lemma_shutdown_drains(s2, evs.drop_first());
    }
}

} // verus!
