//! The task executor's scheduling decision: what to do with a task after
//! each poll.  Polling futures and waiting for interrupts is outside work;
//! the rule that routes a polled task is decided here.

use vstd::prelude::*;

verus! {

/// How a task asks to be rescheduled while it is pending.
#[derive(Debug, Clone, Copy, PartialEq, Eq, Structural)]
pub enum AwaitType {
    /// Poll the task again on every executor round.
    AlwaysPoll,
    /// Park the task until its waker fires.
    WakePoll,
}

/// Where a polled task goes next.
#[derive(Debug, Clone, Copy, PartialEq, Eq, Structural)]
pub enum ScheduleAction {
    /// The task finished: drop it.
    Drop,
    /// Put the task back on the ready queue and stop this round.
    Requeue,
    /// Move the task to the pending set, keyed for its waker.
    Park,
}

/// The executor's routing rule: a finished task is dropped, a pending
/// always-poll task is requeued, a pending wake-poll task is parked.
pub fn schedule_after_poll(typ: &AwaitType, ready: bool) -> (r: ScheduleAction)
    ensures
        ready ==> r == ScheduleAction::Drop,
        !ready && typ == AwaitType::AlwaysPoll ==> r == ScheduleAction::Requeue,
        !ready && typ == AwaitType::WakePoll ==> r == ScheduleAction::Park,
{
    if ready {
        ScheduleAction::Drop
    } else {
        match typ {
            AwaitType::AlwaysPoll => ScheduleAction::Requeue,
            AwaitType::WakePoll => ScheduleAction::Park,
        }
    }
}

} // verus!
