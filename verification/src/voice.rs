//! Decisions about the bot's voice connection.

use vstd::prelude::*;

verus! {

/// What joining a voice channel takes.
pub enum JoinPlan {
    /// The bot is already in the channel: nothing to do.
    Stay,
    /// Join the channel, first stopping the queue of the current call if `stop_queue`.
    Join { stop_queue: bool },
}

/// The plan for joining `target`: stay where the bot's call is already connected to it;
/// otherwise join, stopping the current call's queue first where there is a call.
pub open spec fn join_plan_of(call: Option<Option<u64>>, target: u64) -> JoinPlan {
    match call {
        None => JoinPlan::Join { stop_queue: false },
        Some(current) => if current == Some(target) {
            JoinPlan::Stay
        } else {
            JoinPlan::Join { stop_queue: true }
        },
    }
}

/// The bot's call once `plan` has been carried out for `target`: unchanged where it
/// stayed, connected to `target` where it joined.
pub open spec fn call_after_join(plan: JoinPlan, call: Option<Option<u64>>, target: u64) -> Option<
    Option<u64>,
> {
    match plan {
        JoinPlan::Stay => call,
        JoinPlan::Join { .. } => Some(Some(target)),
    }
}

/// Joining twice changes nothing the second time: once a join of `target` has been carried
/// out, the bot's call is connected to `target`, and joining `target` again is planned as
/// staying, which neither joins nor stops the queue.
pub proof fn lemma_join_idempotent(call: Option<Option<u64>>, target: u64)
    ensures
        call_after_join(join_plan_of(call, target), call, target) == Some(Some(target)),
        join_plan_of(call_after_join(join_plan_of(call, target), call, target), target)
            == JoinPlan::Stay,
{
}

/// What joining decides, over all calls and channels: the bot stays exactly where its call
/// is already connected to the target channel; otherwise it joins, and it stops the
/// current queue first exactly where it is in a call.
pub proof fn lemma_join_plan(call: Option<Option<u64>>, target: u64)
    ensures
        (join_plan_of(call, target) == JoinPlan::Stay) <==> (call == Some(Some(target))),
        join_plan_of(call, target) matches JoinPlan::Join { stop_queue } ==> (stop_queue <==> call is Some),
{
}

/// Plans joining `target`, where `call` is `None` when the bot is in no call here, and
/// otherwise the channel of its call (if it is connected to one).
pub fn plan_join(call: Option<Option<u64>>, target: u64) -> (r: JoinPlan)
    ensures
        r == join_plan_of(call, target),
{
    match call {
        None => JoinPlan::Join { stop_queue: false },
        Some(current) => match current {
            Some(c) => {
                if c == target {
                    JoinPlan::Stay
                } else {
                    JoinPlan::Join { stop_queue: true }
                }
            },
            None => JoinPlan::Join { stop_queue: true },
        },
    }
}

/// Whether the bot leaves the channel when a track event arrives: only on a track event,
/// while it is in a call whose queue has run empty.
pub fn leave_after_track_event(is_track_event: bool, call_present: bool, queue_empty: bool) -> (r:
    bool)
    ensures
        r == (is_track_event && call_present && queue_empty),
{
    is_track_event && call_present && queue_empty
}

} // verus!
