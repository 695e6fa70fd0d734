//! What holds of the driver as a whole.
use vstd::prelude::*;

use crate::ids::{StepId, TrajectoryId};
use crate::runtime::books;
use crate::runtime::driver_model;
use crate::runtime::driver_model::DriverView;
use crate::scheduler::pinning;
use crate::scheduler::priority::{PinDecision, SchedulableKind};
use crate::step::{StepOutcomeView, StepView, ToolResultView};
use crate::trajectory::TrajectoryView;

verus! {

/// Nothing is kept for a trajectory that was cleaned up after.
pub proof fn law_cleanup_forgets(d: DriverView, id: TrajectoryId, step_id: StepId)
    ensures
        ({
            let after = d.cleaned(id);
            &&& !after.live.contains(id)
            &&& !after.external.contains(id)
            &&& after.mem.bound(id) is None
            &&& after.mem.session(id) is None
            &&& !after.cache_hits.dom().contains(id.0)
            &&& !after.pin_started.dom().contains(id.0)
            &&& !after.in_flight.dom().contains((id, step_id))
            &&& !after.decode.dom().contains((id, step_id))
        }),
{
    books::lemma_left(d.live, id);
    books::lemma_left(d.external, id);
}

/// Cleaning up after one trajectory leaves what is kept for another.
pub proof fn law_cleanup_spares_others(
    d: DriverView,
    id: TrajectoryId,
    other: TrajectoryId,
    step_id: StepId,
)
    requires
        id != other,
    ensures
        ({
            let after = d.cleaned(id);
            &&& after.live.contains(other) == d.live.contains(other)
            &&& after.external.contains(other) == d.external.contains(other)
            &&& after.mem.bound(other) == d.mem.bound(other)
            &&& after.mem.session(other) == d.mem.session(other)
            &&& after.in_flight.dom().contains((other, step_id)) == d.in_flight.dom().contains(
                (other, step_id),
            )
            &&& after.decoded(other, step_id) == d.decoded(other, step_id)
            &&& after.trajs == d.trajs
        }),
{
    books::lemma_left(d.live, id);
    books::lemma_left(d.external, id);
}

/// A step is queued once: a second attempt, before it is run, does nothing.
pub proof fn law_queued_once(d: DriverView, id: TrajectoryId)
    requires
        d.has(id),
    ensures
        d.queued(id).0.queued(id) == d.queued(id),
{
    let s = d.queued(id).0;
    if d.to_queue(id) {
        let step = d.traj(id).active_step.unwrap();
        let last = s.sched.ready[d.sched.ready.len() as int];
        assert(last.trajectory_id == id && last.step == step);
        assert(s.sched.queued(id, step.id()));
    }
}

/// A step that is being run is not queued.
pub proof fn law_running_not_queued(d: DriverView, id: TrajectoryId, step_id: StepId)
    requires
        d.has(id),
        d.traj(id).active_step matches Some(step) && step.id() == step_id,
        d.in_flight.dom().contains((id, step_id)),
    ensures
        d.queued(id).0 == d,
{
}

/// A tool is handed to its executor once.
pub proof fn law_tool_launched_once(d: DriverView, id: TrajectoryId, step_id: StepId)
    requires
        d.tool_begun(id, step_id).1 matches Ok(Some(_)),
    ensures
        d.tool_begun(id, step_id).0.tool_begun(id, step_id) == (
            d.tool_begun(id, step_id).0,
            Ok::<
                Option<(crate::step::ToolCallView, u64)>,
                crate::error::TrajectErrorView,
            >(None),
        ),
{
}

/// A pin decision reaches the trajectory and its leaf alike.
pub proof fn law_pin_reaches_leaf(d: DriverView, decision: PinDecision, now: u64)
    requires
        d.wf(),
        d.has(decision.trajectory_id),
        d.mem.bound(decision.trajectory_id) matches Some(node) && d.mem.tree.has(node),
    ensures
        ({
            let id = decision.trajectory_id;
            let after = d.pin_applied(decision, now).0;
            let node = d.mem.bound(id).unwrap();
            &&& d.pin_applied(decision, now).1 is Ok
            &&& after.traj(id).pin == pinning::pin_after(decision.action)
            &&& after.mem.tree.nodes[node.0].pin == pinning::pin_after(decision.action)
        }),
{
}

/// A step that has begun to decode goes before every other kind, and the
/// generate step that follows a tool before a new trajectory.
pub proof fn law_urgency(t: TrajectoryView, step: StepView, decoded: u32)
    requires
        step is Generate,
    ensures
        decoded > 0 ==> driver_model::urgency(t, step, decoded) == SchedulableKind::ActiveDecode,
        decoded == 0 && t.history.len() > 0 && (t.history.last().outcome matches Some(
            StepOutcomeView::ToolDone { .. },
        )) ==> driver_model::urgency(t, step, decoded) == SchedulableKind::PostToolGenerate,
{
    if t.history.len() > 0 && (t.history.last().outcome matches Some(
        StepOutcomeView::ToolDone { .. },
    )) {
        let i = t.history.len() - 1;
        assert(t.history[i].outcome matches Some(StepOutcomeView::ToolDone { .. }));
        assert(driver_model::tool_done(t.history));
    }
}

/// A tool's result leaves the trajectory running, with its outcome recorded, a
/// prefetch pin in place of that for the wait, and credit.
pub proof fn law_tool_return(
    d: DriverView,
    id: TrajectoryId,
    step_id: StepId,
    result: ToolResultView,
    now: u64,
)
    requires
        d.wf(),
        d.has(id),
        d.traj(id).state is WaitingTool,
        d.traj(id).active_step matches Some(step) && step.id() == step_id,
    ensures
        ({
            let (after, r) = d.tool_returned(id, step_id, result, now);
            let t = after.traj(id);
            &&& r is Ok
            &&& t.state is Running
            &&& t.active_step is None
            &&& t.history.last().outcome == Some(StepOutcomeView::ToolDone { step_id, result })
            &&& t.pin == pinning::pin_after(d.prefetch_pin(id, now).action)
            &&& t.fairness_credit == driver_model::credited(d.traj(id).fairness_credit, 5)
            &&& !after.in_flight.dom().contains((id, step_id))
        }),
{
    let s0 = d.landed(id, step_id).measured(id, result.name, now);
    assert(s0.traj(id) == d.traj(id));
    let done = StepOutcomeView::ToolDone { step_id, result };
    let t1 = d.traj(id).completed(done).0;
    let s1 = DriverView { trajs: s0.trajs.insert(id.0, t1), ..s0 };
    let s2 = s1.unpinned(id);
    let s3 = s2.pin_applied(s2.prefetch_pin(id, now), now).0;
    assert(s2.traj(id).id == id);
    assert(s3.traj(id).pin == pinning::pin_after(d.prefetch_pin(id, now).action));
    assert(d.tool_returned(id, step_id, result, now).0 == s3.favoured(id, 5));
}

} // verus!
