//! Pin decision helpers used by the scheduler tick.
use vstd::prelude::*;

use crate::pin;
use crate::pin::{PinInfo, PinReason};
use crate::scheduler::priority::{clamp, PinAction, PinDecision, PinPolicy};
use crate::scheduler::priority;
use crate::trajectory::{Trajectory, TrajectoryView};

verus! {

/// The time `ttl` after `now`, or the end of time.
pub open spec fn later(now: u64, ttl: int) -> u64 {
    if now + ttl > u64::MAX {
        u64::MAX
    } else {
        (now + ttl) as u64
    }
}

/// Decide pin when a generate finishes as a tool call.
pub fn pin_for_tool_wait(
    traj: &Trajectory,
    now_ms: u64,
    policy: &PinPolicy,
    tool_p95_ms: Option<u64>,
) -> (res: PinDecision)
    requires
        policy.wf(),
    ensures
        res == (PinDecision {
            trajectory_id: traj@.id,
            action: PinAction::Pin {
                until_ms: later(now_ms, policy.ttl(tool_p95_ms)),
                reason: PinReason::WaitingTool,
                strength: 2,
            },
        }),
{
    let ttl: u64 = policy.ttl_for_tool_latency(tool_p95_ms);
    PinDecision {
        trajectory_id: traj.id,
        action: PinAction::Pin {
            until_ms: now_ms.saturating_add(ttl),
            reason: PinReason::WaitingTool,
            strength: 2,
        },
    }
}

/// After a tool returns, keep prefix warm briefly for the next generate
/// (prefetch): for half the base time, within the bounds.
pub fn pin_for_prefetch(traj: &Trajectory, now_ms: u64, policy: &PinPolicy) -> (res: PinDecision)
    requires
        policy.wf(),
    ensures
        res == (PinDecision {
            trajectory_id: traj@.id,
            action: PinAction::Pin {
                until_ms: later(
                    now_ms,
                    priority::within(
                        policy.base_ttl_ms as int / 2,
                        policy.min_ttl_ms as int,
                        policy.max_ttl_ms as int,
                    ),
                ),
                reason: PinReason::Prefetch,
                strength: 1,
            },
        }),
{
    let ttl: u64 = clamp(policy.base_ttl_ms / 2, policy.min_ttl_ms, policy.max_ttl_ms);
    PinDecision {
        trajectory_id: traj.id,
        action: PinAction::Pin {
            until_ms: now_ms.saturating_add(ttl),
            reason: PinReason::Prefetch,
            strength: 1,
        },
    }
}

/// Under memory pressure, prefer unpinning late + low-share pins.
pub fn should_force_unpin(pin: &PinInfo, now_ms: u64, pressure_high: bool) -> (res: bool)
    ensures
        res == (pressure_high && (!pin.holds(now_ms) || pin.strength < 2)),
{
    if !pressure_high {
        return false;
    }
    if !pin.is_pinned(now_ms) {
        return true;
    }
    pin.strength < 2
}

/// The pin that an action leaves.
pub open spec fn pin_after(action: PinAction) -> PinInfo {
    match action {
        PinAction::Pin { until_ms, reason, strength } => PinInfo {
            pin_until_ms: Some(until_ms),
            reason,
            strength,
        },
        PinAction::Unpin => pin::no_pin(),
        PinAction::Keep(info) => info,
    }
}

/// A decision changes the pin of the trajectory it is about, and of no other.
pub open spec fn pinned(t: TrajectoryView, decision: PinDecision) -> TrajectoryView {
    if decision.trajectory_id == t.id {
        TrajectoryView { pin: pin_after(decision.action), ..t }
    } else {
        t
    }
}

pub fn apply_pin(traj: &mut Trajectory, decision: &PinDecision)
    ensures
        final(traj)@ == pinned(old(traj)@, *decision),
{
    if decision.trajectory_id != traj.id {
        return;
    }
    match &decision.action {
        PinAction::Pin { until_ms, reason, strength } => {
            traj.pin = PinInfo::pin_until(*until_ms, *reason, *strength);
        },
        PinAction::Unpin => {
            traj.pin.unpin();
        },
        PinAction::Keep(info) => {
            traj.pin = *info;
        },
    }
}

/// A pin for a tool wait survives memory pressure until it runs out.
pub proof fn law_tool_pin_survives_pressure(policy: PinPolicy, now: u64, p95: Option<u64>, at: u64)
    requires
        policy.wf(),
        at < later(now, policy.ttl(p95)),
    ensures
        ({
            let p = pin_after(
                PinAction::Pin {
                    until_ms: later(now, policy.ttl(p95)),
                    reason: PinReason::WaitingTool,
                    strength: 2,
                },
            );
            p.holds(at) && p.strength >= 2
        }),
{
}

/// A decision to pin leaves a pin that holds until its time and no longer, with
/// the reason and strength decided on; one to unpin leaves none.
pub proof fn law_pin_as_decided(
    t: TrajectoryView,
    until_ms: u64,
    reason: PinReason,
    strength: u8,
    info: PinInfo,
    now: u64,
)
    ensures
        ({
            let p = pinned(
                t,
                PinDecision {
                    trajectory_id: t.id,
                    action: PinAction::Pin { until_ms, reason, strength },
                },
            ).pin;
            &&& p.pin_until_ms == Some(until_ms)
            &&& p.reason == reason
            &&& p.strength == strength
            &&& p.holds(now) <==> now < until_ms
        }),
        !pinned(
            t,
            PinDecision { trajectory_id: t.id, action: PinAction::Unpin },
        ).pin.holds(now),
        pinned(
            t,
            PinDecision { trajectory_id: t.id, action: PinAction::Keep(info) },
        ).pin == info,
{
}

/// A decision changes nothing of a trajectory but its pin, and nothing at all
/// of a trajectory that it is not about.
pub proof fn law_pin_changes_only_pin(t: TrajectoryView, d: PinDecision)
    ensures
        d.trajectory_id != t.id ==> pinned(t, d) == t,
        pinned(t, d) == (TrajectoryView { pin: pinned(t, d).pin, ..t }),
{
}

/// A time to come is as far off as was asked, up to the end of time.
pub proof fn law_later(now: u64, ttl: u64)
    ensures
        later(now, ttl as int) >= now,
        now + ttl <= u64::MAX ==> later(now, ttl as int) == now + ttl,
        now + ttl > u64::MAX ==> later(now, ttl as int) == u64::MAX,
{
}

} // verus!
