//! Explicit transition intents.
use vstd::prelude::*;

use crate::error;
use crate::error::{TrajectError, TrajectErrorView};
use crate::trajectory;
use crate::trajectory::{Moved, Trajectory, TrajectoryState, TrajectoryView};

verus! {

/// Explicit transition intents used by the manager / driver.
#[derive(Debug, Clone, Copy, PartialEq, Eq, Structural)]
pub enum Transition {
    Start,
    BeginToolWait,
    ToolReturned,
    Suspend,
    Resume,
    Finish,
    Fail,
}

/// Where an intent leads from a state, if anywhere.
pub open spec fn leads_to(from: TrajectoryState, t: Transition) -> Option<TrajectoryState> {
    match t {
        Transition::Start => if from is Created {
            Some(TrajectoryState::Running)
        } else {
            None
        },
        Transition::BeginToolWait => if from is Running {
            Some(TrajectoryState::WaitingTool)
        } else {
            None
        },
        Transition::ToolReturned => if from is WaitingTool {
            Some(TrajectoryState::Running)
        } else {
            None
        },
        Transition::Suspend => if from is Running || from is WaitingTool {
            Some(TrajectoryState::Suspended)
        } else {
            None
        },
        Transition::Resume => if from is Suspended {
            Some(TrajectoryState::Running)
        } else {
            None
        },
        Transition::Finish => if from is Created || from.terminal() {
            None
        } else {
            Some(TrajectoryState::Finished)
        },
        Transition::Fail => if from.terminal() {
            None
        } else {
            Some(TrajectoryState::Failed)
        },
    }
}

/// Follows an intent; one that leads nowhere is refused, under the state it
/// was asked in, and changes nothing.
pub open spec fn followed(t: TrajectoryView, intent: Transition) -> Moved {
    match leads_to(t.state, intent) {
        Some(to) => (TrajectoryView { state: to, ..t }, Ok(())),
        None => (t, Err(TrajectErrorView::InvalidTransition { from: t.state, to: t.state })),
    }
}

pub fn apply_transition(traj: &mut Trajectory, t: Transition) -> (res: Result<(), TrajectError>)
    ensures
        (final(traj)@, error::res_view(res)) == followed(old(traj)@, t),
{
    let to = match (traj.state, t) {
        (TrajectoryState::Created, Transition::Start) => TrajectoryState::Running,
        (TrajectoryState::Running, Transition::BeginToolWait) => TrajectoryState::WaitingTool,
        (TrajectoryState::WaitingTool, Transition::ToolReturned) => TrajectoryState::Running,
        (TrajectoryState::Running | TrajectoryState::WaitingTool, Transition::Suspend) =>
            TrajectoryState::Suspended,
        (TrajectoryState::Suspended, Transition::Resume) => TrajectoryState::Running,
        (
            TrajectoryState::Running | TrajectoryState::WaitingTool | TrajectoryState::Suspended,
            Transition::Finish,
        ) => TrajectoryState::Finished,
        (
            TrajectoryState::Created
            | TrajectoryState::Running
            | TrajectoryState::WaitingTool
            | TrajectoryState::Suspended,
            Transition::Fail,
        ) => TrajectoryState::Failed,
        (from, _) => {
            return Err(TrajectError::InvalidTransition { from, to: from });
        },
    };
    traj.transition(to)
}

/// Every intent that leads somewhere leads along a legal edge.
pub proof fn law_intents_are_legal(from: TrajectoryState, t: Transition)
    ensures
        leads_to(from, t) matches Some(to) ==> trajectory::legal(from, to),
{
}

/// Each intent leads where it says, from where it makes sense, and is refused
/// elsewhere without a change.
pub proof fn law_intents_lead(t: TrajectoryView, intent: Transition)
    ensures
        t.state is Created ==> followed(t, Transition::Start).0.state is Running,
        t.state is Running ==> followed(t, Transition::BeginToolWait).0.state is WaitingTool,
        t.state is WaitingTool ==> followed(t, Transition::ToolReturned).0.state is Running,
        t.state is Running || t.state is WaitingTool ==> followed(t, Transition::Suspend).0.state
            is Suspended,
        t.state is Suspended ==> followed(t, Transition::Resume).0.state is Running,
        !(t.state is Created) && !t.state.terminal() ==> followed(t, Transition::Finish).0.state
            is Finished,
        !t.state.terminal() ==> followed(t, Transition::Fail).0.state is Failed,
        !(t.state is Created) ==> followed(t, Transition::Start).1 is Err,
        !(t.state is Running) ==> followed(t, Transition::BeginToolWait).1 is Err,
        !(t.state is WaitingTool) ==> followed(t, Transition::ToolReturned).1 is Err,
        !(t.state is Suspended) ==> followed(t, Transition::Resume).1 is Err,
        t.state.terminal() ==> followed(t, intent).1 is Err,
        followed(t, intent).1 is Err ==> followed(t, intent).0 == t,
        followed(t, intent).0.history == t.history,
        followed(t, intent).0.active_step == t.active_step,
{
}

} // verus!
