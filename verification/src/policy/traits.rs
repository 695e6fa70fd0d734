//! What a policy is asked, and what it may answer.
use vstd::prelude::*;

use crate::error::TrajectError;
use crate::step::{Step, StepOutcome, StepView};
use crate::trajectory::Trajectory;

verus! {

/// What the policy wants to do next on a trajectory.
#[derive(Debug)]
pub enum PolicyDecision {
    /// Submit this step to the scheduler.
    NextStep(Step),
    /// Trajectory is complete.
    Finish,
    /// Hard failure.
    Fail(String),
}

pub enum PolicyDecisionView {
    NextStep(StepView),
    Finish,
    Fail(Seq<char>),
}

impl View for PolicyDecision {
    type V = PolicyDecisionView;

    open spec fn view(&self) -> PolicyDecisionView {
        match *self {
            PolicyDecision::NextStep(s) => PolicyDecisionView::NextStep(s@),
            PolicyDecision::Finish => PolicyDecisionView::Finish,
            PolicyDecision::Fail(r) => PolicyDecisionView::Fail(r@),
        }
    }
}

impl Clone for PolicyDecision {
    fn clone(&self) -> (res: Self)
        ensures
            res@ == self@,
    {
        match self {
            PolicyDecision::NextStep(s) => PolicyDecision::NextStep(s.clone()),
            PolicyDecision::Finish => PolicyDecision::Finish,
            PolicyDecision::Fail(r) => PolicyDecision::Fail(r.clone()),
        }
    }
}

/// Agent logic that turns trajectory state into the next step. Nothing is
/// known of what an implementation decides.
pub trait Policy {
    fn name(&self) -> String;

    /// Called when a trajectory is created / resumed with no active step.
    fn decide(&mut self, traj: &Trajectory) -> Result<PolicyDecision, TrajectError>;

    /// Called after a step completes to choose the follow-up.
    fn on_outcome(&mut self, traj: &Trajectory, outcome: &StepOutcome) -> Result<
        PolicyDecision,
        TrajectError,
    >;
}

} // verus!
