//! The plan-then-execute policy.
use vstd::prelude::*;

use crate::error::TrajectError;
use crate::ids;
use crate::ids::StepId;
use crate::policy::react;
use crate::policy::react::{generate_from, tool_text};
use crate::policy::traits::{Policy, PolicyDecision, PolicyDecisionView};
use crate::step::{
    ControlKind, FinishReason, Step, StepOutcome, StepOutcomeView, StepView, ToolCallView,
    ToolResultView,
};
use crate::text;
use crate::trajectory::{Trajectory, TrajectoryView};

verus! {

/// The decision is to plan for `goal`, under a random id.
pub open spec fn plans(d: PolicyDecisionView, goal: Seq<char>) -> bool {
    d matches PolicyDecisionView::NextStep(s) && ids::is_random_id(s.id().0) && s
        == (StepView::Control {
        id: s.id(),
        kind: ControlKind::Plan,
        payload: Some("plan for: "@ + goal),
    })
}

/// Two-phase policy: emit a plan control step once, then ReAct-like
/// generate/tool loop.
#[derive(Debug)]
pub struct PlanExecutePolicy {
    pub max_steps: usize,
    pub goal: String,
    pub planned: bool,
}

impl PlanExecutePolicy {
    pub fn new(goal: &str) -> (res: Self)
        ensures
            res.max_steps == 16,
            res.goal@ == goal@,
            !res.planned,
    {
        PlanExecutePolicy { max_steps: 16, goal: goal.to_string(), planned: false }
    }

    /// What is decided without an outcome that settles it: to finish once all
    /// steps are used, else to plan, once, and to generate from the goal
    /// afterwards. `after` is whether a plan has been asked for by then.
    pub open spec fn opens(self, t: TrajectoryView, d: PolicyDecisionView, after: bool) -> bool {
        if t.history.len() >= self.max_steps {
            d is Finish && after == self.planned
        } else {
            after && if self.planned {
                react::generates(d, react::text_delta(self.goal@))
            } else {
                plans(d, self.goal@)
            }
        }
    }

    /// What is decided after `outcome`.
    pub open spec fn follows(
        self,
        t: TrajectoryView,
        outcome: StepOutcomeView,
        d: PolicyDecisionView,
        after: bool,
    ) -> bool {
        if t.history.len() >= self.max_steps {
            d is Finish && after == self.planned
        } else {
            match outcome {
                StepOutcomeView::ControlDone { kind: ControlKind::Plan, .. } => react::generates(
                    d,
                    react::text_delta("execute plan: "@ + self.goal@),
                ) && after == self.planned,
                StepOutcomeView::ToolDone { result, .. } => react::generates(
                    d,
                    react::text_delta(react::tool_note(result.name, result.output)),
                ) && after == self.planned,
                StepOutcomeView::Generated { finish_reason, tool_call, .. } => match (
                    finish_reason,
                    tool_call,
                ) {
                    (FinishReason::ToolCall, Some(call)) => react::calls(d, call) && after
                        == self.planned,
                    (FinishReason::Stop, _) => d is Finish && after == self.planned,
                    _ => self.opens(t, d, after),
                },
                _ => self.opens(t, d, after),
            }
        }
    }
}

impl Policy for PlanExecutePolicy {
    fn name(&self) -> (res: String)
        ensures
            res@ == "plan-execute"@,
    {
        "plan-execute".to_string()
    }

    fn decide(&mut self, traj: &Trajectory) -> (res: Result<PolicyDecision, TrajectError>)
        ensures
            res matches Ok(d) && old(self).opens(traj@, d@, final(self).planned),
            final(self).goal == old(self).goal,
            final(self).max_steps == old(self).max_steps,
    {
        if traj.history.len() >= self.max_steps {
            return Ok(PolicyDecision::Finish);
        }
        if !self.planned {
            self.planned = true;
            let mut text: String = "plan for: ".to_string();
            text.append(self.goal.as_str());
            return Ok(PolicyDecision::NextStep(Step::control(ControlKind::Plan, Some(text))));
        }
        Ok(generate_from(self.goal.as_str()))
    }

    fn on_outcome(&mut self, traj: &Trajectory, outcome: &StepOutcome) -> (res: Result<
        PolicyDecision,
        TrajectError,
    >)
        ensures
            res matches Ok(d) && old(self).follows(traj@, outcome@, d@, final(self).planned),
            final(self).goal == old(self).goal,
            final(self).max_steps == old(self).max_steps,
            traj.history@.len() < old(self).max_steps ==> (
            outcome matches StepOutcome::ToolDone { result, .. } ==> (res matches Ok(d) && (
            d@ matches PolicyDecisionView::NextStep(StepView::Generate { delta, .. }) && (
            delta.text matches Some(said) && text::ends(said, result.output@))))),
    {
        if traj.history.len() >= self.max_steps {
            return Ok(PolicyDecision::Finish);
        }
        match outcome {
            StepOutcome::ControlDone { kind, .. } => {
                if *kind == ControlKind::Plan {
                    let mut text: String = "execute plan: ".to_string();
                    text.append(self.goal.as_str());
                    return Ok(generate_from(text.as_str()));
                }
                self.decide(traj)
            },
            StepOutcome::Generated { finish_reason, tool_call, .. } => {
                if *finish_reason == FinishReason::ToolCall {
                    if let Some(call) = tool_call {
                        return Ok(PolicyDecision::NextStep(Step::tool(call.clone(), 30_000)));
                    }
                }
                if *finish_reason == FinishReason::Stop {
                    return Ok(PolicyDecision::Finish);
                }
                self.decide(traj)
            },
            StepOutcome::ToolDone { result, .. } => {
                let note = tool_text(&result.name, &result.output);
                proof {
                    react::lemma_note(result.name@, result.output@);
                }
                Ok(generate_from(note.as_str()))
            },
        }
    }
}

/// The plan is asked for once: after a first plan, no further decision plans.
pub proof fn law_plans_once(
    p: PlanExecutePolicy,
    t: TrajectoryView,
    outcome: StepOutcomeView,
    d: PolicyDecisionView,
    after: bool,
)
    requires
        p.planned,
        p.opens(t, d, after) || p.follows(t, outcome, d, after),
    ensures
        !plans(d, p.goal@),
        after,
{
}

/// The first decision is a plan for the goal; once planned, the policy
/// generates from the goal.
pub proof fn law_plan_then_goal(
    p: PlanExecutePolicy,
    t: TrajectoryView,
    d: PolicyDecisionView,
    after: bool,
)
    requires
        t.history.len() < p.max_steps,
        p.opens(t, d, after),
    ensures
        after,
        d is NextStep,
        !p.planned ==> d->NextStep_0 is Control && d->NextStep_0->kind is Plan && (
        d->NextStep_0->payload matches Some(s) && text::ends(s, p.goal@) && text::begins(
            s,
            "plan for: "@,
        ) && s.len() == "plan for: "@.len() + p.goal@.len()),
        p.planned ==> d->NextStep_0 is Generate && d->NextStep_0->delta.text == Some(p.goal@)
            && d->NextStep_0->max_tokens == 256,
{
    let s = "plan for: "@ + p.goal@;
    assert(s.skip(s.len() - p.goal@.len()) =~= p.goal@);
    assert(s.take("plan for: "@.len() as int) =~= "plan for: "@);
}

/// After the plan, the model is told to carry it out, for the same goal.
pub proof fn law_plan_is_executed(
    p: PlanExecutePolicy,
    t: TrajectoryView,
    step_id: StepId,
    note: Option<Seq<char>>,
    d: PolicyDecisionView,
    after: bool,
)
    requires
        t.history.len() < p.max_steps,
        p.follows(
            t,
            StepOutcomeView::ControlDone { step_id, kind: ControlKind::Plan, note },
            d,
            after,
        ),
    ensures
        after == p.planned,
        d is NextStep,
        d->NextStep_0 is Generate,
        d->NextStep_0->delta.text matches Some(s) && text::ends(s, p.goal@) && text::begins(
            s,
            "execute plan: "@,
        ) && s.len() == "execute plan: "@.len() + p.goal@.len(),
{
    let s = "execute plan: "@ + p.goal@;
    assert(s.skip(s.len() - p.goal@.len()) =~= p.goal@);
    assert(s.take("execute plan: "@.len() as int) =~= "execute plan: "@);
}

/// After a tool, the model is told what it gave: the next step generates from a
/// text that names the tool and ends with the tool's output.
pub proof fn law_plan_tells_tool_output(
    p: PlanExecutePolicy,
    t: TrajectoryView,
    step_id: StepId,
    result: ToolResultView,
    d: PolicyDecisionView,
    after: bool,
)
    requires
        t.history.len() < p.max_steps,
        p.follows(t, StepOutcomeView::ToolDone { step_id, result }, d, after),
    ensures
        after == p.planned,
        d is NextStep,
        d->NextStep_0 is Generate,
        d->NextStep_0->delta.text matches Some(s) && text::ends(s, result.output) && text::begins(
            s,
            "tool "@ + result.name + " => "@,
        ),
{
    react::lemma_note(result.name, result.output);
}

/// The tool that the model asks for is the one that is run next, with the
/// model's arguments, for half a minute at most.
pub proof fn law_plan_runs_the_tool(
    p: PlanExecutePolicy,
    t: TrajectoryView,
    step_id: StepId,
    said: Seq<char>,
    token_ids: Seq<u32>,
    call: ToolCallView,
    d: PolicyDecisionView,
    after: bool,
)
    requires
        t.history.len() < p.max_steps,
        p.follows(
            t,
            StepOutcomeView::Generated {
                step_id,
                text: said,
                token_ids,
                finish_reason: FinishReason::ToolCall,
                tool_call: Some(call),
            },
            d,
            after,
        ),
    ensures
        after == p.planned,
        d is NextStep,
        d->NextStep_0 is Tool,
        d->NextStep_0->call.name == call.name,
        d->NextStep_0->call.arguments == call.arguments,
        d->NextStep_0->call.call_id == call.call_id,
        d->NextStep_0->timeout_ms == 30_000,
{
}

/// The policy finishes where the model stops or its steps are used up, and
/// nowhere else; it never gives up.
pub proof fn law_plan_finishes_when(
    p: PlanExecutePolicy,
    t: TrajectoryView,
    outcome: StepOutcomeView,
    d: PolicyDecisionView,
    after: bool,
)
    requires
        p.follows(t, outcome, d, after),
    ensures
        !(d is Fail),
        d is Finish <==> (t.history.len() >= p.max_steps || (outcome is Generated
            && outcome->finish_reason is Stop)),
{
}

} // verus!
