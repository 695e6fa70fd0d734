//! The reason-and-act policy.
use vstd::prelude::*;

use crate::error::TrajectError;
use crate::ids;
use crate::ids::StepId;
use crate::policy::traits::{Policy, PolicyDecision, PolicyDecisionView};
use crate::step::{
    Constraints, ConstraintsView, FinishReason, GenerateDelta, GenerateDeltaView, Step, StepOutcome,
    StepOutcomeView, StepView, ToolCallView, ToolResultView,
};
use crate::text;
use crate::trajectory::{Trajectory, TrajectoryView};

verus! {

/// The decision is to generate from `delta`, freely, up to 256 tokens, under a
/// random id.
pub open spec fn generates(d: PolicyDecisionView, delta: GenerateDeltaView) -> bool {
    d matches PolicyDecisionView::NextStep(s) && ids::is_random_id(s.id().0) && s
        == (StepView::Generate {
        id: s.id(),
        delta,
        constraints: ConstraintsView::free(),
        max_tokens: 256,
    })
}

/// The decision is to run the tool, for 30 seconds at most, under a random id.
pub open spec fn calls(d: PolicyDecisionView, call: ToolCallView) -> bool {
    d matches PolicyDecisionView::NextStep(s) && ids::is_random_id(s.id().0) && s
        == (StepView::Tool { id: s.id(), call, timeout_ms: 30_000 })
}

/// A delta of nothing but text.
pub open spec fn text_delta(text: Seq<char>) -> GenerateDeltaView {
    GenerateDeltaView { token_ids: Seq::empty(), text: Some(text) }
}

/// What the model is told of a tool's result.
pub open spec fn tool_note(name: Seq<char>, output: Seq<char>) -> Seq<char> {
    "tool "@ + name + " => "@ + output
}

/// What the model is told of a tool's result.
pub(crate) fn tool_text(name: &String, output: &String) -> (res: String)
    ensures
        res@ == tool_note(name@, output@),
{
    let mut s: String = "tool ".to_string();
    s.append(name.as_str());
    s.append(" => ");
    s.append(output.as_str());
    s
}

/// A free generate step from the text, up to 256 tokens.
pub(crate) fn generate_from(text: &str) -> (res: PolicyDecision)
    ensures
        generates(res@, text_delta(text@)),
{
    PolicyDecision::NextStep(
        Step::generate(GenerateDelta::from_text(text), Constraints::default(), 256),
    )
}

/// Minimal ReAct: generate → (optional tool) → generate → … → finish.
#[derive(Debug, Clone)]
pub struct ReActPolicy {
    pub max_steps: usize,
    pub system_prompt: String,
}

impl Default for ReActPolicy {
    fn default() -> (res: Self)
        ensures
            res.max_steps == 0,
            res.system_prompt@ == Seq::<char>::empty(),
    {
        ReActPolicy { max_steps: 0, system_prompt: String::new() }
    }
}

impl ReActPolicy {
    pub fn new(system_prompt: &str) -> (res: Self)
        ensures
            res.max_steps == 16,
            res.system_prompt@ == system_prompt@,
    {
        ReActPolicy { max_steps: 16, system_prompt: system_prompt.to_string() }
    }

    /// What is decided without an outcome at hand: to finish once all steps
    /// are used, else to generate, from the prompt at first and from nothing
    /// later.
    pub open spec fn opens(self, t: TrajectoryView, d: PolicyDecisionView) -> bool {
        if t.history.len() >= self.max_steps {
            d is Finish
        } else {
            generates(
                d,
                text_delta(
                    if t.history.len() == 0 {
                        self.system_prompt@
                    } else {
                        ""@
                    },
                ),
            )
        }
    }

    /// What is decided after `outcome`: to finish once all steps are used or
    /// the model stops, to run the tool that the model asks for, to tell the
    /// model what a tool gave, and to go on generating otherwise.
    pub open spec fn follows(
        self,
        t: TrajectoryView,
        outcome: StepOutcomeView,
        d: PolicyDecisionView,
    ) -> bool {
        if t.history.len() >= self.max_steps {
            d is Finish
        } else {
            match outcome {
                StepOutcomeView::Generated { finish_reason, tool_call, .. } => match (
                    finish_reason,
                    tool_call,
                ) {
                    (FinishReason::ToolCall, Some(call)) => calls(d, call),
                    (FinishReason::Stop, _) => d is Finish,
                    _ => generates(d, GenerateDeltaView { token_ids: Seq::empty(), text: None }),
                },
                StepOutcomeView::ToolDone { result, .. } => generates(
                    d,
                    text_delta(tool_note(result.name, result.output)),
                ),
                StepOutcomeView::ControlDone { .. } => self.opens(t, d),
            }
        }
    }
}

impl Policy for ReActPolicy {
    fn name(&self) -> (res: String)
        ensures
            res@ == "react"@,
    {
        "react".to_string()
    }

    fn decide(&mut self, traj: &Trajectory) -> (res: Result<PolicyDecision, TrajectError>)
        ensures
            *final(self) == *old(self),
            res matches Ok(d) && old(self).opens(traj@, d@),
    {
        if traj.history.len() >= self.max_steps {
            return Ok(PolicyDecision::Finish);
        }
        if traj.history.len() == 0 {
            Ok(generate_from(self.system_prompt.as_str()))
        } else {
            Ok(generate_from(""))
        }
    }

    fn on_outcome(&mut self, traj: &Trajectory, outcome: &StepOutcome) -> (res: Result<
        PolicyDecision,
        TrajectError,
    >)
        ensures
            *final(self) == *old(self),
            res matches Ok(d) && old(self).follows(traj@, outcome@, d@),
            traj.history@.len() < old(self).max_steps ==> (
            outcome matches StepOutcome::ToolDone { result, .. } ==> (res matches Ok(d) && (
            d@ matches PolicyDecisionView::NextStep(StepView::Generate { delta, .. }) && (
            delta.text matches Some(said) && text::ends(said, result.output@))))),
    {
        if traj.history.len() >= self.max_steps {
            return Ok(PolicyDecision::Finish);
        }
        match outcome {
            StepOutcome::Generated { finish_reason, tool_call, .. } => {
                if *finish_reason == FinishReason::ToolCall {
                    if let Some(call) = tool_call {
                        return Ok(PolicyDecision::NextStep(Step::tool(call.clone(), 30_000)));
                    }
                }
                if *finish_reason == FinishReason::Stop {
                    return Ok(PolicyDecision::Finish);
                }
                Ok(
                    PolicyDecision::NextStep(
                        Step::generate(GenerateDelta::default(), Constraints::default(), 256),
                    ),
                )
            },
            StepOutcome::ToolDone { result, .. } => {
                let note = tool_text(&result.name, &result.output);
                proof {
                    lemma_note(result.name@, result.output@);
                }
                Ok(generate_from(note.as_str()))
            },
            StepOutcome::ControlDone { .. } => self.decide(traj),
        }
    }
}

/// A policy that answers every question never runs over its limit: at the
/// limit it finishes, whatever happened.
pub proof fn law_react_stops_at_limit(
    p: ReActPolicy,
    t: TrajectoryView,
    outcome: StepOutcomeView,
    d: PolicyDecisionView,
)
    requires
        t.history.len() >= p.max_steps,
        p.opens(t, d) || p.follows(t, outcome, d),
    ensures
        d is Finish,
{
}

/// After a tool, the model is told what it gave: the next step generates from a
/// text that names the tool and ends with the tool's output.
pub proof fn law_react_tells_tool_output(
    p: ReActPolicy,
    t: TrajectoryView,
    step_id: StepId,
    result: ToolResultView,
    d: PolicyDecisionView,
)
    requires
        t.history.len() < p.max_steps,
        p.follows(t, StepOutcomeView::ToolDone { step_id, result }, d),
    ensures
        ({
            &&& d is NextStep
            &&& d->NextStep_0 is Generate
            &&& d->NextStep_0->delta.text is Some
            &&& ({
                let said = d->NextStep_0->delta.text.unwrap();
                &&& text::ends(said, result.output)
                &&& text::begins(said, "tool "@ + result.name + " => "@)
                &&& said.len() == "tool "@.len() + result.name.len() + " => "@.len()
                    + result.output.len()
            })
        }),
{
    lemma_note(result.name, result.output);
}

/// What a tool gave can be told from what is said of it: two results of one
/// tool that differ lead to different texts.
pub proof fn law_tool_outputs_told_apart(name: Seq<char>, a: Seq<char>, b: Seq<char>)
    requires
        a != b,
    ensures
        tool_note(name, a) != tool_note(name, b),
        text::ends(tool_note(name, a), a),
        text::begins(tool_note(name, a), "tool "@ + name),
{
    lemma_note(name, a);
    lemma_note(name, b);
    let n = ("tool "@ + name + " => "@).len() as int;
    assert(tool_note(name, a).skip(n) =~= a);
    assert(tool_note(name, b).skip(n) =~= b);
    assert(tool_note(name, a).take(("tool "@ + name).len() as int) =~= "tool "@ + name);
}

pub(crate) proof fn lemma_note(name: Seq<char>, output: Seq<char>)
    ensures
        text::ends(tool_note(name, output), output),
        text::begins(tool_note(name, output), "tool "@ + name + " => "@),
{
    let s = tool_note(name, output);
    assert(s.skip(s.len() - output.len()) =~= output);
    assert(s.take(("tool "@ + name + " => "@).len() as int) =~= "tool "@ + name + " => "@);
}

/// The tool that the model asks for is the one that is run next, with the
/// model's arguments, for half a minute at most.
pub proof fn law_react_runs_the_tool(
    p: ReActPolicy,
    t: TrajectoryView,
    step_id: StepId,
    said: Seq<char>,
    token_ids: Seq<u32>,
    call: ToolCallView,
    d: PolicyDecisionView,
)
    requires
        t.history.len() < p.max_steps,
        p.follows(
            t,
            StepOutcomeView::Generated {
                step_id,
                text: said,
                token_ids,
                finish_reason: FinishReason::ToolCall,
                tool_call: Some(call),
            },
            d,
        ),
    ensures
        d is NextStep,
        d->NextStep_0 is Tool,
        d->NextStep_0->call.name == call.name,
        d->NextStep_0->call.arguments == call.arguments,
        d->NextStep_0->call.call_id == call.call_id,
        d->NextStep_0->timeout_ms == 30_000,
{
}

/// The policy finishes where the model stops, and only there or at its limit;
/// it never gives up.
pub proof fn law_react_finishes_when(
    p: ReActPolicy,
    t: TrajectoryView,
    outcome: StepOutcomeView,
    d: PolicyDecisionView,
)
    requires
        p.follows(t, outcome, d),
    ensures
        !(d is Fail),
        d is Finish <==> (t.history.len() >= p.max_steps || (outcome is Generated
            && outcome->finish_reason is Stop)),
{
}

/// A model that neither stops nor calls a tool goes on generating, without new
/// text, up to 256 tokens and without constraints.
pub proof fn law_react_goes_on(
    p: ReActPolicy,
    t: TrajectoryView,
    outcome: StepOutcomeView,
    d: PolicyDecisionView,
)
    requires
        t.history.len() < p.max_steps,
        outcome is Generated,
        outcome->finish_reason is Length || outcome->finish_reason is Cancelled || (
        outcome->finish_reason is ToolCall && outcome->tool_call is None),
        p.follows(t, outcome, d),
    ensures
        d is NextStep,
        d->NextStep_0 is Generate,
        d->NextStep_0->delta.text is None,
        d->NextStep_0->delta.token_ids.len() == 0,
        d->NextStep_0->max_tokens == 256,
        d->NextStep_0->constraints.temperature is None,
        d->NextStep_0->constraints.top_p is None,
        d->NextStep_0->constraints.stop_sequences.len() == 0,
        d->NextStep_0->constraints.grammar is None,
{
}

/// A trajectory begins with the system prompt, and a later question is put
/// without one.
pub proof fn law_react_begins_with_prompt(
    p: ReActPolicy,
    t: TrajectoryView,
    d: PolicyDecisionView,
)
    requires
        t.history.len() < p.max_steps,
        p.opens(t, d),
    ensures
        d is NextStep,
        d->NextStep_0 is Generate,
        d->NextStep_0->delta.token_ids.len() == 0,
        d->NextStep_0->max_tokens == 256,
        t.history.len() == 0 ==> d->NextStep_0->delta.text == Some(p.system_prompt@),
        t.history.len() > 0 ==> (d->NextStep_0->delta.text matches Some(s) && s.len() == 0),
{
    reveal_strlit("");
}

} // verus!
