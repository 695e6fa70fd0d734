//! Steps: the actions a trajectory takes, and their outcomes.
use vstd::prelude::*;

use crate::ids::StepId;
use crate::ids;
use crate::text;
use crate::text::{clone_opt, clone_texts};

verus! {

/// A 32-bit float as its bit pattern. The library hands sampling parameters
/// on to the engine and never computes with them.
#[derive(Debug, Clone, Copy, PartialEq, Eq, Structural)]
pub struct F32Bits(pub u32);

/// Prompt / context delta relative to the current prefix node.
#[derive(Debug)]
pub struct GenerateDelta {
    /// Token ids already known to the engine (preferred path).
    pub token_ids: Vec<u32>,
    /// Optional text form for backends that tokenize themselves.
    pub text: Option<String>,
}

#[verifier::ext_equal]
pub struct GenerateDeltaView {
    pub token_ids: Seq<u32>,
    pub text: Option<Seq<char>>,
}

impl View for GenerateDelta {
    type V = GenerateDeltaView;

    open spec fn view(&self) -> GenerateDeltaView {
        GenerateDeltaView { token_ids: self.token_ids@, text: text::opt_chars(self.text) }
    }
}

impl Default for GenerateDelta {
    fn default() -> (res: Self)
        ensures
            res@ == (GenerateDeltaView { token_ids: Seq::empty(), text: None }),
    {
        GenerateDelta { token_ids: Vec::new(), text: None }
    }
}

impl Clone for GenerateDelta {
    fn clone(&self) -> (res: Self)
        ensures
            res@ == self@,
    {
        let res = GenerateDelta { token_ids: self.token_ids.clone(), text: clone_opt(&self.text) };
        assert(res@ =~= self@);
        res
    }
}

impl GenerateDelta {
    pub fn from_text(text: &str) -> (res: Self)
        ensures
            res@ == (GenerateDeltaView { token_ids: Seq::empty(), text: Some(text@) }),
    {
        GenerateDelta { token_ids: Vec::new(), text: Some(text.to_string()) }
    }

    pub fn from_tokens(token_ids: Vec<u32>) -> (res: Self)
        ensures
            res@ == (GenerateDeltaView { token_ids: token_ids@, text: None }),
    {
        GenerateDelta { token_ids, text: None }
    }
}

/// Decoding / structured-output constraints for a generate step.
#[derive(Debug)]
pub struct Constraints {
    pub temperature: Option<F32Bits>,
    pub top_p: Option<F32Bits>,
    pub stop_sequences: Vec<String>,
    /// Optional JSON schema / grammar handle for constrained decoding.
    pub grammar: Option<String>,
}

#[verifier::ext_equal]
pub struct ConstraintsView {
    pub temperature: Option<F32Bits>,
    pub top_p: Option<F32Bits>,
    pub stop_sequences: Seq<Seq<char>>,
    pub grammar: Option<Seq<char>>,
}

impl ConstraintsView {
    /// No constraint at all.
    pub open spec fn free() -> ConstraintsView {
        ConstraintsView {
            temperature: None,
            top_p: None,
            stop_sequences: Seq::empty(),
            grammar: None,
        }
    }
}

impl View for Constraints {
    type V = ConstraintsView;

    open spec fn view(&self) -> ConstraintsView {
        ConstraintsView {
            temperature: self.temperature,
            top_p: self.top_p,
            stop_sequences: text::all_chars(self.stop_sequences@),
            grammar: text::opt_chars(self.grammar),
        }
    }
}

impl Default for Constraints {
    fn default() -> (res: Self)
        ensures
            res@ == ConstraintsView::free(),
    {
        let res = Constraints {
            temperature: None,
            top_p: None,
            stop_sequences: Vec::new(),
            grammar: None,
        };
        assert(res@ =~= ConstraintsView::free());
        res
    }
}

impl Clone for Constraints {
    fn clone(&self) -> (res: Self)
        ensures
            res@ == self@,
    {
        Constraints {
            temperature: self.temperature,
            top_p: self.top_p,
            stop_sequences: clone_texts(&self.stop_sequences),
            grammar: clone_opt(&self.grammar),
        }
    }
}

#[derive(Debug)]
pub struct ToolCall {
    pub name: String,
    pub arguments: String,
    pub call_id: Option<String>,
}

pub struct ToolCallView {
    pub name: Seq<char>,
    pub arguments: Seq<char>,
    pub call_id: Option<Seq<char>>,
}

impl View for ToolCall {
    type V = ToolCallView;

    open spec fn view(&self) -> ToolCallView {
        ToolCallView {
            name: self.name@,
            arguments: self.arguments@,
            call_id: text::opt_chars(self.call_id),
        }
    }
}

impl Clone for ToolCall {
    fn clone(&self) -> (res: Self)
        ensures
            res == *self,
    {
        ToolCall {
            name: self.name.clone(),
            arguments: self.arguments.clone(),
            call_id: clone_opt(&self.call_id),
        }
    }
}

#[derive(Debug)]
pub struct ToolResult {
    pub call_id: Option<String>,
    pub name: String,
    pub output: String,
    pub is_error: bool,
}

pub struct ToolResultView {
    pub call_id: Option<Seq<char>>,
    pub name: Seq<char>,
    pub output: Seq<char>,
    pub is_error: bool,
}

impl View for ToolResult {
    type V = ToolResultView;

    open spec fn view(&self) -> ToolResultView {
        ToolResultView {
            call_id: text::opt_chars(self.call_id),
            name: self.name@,
            output: self.output@,
            is_error: self.is_error,
        }
    }
}

impl Clone for ToolResult {
    fn clone(&self) -> (res: Self)
        ensures
            res == *self,
    {
        ToolResult {
            call_id: clone_opt(&self.call_id),
            name: self.name.clone(),
            output: self.output.clone(),
            is_error: self.is_error,
        }
    }
}

#[derive(Debug, Clone, Copy, PartialEq, Eq, Structural)]
pub enum ControlKind {
    Reflect,
    Plan,
    Branch,
    EarlyStop,
}

impl ControlKind {
    /// The name of the variant.
    pub open spec fn label(self) -> Seq<char> {
        match self {
            ControlKind::Reflect => "Reflect"@,
            ControlKind::Plan => "Plan"@,
            ControlKind::Branch => "Branch"@,
            ControlKind::EarlyStop => "EarlyStop"@,
        }
    }

    /// The name of the variant.
    pub fn name(self) -> (res: String)
        ensures
            res@ == self.label(),
    {
        match self {
            ControlKind::Reflect => "Reflect".to_string(),
            ControlKind::Plan => "Plan".to_string(),
            ControlKind::Branch => "Branch".to_string(),
            ControlKind::EarlyStop => "EarlyStop".to_string(),
        }
    }
}

/// One action on a trajectory.
#[derive(Debug)]
pub enum Step {
    Generate { id: StepId, delta: GenerateDelta, constraints: Constraints, max_tokens: u32 },
    Tool { id: StepId, call: ToolCall, timeout_ms: u64 },
    Control { id: StepId, kind: ControlKind, payload: Option<String> },
}

pub enum StepView {
    Generate {
        id: StepId,
        delta: GenerateDeltaView,
        constraints: ConstraintsView,
        max_tokens: u32,
    },
    Tool { id: StepId, call: ToolCallView, timeout_ms: u64 },
    Control { id: StepId, kind: ControlKind, payload: Option<Seq<char>> },
}

impl StepView {
    pub open spec fn id(self) -> StepId {
        match self {
            StepView::Generate { id, .. } => id,
            StepView::Tool { id, .. } => id,
            StepView::Control { id, .. } => id,
        }
    }
}

impl View for Step {
    type V = StepView;

    open spec fn view(&self) -> StepView {
        match *self {
            Step::Generate { id, delta, constraints, max_tokens } => StepView::Generate {
                id,
                delta: delta@,
                constraints: constraints@,
                max_tokens,
            },
            Step::Tool { id, call, timeout_ms } => StepView::Tool { id, call: call@, timeout_ms },
            Step::Control { id, kind, payload } => StepView::Control {
                id,
                kind,
                payload: text::opt_chars(payload),
            },
        }
    }
}

impl Clone for Step {
    fn clone(&self) -> (res: Self)
        ensures
            res@ == self@,
    {
        match self {
            Step::Generate { id, delta, constraints, max_tokens } => Step::Generate {
                id: *id,
                delta: delta.clone(),
                constraints: constraints.clone(),
                max_tokens: *max_tokens,
            },
            Step::Tool { id, call, timeout_ms } => Step::Tool {
                id: *id,
                call: call.clone(),
                timeout_ms: *timeout_ms,
            },
            Step::Control { id, kind, payload } => Step::Control {
                id: *id,
                kind: *kind,
                payload: clone_opt(payload),
            },
        }
    }
}

impl Step {
    pub fn id(&self) -> (res: StepId)
        ensures
            res == self@.id(),
    {
        match self {
            Step::Generate { id, .. } => *id,
            Step::Tool { id, .. } => *id,
            Step::Control { id, .. } => *id,
        }
    }

    /// A generate step under a fresh random id.
    pub fn generate(delta: GenerateDelta, constraints: Constraints, max_tokens: u32) -> (res: Self)
        ensures
            ids::is_random_id(res@.id().0),
            res@ == (StepView::Generate {
                id: res@.id(),
                delta: delta@,
                constraints: constraints@,
                max_tokens,
            }),
    {
        Step::Generate { id: StepId::new(), delta, constraints, max_tokens }
    }

    /// A tool step under a fresh random id.
    pub fn tool(call: ToolCall, timeout_ms: u64) -> (res: Self)
        ensures
            ids::is_random_id(res@.id().0),
            res@ == (StepView::Tool { id: res@.id(), call: call@, timeout_ms }),
    {
        Step::Tool { id: StepId::new(), call, timeout_ms }
    }

    /// A control step under a fresh random id.
    pub fn control(kind: ControlKind, payload: Option<String>) -> (res: Self)
        ensures
            ids::is_random_id(res@.id().0),
            res@ == (StepView::Control { id: res@.id(), kind, payload: text::opt_chars(payload) }),
    {
        Step::Control { id: StepId::new(), kind, payload }
    }

    pub fn is_generate(&self) -> (res: bool)
        ensures
            res == (self@ is Generate),
    {
        matches!(self, Step::Generate { .. })
    }

    pub fn is_tool(&self) -> (res: bool)
        ensures
            res == (self@ is Tool),
    {
        matches!(self, Step::Tool { .. })
    }
}

#[derive(Debug, Clone, Copy, PartialEq, Eq, Structural)]
pub enum FinishReason {
    Stop,
    Length,
    ToolCall,
    Cancelled,
}

/// Outcome produced after a step finishes (fed back into the trajectory).
#[derive(Debug)]
pub enum StepOutcome {
    Generated {
        step_id: StepId,
        text: String,
        token_ids: Vec<u32>,
        finish_reason: FinishReason,
        /// Parsed tool call if the model emitted one.
        tool_call: Option<ToolCall>,
    },
    ToolDone { step_id: StepId, result: ToolResult },
    ControlDone { step_id: StepId, kind: ControlKind, note: Option<String> },
}

pub enum StepOutcomeView {
    Generated {
        step_id: StepId,
        text: Seq<char>,
        token_ids: Seq<u32>,
        finish_reason: FinishReason,
        tool_call: Option<ToolCallView>,
    },
    ToolDone { step_id: StepId, result: ToolResultView },
    ControlDone { step_id: StepId, kind: ControlKind, note: Option<Seq<char>> },
}

impl StepOutcomeView {
    pub open spec fn step_id(self) -> StepId {
        match self {
            StepOutcomeView::Generated { step_id, .. } => step_id,
            StepOutcomeView::ToolDone { step_id, .. } => step_id,
            StepOutcomeView::ControlDone { step_id, .. } => step_id,
        }
    }
}

/// The view of an optional tool call.
pub open spec fn opt_call(o: Option<ToolCall>) -> Option<ToolCallView> {
    match o {
        Some(c) => Some(c@),
        None => None,
    }
}

pub fn clone_call(o: &Option<ToolCall>) -> (res: Option<ToolCall>)
    ensures
        res == *o,
{
    match o {
        Some(c) => Some(c.clone()),
        None => None,
    }
}

impl View for StepOutcome {
    type V = StepOutcomeView;

    open spec fn view(&self) -> StepOutcomeView {
        match *self {
            StepOutcome::Generated { step_id, text, token_ids, finish_reason, tool_call } =>
                StepOutcomeView::Generated {
                step_id,
                text: text@,
                token_ids: token_ids@,
                finish_reason,
                tool_call: opt_call(tool_call),
            },
            StepOutcome::ToolDone { step_id, result } => StepOutcomeView::ToolDone {
                step_id,
                result: result@,
            },
            StepOutcome::ControlDone { step_id, kind, note } => StepOutcomeView::ControlDone {
                step_id,
                kind,
                note: text::opt_chars(note),
            },
        }
    }
}

impl Clone for StepOutcome {
    fn clone(&self) -> (res: Self)
        ensures
            res@ == self@,
    {
        match self {
            StepOutcome::Generated { step_id, text, token_ids, finish_reason, tool_call } => {
                let tokens = token_ids.clone();
                assert(tokens@ =~= token_ids@);
                StepOutcome::Generated {
                    step_id: *step_id,
                    text: text.clone(),
                    token_ids: tokens,
                    finish_reason: *finish_reason,
                    tool_call: clone_call(tool_call),
                }
            },
            StepOutcome::ToolDone { step_id, result } => StepOutcome::ToolDone {
                step_id: *step_id,
                result: result.clone(),
            },
            StepOutcome::ControlDone { step_id, kind, note } => StepOutcome::ControlDone {
                step_id: *step_id,
                kind: *kind,
                note: clone_opt(note),
            },
        }
    }
}

impl StepOutcome {
    /// The step this outcome belongs to.
    pub fn step_id(&self) -> (res: StepId)
        ensures
            res == self@.step_id(),
    {
        match self {
            StepOutcome::Generated { step_id, .. } => *step_id,
            StepOutcome::ToolDone { step_id, .. } => *step_id,
            StepOutcome::ControlDone { step_id, .. } => *step_id,
        }
    }
}

/// What is known of a step, an outcome, a call and a result is what they hold.
pub proof fn law_known_as_held(s: Step, o: StepOutcome, c: ToolCall, r: ToolResult, k: ControlKind)
    ensures
        s matches Step::Generate { id, delta, constraints, max_tokens } ==> s@
            == (StepView::Generate {
            id,
            delta: delta@,
            constraints: constraints@,
            max_tokens,
        }) && s@.id() == id && delta@.token_ids == delta.token_ids@,
        s matches Step::Tool { id, call, timeout_ms } ==> s@ == (StepView::Tool {
            id,
            call: call@,
            timeout_ms,
        }) && s@.id() == id,
        o matches StepOutcome::Generated { step_id, text, token_ids, finish_reason, tool_call } ==> o@
            == (StepOutcomeView::Generated {
            step_id,
            text: text@,
            token_ids: token_ids@,
            finish_reason,
            tool_call: opt_call(tool_call),
        }) && o@.step_id() == step_id,
        o matches StepOutcome::ToolDone { step_id, result } ==> o@ == (StepOutcomeView::ToolDone {
            step_id,
            result: result@,
        }) && o@.step_id() == step_id,
        c@.name == c.name@,
        c@.arguments == c.arguments@,
        r@.output == r.output@,
        r@.name == r.name@,
        r@.is_error == r.is_error,
        k.label() == match k {
            ControlKind::Reflect => "Reflect"@,
            ControlKind::Plan => "Plan"@,
            ControlKind::Branch => "Branch"@,
            ControlKind::EarlyStop => "EarlyStop"@,
        },
{
}

} // verus!
