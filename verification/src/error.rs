//! What can go wrong.
use vstd::prelude::*;

use crate::ids::{PrefixNodeId, StepId, TrajectoryId};
use crate::text;
use crate::trajectory::TrajectoryState;

verus! {

#[derive(Debug)]
pub enum TrajectError {
    InvalidTransition { from: TrajectoryState, to: TrajectoryState },
    TrajectoryNotFound(TrajectoryId),
    StepNotFound(StepId),
    PrefixNotFound(PrefixNodeId),
    ToolTimeout { tool: String },
    ToolFailed { tool: String, reason: String },
    BudgetExhausted { kind: &'static str },
    Inference(String),
    MemoryPressure(String),
    Other(String),
}

pub enum TrajectErrorView {
    InvalidTransition { from: TrajectoryState, to: TrajectoryState },
    TrajectoryNotFound(TrajectoryId),
    StepNotFound(StepId),
    PrefixNotFound(PrefixNodeId),
    ToolTimeout { tool: Seq<char> },
    ToolFailed { tool: Seq<char>, reason: Seq<char> },
    BudgetExhausted { kind: Seq<char> },
    Inference(Seq<char>),
    MemoryPressure(Seq<char>),
    Other(Seq<char>),
}

impl View for TrajectError {
    type V = TrajectErrorView;

    open spec fn view(&self) -> TrajectErrorView {
        match *self {
            TrajectError::InvalidTransition { from, to } => TrajectErrorView::InvalidTransition {
                from,
                to,
            },
            TrajectError::TrajectoryNotFound(id) => TrajectErrorView::TrajectoryNotFound(id),
            TrajectError::StepNotFound(id) => TrajectErrorView::StepNotFound(id),
            TrajectError::PrefixNotFound(id) => TrajectErrorView::PrefixNotFound(id),
            TrajectError::ToolTimeout { tool } => TrajectErrorView::ToolTimeout { tool: tool@ },
            TrajectError::ToolFailed { tool, reason } => TrajectErrorView::ToolFailed {
                tool: tool@,
                reason: reason@,
            },
            TrajectError::BudgetExhausted { kind } => TrajectErrorView::BudgetExhausted {
                kind: kind@,
            },
            TrajectError::Inference(m) => TrajectErrorView::Inference(m@),
            TrajectError::MemoryPressure(m) => TrajectErrorView::MemoryPressure(m@),
            TrajectError::Other(m) => TrajectErrorView::Other(m@),
        }
    }
}

/// The view of a result whose success carries nothing.
pub open spec fn res_view(r: Result<(), TrajectError>) -> Result<(), TrajectErrorView> {
    match r {
        Ok(_) => Ok(()),
        Err(e) => Err(e@),
    }
}

impl TrajectErrorView {
    /// The message shown to people.
    pub open spec fn text(self) -> Seq<char> {
        match self {
            TrajectErrorView::InvalidTransition { from, to } =>
                "invalid trajectory state transition: "@ + from.label() + " → "@ + to.label(),
            TrajectErrorView::TrajectoryNotFound(id) => "trajectory not found: "@
                + crate::ids::hyphenated(id.0),
            TrajectErrorView::StepNotFound(id) => "step not found: "@ + crate::ids::hyphenated(
                id.0,
            ),
            TrajectErrorView::PrefixNotFound(id) => "prefix node not found: "@
                + crate::ids::hyphenated(id.0),
            TrajectErrorView::ToolTimeout { tool } => "tool timed out: "@ + tool,
            TrajectErrorView::ToolFailed { tool, reason } => "tool failed: "@ + tool + ": "@
                + reason,
            TrajectErrorView::BudgetExhausted { kind } => "budget exhausted: "@ + kind,
            TrajectErrorView::Inference(m) => "inference backend error: "@ + m,
            TrajectErrorView::MemoryPressure(m) => "memory pressure: "@ + m,
            TrajectErrorView::Other(m) => m,
        }
    }
}

/// That an error says `head`, and then `why`.
pub open spec fn says(e: TrajectErrorView, head: Seq<char>, why: Seq<char>) -> bool {
    e == TrajectErrorView::Other(head + why)
}

/// That an error says `head`, and then why, in words that are not known.
pub open spec fn tells(e: TrajectErrorView, head: Seq<char>) -> bool {
    exists|why: Seq<char>| #[trigger] says(e, head, why)
}

/// The error that says `head`, and then `why`.
pub fn because(head: &str, why: &str) -> (res: TrajectError)
    ensures
        says(res@, head@, why@),
        tells(res@, head@),
{
    let mut m = head.to_string();
    m.append(why);
    let res = TrajectError::Other(m);
    assert(says(res@, head@, why@));
    res
}

fn joined(head: &str, tail: &String) -> (res: String)
    ensures
        res@ == head@ + tail@,
{
    let mut s = head.to_string();
    s.append(tail.as_str());
    s
}

impl TrajectError {
    /// The message shown to people.
    pub fn message(&self) -> (res: String)
        ensures
            res@ == self@.text(),
    {
        match self {
            TrajectError::InvalidTransition { from, to } => {
                let mut s = joined("invalid trajectory state transition: ", &from.name());
                s.append(" → ");
                s.append(to.name().as_str());
                s
            },
            TrajectError::TrajectoryNotFound(id) => joined("trajectory not found: ", &id.to_text()),
            TrajectError::StepNotFound(id) => joined("step not found: ", &id.to_text()),
            TrajectError::PrefixNotFound(id) => joined("prefix node not found: ", &id.to_text()),
            TrajectError::ToolTimeout { tool } => joined("tool timed out: ", tool),
            TrajectError::ToolFailed { tool, reason } => {
                let mut s = joined("tool failed: ", tool);
                s.append(": ");
                s.append(reason.as_str());
                s
            },
            TrajectError::BudgetExhausted { kind } => joined("budget exhausted: ", &(*kind).to_string()),
            TrajectError::Inference(m) => joined("inference backend error: ", m),
            TrajectError::MemoryPressure(m) => joined("memory pressure: ", m),
            TrajectError::Other(m) => m.clone(),
        }
    }
}

/// An error that says why says both parts; a result is known by its error.
pub proof fn law_said(head: Seq<char>, why: Seq<char>, e: TrajectErrorView, r: Result<(), TrajectError>)
    ensures
        says(e, head, why) ==> e == TrajectErrorView::Other(head + why) && e.text() == head + why,
        tells(e, head) ==> (e matches TrajectErrorView::Other(m) && text::begins(m, head)),
        r is Ok ==> res_view(r) is Ok,
        r matches Err(x) ==> res_view(r) == Err::<(), TrajectErrorView>(x@),
{
    if tells(e, head) {
        let w = choose|w: Seq<char>| says(e, head, w);
        assert((head + w).take(head.len() as int) =~= head);
    }
}

} // verus!
