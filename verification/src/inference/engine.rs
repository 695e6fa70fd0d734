//! The engine over a backend, and a backend that needs no model.
use std::collections::HashMap;
use vstd::prelude::*;

use crate::ids;
use crate::ids::{PrefixNodeId, StepId, TrajectoryId};
use crate::inference::chunked::{ChunkRequest, ChunkRequestView, ChunkResult, ChunkResultView};
use crate::scheduler::scheduler;
use crate::step::{
    Constraints, ConstraintsView, FinishReason, GenerateDelta, GenerateDeltaView, ToolCall,
    ToolCallView,
};
use crate::text;
use crate::text::clone_opt;

verus! {

#[derive(Debug)]
pub struct GenerateRequest {
    pub trajectory_id: TrajectoryId,
    pub step_id: StepId,
    pub prefix: Option<PrefixNodeId>,
    pub delta: GenerateDelta,
    pub constraints: Constraints,
    pub max_tokens: u32,
    /// Stable agent session across generate/tool turns.
    pub session_id: Option<String>,
    /// Engine radix / prefix handle from the memory manager.
    pub prefix_hint: Option<String>,
}

pub struct GenerateRequestView {
    pub trajectory_id: TrajectoryId,
    pub step_id: StepId,
    pub prefix: Option<PrefixNodeId>,
    pub delta: GenerateDeltaView,
    pub constraints: ConstraintsView,
    pub max_tokens: u32,
    pub session_id: Option<Seq<char>>,
    pub prefix_hint: Option<Seq<char>>,
}

impl View for GenerateRequest {
    type V = GenerateRequestView;

    open spec fn view(&self) -> GenerateRequestView {
        GenerateRequestView {
            trajectory_id: self.trajectory_id,
            step_id: self.step_id,
            prefix: self.prefix,
            delta: self.delta@,
            constraints: self.constraints@,
            max_tokens: self.max_tokens,
            session_id: text::opt_chars(self.session_id),
            prefix_hint: text::opt_chars(self.prefix_hint),
        }
    }
}

impl Clone for GenerateRequest {
    fn clone(&self) -> (res: Self)
        ensures
            res@ == self@,
    {
        GenerateRequest {
            trajectory_id: self.trajectory_id,
            step_id: self.step_id,
            prefix: self.prefix,
            delta: self.delta.clone(),
            constraints: self.constraints.clone(),
            max_tokens: self.max_tokens,
            session_id: clone_opt(&self.session_id),
            prefix_hint: clone_opt(&self.prefix_hint),
        }
    }
}

/// What a whole generate step came to.
#[derive(Debug, Clone)]
pub struct GenerateResult {
    pub text: String,
    pub token_ids: Vec<u32>,
    pub finish_reason: FinishReason,
    pub tool_call: Option<ToolCall>,
    pub new_prefix: Option<PrefixNodeId>,
}

impl GenerateRequestView {
    /// The request for one chunk: the prefix is hinted at by the engine's own
    /// handle where there is one, else by its id.
    pub open spec fn chunk(self, chunk_tokens: u32, decoded_so_far: u32) -> ChunkRequestView {
        ChunkRequestView {
            trajectory_id: self.trajectory_id,
            step_id: self.step_id,
            prefix: self.prefix,
            delta: self.delta,
            constraints: self.constraints,
            chunk_tokens,
            decoded_so_far,
            max_tokens: self.max_tokens,
            session_id: self.session_id,
            prefix_hint: match self.prefix_hint {
                Some(h) => Some(h),
                None => match self.prefix {
                    Some(p) => Some(ids::hyphenated(p.0)),
                    None => None,
                },
            },
        }
    }
}

/// Thin engine over a backend; owns chunking policy.
#[derive(Debug, Clone, Copy, PartialEq, Eq, Structural)]
pub struct InferenceEngine {
    pub default_chunk: u32,
}

impl InferenceEngine {
    pub fn new(default_chunk: u32) -> (res: Self)
        ensures
            res == (InferenceEngine { default_chunk }),
    {
        InferenceEngine { default_chunk }
    }

    /// What to ask the backend for: the chunk that was scheduled, which the
    /// default never cuts.
    pub fn run_chunk(&self, req: &GenerateRequest, chunk_tokens: u32, decoded_so_far: u32) -> (res:
        ChunkRequest)
        ensures
            res@ == req@.chunk(chunk_tokens, decoded_so_far),
    {
        let most: u32 = if self.default_chunk > chunk_tokens {
            self.default_chunk
        } else {
            chunk_tokens
        };
        let prefix_hint = match &req.prefix_hint {
            Some(h) => Some(h.clone()),
            None => match req.prefix {
                Some(p) => Some(p.to_text()),
                None => None,
            },
        };
        ChunkRequest {
            trajectory_id: req.trajectory_id,
            step_id: req.step_id,
            prefix: req.prefix,
            delta: req.delta.clone(),
            constraints: req.constraints.clone(),
            chunk_tokens: if chunk_tokens < most {
                chunk_tokens
            } else {
                most
            },
            decoded_so_far,
            max_tokens: req.max_tokens,
            session_id: clone_opt(&req.session_id),
            prefix_hint,
        }
    }
}

/// Stub behavior for bringing up the runtime without weights.
#[derive(Debug, Clone, Copy, PartialEq, Eq, Structural)]
pub enum StubMode {
    /// Always emit a final answer.
    AlwaysStop,
    /// Always emit a tool call (policy must cap steps).
    AlwaysTool,
    /// First N generates emit tool calls, then stop.
    ToolThenStop { remaining_tools: u32 },
    /// Emit `chunks` partial results then stop (tests interruptible decode).
    MultiChunk { chunks: u32 },
}

impl Default for StubMode {
    fn default() -> (res: Self)
        ensures
            res == StubMode::AlwaysStop,
    {
        StubMode::AlwaysStop
    }
}

/// A stub's mode, and what it has counted.
#[verifier::ext_equal]
pub struct StubView {
    pub mode: StubMode,
    /// Tool calls that are left, by trajectory.
    pub tool_budget: Map<u128, u32>,
    /// Chunks that were given, by step.
    pub chunk_progress: Map<u128, u32>,
}

/// The numbers from 0 on.
pub open spec fn counting(n: u32) -> Seq<u32> {
    Seq::new(n as nat, |i: int| i as u32)
}

impl StubView {
    pub open spec fn fresh(mode: StubMode) -> StubView {
        StubView { mode, tool_budget: Map::empty(), chunk_progress: Map::empty() }
    }

    /// How many chunks a step has been given.
    pub open spec fn seen(self, step: StepId) -> u32 {
        if self.chunk_progress.dom().contains(step.0) {
            self.chunk_progress[step.0]
        } else {
            0
        }
    }

    /// How many tool calls are left to a trajectory.
    pub open spec fn left(self, traj: TrajectoryId) -> u32 {
        if self.tool_budget.dom().contains(traj.0) {
            self.tool_budget[traj.0]
        } else {
            match self.mode {
                StubMode::ToolThenStop { remaining_tools } => remaining_tools,
                _ => 0,
            }
        }
    }

    /// Whether the next answer is a tool call.
    pub open spec fn calls_tool(self, traj: TrajectoryId) -> bool {
        match self.mode {
            StubMode::AlwaysStop | StubMode::MultiChunk { .. } => false,
            StubMode::AlwaysTool => true,
            StubMode::ToolThenStop { .. } => self.left(traj) > 0,
        }
    }

    /// After a tool call has been decided on for a trajectory.
    pub open spec fn asked(self, traj: TrajectoryId) -> StubView {
        match self.mode {
            StubMode::ToolThenStop { .. } => StubView {
                tool_budget: self.tool_budget.insert(
                    traj.0,
                    if self.left(traj) > 0 {
                        (self.left(traj) - 1) as u32
                    } else {
                        0
                    },
                ),
                ..self
            },
            _ => self,
        }
    }

    /// The answer to a request.
    pub open spec fn answer(self, req: ChunkRequestView) -> ChunkResultView {
        match self.mode {
            StubMode::MultiChunk { chunks } => {
                let produced = if req.chunk_tokens < 1 {
                    1
                } else {
                    req.chunk_tokens
                };
                let finished = self.seen(req.step_id) + 1 >= chunks;
                ChunkResultView {
                    text: if finished {
                        "ok"@
                    } else {
                        "…"@
                    },
                    token_ids: counting(produced),
                    tokens_produced: produced,
                    finished,
                    finish_reason: if finished {
                        Some(FinishReason::Stop)
                    } else {
                        None
                    },
                    tool_call: None,
                    new_prefix: None,
                    cache_hit_tokens: 0,
                }
            },
            _ => {
                let produced = scheduler::chunk_for(
                    req.chunk_tokens,
                    req.max_tokens,
                    req.decoded_so_far,
                );
                let tool = self.calls_tool(req.trajectory_id);
                ChunkResultView {
                    text: if tool {
                        "tool_call"@
                    } else {
                        "ok"@
                    },
                    token_ids: counting(produced),
                    tokens_produced: produced,
                    finished: true,
                    finish_reason: Some(
                        if tool {
                            FinishReason::ToolCall
                        } else {
                            FinishReason::Stop
                        },
                    ),
                    tool_call: if tool {
                        Some(
                            ToolCallView {
                                name: "echo"@,
                                arguments: "{\"msg\":\"stub\"}"@,
                                call_id: Some("call-"@ + ids::hyphenated(req.step_id.0)),
                            },
                        )
                    } else {
                        None
                    },
                    new_prefix: None,
                    cache_hit_tokens: 0,
                }
            },
        }
    }

    /// After a request has been answered.
    pub open spec fn after(self, req: ChunkRequestView) -> StubView {
        match self.mode {
            StubMode::MultiChunk { .. } => StubView {
                chunk_progress: self.chunk_progress.insert(
                    req.step_id.0,
                    (self.seen(req.step_id) + 1) as u32,
                ),
                ..self
            },
            _ => self.asked(req.trajectory_id),
        }
    }
}

/// Deterministic stub for bringing up the runtime without a real model.
#[derive(Debug)]
pub struct StubBackend {
    pub mode: StubMode,
    /// Per-trajectory remaining tool emissions for `ToolThenStop`.
    pub tool_budget: HashMap<u128, u32>,
    pub chunk_progress: HashMap<u128, u32>,
}

impl View for StubBackend {
    type V = StubView;

    open spec fn view(&self) -> StubView {
        StubView {
            mode: self.mode,
            tool_budget: self.tool_budget@,
            chunk_progress: self.chunk_progress@,
        }
    }
}

impl Default for StubBackend {
    fn default() -> (res: Self)
        ensures
            res@ == StubView::fresh(StubMode::AlwaysStop),
    {
        Self::with_mode(StubMode::AlwaysStop)
    }
}

/// The numbers from 0 on.
fn count_up(n: u32) -> (res: Vec<u32>)
    ensures
        res@ == counting(n),
{
    let mut res: Vec<u32> = Vec::new();
    let mut i: u32 = 0;
    while i < n
        invariant
            i <= n,
            res@ == counting(i),
        decreases n - i,
    {
        res.push(i);
        assert(counting((i + 1) as u32) =~= counting(i).push(i));
        i += 1;
    }
    res
}

impl StubBackend {
    fn with_mode(mode: StubMode) -> (res: Self)
        ensures
            res@ == StubView::fresh(mode),
    {
        StubBackend { mode, tool_budget: HashMap::new(), chunk_progress: HashMap::new() }
    }

    pub fn always_stop() -> (res: Self)
        ensures
            res@ == StubView::fresh(StubMode::AlwaysStop),
    {
        Self::default()
    }

    pub fn always_tool() -> (res: Self)
        ensures
            res@ == StubView::fresh(StubMode::AlwaysTool),
    {
        Self::with_mode(StubMode::AlwaysTool)
    }

    pub fn tool_then_stop(n: u32) -> (res: Self)
        ensures
            res@ == StubView::fresh(StubMode::ToolThenStop { remaining_tools: n }),
    {
        Self::with_mode(StubMode::ToolThenStop { remaining_tools: n })
    }

    /// One chunk at least.
    pub fn multi_chunk(chunks: u32) -> (res: Self)
        ensures
            res@ == StubView::fresh(
                StubMode::MultiChunk {
                    chunks: if chunks < 1 {
                        1
                    } else {
                        chunks
                    },
                },
            ),
    {
        Self::with_mode(
            StubMode::MultiChunk {
                chunks: if chunks < 1 {
                    1
                } else {
                    chunks
                },
            },
        )
    }

    fn should_emit_tool(&mut self, traj: TrajectoryId) -> (res: bool)
        ensures
            res == old(self)@.calls_tool(traj),
            final(self)@ == old(self)@.asked(traj),
    {
        broadcast use vstd::std_specs::hash::group_hash_axioms;

        match self.mode {
            StubMode::AlwaysStop | StubMode::MultiChunk { .. } => false,
            StubMode::AlwaysTool => true,
            StubMode::ToolThenStop { remaining_tools } => {
                let left: u32 = match self.tool_budget.get(&traj.0) {
                    Some(n) => *n,
                    None => remaining_tools,
                };
                if left == 0 {
                    self.tool_budget.insert(traj.0, 0);
                    false
                } else {
                    self.tool_budget.insert(traj.0, left - 1);
                    true
                }
            },
        }
    }

    /// Answers a request. The chunks of one step have to be countable.
    pub fn generate_chunk(&mut self, req: &ChunkRequest) -> (res: ChunkResult)
        requires
            old(self)@.seen(req@.step_id) < u32::MAX,
        ensures
            res@ == old(self)@.answer(req@),
            final(self)@ == old(self)@.after(req@),
    {
        broadcast use vstd::std_specs::hash::group_hash_axioms;

        if let StubMode::MultiChunk { chunks } = self.mode {
            let seen: u32 = match self.chunk_progress.get(&req.step_id.0) {
                Some(n) => *n,
                None => 0,
            };
            let idx: u32 = seen + 1;
            self.chunk_progress.insert(req.step_id.0, idx);
            let produced: u32 = if req.chunk_tokens < 1 {
                1
            } else {
                req.chunk_tokens
            };
            let finished = idx >= chunks;
            return ChunkResult {
                text: if finished {
                    "ok".to_string()
                } else {
                    "…".to_string()
                },
                token_ids: count_up(produced),
                tokens_produced: produced,
                finished,
                finish_reason: if finished {
                    Some(FinishReason::Stop)
                } else {
                    None
                },
                tool_call: None,
                new_prefix: None,
                cache_hit_tokens: 0,
            };
        }
        // One chunk completes the generate step.

        let left: u32 = req.max_tokens.saturating_sub(req.decoded_so_far);
        let most: u32 = if req.chunk_tokens < left {
            req.chunk_tokens
        } else {
            left
        };
        let produced: u32 = if most < 1 {
            1
        } else {
            most
        };
        if self.should_emit_tool(req.trajectory_id) {
            let mut call_id: String = "call-".to_string();
            call_id.append(req.step_id.to_text().as_str());
            ChunkResult {
                text: "tool_call".to_string(),
                token_ids: count_up(produced),
                tokens_produced: produced,
                finished: true,
                finish_reason: Some(FinishReason::ToolCall),
                tool_call: Some(
                    ToolCall {
                        name: "echo".to_string(),
                        arguments: "{\"msg\":\"stub\"}".to_string(),
                        call_id: Some(call_id),
                    },
                ),
                new_prefix: None,
                cache_hit_tokens: 0,
            }
        } else {
            ChunkResult {
                text: "ok".to_string(),
                token_ids: count_up(produced),
                tokens_produced: produced,
                finished: true,
                finish_reason: Some(FinishReason::Stop),
                tool_call: None,
                new_prefix: None,
                cache_hit_tokens: 0,
            }
        }
    }
}

/// A stub in tool-then-stop mode calls a tool for each trajectory as often as
/// it was told, and then stops.
pub proof fn law_tool_budget_runs_out(s: StubView, traj: TrajectoryId)
    requires
        s.mode is ToolThenStop,
    ensures
        s.calls_tool(traj) <==> s.left(traj) > 0,
        s.left(traj) > 0 ==> s.asked(traj).left(traj) == s.left(traj) - 1,
        s.left(traj) == 0 ==> s.asked(traj).left(traj) == 0,
{
}

/// A stub never says that it gave other tokens than it lists.
pub proof fn law_stub_counts_tokens(s: StubView, req: ChunkRequestView)
    ensures
        s.answer(req).token_ids.len() == s.answer(req).tokens_produced,
        s.answer(req).tokens_produced >= 1,
        s.answer(req).finished <==> s.answer(req).finish_reason is Some,
{
}

/// The backend is asked for what the request says and for the chunk that was
/// scheduled; the prefix is hinted at by the engine's own handle where there is
/// one, and else by its id.
pub proof fn law_request_goes_through(req: GenerateRequestView, chunk_tokens: u32, decoded: u32)
    ensures
        req.chunk(chunk_tokens, decoded).delta == req.delta,
        req.chunk(chunk_tokens, decoded).constraints == req.constraints,
        req.chunk(chunk_tokens, decoded).max_tokens == req.max_tokens,
        req.chunk(chunk_tokens, decoded).chunk_tokens == chunk_tokens,
        req.chunk(chunk_tokens, decoded).decoded_so_far == decoded,
        req.chunk(chunk_tokens, decoded).trajectory_id == req.trajectory_id,
        req.chunk(chunk_tokens, decoded).step_id == req.step_id,
        req.chunk(chunk_tokens, decoded).prefix == req.prefix,
        req.chunk(chunk_tokens, decoded).session_id == req.session_id,
        req.prefix_hint is Some ==> req.chunk(chunk_tokens, decoded).prefix_hint
            == req.prefix_hint,
        req.prefix_hint is None && req.prefix is Some ==> req.chunk(
            chunk_tokens,
            decoded,
        ).prefix_hint == Some(ids::hyphenated(req.prefix.unwrap().0)),
        req.prefix_hint is None && req.prefix is None ==> req.chunk(
            chunk_tokens,
            decoded,
        ).prefix_hint is None,
{
}

/// A stub answers as it was told to: one that always stops says so at once, one
/// that always calls tools calls the echo tool, and neither hands out more or
/// fewer tokens than the chunk and the limit make room for.
pub proof fn law_stub_answers(s: StubView, req: ChunkRequestView)
    ensures
        s.mode is AlwaysStop ==> s.answer(req).text == "ok"@ && s.answer(req).finished && s.answer(
            req,
        ).tool_call is None && s.answer(req).finish_reason == Some(FinishReason::Stop),
        s.mode is AlwaysTool ==> s.answer(req).finished && s.answer(req).finish_reason == Some(
            FinishReason::ToolCall,
        ) && (s.answer(req).tool_call matches Some(c) && c.name == "echo"@),
        !(s.mode is MultiChunk) && req.chunk_tokens >= 1 && req.decoded_so_far + req.chunk_tokens
            <= req.max_tokens ==> s.answer(req).tokens_produced == req.chunk_tokens,
        !(s.mode is MultiChunk) && req.decoded_so_far < req.max_tokens < req.decoded_so_far
            + req.chunk_tokens ==> s.answer(req).tokens_produced == req.max_tokens
            - req.decoded_so_far,
        s.mode is MultiChunk && req.chunk_tokens >= 1 ==> s.answer(req).tokens_produced
            == req.chunk_tokens,
        forall|i: int|
            0 <= i < s.answer(req).token_ids.len() ==> #[trigger] s.answer(req).token_ids[i] == i,
{
}

/// A stub that answers in several chunks finishes a step with the last of them
/// and not before, and counts each step for itself.
pub proof fn law_stub_chunks(s: StubView, req: ChunkRequestView, other: StepId)
    requires
        s.mode is MultiChunk,
        s.seen(req.step_id) < u32::MAX,
        other != req.step_id,
    ensures
        s.answer(req).finished <==> s.seen(req.step_id) + 1 >= s.mode->chunks,
        s.answer(req).finished ==> s.answer(req).text == "ok"@,
        s.after(req).seen(req.step_id) == s.seen(req.step_id) + 1,
        s.after(req).seen(other) == s.seen(other),
        StubView::fresh(s.mode).seen(req.step_id) == 0,
{
}

/// A stub counts the tools of each trajectory for itself, from the number that
/// it was told.
pub proof fn law_stub_tools_apart(
    s: StubView,
    req: ChunkRequestView,
    n: u32,
    other: TrajectoryId,
)
    requires
        other != req.trajectory_id,
    ensures
        s.after(req).left(other) == s.left(other),
        s.after(req).mode == s.mode,
        StubView::fresh(StubMode::ToolThenStop { remaining_tools: n }).left(other) == n,
        s.mode is ToolThenStop && s.left(req.trajectory_id) > 0 ==> s.after(req).left(
            req.trajectory_id,
        ) == s.left(req.trajectory_id) - 1 && s.answer(req).tool_call is Some,
        s.mode is ToolThenStop && s.left(req.trajectory_id) == 0 ==> s.answer(req).tool_call
            is None && s.answer(req).text == "ok"@,
{
}

} // verus!
