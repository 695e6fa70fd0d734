//! Requests for, and results of, one chunk of generation.
use vstd::prelude::*;

use crate::ids::{PrefixNodeId, StepId, TrajectoryId};
use crate::step;
use crate::step::{
    clone_call, Constraints, ConstraintsView, FinishReason, GenerateDelta, GenerateDeltaView,
    ToolCall, ToolCallView,
};
use crate::text;
use crate::text::clone_opt;

verus! {

#[derive(Debug)]
pub struct ChunkRequest {
    pub trajectory_id: TrajectoryId,
    pub step_id: StepId,
    pub prefix: Option<PrefixNodeId>,
    pub delta: GenerateDelta,
    pub constraints: Constraints,
    pub chunk_tokens: u32,
    pub decoded_so_far: u32,
    pub max_tokens: u32,
    /// Agent session id (stable across generate/tool turns).
    pub session_id: Option<String>,
    /// Opaque engine-side prefix hint (string form of `PrefixNodeId` or radix key).
    pub prefix_hint: Option<String>,
}

pub struct ChunkRequestView {
    pub trajectory_id: TrajectoryId,
    pub step_id: StepId,
    pub prefix: Option<PrefixNodeId>,
    pub delta: GenerateDeltaView,
    pub constraints: ConstraintsView,
    pub chunk_tokens: u32,
    pub decoded_so_far: u32,
    pub max_tokens: u32,
    pub session_id: Option<Seq<char>>,
    pub prefix_hint: Option<Seq<char>>,
}

impl View for ChunkRequest {
    type V = ChunkRequestView;

    open spec fn view(&self) -> ChunkRequestView {
        ChunkRequestView {
            trajectory_id: self.trajectory_id,
            step_id: self.step_id,
            prefix: self.prefix,
            delta: self.delta@,
            constraints: self.constraints@,
            chunk_tokens: self.chunk_tokens,
            decoded_so_far: self.decoded_so_far,
            max_tokens: self.max_tokens,
            session_id: text::opt_chars(self.session_id),
            prefix_hint: text::opt_chars(self.prefix_hint),
        }
    }
}

impl Clone for ChunkRequest {
    fn clone(&self) -> (res: Self)
        ensures
            res@ == self@,
    {
        ChunkRequest {
            trajectory_id: self.trajectory_id,
            step_id: self.step_id,
            prefix: self.prefix,
            delta: self.delta.clone(),
            constraints: self.constraints.clone(),
            chunk_tokens: self.chunk_tokens,
            decoded_so_far: self.decoded_so_far,
            max_tokens: self.max_tokens,
            session_id: clone_opt(&self.session_id),
            prefix_hint: clone_opt(&self.prefix_hint),
        }
    }
}

#[derive(Debug)]
pub struct ChunkResult {
    pub text: String,
    pub token_ids: Vec<u32>,
    pub tokens_produced: u32,
    pub finished: bool,
    pub finish_reason: Option<FinishReason>,
    pub tool_call: Option<ToolCall>,
    pub new_prefix: Option<PrefixNodeId>,
    /// Tokens served from engine radix / prefix cache.
    pub cache_hit_tokens: u32,
}

#[verifier::ext_equal]
pub struct ChunkResultView {
    pub text: Seq<char>,
    pub token_ids: Seq<u32>,
    pub tokens_produced: u32,
    pub finished: bool,
    pub finish_reason: Option<FinishReason>,
    pub tool_call: Option<ToolCallView>,
    pub new_prefix: Option<PrefixNodeId>,
    pub cache_hit_tokens: u32,
}

impl View for ChunkResult {
    type V = ChunkResultView;

    open spec fn view(&self) -> ChunkResultView {
        ChunkResultView {
            text: self.text@,
            token_ids: self.token_ids@,
            tokens_produced: self.tokens_produced,
            finished: self.finished,
            finish_reason: self.finish_reason,
            tool_call: step::opt_call(self.tool_call),
            new_prefix: self.new_prefix,
            cache_hit_tokens: self.cache_hit_tokens,
        }
    }
}

impl Clone for ChunkResult {
    fn clone(&self) -> (res: Self)
        ensures
            res@ == self@,
    {
        let res = ChunkResult {
            text: self.text.clone(),
            token_ids: self.token_ids.clone(),
            tokens_produced: self.tokens_produced,
            finished: self.finished,
            finish_reason: self.finish_reason,
            tool_call: clone_call(&self.tool_call),
            new_prefix: self.new_prefix,
            cache_hit_tokens: self.cache_hit_tokens,
        };
        assert(res@ =~= self@);
        res
    }
}

} // verus!
