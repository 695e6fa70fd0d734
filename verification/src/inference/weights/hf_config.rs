//! The subset of a model's `config.json` that the local runner uses.
use vstd::prelude::*;

use crate::step::F32Bits;

verus! {

/// A model's configuration. What the file leaves out is not there, but for the
/// number of words and of hidden values.
#[derive(Debug)]
pub struct HfModelConfig {
    pub vocab_size: u32,
    pub hidden_size: u32,
    pub num_attention_heads: Option<u32>,
    pub num_key_value_heads: Option<u32>,
    pub head_dim: Option<u32>,
    pub num_hidden_layers: Option<u32>,
    pub eos_token_id: Option<u32>,
    pub bos_token_id: Option<u32>,
    pub model_type: Option<String>,
    pub architectures: Option<Vec<String>>,
    /// Groups of the output projection (e.g. 8).
    pub o_groups: Option<u32>,
    /// Rank of each group of the output projection (e.g. 1024).
    pub o_lora_rank: Option<u32>,
    /// Experts for each token (e.g. 6).
    pub num_experts_per_tok: Option<u32>,
    /// Multiplier on the routed expert sum (e.g. 1.5).
    pub routed_scaling_factor: Option<F32Bits>,
    /// Values at the end of each head that positions rotate.
    pub qk_rope_head_dim: Option<u32>,
    pub rope_theta: Option<F32Bits>,
    /// Parallel hidden streams.
    pub hc_mult: Option<u32>,
    pub hc_sinkhorn_iters: Option<u32>,
    pub hc_eps: Option<F32Bits>,
    pub sliding_window: Option<u32>,
    /// Compression by layer (0 is none).
    pub compress_ratios: Option<Vec<u32>>,
    pub compress_rope_theta: Option<F32Bits>,
    pub rope_scaling: Option<RopeScalingConfig>,
    pub index_n_heads: Option<u32>,
    pub index_head_dim: Option<u32>,
    pub index_topk: Option<u32>,
}

/// How positions are stretched beyond those that the model was trained on.
#[derive(Debug)]
pub struct RopeScalingConfig {
    pub kind: Option<String>,
    pub factor: Option<F32Bits>,
    pub original_max_position_embeddings: Option<u32>,
    pub beta_fast: Option<F32Bits>,
    pub beta_slow: Option<F32Bits>,
}

impl Default for RopeScalingConfig {
    fn default() -> (res: Self)
        ensures
            res == (RopeScalingConfig {
                kind: None,
                factor: None,
                original_max_position_embeddings: None,
                beta_fast: None,
                beta_slow: None,
            }),
    {
        RopeScalingConfig {
            kind: None,
            factor: None,
            original_max_position_embeddings: None,
            beta_fast: None,
            beta_slow: None,
        }
    }
}

/// What an empty `config.json` says.
pub open spec fn bare() -> HfModelConfig {
    HfModelConfig {
        vocab_size: 32000,
        hidden_size: 4096,
        num_attention_heads: None,
        num_key_value_heads: None,
        head_dim: None,
        num_hidden_layers: None,
        eos_token_id: None,
        bos_token_id: None,
        model_type: None,
        architectures: None,
        o_groups: None,
        o_lora_rank: None,
        num_experts_per_tok: None,
        routed_scaling_factor: None,
        qk_rope_head_dim: None,
        rope_theta: None,
        hc_mult: None,
        hc_sinkhorn_iters: None,
        hc_eps: None,
        sliding_window: None,
        compress_ratios: None,
        compress_rope_theta: None,
        rope_scaling: None,
        index_n_heads: None,
        index_head_dim: None,
        index_topk: None,
    }
}

impl Default for HfModelConfig {
    fn default() -> (res: Self)
        ensures
            res == bare(),
    {
        HfModelConfig {
            vocab_size: 32000,
            hidden_size: 4096,
            num_attention_heads: None,
            num_key_value_heads: None,
            head_dim: None,
            num_hidden_layers: None,
            eos_token_id: None,
            bos_token_id: None,
            model_type: None,
            architectures: None,
            o_groups: None,
            o_lora_rank: None,
            num_experts_per_tok: None,
            routed_scaling_factor: None,
            qk_rope_head_dim: None,
            rope_theta: None,
            hc_mult: None,
            hc_sinkhorn_iters: None,
            hc_eps: None,
            sliding_window: None,
            compress_ratios: None,
            compress_rope_theta: None,
            rope_scaling: None,
            index_n_heads: None,
            index_head_dim: None,
            index_topk: None,
        }
    }
}

/// A configuration that states nothing has the sizes of a small model and leaves
/// everything else open.
pub proof fn law_bare()
    ensures
        bare().vocab_size == 32000,
        bare().hidden_size == 4096,
        bare().num_hidden_layers is None,
        bare().num_attention_heads is None,
        bare().head_dim is None,
        bare().eos_token_id is None,
        bare().rope_theta is None,
        bare().sliding_window is None,
        bare().o_groups is None,
        bare().num_experts_per_tok is None,
{
}

} // verus!
