//! A whole model: its ends, its layers, and the sizes that follow from them.
use vstd::prelude::*;

use crate::error::{TrajectError, TrajectErrorView};
use crate::inference::local_plan;
use crate::inference::local_plan::{
    attention_width, check_model_shapes, local_layer_count, vocabulary, LayerShape,
};
use crate::inference::weights::catalog::{CatalogView, SafetensorCatalog, TensorF32View};
use crate::inference::weights::hf_config::HfModelConfig;
use crate::inference::weights::layers;
use crate::inference::weights::layers::{load_embed_head_norm, load_layer_stack, LayerBlock};
use crate::step::F32Bits;

verus! {

/// The bits of 10000, the base of the rotation where the configuration names
/// none.
pub const BASE_THETA: u32 = 0x461C_4000;

/// The weights of a model as they stand in its files; numbers are held by
/// their bits.
#[derive(Debug)]
pub struct ModelWeights {
    pub vocab: u32,
    pub hidden: usize,
    /// The width of attention.
    pub attn_dim: usize,
    /// One row of `hidden` values for each word.
    pub embed: Vec<u32>,
    /// One row of `hidden` values for each word.
    pub head: Vec<u32>,
    /// The norm before the output weights.
    pub norm: Option<Vec<u32>>,
    /// The blocks, none of them if one cannot be loaded.
    pub layers: Vec<LayerBlock>,
    pub source: String,
    pub eos_token_id: Option<u32>,
    pub rope_theta: F32Bits,
}

/// What the surroundings ask of a model.
#[derive(Debug, Clone, Copy, PartialEq, Eq, Structural)]
pub struct LoadAsk {
    /// Heads of attention where no layer says otherwise.
    pub heads: u32,
    /// Values of each of those heads.
    pub head_dim: u32,
    /// How many layers to load.
    pub layers: Option<usize>,
    /// How many layers to load at most.
    pub layer_cap: Option<usize>,
    /// How many experts of a layer to keep in memory.
    pub expert_cache: usize,
}

/// Groups of the output projection that a configuration states.
pub open spec fn groups_stated(config: Option<HfModelConfig>) -> usize {
    layers::groups_or(match config {
        Some(c) => c.o_groups,
        None => None,
    })
}

/// Rank of those groups that a configuration states.
pub open spec fn rank_stated(config: Option<HfModelConfig>) -> usize {
    layers::rank_or(match config {
        Some(c) => c.o_lora_rank,
        None => None,
    })
}

/// The shape of the tensor under a name that is there.
pub open spec fn shape_under(c: CatalogView, name: Option<Seq<char>>) -> Seq<usize> {
    match name {
        Some(n) => match c.raw(n) {
            Some(r) => r.shape,
            None => Seq::empty(),
        },
        None => Seq::empty(),
    }
}

/// The shape of the embedding.
pub open spec fn embed_shape(c: CatalogView) -> Seq<usize> {
    shape_under(c, layers::first_dense(c, layers::embed_names()))
}

/// The shape of the output weights.
pub open spec fn head_shape(c: CatalogView) -> Seq<usize> {
    shape_under(c, layers::first_dense(c, layers::head_names()))
}

/// What keeps a model from being loaded: an end is not there, or the two do
/// not go together.
pub open spec fn load_fault(c: CatalogView) -> Option<TrajectErrorView> {
    match layers::ends_fault(c) {
        Some(e) => Some(e),
        None => local_plan::model_fault(embed_shape(c), head_shape(c)),
    }
}

/// Whether each of the first `n` layers can be loaded.
pub open spec fn stack_loads(c: CatalogView, n: nat) -> bool {
    forall|i: nat| i < n ==> #[trigger] layers::attn_fault(c, i) is None
}

/// How many layers are loaded if all of them can be.
pub open spec fn depth(config: Option<HfModelConfig>, ask: LoadAsk) -> int {
    let all = match config {
        Some(c) => match c.num_hidden_layers {
            Some(n) => n as int,
            None => 43,
        },
        None => 43,
    };
    local_plan::most(
        local_plan::least(
            local_plan::most(local_plan::or(ask.layers, 4), 1),
            local_plan::least(
                local_plan::most(local_plan::or(ask.layer_cap, local_plan::most(all, 1)), 1),
                all,
            ),
        ),
        1,
    )
}

impl ModelWeights {
    /// Whether these are the ends of a model.
    pub open spec fn ends_are(self, c: CatalogView) -> bool {
        &&& layers::first_dense(c, layers::embed_names()) matches Some(n) && c.dense(
            n,
            (TensorF32View {
                data: self.embed@,
                shape: embed_shape(c),
            }),
        )
        &&& layers::first_dense(c, layers::head_names()) matches Some(n) && c.dense(
            n,
            (TensorF32View {
                data: self.head@,
                shape: head_shape(c),
            }),
        )
        &&& match layers::first_dense(c, layers::norm_end_names()) {
            Some(n) => self.norm matches Some(t) && c.dense(
                n,
                (TensorF32View {
                    data: t@,
                    shape: shape_under(c, Some(n)),
                }),
            ),
            None => self.norm is None,
        }
    }

    /// Whether these are the layers of a model.
    pub open spec fn layers_are(
        self,
        c: CatalogView,
        config: Option<HfModelConfig>,
        ask: LoadAsk,
    ) -> bool {
        let n = depth(config, ask) as nat;
        &&& self.layers@.len() == if stack_loads(c, n) {
            n
        } else {
            0
        }
        &&& forall|i: int|
            0 <= i < self.layers@.len() ==> layers::block_is(
                c,
                i as nat,
                groups_stated(config),
                rank_stated(config),
                match config {
                    Some(f) => f.num_experts_per_tok,
                    None => None,
                },
                match config {
                    Some(f) => f.routed_scaling_factor,
                    None => None,
                },
                ask.expert_cache,
                #[trigger] self.layers@[i],
            )
    }

    /// Whether the sizes follow from the embedding, the configuration and the
    /// first layer.
    pub open spec fn sizes_are(
        self,
        c: CatalogView,
        config: Option<HfModelConfig>,
        ask: LoadAsk,
    ) -> bool {
        let rows = embed_shape(c)[0] as u32;
        &&& self.vocab == match config {
            Some(f) => local_plan::most(f.vocab_size as int, rows as int),
            None => rows as int,
        }
        &&& self.hidden == embed_shape(c)[1]
        &&& self.attn_dim == if self.layers@.len() > 0 && local_plan::rows_of(
            self.layers@[0].attn.wkv.shape(),
        ) > 0 {
            local_plan::rows_of(self.layers@[0].attn.wkv.shape()) as int
        } else {
            ask.heads * ask.head_dim
        }
        &&& self.eos_token_id == match config {
            Some(f) => match f.eos_token_id {
                Some(t) => Some(t),
                None => Some(1u32),
            },
            None => Some(1u32),
        }
        &&& self.rope_theta == match config {
            Some(f) => match f.rope_theta {
                Some(t) => t,
                None => F32Bits(BASE_THETA),
            },
            None => F32Bits(BASE_THETA),
        }
    }

    /// Loads a model. Its ends have to be there and to go together; without its
    /// layers it runs on projections of its own.
    pub fn from_safetensors(
        cat: &SafetensorCatalog,
        config: Option<&HfModelConfig>,
        ask: LoadAsk,
    ) -> (res: Result<Self, TrajectError>)
        requires
            cat.wf(),
            ask.heads * ask.head_dim <= u32::MAX,
            groups_stated(plain(config)) * rank_stated(plain(config)) <= usize::MAX,
        ensures
            match res {
                Ok(m) => {
                    &&& load_fault(cat@) is None
                    &&& m.ends_are(cat@)
                    &&& m.layers_are(cat@, plain(config), ask)
                    &&& m.sizes_are(cat@, plain(config), ask)
                    &&& m.source@ == "safetensors:"@ + cat@.root
                },
                Err(e) => load_fault(cat@) == Some(e@),
            },
    {
        let ends = match load_embed_head_norm(cat) {
            Ok(m) => m,
            Err(e) => {
                return Err(e);
            },
        };
        let (rows, hidden) = match check_model_shapes(&ends.embed.shape, &ends.head.shape) {
            Ok(r) => r,
            Err(e) => {
                return Err(e);
            },
        };
        let stated = Stated::of(config);
        let n: usize = local_layer_count(ask.layers, ask.layer_cap, stated.layers);
        let blocks = match load_layer_stack(
            cat,
            n,
            stated.groups,
            stated.rank,
            stated.experts_per_tok,
            stated.scale,
            ask.expert_cache,
        ) {
            Ok(bs) => {
                assert forall|i: nat| i < bs@.len() implies #[trigger] layers::attn_fault(
                    cat@,
                    i,
                ) is None by {
                    assert(bs@[i as int].layer == i);
                }
                bs
            },
            Err(_) => Vec::new(),
        };
        let first: Option<usize> = if blocks.len() > 0 {
            Some(blocks[0].attn.kv_dim())
        } else {
            None
        };
        let attn_dim: usize = attention_width(ask.heads, ask.head_dim, first);
        let mut source = "safetensors:".to_string();
        source.append(cat.root());
        let norm = match ends.norm {
            Some(t) => Some(t.data),
            None => None,
        };
        let res = ModelWeights {
            vocab: vocabulary(rows, stated.vocab),
            hidden,
            attn_dim,
            embed: ends.embed.data,
            head: ends.head.data,
            norm,
            layers: blocks,
            source,
            eos_token_id: match stated.eos {
                Some(t) => Some(t),
                None => Some(1),
            },
            rope_theta: match stated.theta {
                Some(t) => t,
                None => F32Bits(BASE_THETA),
            },
        };
        Ok(res)
    }

    /// How many layers are loaded.
    pub fn n_layers(&self) -> (res: usize)
        ensures
            res == self.layers@.len(),
    {
        self.layers.len()
    }

    /// Whether the first layer's attention is loaded.
    pub fn has_layer0_attn(&self) -> (res: bool)
        ensures
            res == (self.layers@.len() > 0),
    {
        self.layers.len() > 0
    }

    /// Whether the first layer's shared expert is loaded.
    pub fn has_layer0_ffn(&self) -> (res: bool)
        ensures
            res == (self.layers@.len() > 0 && self.layers@[0].ffn is Some),
    {
        self.layers.len() > 0 && self.layers[0].ffn.is_some()
    }

    /// Whether the first layer's routed experts are loaded.
    pub fn has_layer0_moe(&self) -> (res: bool)
        ensures
            res == (self.layers@.len() > 0 && self.layers@[0].moe is Some),
    {
        self.layers.len() > 0 && self.layers[0].moe.is_some()
    }

    /// Whether the first layer expands its queries to several heads.
    pub fn has_layer0_q_expand(&self) -> (res: bool)
        ensures
            res == (self.layers@.len() > 0 && self.layers@[0].attn.wq_b is Some),
    {
        self.layers.len() > 0 && self.layers[0].attn.has_q_expand()
    }

    /// Whether the first layer projects its output.
    pub fn has_layer0_o_proj(&self) -> (res: bool)
        ensures
            res == (self.layers@.len() > 0 && self.layers@[0].attn.wo_b is Some),
    {
        self.layers.len() > 0 && self.layers[0].attn.has_o_proj()
    }

    /// What the layout of attention needs to know of the first layer.
    pub fn first_shape(&self) -> (res: Option<LayerShape>)
        ensures
            res == if self.layers@.len() > 0 {
                Some(
                    LayerShape {
                        has_q_expand: self.layers@[0].attn.wq_b is Some,
                        kv_dim: local_plan::rows_of(self.layers@[0].attn.wkv.shape()) as usize,
                        n_heads: self.layers@[0].attn.n_heads,
                    },
                )
            } else {
                None
            },
    {
        if self.layers.len() == 0 {
            return None;
        }
        let a = &self.layers[0].attn;
        Some(
            LayerShape {
                has_q_expand: a.has_q_expand(),
                kv_dim: a.kv_dim(),
                n_heads: a.n_heads,
            },
        )
    }
}

/// A configuration that is looked at, as one that is held.
pub open spec fn plain(config: Option<&HfModelConfig>) -> Option<HfModelConfig> {
    match config {
        Some(c) => Some(*c),
        None => None,
    }
}

/// What a configuration states of the things that loading asks for.
struct Stated {
    layers: Option<u32>,
    groups: Option<u32>,
    rank: Option<u32>,
    experts_per_tok: Option<u32>,
    scale: Option<F32Bits>,
    vocab: Option<u32>,
    eos: Option<u32>,
    theta: Option<F32Bits>,
}

impl Stated {
    fn of(config: Option<&HfModelConfig>) -> (res: Self)
        ensures
            match config {
                Some(c) => res == (Stated {
                    layers: c.num_hidden_layers,
                    groups: c.o_groups,
                    rank: c.o_lora_rank,
                    experts_per_tok: c.num_experts_per_tok,
                    scale: c.routed_scaling_factor,
                    vocab: Some(c.vocab_size),
                    eos: c.eos_token_id,
                    theta: c.rope_theta,
                }),
                None => res == (Stated {
                    layers: None,
                    groups: None,
                    rank: None,
                    experts_per_tok: None,
                    scale: None,
                    vocab: None,
                    eos: None,
                    theta: None,
                }),
            },
    {
        match config {
            Some(c) => Stated {
                layers: c.num_hidden_layers,
                groups: c.o_groups,
                rank: c.o_lora_rank,
                experts_per_tok: c.num_experts_per_tok,
                scale: c.routed_scaling_factor,
                vocab: Some(c.vocab_size),
                eos: c.eos_token_id,
                theta: c.rope_theta,
            },
            None => Stated {
                layers: None,
                groups: None,
                rank: None,
                experts_per_tok: None,
                scale: None,
                vocab: None,
                eos: None,
                theta: None,
            },
        }
    }
}

/// A model's layers are loaded together or not at all.
pub proof fn law_layers_together(
    m: ModelWeights,
    c: CatalogView,
    config: Option<HfModelConfig>,
    ask: LoadAsk,
)
    requires
        m.layers_are(c, config, ask),
    ensures
        m.layers@.len() == 0 || m.layers@.len() == depth(config, ask),
        (m.layers@.len() == 0) == exists|i: nat|
            i < depth(config, ask) && #[trigger] layers::attn_fault(c, i) is Some,
{
}

} // verus!
