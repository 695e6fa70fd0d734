//! The shape of a local run: its configuration, what the environment says, and
//! how the loaded weights lay out attention.
use vstd::prelude::*;

use crate::error::{TrajectError, TrajectErrorView};
use crate::text;
use crate::text::{list_of_usize, parse_number};

verus! {

#[derive(Debug)]
pub struct LocalWeightConfig {
    pub vocab_size: u32,
    pub num_heads: u32,
    pub head_dim: u32,
    pub page_tokens: usize,
    pub max_new_tokens_default: u32,
    /// Model directory with config.json and sharded safetensors.
    pub model_dir: Option<String>,
    /// Prefer FlashInfer where it is there; otherwise the CPU reference.
    pub prefer_flashinfer: bool,
}

#[verifier::ext_equal]
pub struct LocalWeightConfigView {
    pub vocab_size: u32,
    pub num_heads: u32,
    pub head_dim: u32,
    pub page_tokens: usize,
    pub max_new_tokens_default: u32,
    pub model_dir: Option<Seq<char>>,
    pub prefer_flashinfer: bool,
}

impl View for LocalWeightConfig {
    type V = LocalWeightConfigView;

    open spec fn view(&self) -> LocalWeightConfigView {
        LocalWeightConfigView {
            vocab_size: self.vocab_size,
            num_heads: self.num_heads,
            head_dim: self.head_dim,
            page_tokens: self.page_tokens,
            max_new_tokens_default: self.max_new_tokens_default,
            model_dir: text::opt_chars(self.model_dir),
            prefer_flashinfer: self.prefer_flashinfer,
        }
    }
}

impl LocalWeightConfigView {
    /// A small model without weights on disk.
    pub open spec fn standard() -> LocalWeightConfigView {
        LocalWeightConfigView {
            vocab_size: 512,
            num_heads: 4,
            head_dim: 32,
            page_tokens: 16,
            max_new_tokens_default: 32,
            model_dir: None,
            prefer_flashinfer: true,
        }
    }

    /// For a model directory: where its configuration says how many words it
    /// knows, attention is kept small.
    pub open spec fn for_model(dir: Seq<char>, vocab: Option<u32>) -> LocalWeightConfigView {
        let base = LocalWeightConfigView {
            model_dir: Some(dir),
            ..LocalWeightConfigView::standard()
        };
        match vocab {
            Some(v) => LocalWeightConfigView { vocab_size: v, num_heads: 8, head_dim: 64, ..base },
            None => base,
        }
    }
}

impl Default for LocalWeightConfig {
    fn default() -> (res: Self)
        ensures
            res@ == LocalWeightConfigView::standard(),
    {
        LocalWeightConfig {
            vocab_size: 512,
            num_heads: 4,
            head_dim: 32,
            page_tokens: 16,
            max_new_tokens_default: 32,
            model_dir: None,
            prefer_flashinfer: true,
        }
    }
}

impl LocalWeightConfig {
    /// The configuration for a model directory, given the number of words
    /// that the model's own configuration states.
    pub fn from_model_dir(model_dir: &str, vocab: Option<u32>) -> (res: Self)
        ensures
            res@ == LocalWeightConfigView::for_model(model_dir@, vocab),
    {
        let mut cfg = LocalWeightConfig::default();
        if let Some(v) = vocab {
            cfg.vocab_size = v;
            // Small attention dimensions: the full ones are huge on a CPU.
            cfg.num_heads = 8;
            cfg.head_dim = 64;
        }
        cfg.model_dir = Some(model_dir.to_string());
        cfg
    }
}

/// A number that the environment gives: what a variable spells, if it does.
pub open spec fn spelled(var: Option<Seq<char>>) -> Option<nat> {
    match var {
        Some(s) => text::number(s, usize::MAX as nat),
        None => None,
    }
}

/// The number that a variable of the environment spells.
pub fn env_number(var: &Option<String>) -> (res: Option<usize>)
    ensures
        match res {
            Some(n) => spelled(text::opt_chars(*var)) == Some(n as nat),
            None => spelled(text::opt_chars(*var)) is None,
        },
{
    match var {
        Some(s) => match parse_number(s.as_str(), usize::MAX as u64) {
            Some(n) => Some(n as usize),
            None => None,
        },
        None => None,
    }
}

pub open spec fn or(n: Option<usize>, other: int) -> int {
    match n {
        Some(x) => x as int,
        None => other,
    }
}

pub open spec fn least(a: int, b: int) -> int {
    if a < b {
        a
    } else {
        b
    }
}

pub open spec fn most(a: int, b: int) -> int {
    if a < b {
        b
    } else {
        a
    }
}

fn min2(a: usize, b: usize) -> (res: usize)
    ensures
        res == least(a as int, b as int),
{
    if a < b {
        a
    } else {
        b
    }
}

fn max2(a: usize, b: usize) -> (res: usize)
    ensures
        res == most(a as int, b as int),
{
    if a < b {
        b
    } else {
        a
    }
}

/// Query heads to work with: all that the model has, or fewer where the
/// environment asks for fewer, and one at least.
pub fn attn_heads_to_use(asked: Option<usize>, model_heads: usize) -> (res: usize)
    ensures
        res == least(
            most(or(asked, most(model_heads as int, 1)), 1),
            most(model_heads as int, 1),
        ),
        1 <= res,
{
    let all: usize = max2(model_heads, 1);
    let want: usize = match asked {
        Some(n) => n,
        None => all,
    };
    min2(max2(want, 1), all)
}

/// How many layers to load: four unless the environment asks for another
/// number, and no more than its cap and the model's own depth.
pub fn local_layer_count(
    asked: Option<usize>,
    cap: Option<usize>,
    num_hidden_layers: Option<u32>,
) -> (res: usize)
    ensures
        ({
            let depth = match num_hidden_layers {
                Some(n) => n as int,
                None => 43,
            };
            res == least(
                most(or(asked, 4), 1),
                least(most(or(cap, most(depth, 1)), 1), depth),
            )
        }),
{
    let n: usize = max2(
        match asked {
            Some(n) => n,
            None => 4,
        },
        1,
    );
    let depth: usize = match num_hidden_layers {
        Some(n) => n as usize,
        None => 43,
    };
    let limit: usize = match cap {
        Some(n) => n,
        None => max2(depth, 1),
    };
    min2(n, min2(max2(limit, 1), depth))
}

/// The sliding window: what the environment says, else what the model says,
/// else 128. Zero is no window.
pub fn resolve_sliding_window(asked: Option<usize>, model: Option<u32>) -> (res: usize)
    ensures
        res == or(
            asked,
            match model {
                Some(n) => n as int,
                None => 128,
            },
        ),
{
    match asked {
        Some(n) => n,
        None => match model {
            Some(n) => n as usize,
            None => 128,
        },
    }
}

/// How many strided tokens to keep: 512 unless the environment says otherwise,
/// one at least.
pub fn max_compress_tokens(asked: Option<usize>) -> (res: usize)
    ensures
        res == most(or(asked, 512), 1),
{
    max2(
        match asked {
            Some(n) => n,
            None => 512,
        },
        1,
    )
}

/// How many experts to keep in memory: 32 unless the environment says
/// otherwise, one at least.
pub fn expert_cache_size(asked: Option<usize>) -> (res: usize)
    ensures
        res == most(or(asked, 32), 1),
{
    max2(
        match asked {
            Some(n) => n,
            None => 32,
        },
        1,
    )
}

/// What attention needs to know of the first layer.
#[derive(Debug, Clone, Copy, PartialEq, Eq, Structural)]
pub struct LayerShape {
    /// The layer expands its queries to several heads.
    pub has_q_expand: bool,
    /// Values of the compressed keys and values.
    pub kv_dim: usize,
    pub n_heads: Option<usize>,
}

/// How attention is laid out.
#[derive(Debug, Clone, Copy, PartialEq, Eq, Structural)]
pub struct AttnLayout {
    /// Several query heads over one head of keys and values.
    pub multihead: bool,
    pub n_q_heads: usize,
    pub head_dim: usize,
    /// Heads that are stored.
    pub pool_heads: usize,
    /// Values of each stored head.
    pub pool_dim: usize,
}

/// Resolves the layout from the first layer, if one is loaded: with expanded
/// queries only the compressed keys and values are stored.
pub fn resolve_attn_layout(
    first: Option<LayerShape>,
    asked_heads: Option<usize>,
    num_heads: u32,
    attn_dim: usize,
) -> (res: AttnLayout)
    ensures
        match first {
            Some(l) if l.has_q_expand => {
                let all = most(or(l.n_heads, 1), 1);
                &&& res.multihead
                &&& res.n_q_heads == least(most(or(asked_heads, all), 1), all)
                &&& res.head_dim == most(l.kv_dim as int, 1)
                &&& res.pool_heads == 1
                &&& res.pool_dim == res.head_dim
            },
            _ => {
                &&& !res.multihead
                &&& res.n_q_heads == most(num_heads as int, 1)
                &&& res.head_dim == most(attn_dim as int / most(num_heads as int, 1), 1)
                &&& res.pool_heads == res.n_q_heads
                &&& res.pool_dim == res.head_dim
            },
        },
{
    if let Some(l) = first {
        if l.has_q_expand {
            let head_dim: usize = max2(l.kv_dim, 1);
            let model_h: usize = max2(
                match l.n_heads {
                    Some(n) => n,
                    None => 1,
                },
                1,
            );
            return AttnLayout {
                multihead: true,
                n_q_heads: attn_heads_to_use(asked_heads, model_h),
                head_dim,
                pool_heads: 1,
                pool_dim: head_dim,
            };
        }
    }
    let heads: usize = max2(num_heads as usize, 1);
    let dim: usize = max2(attn_dim / heads, 1);
    AttnLayout { multihead: false, n_q_heads: heads, head_dim: dim, pool_heads: heads, pool_dim: dim }
}

/// Widths that a run works with.
#[derive(Debug, Clone, Copy, PartialEq, Eq, Structural)]
pub struct RunWidths {
    pub n_q: usize,
    pub head_dim: usize,
    /// Values of one stored token.
    pub kv_width: usize,
    /// Values of one query.
    pub q_width: usize,
    /// Values that positions rotate.
    pub rope_dim: usize,
    /// Parallel hidden streams.
    pub hc_mult: usize,
}

/// The widths of a run: the rotated values and the streams are those that the
/// first layer states, if it does.
pub fn run_widths(
    layout: &AttnLayout,
    rope_head_dim: Option<usize>,
    hc_mult: Option<usize>,
) -> (res: RunWidths)
    requires
        most(layout.n_q_heads as int, 1) * most(layout.head_dim as int, 1) <= usize::MAX,
    ensures
        res.n_q == most(layout.n_q_heads as int, 1),
        res.head_dim == most(layout.head_dim as int, 1),
        res.q_width == res.n_q * res.head_dim,
        res.kv_width == if layout.multihead {
            res.head_dim as int
        } else {
            res.n_q * res.head_dim
        },
        res.rope_dim == least(or(rope_head_dim, 64), most(res.head_dim as int, 64)),
        res.hc_mult == most(or(hc_mult, 1), 1),
{
    let n_q: usize = max2(layout.n_q_heads, 1);
    let head_dim: usize = max2(layout.head_dim, 1);
    let q_width: usize = n_q * head_dim;
    RunWidths {
        n_q,
        head_dim,
        kv_width: if layout.multihead {
            head_dim
        } else {
            q_width
        },
        q_width,
        rope_dim: min2(
            match rope_head_dim {
                Some(n) => n,
                None => 64,
            },
            max2(head_dim, 64),
        ),
        hc_mult: max2(
            match hc_mult {
                Some(n) => n,
                None => 1,
            },
            1,
        ),
    }
}

/// The rows of a shape.
pub open spec fn rows_of(shape: Seq<usize>) -> usize {
    if shape.len() > 0 {
        shape[0]
    } else {
        0
    }
}

/// The columns of a shape.
pub open spec fn cols_of(shape: Seq<usize>) -> usize {
    if shape.len() > 1 {
        shape[1]
    } else {
        1
    }
}

/// A shape as it is shown.
pub open spec fn shape_text(shape: Seq<usize>) -> Seq<char> {
    text::list_text(text::nats_of_usize(shape), ", "@)
}

/// Whether the output weights go with the embedding: they are of its shape, or
/// a matrix over the same hidden values.
pub open spec fn head_goes_with(head: Seq<usize>, embed: Seq<usize>) -> bool {
    ||| head == embed
    ||| (head.len() == 2 && head[1] == embed[1])
    ||| (rows_of(head) == embed[0] as u32 && cols_of(head) == embed[1])
}

/// What is wrong with the shapes of the embedding and of the output weights.
pub open spec fn model_fault(embed: Seq<usize>, head: Seq<usize>) -> Option<TrajectErrorView> {
    if embed.len() != 2 {
        Some(
            TrajectErrorView::Other(
                "embed shape "@ + shape_text(embed) + " want [vocab, hidden]"@,
            ),
        )
    } else if !head_goes_with(head, embed) {
        Some(
            TrajectErrorView::Other(
                "head shape "@ + shape_text(head) + " incompatible with embed "@ + shape_text(
                    embed,
                ),
            ),
        )
    } else {
        None
    }
}

fn same_shape(a: &[usize], b: &[usize]) -> (res: bool)
    ensures
        res == (a@ == b@),
{
    if a.len() != b.len() {
        return false;
    }
    let mut i: usize = 0;
    while i < a.len()
        invariant
            i <= a@.len() == b@.len(),
            forall|j: int| 0 <= j < i ==> a@[j] == b@[j],
        decreases a@.len() - i,
    {
        if a[i] != b[i] {
            return false;
        }
        i += 1;
    }
    assert(a@ =~= b@);
    true
}

/// The number of words and the number of hidden values that an embedding
/// states, if the output weights go with it.
pub fn check_model_shapes(embed: &[usize], head: &[usize]) -> (res: Result<
    (u32, usize),
    TrajectError,
>)
    ensures
        match res {
            Ok(r) => model_fault(embed@, head@) is None && r.0 == embed@[0] as u32 && r.1
                == embed@[1],
            Err(e) => model_fault(embed@, head@) == Some(e@),
        },
{
    if embed.len() != 2 {
        let mut m = "embed shape ".to_string();
        m.append(list_of_usize(embed, ", ").as_str());
        m.append(" want [vocab, hidden]");
        return Err(TrajectError::Other(m));
    }
    let vocab: u32 = #[verifier::truncate]
    (embed[0] as u32);
    let hidden: usize = embed[1];
    let rows: usize = if head.len() > 0 {
        head[0]
    } else {
        0
    };
    let cols: usize = if head.len() > 1 {
        head[1]
    } else {
        1
    };
    if !same_shape(head, embed) && !(head.len() == 2 && head[1] == hidden) && (rows
        != vocab as usize || cols != hidden) {
        let mut m = "head shape ".to_string();
        m.append(list_of_usize(head, ", ").as_str());
        m.append(" incompatible with embed ");
        m.append(list_of_usize(embed, ", ").as_str());
        return Err(TrajectError::Other(m));
    }
    Ok((vocab, hidden))
}

/// The width of attention: that of the first layer's keys and values, where a
/// layer is loaded and states one; else heads times values.
pub fn attention_width(heads: u32, head_dim: u32, first_kv_dim: Option<usize>) -> (res: usize)
    requires
        heads * head_dim <= u32::MAX,
    ensures
        res == match first_kv_dim {
            Some(n) => if n > 0 {
                n as int
            } else {
                heads * head_dim
            },
            None => heads * head_dim,
        },
{
    let plain: usize = (heads * head_dim) as usize;
    match first_kv_dim {
        Some(n) => if n > 0 {
            n
        } else {
            plain
        },
        None => plain,
    }
}

/// The number of words: that of the embedding, or a greater one that the
/// model's configuration states.
pub fn vocabulary(embed_rows: u32, stated: Option<u32>) -> (res: u32)
    ensures
        res == most(
            match stated {
                Some(n) => n as int,
                None => embed_rows as int,
            },
            embed_rows as int,
        ),
{
    match stated {
        Some(n) => if n < embed_rows {
            embed_rows
        } else {
            n
        },
        None => embed_rows,
    }
}

/// How the attention output is mapped back to hidden values.
#[derive(Debug, Clone, Copy, PartialEq, Eq, Structural)]
pub enum OutputPath {
    /// Each of `groups` groups of `group_in` values goes through its own rows
    /// of the first factor.
    Grouped { groups: usize, group_in: usize },
    /// Each group takes the mean of `heads_per_group` heads.
    Pooled { heads_per_group: usize, heads: usize },
    /// Each group takes the first values as they are.
    Spread { take: usize },
}

/// The shape of a layer's output projection.
#[derive(Debug, Clone, Copy)]
pub struct OutputShape {
    pub head_dim: usize,
    pub n_heads: usize,
    pub groups: usize,
    pub rank: usize,
    /// Rows and columns of the first factor, where it is loaded.
    pub factor: Option<(usize, usize)>,
}

impl OutputShape {
    /// Heads that the attention output holds.
    pub open spec fn heads_in(self, len: nat) -> int {
        if len >= self.head_dim && len % (self.head_dim as nat) == 0 {
            most(least((len / self.head_dim as nat) as int, self.n_heads as int), 1)
        } else {
            1
        }
    }

    /// Heads of one group.
    pub open spec fn heads_per_group(self) -> int {
        most(self.n_heads as int / self.groups as int, 1)
    }

    pub open spec fn ok(self) -> bool {
        &&& self.head_dim >= 1
        &&& self.n_heads >= 1
        &&& self.groups >= 1
        &&& self.rank >= 1
        &&& self.n_heads * self.head_dim <= usize::MAX
    }

    /// Values of the intermediate: `rank` for each group, one at least.
    pub open spec fn intermediate(self) -> int {
        least(self.groups * self.rank, usize::MAX as int)
    }

    /// The path that `len` values of attention output take.
    pub open spec fn path(self, len: nat) -> OutputPath {
        let n = self.heads_in(len);
        let hpg = self.heads_per_group();
        let group_in = hpg * self.head_dim;
        let whole = OutputPath::Spread { take: least(len as int, self.rank as int) as usize };
        match self.factor {
            Some(f) => if f.0 == self.intermediate() && f.1 == group_in && n >= hpg {
                OutputPath::Grouped {
                    groups: most(least(n / hpg, self.groups as int), 1) as usize,
                    group_in: group_in as usize,
                }
            } else if n > 1 && len >= n * self.head_dim {
                OutputPath::Pooled {
                    heads_per_group: most(n / self.groups as int, 1) as usize,
                    heads: n as usize,
                }
            } else {
                whole
            },
            None => whole,
        }
    }
}

/// The path that `len` values of attention output take back to hidden values.
pub fn output_path(shape: &OutputShape, len: usize) -> (res: OutputPath)
    requires
        shape.ok(),
    ensures
        res == shape.path(len as nat),
{
    let n: usize = if len >= shape.head_dim && len % shape.head_dim == 0 {
        max2(min2(len / shape.head_dim, shape.n_heads), 1)
    } else {
        1
    };
    let hpg: usize = max2(shape.n_heads / shape.groups, 1);
    assert(shape.n_heads as int / shape.groups as int <= shape.n_heads) by (nonlinear_arith)
        requires
            shape.groups >= 1,
    ;
    assert(hpg * shape.head_dim <= shape.n_heads * shape.head_dim) by (nonlinear_arith)
        requires
            hpg <= shape.n_heads,
    ;
    assert(n * shape.head_dim <= shape.n_heads * shape.head_dim) by (nonlinear_arith)
        requires
            n <= shape.n_heads,
    ;
    assert(n as int / hpg as int <= n && n as int / hpg as int >= 0) by (nonlinear_arith)
        requires
            hpg >= 1,
            n >= 0,
    ;
    assert(n as int / shape.groups as int <= n && n as int / shape.groups as int >= 0)
        by (nonlinear_arith)
        requires
            shape.groups >= 1,
            n >= 0,
    ;
    let group_in: usize = hpg * shape.head_dim;
    let inter: usize = match shape.groups.checked_mul(shape.rank) {
        Some(x) => x,
        None => usize::MAX,
    };
    let whole = OutputPath::Spread { take: min2(len, shape.rank) };
    match shape.factor {
        Some((rows, cols)) => if rows == inter && cols == group_in && n >= hpg {
            OutputPath::Grouped { groups: max2(min2(n / hpg, shape.groups), 1), group_in }
        } else if n > 1 && len >= n * shape.head_dim {
            OutputPath::Pooled { heads_per_group: max2(n / shape.groups, 1), heads: n }
        } else {
            whole
        },
        None => whole,
    }
}

/// On the grouped path each group's values lie inside the attention output,
/// where that holds one head at least: no group is cut short.
pub proof fn law_groups_fit(shape: OutputShape, len: nat, gi: nat)
    requires
        shape.ok(),
        shape.head_dim <= len <= usize::MAX,
        shape.path(len) matches OutputPath::Grouped { groups, group_in } && gi < groups,
    ensures
        shape.path(len) matches OutputPath::Grouped { groups, group_in } ==> (gi + 1) * group_in
            <= len,
{
    let n = shape.heads_in(len);
    let hpg = shape.heads_per_group();
    let d = shape.head_dim as int;
    let group_in = hpg * d;
    assert(shape.n_heads as int / shape.groups as int <= shape.n_heads) by (nonlinear_arith)
        requires
            shape.groups >= 1,
    ;
    assert(group_in <= shape.n_heads * d) by (nonlinear_arith)
        requires
            group_in == hpg * d,
            hpg <= shape.n_heads,
            d >= 1,
    ;
    assert(group_in >= 1) by (nonlinear_arith)
        requires
            group_in == hpg * d,
            hpg >= 1,
            d >= 1,
    ;
    let q = n / hpg;
    assert(q >= 1 && q * hpg <= n) by (nonlinear_arith)
        requires
            n >= hpg,
            hpg >= 1,
            q == n / hpg,
    ;
    if len >= d && len % (d as nat) == 0 {
        assert(n * d <= len) by (nonlinear_arith)
            requires
                n <= most((len / (d as nat)) as int, 1),
                len >= d,
                d >= 1,
        ;
        assert((gi + 1) * group_in <= len) by (nonlinear_arith)
            requires
                gi + 1 <= q,
                q * hpg <= n,
                group_in == hpg * d,
                n * d <= len,
                d >= 1,
                hpg >= 1,
        ;
    } else {
        assert(q == 1) by (nonlinear_arith)
            requires
                q == n / hpg,
                n == 1,
                hpg == 1,
        ;
        assert((gi + 1) * group_in == d) by (nonlinear_arith)
            requires
                gi == 0,
                group_in == hpg * d,
                hpg == 1,
        ;
    }
}

/// What is asked for counts where it is told, and the smaller and the greater
/// are what they are called.
pub proof fn law_choices(a: int, b: int, n: usize, other: int)
    ensures
        or(Some(n), other) == n,
        or(None, other) == other,
        least(a, b) <= a && least(a, b) <= b && (least(a, b) == a || least(a, b) == b),
        most(a, b) >= a && most(a, b) >= b && (most(a, b) == a || most(a, b) == b),
{
}

/// A number in the environment is the number that it spells.
pub proof fn law_spelled(n: nat)
    ensures
        n <= usize::MAX ==> spelled(Some(text::dec(n))) == Some(n),
        spelled(None) is None,
{
    text::law_number_reads_back(n, usize::MAX as nat);
}

/// A model's own number of words is taken over with its directory; without one
/// the small model's numbers stay.
pub proof fn law_for_model(dir: Seq<char>, vocab: u32)
    ensures
        LocalWeightConfigView::for_model(dir, Some(vocab)).vocab_size == vocab,
        LocalWeightConfigView::for_model(dir, Some(vocab)).num_heads == 8,
        LocalWeightConfigView::for_model(dir, Some(vocab)).head_dim == 64,
        LocalWeightConfigView::for_model(dir, Some(vocab)).model_dir == Some(dir),
        LocalWeightConfigView::for_model(dir, None).model_dir == Some(dir),
        LocalWeightConfigView::for_model(dir, None).vocab_size
            == LocalWeightConfigView::standard().vocab_size,
        LocalWeightConfigView::standard().page_tokens == 16,
        LocalWeightConfigView::standard().model_dir is None,
{
}

/// A model's shapes are right where the embedding is a matrix and the output
/// weights are of its shape or a matrix over the same hidden values; weights
/// over other hidden values are refused.
pub proof fn law_model_shapes(embed: Seq<usize>, head: Seq<usize>)
    ensures
        embed.len() != 2 ==> model_fault(embed, head) is Some,
        embed.len() == 2 && head == embed ==> model_fault(embed, head) is None,
        embed.len() == 2 && head.len() == 2 && head[1] == embed[1] ==> model_fault(embed, head)
            is None,
        embed.len() == 2 && head.len() == 2 && head[1] != embed[1] ==> model_fault(embed, head)
            is Some,
        embed.len() == 2 && head.len() == 0 && embed[1] != 1 ==> model_fault(embed, head)
            is Some,
{
}

/// A loaded factor of the fitting shape takes the output group by group: as many
/// groups as there are heads for, each as wide as its heads.
pub proof fn law_grouped_output(shape: OutputShape, len: nat)
    requires
        shape.ok(),
        len == shape.n_heads * shape.head_dim,
        shape.n_heads as int % shape.groups as int == 0,
        shape.groups * shape.rank <= usize::MAX,
        shape.factor == Some(
            (
                (shape.groups * shape.rank) as usize,
                ((shape.n_heads as int / shape.groups as int) * shape.head_dim) as usize,
            ),
        ),
        shape.n_heads >= shape.groups,
    ensures
        shape.path(len) == (OutputPath::Grouped {
            groups: shape.groups,
            group_in: ((shape.n_heads as int / shape.groups as int) * shape.head_dim) as usize,
        }),
{
    let (h, g, d) = (shape.n_heads as int, shape.groups as int, shape.head_dim as int);
    let hpg = h / g;
    assert(hpg >= 1 && hpg * g == h && hpg <= h) by (nonlinear_arith)
        requires
            h % g == 0,
            h >= g,
            g >= 1,
            hpg == h / g,
    ;
    assert(h * d >= d && (h * d) % d == 0 && (h * d) / d == h) by {
        assert(h * d >= d) by (nonlinear_arith)
            requires
                h >= 1,
                d >= 1,
        ;
        vstd::arithmetic::div_mod::lemma_mod_multiples_basic(h, d);
        vstd::arithmetic::div_mod::lemma_div_by_multiple(h, d);
    }
    assert(h / hpg == g) by {
        vstd::arithmetic::div_mod::lemma_div_by_multiple(g, hpg);
        assert(g * hpg == h) by (nonlinear_arith)
            requires
                hpg * g == h,
        ;
    }
    assert(hpg * d <= h * d) by (nonlinear_arith)
        requires
            hpg <= h,
            d >= 1,
    ;
}

/// Without a factor the first values are taken as they are, no more than the
/// rank and no more than there are.
pub proof fn law_plain_output(shape: OutputShape, len: nat)
    requires
        shape.factor is None,
        len <= usize::MAX,
    ensures
        shape.path(len) matches OutputPath::Spread { take } && take <= len && take <= shape.rank
            && (take == len || take == shape.rank),
{
}

/// A matrix has its first side for rows and its second for columns.
pub proof fn law_rows_and_columns(rows: usize, cols: usize)
    ensures
        rows_of(seq![rows, cols]) == rows,
        cols_of(seq![rows, cols]) == cols,
        rows_of(seq![rows]) == rows,
        cols_of(seq![rows]) == 1,
        rows_of(Seq::empty()) == 0,
{
}

/// Output weights go with an embedding of the same shape, and as a matrix over
/// the same hidden values.
pub proof fn law_ends_go_together(head: Seq<usize>, embed: Seq<usize>)
    requires
        embed.len() == 2,
    ensures
        head == embed ==> head_goes_with(head, embed),
        head.len() == 2 ==> (head_goes_with(head, embed) <==> head[1] == embed[1]),
{
}

} // verus!
