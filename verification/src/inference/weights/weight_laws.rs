//! What holds of the weights that are read.

use vstd::prelude::*;

use crate::error::TrajectErrorView;
use crate::inference::local_plan;
use crate::inference::weights::catalog;
use crate::inference::weights::catalog::{CatalogView, PackedFp4Mat, RawTensorView, ShardView};
use crate::inference::weights::dtype;
use crate::inference::weights::expert_lru::LruView;
use crate::inference::weights::hf_config::HfModelConfig;
use crate::inference::weights::layers;
use crate::inference::weights::layers::{
    ExpertPacked, Layer0AttnWeights, Layer0RoutedMoe, Layer0SharedFfn, Source, Weight,
};
use crate::inference::weights::model;
use crate::inference::weights::model::{LoadAsk, ModelWeights};
use crate::step::F32Bits;
use crate::text;

verus! {

proof fn lemma_file_of(shards: Seq<ShardView>, file: Seq<char>, i: int)
    requires
        0 <= i < shards.len(),
        shards[i].file == file,
        forall|j: int| 0 <= j < i ==> (#[trigger] shards[j]).file != file,
    ensures
        catalog::file_of(shards, file) == Some(shards[i]),
    decreases shards.len(),
{
    if i > 0 {
        let rest = shards.drop_first();
        assert(shards[0].file != file);
        assert(forall|j: int| 0 <= j < i - 1 ==> #[trigger] rest[j] == shards[j + 1]);
        lemma_file_of(rest, file, i - 1);
    }
}

/// A tensor that the index lists is the one of its name in the file that the
/// index names, whatever other files hold.
pub proof fn law_indexed_tensor(
    c: CatalogView,
    name: Seq<char>,
    i: int,
    bytes: Seq<u8>,
    held: Map<Seq<char>, RawTensorView>,
)
    requires
        c.weight_map.dom().contains(name),
        0 <= i < c.shards.len(),
        c.shards[i].file == c.weight_map[name],
        forall|j: int| 0 <= j < i ==> (#[trigger] c.shards[j]).file != c.weight_map[name],
        c.shards[i].image == Ok::<Seq<u8>, Seq<char>>(bytes),
        catalog::held_in(bytes) == Some(held),
    ensures
        c.has(name),
        held.dom().contains(name) ==> c.raw(name) == Some(held[name]),
        !held.dom().contains(name) ==> c.raw(name) is None,
{
    lemma_file_of(c.shards, c.weight_map[name], i);
}

proof fn lemma_holder(shards: Seq<ShardView>, name: Seq<char>, i: int, bytes: Seq<u8>)
    requires
        0 <= i < shards.len(),
        shards[i].image == Ok::<Seq<u8>, Seq<char>>(bytes),
        catalog::stored_tensor(bytes, name) is Some,
        forall|j: int|
            0 <= j < i ==> ((#[trigger] shards[j]).image matches Ok(b) ==> catalog::stored_tensor(
                b,
                name,
            ) is None),
    ensures
        catalog::holder(shards, name) == Some(bytes),
    decreases shards.len(),
{
    if i > 0 {
        let rest = shards.drop_first();
        assert(shards[0].image matches Ok(b) ==> catalog::stored_tensor(b, name) is None);
        assert(forall|j: int| 0 <= j < i - 1 ==> #[trigger] rest[j] == shards[j + 1]);
        lemma_holder(rest, name, i - 1, bytes);
    }
}

/// A tensor that no index lists is the one of the first file that holds one of
/// its name.
pub proof fn law_tensor_without_index(
    c: CatalogView,
    name: Seq<char>,
    i: int,
    bytes: Seq<u8>,
    held: Map<Seq<char>, RawTensorView>,
)
    requires
        !c.weight_map.dom().contains(name),
        0 <= i < c.shards.len(),
        c.shards[i].image == Ok::<Seq<u8>, Seq<char>>(bytes),
        catalog::held_in(bytes) == Some(held),
        held.dom().contains(name),
        forall|j: int|
            0 <= j < i ==> ((#[trigger] c.shards[j]).image matches Ok(b) ==> catalog::stored_tensor(
                b,
                name,
            ) is None),
    ensures
        c.has(name),
        c.raw(name) == Some(held[name]),
{
    lemma_holder(c.shards, name, i, bytes);
}

/// A shape asks for the product of its sides.
pub proof fn law_values_asked_for(shape: Seq<usize>, n: usize)
    ensures
        catalog::numel(shape.push(n)) == catalog::numel(shape) * n,
        catalog::numel(Seq::empty()) == 1,
{
    assert(shape.push(n).drop_last() =~= shape);
}

/// A tensor is read as single-precision numbers exactly where its bytes are
/// those of as many numbers as its shape asks for, four bytes each, or two for
/// the half-sized kinds.
pub proof fn law_read_as_numbers(c: CatalogView, name: Seq<char>, r: RawTensorView)
    requires
        c.raw(name) == Some(r),
        r.dtype == "F32"@ || r.dtype == "BF16"@ || r.dtype == "F16"@,
    ensures
        r.dtype == "F32"@ ==> (c.has_dense(name) <==> r.data.len() == 4 * catalog::numel(r.shape)),
        r.dtype != "F32"@ ==> (c.has_dense(name) <==> r.data.len() == 2 * catalog::numel(r.shape)),
{
    reveal_strlit("F32");
    reveal_strlit("BF16");
    reveal_strlit("F16");
    assert("F32"@.len() == 3 && "BF16"@.len() == 4 && "F16"@.len() == 3);
    assert("F32"@[1] == '3' && "F16"@[1] == '1');
}

/// The numbers of a tensor are those that its bytes spell, in their order and
/// under its shape.
pub proof fn law_numbers_read(
    c: CatalogView,
    name: Seq<char>,
    r: RawTensorView,
    t: catalog::TensorF32View,
    i: int,
)
    requires
        c.raw(name) == Some(r),
        c.dense(name, t),
        r.dtype == "F32"@,
        0 <= i < r.data.len() / 4,
    ensures
        t.shape == r.shape,
        t.data.len() == r.data.len() / 4,
        t.data[i] == dtype::le32(r.data, 4 * i),
{
}

/// The scale of a weight stands under the weight's name, with `.scale` for
/// `.weight`.
pub proof fn law_scale_name(base: Seq<char>)
    ensures
        !text::ends(base, ".weight"@) ==> catalog::scale_name(base + ".weight"@) == base
            + ".scale"@,
        catalog::scale_name(base + ".weight"@ + ".weight"@) == catalog::scale_name(
            base + ".weight"@,
        ),
        !text::ends(base, ".weight"@) ==> catalog::scale_name(base) == base + ".scale"@,
{
    reveal_strlit(".weight");
    assert(".weight"@.len() == 7);
    assert((base + ".weight"@).skip(base.len() as int) =~= ".weight"@);
    let twice = base + ".weight"@ + ".weight"@;
    assert(twice.skip(twice.len() - 7) =~= ".weight"@);
    text::law_stripped_end(base, ".weight"@);
    text::law_stripped_end(base + ".weight"@, ".weight"@);
}

/// A packed weight is the bytes that are stored, with their rows and columns and
/// those of its scale.
pub proof fn law_packed_as_stored(
    c: CatalogView,
    base: Seq<char>,
    w: RawTensorView,
    s: RawTensorView,
    block: usize,
    m: PackedFp4Mat,
)
    requires
        !text::ends(base, ".weight"@),
        c.raw(base + ".weight"@) == Some(w),
        c.raw(base + ".scale"@) == Some(s),
        catalog::is_packed(c, base + ".weight"@, block, m),
    ensures
        m.packed@ == w.data,
        m.rows == w.shape[0],
        m.packed_cols == w.shape[1],
        m.scale@ == s.data,
        m.scale_cols == s.shape[1],
        block >= 1 ==> m.block_k == block,
        m.block_k >= 1,
        c.has(base + ".scale"@) ==> (catalog::packs(c, base + ".weight"@) <==> (w.dtype == "I8"@
            || w.dtype == "U8"@) && w.shape.len() == 2 && s.dtype == "F8_E8M0"@ && s.shape.len()
            == 2),
{
    law_scale_name(base);
}

/// A header's length is what its eight bytes spell, the lowest first.
pub proof fn law_length_spelled(bytes: Seq<u8>, b: u8)
    ensures
        catalog::little(seq![b] + bytes) == b + 256 * catalog::little(bytes),
        catalog::little(Seq::empty()) == 0,
{
    assert((seq![b] + bytes).drop_first() =~= bytes);
}

/// A weight may stand under three names, which are tried in this order.
pub proof fn law_names_of_weights(layer: nat)
    ensures
        ({
            let l = "layers."@ + text::dec(layer);
            &&& layers::of_layer(layer, ".x"@) == l + ".x"@
            &&& layers::wq_a_names(layer) == seq![
                l + (".attn.wq_a"@ + ".weight"@),
                l + ".attn.wq_a"@,
                "model."@ + (l + ".self_attn.q_a_proj.weight"@),
            ]
            &&& layers::wkv_names(layer) == seq![
                l + (".attn.wkv"@ + ".weight"@),
                l + ".attn.wkv"@,
                "model."@ + (l + ".self_attn.kv_a_proj_with_mqa.weight"@),
            ]
            &&& layers::wq_b_names(layer) == seq![
                l + (".attn.wq_b"@ + ".weight"@),
                l + ".attn.wq_b"@,
                "model."@ + (l + ".self_attn.q_b_proj.weight"@),
            ]
            &&& layers::wo_a_names(layer) == seq![
                l + (".attn.wo_a"@ + ".weight"@),
                l + ".attn.wo_a"@,
                "model."@ + (l + ".self_attn.o_a_proj.weight"@),
            ]
            &&& layers::wo_b_names(layer) == seq![
                l + (".attn.wo_b"@ + ".weight"@),
                l + ".attn.wo_b"@,
                "model."@ + (l + ".self_attn.o_b_proj.weight"@),
            ]
            &&& layers::attn_norm_names(layer) == seq![
                l + ".attn_norm.weight"@,
                "model."@ + (l + ".input_layernorm.weight"@),
            ]
            &&& layers::ffn_norm_names(layer) == seq![
                l + ".ffn_norm.weight"@,
                "model."@ + (l + ".post_attention_layernorm.weight"@),
            ]
            &&& layers::gate_name(layer) == l + ".ffn.gate.weight"@
        }),
{
}

/// A weight of an expert stands under its layer, its number and its own name.
pub proof fn law_names_of_experts(layer: nat, id: nat, w: Seq<char>, proj: Seq<char>)
    ensures
        layers::expert_name(layer, id, w) == "layers."@ + text::dec(layer) + (".ffn.experts."@
            + text::dec(id) + "."@ + w + ".weight"@),
        layers::shared_names(layer, w, proj).len() == 3,
        layers::shared_names(layer, w, proj)[0] == "layers."@ + text::dec(layer) + (
        ".ffn.shared_experts."@ + w + ".weight"@),
        layers::shared_names(layer, w, proj)[1] == "layers."@ + text::dec(layer) + (
        ".ffn.shared_experts."@ + w),
        layers::shared_names(layer, w, proj)[2] == "layers."@ + text::dec(layer) + (
        ".mlp.shared_experts."@ + proj + ".weight"@),
{
}

/// The embedding, the output weights and the norm are looked for under these
/// names, in this order.
pub proof fn law_names_of_ends()
    ensures
        layers::embed_names() == seq![
            "embed.weight"@,
            "model.embed_tokens.weight"@,
            "transformer.wte.weight"@,
            "tok_embeddings.weight"@,
        ],
        layers::head_names() == seq![
            "head.weight"@,
            "lm_head.weight"@,
            "output.weight"@,
            "model.embed_tokens.weight"@,
        ],
        layers::norm_end_names() == seq![
            "norm.weight"@,
            "model.norm.weight"@,
            "transformer.ln_f.weight"@,
        ],
{
}

/// Of several names, the first that can be read is the one that counts.
pub proof fn law_first_that_reads(c: CatalogView, names: Seq<Seq<char>>, i: int)
    requires
        0 <= i < names.len(),
    ensures
        layers::source(c, names[i]) is Some && (forall|j: int|
            0 <= j < i ==> layers::source(c, #[trigger] names[j]) is None) ==> layers::first_source(
            c,
            names,
        ) == layers::source(c, names[i]),
        c.has_dense(names[i]) && (forall|j: int|
            0 <= j < i ==> !c.has_dense(#[trigger] names[j])) ==> layers::first_dense(c, names)
            == Some(names[i]),
    decreases names.len(),
{
    if i > 0 {
        let rest = names.drop_first();
        law_first_that_reads(c, rest, i - 1);
        assert(names[0] == names[0]);
        assert(forall|j: int| 0 <= j < i - 1 ==> #[trigger] rest[j] == names[j + 1]);
    }
}

/// Without a name that can be read there is no weight.
pub proof fn law_none_that_reads(c: CatalogView, names: Seq<Seq<char>>)
    ensures
        (forall|j: int| 0 <= j < names.len() ==> layers::source(c, #[trigger] names[j]) is None)
            ==> layers::first_source(c, names) is None,
        (forall|j: int| 0 <= j < names.len() ==> !c.has_dense(#[trigger] names[j]))
            ==> layers::first_dense(c, names) is None,
    decreases names.len(),
{
    if names.len() > 0 {
        let rest = names.drop_first();
        law_none_that_reads(c, rest);
        assert(names[0] == names[0]);
        assert(forall|j: int| 0 <= j < rest.len() ==> #[trigger] rest[j] == names[j + 1]);
    }
}

/// A full name says where its weight is: eight-bit numbers with their scale are
/// taken before single-precision ones.
pub proof fn law_where_weight_is(c: CatalogView, base: Seq<char>)
    requires
        c.has(base + ".weight"@),
    ensures
        c.has_scaled(base + ".weight"@) ==> layers::source(c, base + ".weight"@) == Some(
            Source::Scaled(base + ".weight"@),
        ),
        !c.has_scaled(base + ".weight"@) && c.has_dense(base + ".weight"@) ==> layers::source(
            c,
            base + ".weight"@,
        ) == Some(Source::Dense(base + ".weight"@)),
        !c.has_scaled(base + ".weight"@) && !c.has_dense(base + ".weight"@) ==> layers::source(
            c,
            base + ".weight"@,
        ) is None,
        !c.has(base) ==> layers::source(c, base) is None,
{
    reveal_strlit(".weight");
    assert(".weight"@.len() == 7);
    assert((base + ".weight"@).skip(base.len() as int) =~= ".weight"@);
}

/// A weight is what is stored under its name: the numbers and the shape, or the
/// bytes with those of the scale, in blocks of 128.
pub proof fn law_weight_as_stored(
    c: CatalogView,
    base: Seq<char>,
    r: RawTensorView,
    s: RawTensorView,
    w: Weight,
)
    requires
        !text::ends(base, ".weight"@),
        c.raw(base + ".weight"@) == Some(r),
        c.raw(base + ".scale"@) == Some(s),
    ensures
        Source::Scaled(base + ".weight"@).gives(c, w) ==> (w matches Weight::Scaled(x)
            && x.weight@ == r && x.scale@ == s && x.block == 128),
        Source::Dense(base + ".weight"@).gives(c, w) ==> (w matches Weight::Dense(t) && t@.shape
            == r.shape && dtype::decoded(r.data, r.dtype, t@.data)),
        Source::Scaled(base + ".weight"@).shape(c) == r.shape,
        Source::Dense(base + ".weight"@).shape(c) == r.shape,
{
    law_scale_name(base);
}

/// A layer's attention is loaded exactly where its norm and both projections are
/// there, the projections are matrices over what the norm holds, and the norms of
/// what they give, where they are there, are as long as that.
pub proof fn law_attention_loads(c: CatalogView, layer: nat, norm: Seq<char>, q: Source, kv: Source)
    requires
        layers::first_dense(c, layers::attn_norm_names(layer)) == Some(norm),
        layers::first_source(c, layers::wq_a_names(layer)) == Some(q),
        layers::first_source(c, layers::wkv_names(layer)) == Some(kv),
    ensures
        ({
            let h = catalog::numel(c.raw(norm)->Some_0.shape);
            let qs = c.raw(q.name())->Some_0.shape;
            let ks = c.raw(kv.name())->Some_0.shape;
            let qn = "layers."@ + text::dec(layer) + ".attn.q_norm.weight"@;
            let kn = "layers."@ + text::dec(layer) + ".attn.kv_norm.weight"@;
            layers::attn_fault(c, layer) is None <==> {
                &&& qs.len() == 2 && ks.len() == 2
                &&& qs[1] == h && ks[1] == h
                &&& c.has_dense(qn) ==> catalog::numel(c.raw(qn)->Some_0.shape) == qs[0]
                &&& c.has_dense(kn) ==> catalog::numel(c.raw(kn)->Some_0.shape) == ks[0]
            }
        }),
{
}

/// Without its norm or one of its projections a layer's attention is not loaded.
pub proof fn law_attention_missing(c: CatalogView, layer: nat)
    requires
        layers::first_dense(c, layers::attn_norm_names(layer)) is None || layers::first_source(
            c,
            layers::wq_a_names(layer),
        ) is None || layers::first_source(c, layers::wkv_names(layer)) is None,
    ensures
        layers::attn_fault(c, layer) is Some,
{
}

/// The attention of a layer is what is stored under its names.
pub proof fn law_attention_as_stored(
    c: CatalogView,
    layer: nat,
    groups: usize,
    rank: usize,
    a: Layer0AttnWeights,
    norm: Seq<char>,
    q: Source,
    kv: Source,
)
    requires
        layers::first_dense(c, layers::attn_norm_names(layer)) == Some(norm),
        layers::first_source(c, layers::wq_a_names(layer)) == Some(q),
        layers::first_source(c, layers::wkv_names(layer)) == Some(kv),
        layers::attn_is(c, layer, groups, rank, a),
    ensures
        a.hidden == catalog::numel(c.raw(norm)->Some_0.shape),
        c.raw(norm) matches Some(r) && dtype::decoded(r.data, r.dtype, a.attn_norm@),
        q.gives(c, a.wq_a),
        kv.gives(c, a.wkv),
        a.o_groups == groups,
        a.o_lora_rank == rank,
        layers::first_source(c, layers::wq_b_names(layer)) is None ==> a.wq_b is None && a.n_heads is None,
        a.wq_b matches Some(w) ==> (layers::first_source(c, layers::wq_b_names(layer)) matches Some(
            s,
        ) && s.gives(c, w) && w.shape().len() == 2 && w.shape()[1] == q.shape(c)[0]),
        a.wo_a matches Some(w) ==> (layers::first_source(c, layers::wo_a_names(layer)) matches Some(
            s,
        ) && s.gives(c, w) && w.shape() == seq![(groups * rank) as usize, a.hidden]),
        a.wo_b matches Some(w) ==> (layers::first_source(c, layers::wo_b_names(layer)) matches Some(
            s,
        ) && s.gives(c, w) && w.shape() == seq![a.hidden, (groups * rank) as usize]),
{
    if a.wo_a is Some {
        let w = a.wo_a->Some_0;
        assert(w.shape() =~= seq![(groups * rank) as usize, a.hidden]);
    }
    if a.wo_b is Some {
        let w = a.wo_b->Some_0;
        assert(w.shape() =~= seq![a.hidden, (groups * rank) as usize]);
    }
}

/// There are as many heads as whole rows of the keys and values fit into those
/// of the queries, and none are told where they do not.
pub proof fn law_heads(
    c: CatalogView,
    layer: nat,
    groups: usize,
    rank: usize,
    a: Layer0AttnWeights,
    w: Weight,
    heads: nat,
)
    requires
        layers::first_source(c, layers::wkv_names(layer)) is Some,
        layers::attn_is(c, layer, groups, rank, a),
        a.wq_b == Some(w),
        w.shape().len() > 0,
        a.wkv.shape().len() > 0,
        a.wkv.shape()[0] > 0,
    ensures
        w.shape()[0] == heads * a.wkv.shape()[0] ==> a.n_heads == Some(heads as usize),
        a.n_heads matches Some(n) ==> n * a.wkv.shape()[0] == w.shape()[0],
{
    let d = a.wkv.shape()[0] as int;
    let n = w.shape()[0] as int;
    vstd::arithmetic::div_mod::lemma_fundamental_div_mod(n, d);
    assert(d * (n / d) == (n / d) * d) by (nonlinear_arith);
    if n == heads * d {
        vstd::arithmetic::div_mod::lemma_div_multiples_vanish(heads as int, d);
        vstd::arithmetic::div_mod::lemma_mod_multiples_basic(heads as int, d);
        assert(heads * d == d * heads) by (nonlinear_arith);
    }
    assert(0 <= n / d <= n) by (nonlinear_arith)
        requires
            n >= 0,
            d > 0,
    ;
}

/// The shapes of a shared expert go together exactly where two matrices take
/// what the norm holds to as many values as the third takes back.
pub proof fn law_shared_shapes(hidden: nat, w1: Seq<usize>, w2: Seq<usize>, w3: Seq<usize>)
    ensures
        layers::shared_fault(hidden, w1, w2, w3) is None <==> w1.len() == 2 && w2.len() == 2
            && w3.len() == 2 && w1[1] == hidden && w3[1] == hidden && w2[0] == hidden && w3[0]
            == w1[0] && w2[1] == w1[0],
{
}

/// The shared expert of a layer is what is stored under its names: its first,
/// second and third matrix each under their own.
pub proof fn law_shared_as_stored(
    c: CatalogView,
    layer: nat,
    f: Layer0SharedFfn,
    norm: Seq<char>,
    gate: Source,
    down: Source,
    up: Source,
)
    requires
        layers::first_dense(c, layers::ffn_norm_names(layer)) == Some(norm),
        layers::first_source(c, layers::shared_names(layer, "w1"@, "gate_proj"@)) == Some(gate),
        layers::first_source(c, layers::shared_names(layer, "w2"@, "down_proj"@)) == Some(down),
        layers::first_source(c, layers::shared_names(layer, "w3"@, "up_proj"@)) == Some(up),
        layers::ffn_is(c, layer, f),
    ensures
        gate.gives(c, f.w1),
        down.gives(c, f.w2),
        up.gives(c, f.w3),
        f.hidden == catalog::numel(c.raw(norm)->Some_0.shape),
        f.intermediate == c.raw(gate.name())->Some_0.shape[0],
        c.raw(norm) matches Some(r) && dtype::decoded(r.data, r.dtype, f.ffn_norm@),
        layers::ffn_fault(c, layer) == layers::shared_fault(
            f.hidden as nat,
            c.raw(gate.name())->Some_0.shape,
            c.raw(down.name())->Some_0.shape,
            c.raw(up.name())->Some_0.shape,
        ),
{
}

/// An expert's three weights are those that are stored under its number, packed
/// in blocks of 32.
pub proof fn law_expert_as_stored(c: CatalogView, layer: nat, id: nat, e: ExpertPacked)
    requires
        layers::expert_is(c, layer, id, e),
    ensures
        c.raw(layers::expert_name(layer, id, "w1"@)) matches Some(w) && e.w1.packed@ == w.data,
        c.raw(layers::expert_name(layer, id, "w2"@)) matches Some(w) && e.w2.packed@ == w.data,
        c.raw(layers::expert_name(layer, id, "w3"@)) matches Some(w) && e.w3.packed@ == w.data,
        e.w1.block_k == 32 && e.w2.block_k == 32 && e.w3.block_k == 32,
{
}

/// The routed experts are as many as the routing matrix has rows; six of them
/// are taken for each token, at a scale of one and a half, where the
/// configuration says nothing.
pub proof fn law_routed_as_configured(
    c: CatalogView,
    layer: nat,
    per_tok: Option<u32>,
    scale: Option<F32Bits>,
    cap: usize,
    g: Layer0RoutedMoe,
    gate: RawTensorView,
)
    requires
        c.raw(layers::gate_name(layer)) == Some(gate),
        layers::routed_is(c, layer, per_tok, scale, cap, g),
    ensures
        g.n_experts == gate.shape[0],
        g.hidden == gate.shape[1],
        dtype::decoded(gate.data, gate.dtype, g.gate@.data),
        per_tok matches Some(n) ==> g.top_k == n,
        per_tok is None ==> g.top_k == 6,
        scale matches Some(x) ==> g.route_scale == x,
        scale is None ==> g.route_scale == F32Bits(0x3fc0_0000),
        g.cached().cap >= 1,
        cap >= 1 ==> g.cached().cap == cap,
        g.cached().hits == 0 && g.cached().misses == 0,
        g.cached().value(0) matches Some(e) && layers::expert_is(c, layer, 0, e) && g.intermediate
            == e.w1.rows,
        g.layer == layer,
{
}

/// The first expert goes with the routing matrix exactly where its packed
/// columns, two numbers each, are what the matrix takes in.
pub proof fn law_expert_shapes(hidden: usize, e: ExpertPacked)
    requires
        2 * e.w1.packed_cols <= usize::MAX,
        2 * e.w2.packed_cols <= usize::MAX,
        2 * e.w3.packed_cols <= usize::MAX,
    ensures
        layers::expert_fits(hidden, e) <==> 2 * e.w1.packed_cols == hidden && 2 * e.w3.packed_cols
            == hidden && e.w2.rows == hidden && 2 * e.w2.packed_cols == e.w1.rows,
{
}

/// Asking counts as a hit where the value is there, and as a miss where it is
/// not.
pub proof fn law_hits_and_misses<V>(c: LruView<V>, id: usize)
    ensures
        c.value(id) is Some ==> c.touched(id).hits == c.hits + 1 && c.touched(id).misses == c.misses,
        c.value(id) is None ==> c.touched(id) == (LruView { misses: c.misses + 1, ..c }),
        c.touched(id).cap == c.cap,
{
}

/// A new value in a full cache takes the place of the one used longest ago.
pub proof fn law_oldest_goes<V>(c: LruView<V>, id: usize, v: V)
    requires
        c.value(id) is None,
    ensures
        c.entries.len() >= c.cap && c.entries.len() > 0 ==> c.stored(id, v).entries
            == c.entries.skip(1).push((id, v)),
        c.entries.len() < c.cap ==> c.stored(id, v).entries == c.entries.push((id, v)),
        c.stored(id, v).hits == c.hits && c.stored(id, v).misses == c.misses,
{
}

/// As many layers are loaded as are asked for, four without asking, but no more
/// than the cap or the model allow, and one at least.
pub proof fn law_layers_loaded(config: HfModelConfig, ask: LoadAsk, all: u32, n: usize)
    requires
        config.num_hidden_layers == Some(all),
        all >= 1,
        n >= 1,
    ensures
        ask.layers == Some(n) && ask.layer_cap is None && n <= all ==> model::depth(
            Some(config),
            ask,
        ) == n,
        ask.layers is None && ask.layer_cap is None && all >= 4 ==> model::depth(Some(config), ask)
            == 4,
        model::depth(Some(config), ask) <= all,
        model::depth(Some(config), ask) >= 1,
        ask.layer_cap matches Some(cap) ==> (cap >= 1 ==> model::depth(Some(config), ask) <= cap),
        ask.layers == Some(n) ==> model::depth(Some(config), ask) <= n,
        ask.layers == Some(n) && (ask.layer_cap matches Some(cap) && cap >= n) && n <= all
            ==> model::depth(Some(config), ask) == n,
        model::depth(None, ask) <= 43,
{
}

/// A model's sizes are those of its embedding, its configuration and its first
/// layer.
pub proof fn law_sizes(
    m: ModelWeights,
    c: CatalogView,
    config: HfModelConfig,
    ask: LoadAsk,
    embed: RawTensorView,
    name: Seq<char>,
)
    requires
        layers::first_dense(c, layers::embed_names()) == Some(name),
        c.raw(name) == Some(embed),
        embed.shape.len() == 2,
        embed.shape[0] <= u32::MAX,
        m.sizes_are(c, Some(config), ask),
    ensures
        m.hidden == embed.shape[1],
        m.vocab >= config.vocab_size && m.vocab >= embed.shape[0],
        m.vocab == config.vocab_size || m.vocab == embed.shape[0],
        config.eos_token_id matches Some(t) ==> m.eos_token_id == Some(t),
        config.eos_token_id is None ==> m.eos_token_id == Some(1u32),
        config.rope_theta matches Some(t) ==> m.rope_theta == t,
        m.layers@.len() == 0 ==> m.attn_dim == ask.heads * ask.head_dim,
        m.layers@.len() > 0 && m.layers@[0].attn.wkv.shape().len() > 0
            && m.layers@[0].attn.wkv.shape()[0] > 0 ==> m.attn_dim
            == m.layers@[0].attn.wkv.shape()[0],
{
}

/// A model's embedding, output weights and norm are the numbers stored under
/// their names.
pub proof fn law_ends_as_stored(
    m: ModelWeights,
    c: CatalogView,
    embed: Seq<char>,
    head: Seq<char>,
)
    requires
        layers::first_dense(c, layers::embed_names()) == Some(embed),
        layers::first_dense(c, layers::head_names()) == Some(head),
        m.ends_are(c),
    ensures
        c.raw(embed) matches Some(r) && dtype::decoded(r.data, r.dtype, m.embed@),
        c.raw(head) matches Some(r) && dtype::decoded(r.data, r.dtype, m.head@),
        layers::first_dense(c, layers::norm_end_names()) is None ==> m.norm is None,
        layers::first_dense(c, layers::norm_end_names()) matches Some(n) ==> (m.norm matches Some(t)
            && (c.raw(n) matches Some(r) && dtype::decoded(r.data, r.dtype, t@))),
{
}

/// Where a configuration states neither groups nor rank of the output
/// projection, there are eight of 1024.
pub proof fn law_output_groups(config: HfModelConfig)
    ensures
        config.o_groups matches Some(n) ==> model::groups_stated(Some(config)) == n,
        config.o_groups is None ==> model::groups_stated(Some(config)) == 8,
        config.o_lora_rank matches Some(n) ==> model::rank_stated(Some(config)) == n,
        config.o_lora_rank is None ==> model::rank_stated(Some(config)) == 1024,
        model::groups_stated(None) == 8,
        model::rank_stated(None) == 1024,
{
}

/// A tensor that no index lists is told to be missing from the directory; one
/// whose file is not there, under the file's path.
pub proof fn law_missing_tensor_told(c: CatalogView, name: Seq<char>, e: TrajectErrorView)
    requires
        c.raw_fault(name, e),
    ensures
        !c.weight_map.dom().contains(name) ==> e == TrajectErrorView::Other(
            "tensor "@ + ("`"@ + name + "`"@) + " not found in "@ + c.root,
        ),
        c.weight_map.dom().contains(name) && catalog::file_of(c.shards, c.weight_map[name]) is None
            ==> e == TrajectErrorView::Other(
            "open "@ + text::path_joined(c.root, c.weight_map[name])
                + ": No such file or directory (os error 2)"@,
        ),
        c.weight_map.dom().contains(name) && (catalog::file_of(c.shards, c.weight_map[name]) matches Some(
            s,
        ) && s.image is Err) ==> e == TrajectErrorView::Other(
            catalog::file_of(c.shards, c.weight_map[name])->Some_0.image->Err_0,
        ),
{
}

/// A tensor of the wrong kind is told by its name, what it is and what was
/// wanted.
pub proof fn law_wrong_kind_told(
    c: CatalogView,
    base: Seq<char>,
    w: RawTensorView,
    s: RawTensorView,
    e: TrajectErrorView,
)
    requires
        !text::ends(base, ".weight"@),
        c.has(base + ".scale"@),
        c.raw(base + ".weight"@) == Some(w),
        c.raw(base + ".scale"@) == Some(s),
    ensures
        c.scaled_fault(base + ".weight"@, e) && w.dtype != "F8_E4M3"@ ==> e
            == TrajectErrorView::Other(
            ("`"@ + (base + ".weight"@) + "`"@) + " dtype "@ + w.dtype + ", expected "@
                + "F8_E4M3"@,
        ),
        c.scaled_fault(base + ".weight"@, e) && w.dtype == "F8_E4M3"@ ==> e
            == TrajectErrorView::Other(
            ("`"@ + (base + ".scale"@) + "`"@) + " dtype "@ + s.dtype + ", expected "@ + "F8_E8M0"@,
        ),
        c.packed_fault(base + ".weight"@, e) && w.dtype != "I8"@ && w.dtype != "U8"@ ==> e
            == TrajectErrorView::Other(
            ("`"@ + (base + ".weight"@) + "`"@) + " dtype "@ + w.dtype + ", expected "@
                + "I8/U8 packed FP4"@,
        ),
{
    law_scale_name(base);
}

/// A weight without its scale is told with the name that the scale would have.
pub proof fn law_missing_scale_told(c: CatalogView, base: Seq<char>, e: TrajectErrorView)
    requires
        !text::ends(base, ".weight"@),
        !c.has(base + ".scale"@),
    ensures
        c.scaled_fault(base + ".weight"@, e) ==> e == TrajectErrorView::Other(
            "no scale tensor for "@ + ("`"@ + (base + ".weight"@) + "`"@) + " (expected "@ + ("`"@
                + (base + ".scale"@) + "`"@) + ")"@,
        ),
        c.packed_fault(base + ".weight"@, e) ==> e == TrajectErrorView::Other(
            "no scale for FP4 "@ + ("`"@ + (base + ".weight"@) + "`"@) + " (expected "@ + ("`"@
                + (base + ".scale"@) + "`"@) + ")"@,
        ),
        !c.has_scaled(base + ".weight"@),
        !catalog::packs(c, base + ".weight"@),
{
    law_scale_name(base);
}

/// A model without an embedding or output weights is not loaded, and one whose
/// ends are there is, where the two go together.
pub proof fn law_ends_needed(c: CatalogView)
    ensures
        layers::first_dense(c, layers::embed_names()) is None ==> model::load_fault(c) is Some,
        layers::first_dense(c, layers::head_names()) is None ==> model::load_fault(c) is Some,
        layers::first_dense(c, layers::embed_names()) is Some && layers::first_dense(
            c,
            layers::head_names(),
        ) is Some ==> layers::ends_fault(c) is None && model::load_fault(c)
            == local_plan::model_fault(model::embed_shape(c), model::head_shape(c)),
{
}

/// The routed experts of a layer are refused for the first thing that is amiss:
/// the routing matrix, its shape, the first expert, or how the two go together.
pub proof fn law_routed_refused(c: CatalogView, layer: nat, e: TrajectErrorView)
    requires
        layers::routed_fault(c, layer, e),
    ensures
        !c.has(layers::gate_name(layer)) ==> e == TrajectErrorView::Other(
            layers::gate_name(layer) + " not found"@,
        ),
        c.has(layers::gate_name(layer)) && c.has_dense(layers::gate_name(layer)) && c.raw(
            layers::gate_name(layer),
        )->Some_0.shape.len() == 2 && !catalog::packs(c, layers::expert_name(layer, 0, "w1"@))
            ==> c.packed_fault(layers::expert_name(layer, 0, "w1"@), e),
{
}

/// Routed experts are loaded exactly where the routing matrix is one, the first
/// expert is there, and its packed columns, two numbers each, are what the
/// matrix takes in.
pub proof fn law_routed_loads(
    c: CatalogView,
    layer: nat,
    router: RawTensorView,
    w1: RawTensorView,
    w2: RawTensorView,
    w3: RawTensorView,
)
    requires
        c.raw(layers::gate_name(layer)) == Some(router),
        c.raw(layers::expert_name(layer, 0, "w1"@)) == Some(w1),
        c.raw(layers::expert_name(layer, 0, "w2"@)) == Some(w2),
        c.raw(layers::expert_name(layer, 0, "w3"@)) == Some(w3),
        2 * w1.shape[1] <= usize::MAX,
        2 * w2.shape[1] <= usize::MAX,
        2 * w3.shape[1] <= usize::MAX,
    ensures
        layers::has_routed(c, layer) <==> {
            &&& c.has(layers::gate_name(layer)) && c.has_dense(layers::gate_name(layer))
            &&& router.shape.len() == 2
            &&& catalog::packs(c, layers::expert_name(layer, 0, "w1"@))
            &&& catalog::packs(c, layers::expert_name(layer, 0, "w2"@))
            &&& catalog::packs(c, layers::expert_name(layer, 0, "w3"@))
            &&& 2 * w1.shape[1] == router.shape[1]
            &&& 2 * w3.shape[1] == router.shape[1]
            &&& w2.shape[0] == router.shape[1]
            &&& 2 * w2.shape[1] == w1.shape[0]
        },
{
}

} // verus!
