//! The weights of a layer: under which names they may stand, and what their
//! shapes have to be.
use vstd::prelude::*;

use crate::error::{TrajectError, TrajectErrorView};
use crate::inference::local_plan;
use crate::inference::rank;
use crate::inference::rank::{best_first, order_keys};
use crate::inference::weights::catalog;
use crate::inference::weights::catalog::{
    CatalogView, PackedFp4Mat, SafetensorCatalog, ScaledWeight, TensorF32, TensorF32View,
};
use crate::inference::weights::expert_lru;
use crate::inference::weights::expert_lru::{ExpertLru, LruView};
use crate::step::F32Bits;
use crate::text;
use crate::text::{decimal, ends_with, list_of_usize};

verus! {

/// A weight: single-precision numbers, or eight-bit ones with their scales.
#[derive(Debug)]
pub enum Weight {
    Dense(TensorF32),
    Scaled(ScaledWeight),
}

impl Weight {
    pub open spec fn shape(self) -> Seq<usize> {
        match self {
            Weight::Dense(t) => t@.shape,
            Weight::Scaled(w) => w.weight@.shape,
        }
    }

    /// The shape of the weight.
    pub fn dims(&self) -> (res: &Vec<usize>)
        ensures
            res@ == self.shape(),
    {
        match self {
            Weight::Dense(t) => &t.shape,
            Weight::Scaled(w) => &w.weight.shape,
        }
    }

    pub fn rows(&self) -> (res: usize)
        ensures
            res == local_plan::rows_of(self.shape()),
    {
        catalog::rows(self.dims())
    }

    pub fn cols(&self) -> (res: usize)
        ensures
            res == local_plan::cols_of(self.shape()),
    {
        catalog::cols(self.dims())
    }
}

/// Where a weight comes from.
pub enum Source {
    Dense(Seq<char>),
    Scaled(Seq<char>),
}

impl Source {
    pub open spec fn name(self) -> Seq<char> {
        match self {
            Source::Dense(n) => n,
            Source::Scaled(n) => n,
        }
    }

    /// The shape of the weight that comes from there.
    pub open spec fn shape(self, c: CatalogView) -> Seq<usize> {
        c.raw(self.name())->Some_0.shape
    }

    /// Whether `w` is the weight that comes from there.
    pub open spec fn gives(self, c: CatalogView, w: Weight) -> bool {
        match (self, w) {
            (Source::Dense(n), Weight::Dense(t)) => c.dense(n, t@) && t@.data.len()
                == catalog::numel(t@.shape),
            (Source::Scaled(n), Weight::Scaled(s)) => c.raw(n) == Some(s.weight@) && c.raw(
                catalog::scale_name(n),
            ) == Some(s.scale@) && s.block == 128,
            _ => false,
        }
    }
}

/// The full name of a weight: names may leave `.weight` off.
pub open spec fn full_name(c: CatalogView, n: Seq<char>) -> Seq<char> {
    if text::ends(n, ".weight"@) {
        n
    } else if c.has(n + ".weight"@) {
        n + ".weight"@
    } else {
        n
    }
}

/// Where the weight of a name comes from, if it can be read: scaled numbers
/// come first.
pub open spec fn source(c: CatalogView, n: Seq<char>) -> Option<Source> {
    let key = full_name(c, n);
    if !c.has(n) {
        None
    } else if c.has_scaled(key) {
        Some(Source::Scaled(key))
    } else if c.has_dense(key) {
        Some(Source::Dense(key))
    } else if c.has_dense(n) {
        Some(Source::Dense(n))
    } else {
        None
    }
}

/// Where the weight of the first name that can be read comes from.
pub open spec fn first_source(c: CatalogView, names: Seq<Seq<char>>) -> Option<Source>
    decreases names.len(),
{
    if names.len() == 0 {
        None
    } else {
        match source(c, names[0]) {
            Some(s) => Some(s),
            None => first_source(c, names.drop_first()),
        }
    }
}

/// The first name whose tensor can be read as single-precision numbers.
pub open spec fn first_dense(c: CatalogView, names: Seq<Seq<char>>) -> Option<Seq<char>>
    decreases names.len(),
{
    if names.len() == 0 {
        None
    } else if c.has_dense(names[0]) {
        Some(names[0])
    } else {
        first_dense(c, names.drop_first())
    }
}

/// Names as they are shown.
pub open spec fn names_text(names: Seq<Seq<char>>) -> Seq<char> {
    "["@ + text::joined(names.map_values(|n: Seq<char>| "\""@ + n + "\""@), ", "@) + "]"@
}

pub open spec fn none_of(names: Seq<Seq<char>>) -> TrajectErrorView {
    TrajectErrorView::Other("none of "@ + names_text(names) + " found/loadable"@)
}

fn show_names(names: &Vec<String>) -> (res: String)
    ensures
        res@ == names_text(text::all_chars(names@)),
{
    let ghost all = text::all_chars(names@);
    let ghost shown = all.map_values(|n: Seq<char>| "\""@ + n + "\""@);
    let mut parts: Vec<String> = Vec::new();
    let mut i: usize = 0;
    while i < names.len()
        invariant
            i <= names@.len(),
            all == text::all_chars(names@),
            shown == all.map_values(|n: Seq<char>| "\""@ + n + "\""@),
            text::all_chars(parts@) =~= shown.take(i as int),
        decreases names@.len() - i,
    {
        let ghost before = parts@;
        let mut one = "\"".to_string();
        one.append(names[i].as_str());
        one.append("\"");
        assert(shown[i as int] == one@);
        parts.push(one);
        assert(text::all_chars(parts@) =~= text::all_chars(before).push(one@));
        i += 1;
    }
    assert(text::all_chars(parts@) =~= shown);
    let mut res = "[".to_string();
    res.append(text::join(&parts, ", ").as_str());
    res.append("]");
    res
}

/// The weight of the first name that can be read.
pub fn load_weight_fp8_or_f32(cat: &SafetensorCatalog, names: &Vec<String>) -> (res: Result<
    Weight,
    TrajectError,
>)
    requires
        cat.wf(),
    ensures
        match res {
            Ok(w) => first_source(cat@, text::all_chars(names@)) matches Some(s) && s.gives(cat@, w)
                && w.shape() == s.shape(cat@),
            Err(e) => first_source(cat@, text::all_chars(names@)) is None && e@ == none_of(
                text::all_chars(names@),
            ),
        },
{
    let ghost all = text::all_chars(names@);
    let mut i: usize = 0;
    assert(all.skip(0) =~= all);
    while i < names.len()
        invariant
            cat.wf(),
            i <= names@.len(),
            all == text::all_chars(names@),
            first_source(cat@, all) == first_source(cat@, all.skip(i as int)),
        decreases names@.len() - i,
    {
        let n = names[i].as_str();
        assert(all.skip(i as int)[0] == n@);
        assert(all.skip(i as int).drop_first() =~= all.skip(i + 1));
        if cat.has(n) {
            let key = if ends_with(n, ".weight") {
                n.to_string()
            } else {
                let mut full = n.to_string();
                full.append(".weight");
                if cat.has(full.as_str()) {
                    full
                } else {
                    n.to_string()
                }
            };
            assert(key@ == full_name(cat@, n@));
            // Scaled numbers come first.
            if let Ok(w) = cat.load_fp8_block_scaled(key.as_str(), 128) {
                return Ok(Weight::Scaled(w));
            }
            if let Ok(t) = cat.load_f32(key.as_str()) {
                return Ok(Weight::Dense(t));
            }
            if let Ok(t) = cat.load_f32(n) {
                return Ok(Weight::Dense(t));
            }
        }
        i += 1;
    }
    let mut m = "none of ".to_string();
    m.append(show_names(names).as_str());
    m.append(" found/loadable");
    Err(TrajectError::Other(m))
}

/// The tensor of the first name that can be read as single-precision numbers,
/// and that name.
pub fn load_first_f32(cat: &SafetensorCatalog, names: &Vec<String>) -> (res: Option<
    (String, TensorF32),
>)
    requires
        cat.wf(),
    ensures
        match res {
            Some(r) => first_dense(cat@, text::all_chars(names@)) == Some(r.0@) && cat@.dense(
                r.0@,
                r.1@,
            ) && r.1@.data.len() == catalog::numel(r.1@.shape),
            None => first_dense(cat@, text::all_chars(names@)) is None,
        },
{
    let ghost all = text::all_chars(names@);
    let mut i: usize = 0;
    assert(all.skip(0) =~= all);
    while i < names.len()
        invariant
            cat.wf(),
            i <= names@.len(),
            all == text::all_chars(names@),
            first_dense(cat@, all) == first_dense(cat@, all.skip(i as int)),
        decreases names@.len() - i,
    {
        let n = names[i].as_str();
        assert(all.skip(i as int)[0] == n@);
        assert(all.skip(i as int).drop_first() =~= all.skip(i + 1));
        if let Ok(t) = cat.load_f32(n) {
            return Some((n.to_string(), t));
        }
        i += 1;
    }
    None
}

/// The name of something of a layer.
pub open spec fn of_layer(layer: nat, tail: Seq<char>) -> Seq<char> {
    "layers."@ + text::dec(layer) + tail
}

/// The name of something of a layer, in models that keep them a level down.
pub open spec fn of_model_layer(layer: nat, tail: Seq<char>) -> Seq<char> {
    "model."@ + of_layer(layer, tail)
}

fn layer_name(layer: usize, tail: &str) -> (res: String)
    ensures
        res@ == of_layer(layer as nat, tail@),
{
    let mut s = "layers.".to_string();
    s.append(decimal(layer as u64).as_str());
    s.append(tail);
    s
}

fn model_layer_name(layer: usize, tail: &str) -> (res: String)
    ensures
        res@ == of_model_layer(layer as nat, tail@),
{
    let mut s = "model.".to_string();
    s.append(layer_name(layer, tail).as_str());
    s
}

/// The names that a weight of a layer may stand under.
pub open spec fn weight_names(layer: nat, tail: Seq<char>, model_tail: Seq<char>) -> Seq<Seq<char>> {
    seq![
        of_layer(layer, tail + ".weight"@),
        of_layer(layer, tail),
        of_model_layer(layer, model_tail),
    ]
}

fn names_of(layer: usize, tail: &str, model_tail: &str) -> (res: Vec<String>)
    ensures
        text::all_chars(res@) == weight_names(layer as nat, tail@, model_tail@),
{
    let mut full = tail.to_string();
    full.append(".weight");
    let mut res: Vec<String> = Vec::new();
    res.push(layer_name(layer, full.as_str()));
    res.push(layer_name(layer, tail));
    res.push(model_layer_name(layer, model_tail));
    assert(text::all_chars(res@) =~= weight_names(layer as nat, tail@, model_tail@));
    res
}

/// The names that a layer's norm may stand under.
pub open spec fn norm_names(layer: nat, tail: Seq<char>, model_tail: Seq<char>) -> Seq<Seq<char>> {
    seq![of_layer(layer, tail), of_model_layer(layer, model_tail)]
}

fn norms_of(layer: usize, tail: &str, model_tail: &str) -> (res: Vec<String>)
    ensures
        text::all_chars(res@) == norm_names(layer as nat, tail@, model_tail@),
{
    let mut res: Vec<String> = Vec::new();
    res.push(layer_name(layer, tail));
    res.push(model_layer_name(layer, model_tail));
    assert(text::all_chars(res@) =~= norm_names(layer as nat, tail@, model_tail@));
    res
}

pub open spec fn attn_norm_names(layer: nat) -> Seq<Seq<char>> {
    norm_names(layer, ".attn_norm.weight"@, ".input_layernorm.weight"@)
}

pub open spec fn wq_a_names(layer: nat) -> Seq<Seq<char>> {
    weight_names(layer, ".attn.wq_a"@, ".self_attn.q_a_proj.weight"@)
}

pub open spec fn wkv_names(layer: nat) -> Seq<Seq<char>> {
    weight_names(layer, ".attn.wkv"@, ".self_attn.kv_a_proj_with_mqa.weight"@)
}

pub open spec fn wq_b_names(layer: nat) -> Seq<Seq<char>> {
    weight_names(layer, ".attn.wq_b"@, ".self_attn.q_b_proj.weight"@)
}

pub open spec fn wo_a_names(layer: nat) -> Seq<Seq<char>> {
    weight_names(layer, ".attn.wo_a"@, ".self_attn.o_a_proj.weight"@)
}

pub open spec fn wo_b_names(layer: nat) -> Seq<Seq<char>> {
    weight_names(layer, ".attn.wo_b"@, ".self_attn.o_b_proj.weight"@)
}

/// The attention weights of a layer.
#[derive(Debug)]
pub struct Layer0AttnWeights {
    /// Norm before attention.
    pub attn_norm: Vec<u32>,
    pub hidden: usize,
    /// Queries, down-projected.
    pub wq_a: Weight,
    /// Compressed keys and values.
    pub wkv: Weight,
    pub q_norm: Option<Vec<u32>>,
    pub kv_norm: Option<Vec<u32>>,
    /// Queries, expanded to all heads.
    pub wq_b: Option<Weight>,
    /// Heads that the expansion implies.
    pub n_heads: Option<usize>,
    /// First factor of the output projection.
    pub wo_a: Option<Weight>,
    /// Second factor of the output projection.
    pub wo_b: Option<Weight>,
    pub o_groups: usize,
    pub o_lora_rank: usize,
}

impl Layer0AttnWeights {
    pub fn q_lora_dim(&self) -> (res: usize)
        ensures
            res == local_plan::rows_of(self.wq_a.shape()),
    {
        self.wq_a.rows()
    }

    pub fn kv_dim(&self) -> (res: usize)
        ensures
            res == local_plan::rows_of(self.wkv.shape()),
    {
        self.wkv.rows()
    }

    pub fn has_q_expand(&self) -> (res: bool)
        ensures
            res == self.wq_b is Some,
    {
        self.wq_b.is_some()
    }

    pub fn has_o_proj(&self) -> (res: bool)
        ensures
            res == self.wo_b is Some,
    {
        self.wo_b.is_some()
    }

    /// The width of the expanded queries, where there are any.
    pub fn q_full_dim(&self) -> (res: Option<usize>)
        ensures
            res == match self.wq_b {
                Some(w) => Some(local_plan::rows_of(w.shape())),
                None => None,
            },
    {
        match &self.wq_b {
            Some(w) => Some(w.rows()),
            None => None,
        }
    }

    /// The width between the two factors of the output projection.
    pub fn o_intermediate(&self) -> (res: usize)
        ensures
            res == local_plan::most(
                local_plan::least(self.o_groups * self.o_lora_rank, usize::MAX as int),
                1,
            ),
    {
        let n: usize = match self.o_groups.checked_mul(self.o_lora_rank) {
            Some(n) => n,
            None => usize::MAX,
        };
        if n < 1 {
            1
        } else {
            n
        }
    }
}

/// The number of values of a norm.
pub open spec fn norm_len(c: CatalogView, name: Seq<char>) -> nat {
    catalog::numel(c.raw(name)->Some_0.shape)
}

/// What keeps a layer's attention from being loaded.
pub open spec fn attn_fault(c: CatalogView, layer: nat) -> Option<TrajectErrorView> {
    match first_dense(c, attn_norm_names(layer)) {
        None => Some(
            TrajectErrorView::Other(
                "layer-"@ + text::dec(layer) + " attn_norm not found in "@ + c.root,
            ),
        ),
        Some(norm) => match (
            first_source(c, wq_a_names(layer)),
            first_source(c, wkv_names(layer)),
        ) {
            (None, _) => Some(none_of(wq_a_names(layer))),
            (_, None) => Some(none_of(wkv_names(layer))),
            (Some(q), Some(kv)) => {
                let qs = q.shape(c);
                let ks = kv.shape(c);
                let hidden = norm_len(c, norm);
                let qn = of_layer(layer, ".attn.q_norm.weight"@);
                let kn = of_layer(layer, ".attn.kv_norm.weight"@);
                if qs.len() != 2 || ks.len() != 2 {
                    Some(
                        TrajectErrorView::Other(
                            "layer-"@ + text::dec(layer) + " projections must be 2D, wq_a="@
                                + local_plan::shape_text(qs) + " wkv="@ + local_plan::shape_text(ks),
                        ),
                    )
                } else if qs[1] != hidden || ks[1] != hidden {
                    Some(
                        TrajectErrorView::Other(
                            "layer-"@ + text::dec(layer) + " in_features mismatch: norm_h="@
                                + text::dec(hidden) + " wq_a="@ + local_plan::shape_text(qs)
                                + " wkv="@ + local_plan::shape_text(ks),
                        ),
                    )
                } else if c.has_dense(qn) && norm_len(c, qn) != qs[0] {
                    Some(
                        TrajectErrorView::Other(
                            "q_norm len "@ + text::dec(norm_len(c, qn)) + " != q_lora "@
                                + text::dec(qs[0] as nat),
                        ),
                    )
                } else if c.has_dense(kn) && norm_len(c, kn) != ks[0] {
                    Some(
                        TrajectErrorView::Other(
                            "kv_norm len "@ + text::dec(norm_len(c, kn)) + " != kv_lora "@
                                + text::dec(ks[0] as nat),
                        ),
                    )
                } else {
                    None
                }
            },
        },
    }
}

/// Whether an optional weight is the one of those names, where that has a
/// shape that will do.
pub open spec fn optional_weight(
    c: CatalogView,
    names: Seq<Seq<char>>,
    fits: bool,
    w: Option<Weight>,
) -> bool {
    match first_source(c, names) {
        Some(s) => if fits {
            w matches Some(x) && s.gives(c, x) && x.shape() == s.shape(c)
        } else {
            w is None
        },
        None => w is None,
    }
}

/// The shape of the weight of those names.
pub open spec fn named_shape(c: CatalogView, names: Seq<Seq<char>>) -> Seq<usize> {
    match first_source(c, names) {
        Some(s) => s.shape(c),
        None => Seq::empty(),
    }
}

/// Whether an optional norm is the one of that name.
pub open spec fn optional_norm(c: CatalogView, name: Seq<char>, n: Option<Vec<u32>>) -> bool {
    if c.has_dense(name) {
        n matches Some(v) && c.dense(
            name,
            TensorF32View { data: v@, shape: c.raw(name)->Some_0.shape },
        )
    } else {
        n is None
    }
}

/// Whether `a` is the attention of a layer, where nothing keeps it from being
/// loaded.
pub open spec fn attn_is(
    c: CatalogView,
    layer: nat,
    groups: usize,
    rank: usize,
    a: Layer0AttnWeights,
) -> bool {
    let norm = first_dense(c, attn_norm_names(layer))->Some_0;
    let q = first_source(c, wq_a_names(layer))->Some_0;
    let kv = first_source(c, wkv_names(layer))->Some_0;
    let qb = named_shape(c, wq_b_names(layer));
    let inter = groups * rank;
    &&& c.dense(norm, TensorF32View { data: a.attn_norm@, shape: c.raw(norm)->Some_0.shape })
    &&& a.hidden == norm_len(c, norm)
    &&& q.gives(c, a.wq_a) && a.wq_a.shape() == q.shape(c)
    &&& kv.gives(c, a.wkv) && a.wkv.shape() == kv.shape(c)
    &&& optional_norm(c, of_layer(layer, ".attn.q_norm.weight"@), a.q_norm)
    &&& optional_norm(c, of_layer(layer, ".attn.kv_norm.weight"@), a.kv_norm)
    &&& optional_weight(
        c,
        wq_b_names(layer),
        qb.len() == 2 && qb[1] == q.shape(c)[0],
        a.wq_b,
    )
    &&& a.n_heads == match a.wq_b {
        Some(w) => if kv.shape(c)[0] > 0 && local_plan::rows_of(w.shape()) % kv.shape(c)[0] == 0 {
            Some((local_plan::rows_of(w.shape()) / kv.shape(c)[0]) as usize)
        } else {
            None
        },
        None => None,
    }
    &&& optional_weight(
        c,
        wo_a_names(layer),
        is_pair(named_shape(c, wo_a_names(layer)), inter, a.hidden as int),
        a.wo_a,
    )
    &&& optional_weight(
        c,
        wo_b_names(layer),
        is_pair(named_shape(c, wo_b_names(layer)), a.hidden as int, inter),
        a.wo_b,
    )
    &&& a.o_groups == groups
    &&& a.o_lora_rank == rank
}

/// Whether a shape is that of a matrix with so many rows and columns.
pub open spec fn is_pair(shape: Seq<usize>, rows: int, cols: int) -> bool {
    shape.len() == 2 && shape[0] == rows && shape[1] == cols
}

fn pair_is(shape: &Vec<usize>, rows: usize, cols: usize) -> (res: bool)
    ensures
        res == is_pair(shape@, rows as int, cols as int),
{
    shape.len() == 2 && shape[0] == rows && shape[1] == cols
}

fn load_norm(cat: &SafetensorCatalog, name: &str) -> (res: Option<Vec<u32>>)
    requires
        cat.wf(),
    ensures
        optional_norm(cat@, name@, res),
        res matches Some(v) ==> v@.len() == norm_len(cat@, name@),
{
    match cat.load_f32(name) {
        Ok(t) => Some(t.data),
        Err(_) => None,
    }
}

fn labelled(layer: usize, what: &str) -> (res: String)
    ensures
        res@ == "layer-"@ + text::dec(layer as nat) + what@,
{
    let mut m = "layer-".to_string();
    m.append(decimal(layer as u64).as_str());
    m.append(what);
    m
}

fn show(m: &mut String, what: &str, shape: &Vec<usize>)
    ensures
        final(m)@ == old(m)@ + what@ + local_plan::shape_text(shape@),
{
    m.append(what);
    m.append(list_of_usize(shape.as_slice(), ", ").as_str());
}

fn count(m: &mut String, what: &str, n: usize)
    ensures
        final(m)@ == old(m)@ + what@ + text::dec(n as nat),
{
    m.append(what);
    m.append(decimal(n as u64).as_str());
}

/// The attention of a layer.
pub fn load_layer_attn(
    cat: &SafetensorCatalog,
    layer: usize,
    o_groups: Option<u32>,
    o_lora_rank: Option<u32>,
) -> (res: Result<Layer0AttnWeights, TrajectError>)
    requires
        cat.wf(),
        groups_or(o_groups) * rank_or(o_lora_rank) <= usize::MAX,
    ensures
        match res {
            Ok(a) => attn_fault(cat@, layer as nat) is None && attn_is(
                cat@,
                layer as nat,
                groups_or(o_groups),
                rank_or(o_lora_rank),
                a,
            ),
            Err(e) => attn_fault(cat@, layer as nat) == Some(e@),
        },
{
    let (_, norm) = match load_first_f32(
        cat,
        &norms_of(layer, ".attn_norm.weight", ".input_layernorm.weight"),
    ) {
        Some(r) => r,
        None => {
            let mut m = labelled(layer, " attn_norm not found in ");
            m.append(cat.root());
            return Err(TrajectError::Other(m));
        },
    };
    let wq_a = match load_weight_fp8_or_f32(
        cat,
        &names_of(layer, ".attn.wq_a", ".self_attn.q_a_proj.weight"),
    ) {
        Ok(w) => w,
        Err(e) => {
            return Err(e);
        },
    };
    let wkv = match load_weight_fp8_or_f32(
        cat,
        &names_of(layer, ".attn.wkv", ".self_attn.kv_a_proj_with_mqa.weight"),
    ) {
        Ok(w) => w,
        Err(e) => {
            return Err(e);
        },
    };
    if wq_a.dims().len() != 2 || wkv.dims().len() != 2 {
        let mut m = labelled(layer, " projections must be 2D, wq_a=");
        m.append(list_of_usize(wq_a.dims().as_slice(), ", ").as_str());
        show(&mut m, " wkv=", wkv.dims());
        return Err(TrajectError::Other(m));
    }
    let hidden: usize = norm.data.len();
    if wq_a.cols() != hidden || wkv.cols() != hidden {
        let mut m = labelled(layer, " in_features mismatch: norm_h=");
        m.append(decimal(hidden as u64).as_str());
        show(&mut m, " wq_a=", wq_a.dims());
        show(&mut m, " wkv=", wkv.dims());
        return Err(TrajectError::Other(m));
    }
    let q_norm = load_norm(cat, layer_name(layer, ".attn.q_norm.weight").as_str());
    let kv_norm = load_norm(cat, layer_name(layer, ".attn.kv_norm.weight").as_str());
    // Queries may stay at their low rank: the expansion is optional.
    let wq_b = match load_weight_fp8_or_f32(
        cat,
        &names_of(layer, ".attn.wq_b", ".self_attn.q_b_proj.weight"),
    ) {
        Ok(w) => if w.dims().len() == 2 && w.cols() == wq_a.rows() {
            Some(w)
        } else {
            None
        },
        Err(_) => None,
    };
    let kv: usize = wkv.rows();
    let n_heads: Option<usize> = match &wq_b {
        Some(w) => if kv > 0 && w.rows() % kv == 0 {
            Some(w.rows() / kv)
        } else {
            None
        },
        None => None,
    };
    if let Some(qn) = &q_norm {
        if qn.len() != wq_a.rows() {
            let mut m = "q_norm len ".to_string();
            m.append(decimal(qn.len() as u64).as_str());
            count(&mut m, " != q_lora ", wq_a.rows());
            return Err(TrajectError::Other(m));
        }
    }
    if let Some(kn) = &kv_norm {
        if kn.len() != kv {
            let mut m = "kv_norm len ".to_string();
            m.append(decimal(kn.len() as u64).as_str());
            count(&mut m, " != kv_lora ", kv);
            return Err(TrajectError::Other(m));
        }
    }
    let groups: usize = match o_groups {
        Some(n) => n as usize,
        None => 8,
    };
    let rank: usize = match o_lora_rank {
        Some(n) => n as usize,
        None => 1024,
    };
    let inter: usize = groups * rank;
    let wo_a = match load_weight_fp8_or_f32(
        cat,
        &names_of(layer, ".attn.wo_a", ".self_attn.o_a_proj.weight"),
    ) {
        Ok(w) => if pair_is(w.dims(), inter, hidden) {
            Some(w)
        } else {
            None
        },
        Err(_) => None,
    };
    let wo_b = match load_weight_fp8_or_f32(
        cat,
        &names_of(layer, ".attn.wo_b", ".self_attn.o_b_proj.weight"),
    ) {
        Ok(w) => if pair_is(w.dims(), hidden, inter) {
            Some(w)
        } else {
            None
        },
        Err(_) => None,
    };
    Ok(
        Layer0AttnWeights {
            attn_norm: norm.data,
            hidden,
            wq_a,
            wkv,
            q_norm,
            kv_norm,
            wq_b,
            n_heads,
            wo_a,
            wo_b,
            o_groups: groups,
            o_lora_rank: rank,
        },
    )
}

pub open spec fn groups_or(o_groups: Option<u32>) -> usize {
    match o_groups {
        Some(n) => n as usize,
        None => 8,
    }
}

pub open spec fn rank_or(o_lora_rank: Option<u32>) -> usize {
    match o_lora_rank {
        Some(n) => n as usize,
        None => 1024,
    }
}

/// The shared expert of a layer.
#[derive(Debug)]
pub struct Layer0SharedFfn {
    pub ffn_norm: Vec<u32>,
    pub hidden: usize,
    pub intermediate: usize,
    pub w1: Weight,
    pub w2: Weight,
    pub w3: Weight,
}

pub open spec fn ffn_norm_names(layer: nat) -> Seq<Seq<char>> {
    norm_names(layer, ".ffn_norm.weight"@, ".post_attention_layernorm.weight"@)
}

/// The names that a weight of the shared expert may stand under.
pub open spec fn shared_names(layer: nat, w: Seq<char>, proj: Seq<char>) -> Seq<Seq<char>> {
    let tail = ".ffn.shared_experts."@ + w;
    seq![
        of_layer(layer, tail + ".weight"@),
        of_layer(layer, tail),
        of_layer(layer, ".mlp.shared_experts."@ + proj + ".weight"@),
    ]
}

fn shared_of(layer: usize, w: &str, proj: &str) -> (res: Vec<String>)
    ensures
        text::all_chars(res@) == shared_names(layer as nat, w@, proj@),
{
    let mut tail = ".ffn.shared_experts.".to_string();
    tail.append(w);
    let mut full = tail.clone();
    full.append(".weight");
    let mut other = ".mlp.shared_experts.".to_string();
    other.append(proj);
    other.append(".weight");
    let mut res: Vec<String> = Vec::new();
    res.push(layer_name(layer, full.as_str()));
    res.push(layer_name(layer, tail.as_str()));
    res.push(layer_name(layer, other.as_str()));
    assert(text::all_chars(res@) =~= shared_names(layer as nat, w@, proj@));
    res
}

/// What keeps a layer's shared expert from being loaded.
pub open spec fn ffn_fault(c: CatalogView, layer: nat) -> Option<TrajectErrorView> {
    let n1 = shared_names(layer, "w1"@, "gate_proj"@);
    let n2 = shared_names(layer, "w2"@, "down_proj"@);
    let n3 = shared_names(layer, "w3"@, "up_proj"@);
    match first_dense(c, ffn_norm_names(layer)) {
        None => Some(
            TrajectErrorView::Other(
                "layer-"@ + text::dec(layer) + " ffn_norm not found in "@ + c.root,
            ),
        ),
        Some(norm) => match (first_source(c, n1), first_source(c, n2), first_source(c, n3)) {
            (None, _, _) => Some(none_of(n1)),
            (_, None, _) => Some(none_of(n2)),
            (_, _, None) => Some(none_of(n3)),
            (Some(a), Some(b), Some(d)) => shared_fault(
                norm_len(c, norm),
                a.shape(c),
                b.shape(c),
                d.shape(c),
            ),
        },
    }
}

/// What is wrong with the shapes of a shared expert over `hidden` values.
pub open spec fn shared_fault(
    hidden: nat,
    w1: Seq<usize>,
    w2: Seq<usize>,
    w3: Seq<usize>,
) -> Option<TrajectErrorView> {
    if w1.len() != 2 || w2.len() != 2 || w3.len() != 2 {
        Some(
            TrajectErrorView::Other(
                "shared ffn weights must be 2D: w1="@ + local_plan::shape_text(w1) + " w2="@
                    + local_plan::shape_text(w2) + " w3="@ + local_plan::shape_text(w3),
            ),
        )
    } else if w1[1] != hidden || w3[1] != hidden || w3[0] != w1[0] {
        Some(
            TrajectErrorView::Other(
                "shared ffn shape mismatch: hidden="@ + text::dec(hidden) + " w1="@
                    + local_plan::shape_text(w1) + " w3="@ + local_plan::shape_text(w3),
            ),
        )
    } else if w2[0] != hidden || w2[1] != w1[0] {
        Some(
            TrajectErrorView::Other(
                "shared ffn w2 shape "@ + local_plan::shape_text(w2) + " want ["@ + text::dec(
                    hidden,
                ) + ", "@ + text::dec(w1[0] as nat) + "]"@,
            ),
        )
    } else {
        None
    }
}

/// Whether `f` is the shared expert of a layer, where nothing keeps it from
/// being loaded.
pub open spec fn ffn_is(c: CatalogView, layer: nat, f: Layer0SharedFfn) -> bool {
    let norm = first_dense(c, ffn_norm_names(layer))->Some_0;
    let a = first_source(c, shared_names(layer, "w1"@, "gate_proj"@))->Some_0;
    let b = first_source(c, shared_names(layer, "w2"@, "down_proj"@))->Some_0;
    let d = first_source(c, shared_names(layer, "w3"@, "up_proj"@))->Some_0;
    &&& c.dense(norm, TensorF32View { data: f.ffn_norm@, shape: c.raw(norm)->Some_0.shape })
    &&& f.hidden == norm_len(c, norm)
    &&& f.intermediate == a.shape(c)[0]
    &&& a.gives(c, f.w1)
    &&& b.gives(c, f.w2)
    &&& d.gives(c, f.w3)
}

/// The shared expert of a layer.
pub fn load_layer_shared_ffn(cat: &SafetensorCatalog, layer: usize) -> (res: Result<
    Layer0SharedFfn,
    TrajectError,
>)
    requires
        cat.wf(),
    ensures
        match res {
            Ok(f) => ffn_fault(cat@, layer as nat) is None && ffn_is(cat@, layer as nat, f),
            Err(e) => ffn_fault(cat@, layer as nat) == Some(e@),
        },
{
    let (_, norm) = match load_first_f32(
        cat,
        &norms_of(layer, ".ffn_norm.weight", ".post_attention_layernorm.weight"),
    ) {
        Some(r) => r,
        None => {
            let mut m = labelled(layer, " ffn_norm not found in ");
            m.append(cat.root());
            return Err(TrajectError::Other(m));
        },
    };
    let w1 = match load_weight_fp8_or_f32(cat, &shared_of(layer, "w1", "gate_proj")) {
        Ok(w) => w,
        Err(e) => {
            return Err(e);
        },
    };
    let w2 = match load_weight_fp8_or_f32(cat, &shared_of(layer, "w2", "down_proj")) {
        Ok(w) => w,
        Err(e) => {
            return Err(e);
        },
    };
    let w3 = match load_weight_fp8_or_f32(cat, &shared_of(layer, "w3", "up_proj")) {
        Ok(w) => w,
        Err(e) => {
            return Err(e);
        },
    };
    if w1.dims().len() != 2 || w2.dims().len() != 2 || w3.dims().len() != 2 {
        let mut m = "shared ffn weights must be 2D: w1=".to_string();
        m.append(list_of_usize(w1.dims().as_slice(), ", ").as_str());
        show(&mut m, " w2=", w2.dims());
        show(&mut m, " w3=", w3.dims());
        return Err(TrajectError::Other(m));
    }
    let hidden: usize = norm.data.len();
    let intermediate: usize = w1.rows();
    if w1.cols() != hidden || w3.cols() != hidden || w3.rows() != intermediate {
        let mut m = "shared ffn shape mismatch: hidden=".to_string();
        m.append(decimal(hidden as u64).as_str());
        show(&mut m, " w1=", w1.dims());
        show(&mut m, " w3=", w3.dims());
        return Err(TrajectError::Other(m));
    }
    if w2.rows() != hidden || w2.cols() != intermediate {
        let mut m = "shared ffn w2 shape ".to_string();
        m.append(list_of_usize(w2.dims().as_slice(), ", ").as_str());
        m.append(" want [");
        m.append(decimal(hidden as u64).as_str());
        m.append(", ");
        m.append(decimal(intermediate as u64).as_str());
        m.append("]");
        return Err(TrajectError::Other(m));
    }
    Ok(Layer0SharedFfn { ffn_norm: norm.data, hidden, intermediate, w1, w2, w3 })
}

/// A routed expert, left packed.
#[derive(Debug)]
pub struct ExpertPacked {
    pub w1: PackedFp4Mat,
    pub w2: PackedFp4Mat,
    pub w3: PackedFp4Mat,
}

/// The name of a weight of an expert.
pub open spec fn expert_name(layer: nat, id: nat, w: Seq<char>) -> Seq<char> {
    of_layer(layer, ".ffn.experts."@ + text::dec(id) + "."@ + w + ".weight"@)
}

fn expert_weight(layer: usize, id: usize, w: &str) -> (res: String)
    ensures
        res@ == expert_name(layer as nat, id as nat, w@),
{
    let mut tail = ".ffn.experts.".to_string();
    tail.append(decimal(id as u64).as_str());
    tail.append(".");
    tail.append(w);
    tail.append(".weight");
    layer_name(layer, tail.as_str())
}

/// Whether an expert can be read.
pub open spec fn has_expert(c: CatalogView, layer: nat, id: nat) -> bool {
    &&& catalog::packs(c, expert_name(layer, id, "w1"@))
    &&& catalog::packs(c, expert_name(layer, id, "w2"@))
    &&& catalog::packs(c, expert_name(layer, id, "w3"@))
}

/// Whether `e` is that expert.
pub open spec fn expert_is(c: CatalogView, layer: nat, id: nat, e: ExpertPacked) -> bool {
    &&& catalog::is_packed(c, expert_name(layer, id, "w1"@), 32, e.w1)
    &&& catalog::is_packed(c, expert_name(layer, id, "w2"@), 32, e.w2)
    &&& catalog::is_packed(c, expert_name(layer, id, "w3"@), 32, e.w3)
}

/// Whether `e` is the error for an expert that cannot be read: that of the
/// first of its weights that cannot.
pub open spec fn expert_fault(c: CatalogView, layer: nat, id: nat, e: TrajectErrorView) -> bool {
    let w1 = expert_name(layer, id, "w1"@);
    let w2 = expert_name(layer, id, "w2"@);
    let w3 = expert_name(layer, id, "w3"@);
    if !catalog::packs(c, w1) {
        c.packed_fault(w1, e)
    } else if !catalog::packs(c, w2) {
        c.packed_fault(w2, e)
    } else {
        c.packed_fault(w3, e)
    }
}

/// An expert of a layer.
pub fn load_fp4_expert_packed(cat: &SafetensorCatalog, layer: usize, id: usize) -> (res: Result<
    ExpertPacked,
    TrajectError,
>)
    requires
        cat.wf(),
    ensures
        res is Ok <==> has_expert(cat@, layer as nat, id as nat),
        match res {
            Ok(e) => expert_is(cat@, layer as nat, id as nat, e),
            Err(e) => expert_fault(cat@, layer as nat, id as nat, e@),
        },
{
    let w1 = match cat.load_fp4_packed(expert_weight(layer, id, "w1").as_str(), 32) {
        Ok(w) => w,
        Err(e) => {
            return Err(e);
        },
    };
    let w2 = match cat.load_fp4_packed(expert_weight(layer, id, "w2").as_str(), 32) {
        Ok(w) => w,
        Err(e) => {
            return Err(e);
        },
    };
    let w3 = match cat.load_fp4_packed(expert_weight(layer, id, "w3").as_str(), 32) {
        Ok(w) => w,
        Err(e) => {
            return Err(e);
        },
    };
    Ok(ExpertPacked { w1, w2, w3 })
}

/// The routed experts of a layer: the matrix that routes to them, and those
/// in memory.
#[derive(Debug)]
pub struct Layer0RoutedMoe {
    pub layer: usize,
    /// One row for each expert.
    pub gate: TensorF32,
    pub n_experts: usize,
    /// Experts for each token.
    pub top_k: usize,
    pub route_scale: F32Bits,
    pub hidden: usize,
    pub intermediate: usize,
    /// The experts in memory.
    pub cache: ExpertLru<ExpertPacked>,
}

impl Layer0RoutedMoe {
    pub open spec fn wf(&self) -> bool {
        self.cache.wf()
    }

    /// The experts in memory.
    pub open spec fn cached(&self) -> LruView<ExpertPacked> {
        self.cache@
    }

    /// How often an expert was in memory, and how often not.
    pub fn cache_stats(&self) -> (res: (u64, u64))
        ensures
            res.0 == self.cached().hits,
            res.1 == self.cached().misses,
    {
        self.cache.stats()
    }

    /// The experts that score best, best first, given the bits of their scores.
    pub fn route(&self, scores: &[u32]) -> (res: Vec<usize>)
        ensures
            ({
                let keys = Seq::new(scores@.len(), |i: int| rank::order_of(scores@[i]) as i64);
                &&& rank::is_top(res@, keys, rank::top_count(self.top_k as nat, keys.len()))
                &&& forall|i: int, j: int|
                    0 <= i < j < res@.len() ==> #[trigger] rank::beats(
                        keys,
                        res@[i] as int,
                        res@[j] as int,
                    )
            }),
    {
        let keys = order_keys(scores);
        best_first(&keys, self.top_k)
    }

    /// An expert: one that is in memory, or one that is read and kept.
    pub fn expert(&mut self, cat: &SafetensorCatalog, id: usize) -> (res: Result<
        &ExpertPacked,
        TrajectError,
    >)
        requires
            old(self).wf(),
            cat.wf(),
            old(self).cached().hits < u64::MAX,
            old(self).cached().misses < u64::MAX,
        ensures
            final(self).wf(),
            *final(self) == (Layer0RoutedMoe { cache: final(self).cache, ..*old(self) }),
            ({
                let asked = old(self).cached().touched(id);
                match old(self).cached().value(id) {
                    Some(e) => (res matches Ok(r) && *r == e) && final(self).cached() == asked,
                    None => match res {
                        Ok(r) => expert_is(cat@, old(self).layer as nat, id as nat, *r)
                            && final(self).cached() == asked.stored(id, *r),
                        Err(e) => expert_fault(cat@, old(self).layer as nat, id as nat, e@)
                            && final(self).cached() == asked,
                    },
                }
            }),
            res is Ok <==> old(self).cached().value(id) is Some || has_expert(
                cat@,
                old(self).layer as nat,
                id as nat,
            ),
    {
        let ghost before = self.cache@;
        proof {
            expert_lru::law_get_keeps_values(before, id, id);
        }
        let there = match self.cache.get(id) {
            Some(_) => true,
            None => false,
        };
        if !there {
            let ghost asked = self.cache@;
            match load_fp4_expert_packed(cat, self.layer, id) {
                Ok(e) => {
                    proof {
                        expert_lru::law_put_then_get(asked, id, e, id);
                    }
                    self.cache.put(id, e);
                },
                Err(e) => {
                    return Err(e);
                },
            }
        }
        match self.cache.peek(id) {
            Some(e) => Ok(e),
            None => Err(TrajectError::Other("expert not in memory".to_string())),
        }
    }
}

pub open spec fn gate_name(layer: nat) -> Seq<char> {
    of_layer(layer, ".ffn.gate.weight"@)
}

/// Twice a number, as far as it can be counted.
pub open spec fn doubled(n: usize) -> int {
    if 2 * n <= usize::MAX {
        2 * n
    } else {
        usize::MAX as int
    }
}

/// Whether the shapes of the first expert go with the routing matrix.
pub open spec fn expert_fits(hidden: usize, e: ExpertPacked) -> bool {
    &&& doubled(e.w1.packed_cols) == hidden
    &&& doubled(e.w3.packed_cols) == hidden
    &&& e.w2.rows == hidden
    &&& doubled(e.w2.packed_cols) == e.w1.rows
}

/// The same, of what is stored.
pub open spec fn stored_expert_fits(c: CatalogView, layer: nat, hidden: usize) -> bool {
    let w1 = c.raw(expert_name(layer, 0, "w1"@))->Some_0.shape;
    let w2 = c.raw(expert_name(layer, 0, "w2"@))->Some_0.shape;
    let w3 = c.raw(expert_name(layer, 0, "w3"@))->Some_0.shape;
    &&& doubled(w1[1]) == hidden
    &&& doubled(w3[1]) == hidden
    &&& w2[0] == hidden
    &&& doubled(w2[1]) == w1[0]
}

/// Whether the routed experts of a layer can be loaded.
pub open spec fn has_routed(c: CatalogView, layer: nat) -> bool {
    &&& c.has(gate_name(layer))
    &&& c.has_dense(gate_name(layer))
    &&& c.raw(gate_name(layer))->Some_0.shape.len() == 2
    &&& has_expert(c, layer, 0)
    &&& stored_expert_fits(c, layer, c.raw(gate_name(layer))->Some_0.shape[1])
}

/// Whether `g` are the routed experts of a layer, with the first one in memory
/// and the others not.
pub open spec fn routed_is(
    c: CatalogView,
    layer: nat,
    experts_per_tok: Option<u32>,
    scale: Option<F32Bits>,
    cache_cap: usize,
    g: Layer0RoutedMoe,
) -> bool {
    &&& g.layer == layer
    &&& c.dense(gate_name(layer), g.gate@)
    &&& g.n_experts == g.gate@.shape[0]
    &&& g.hidden == g.gate@.shape[1]
    &&& g.wf()
    &&& (g.cached().value(0) matches Some(e) && expert_is(c, layer, 0, e) && expert_fits(
        g.hidden,
        e,
    ) && g.intermediate == e.w1.rows)
    &&& g.cached().entries.len() == 1
    &&& g.cached().hits == 0
    &&& g.cached().misses == 0
    &&& g.cached().cap == (if cache_cap < 1 {
        1
    } else {
        cache_cap
    })
    &&& g.route_scale == match scale {
        Some(x) => x,
        None => F32Bits(0x3fc0_0000),
    }
    &&& g.top_k == match experts_per_tok {
        Some(n) => n as usize,
        None => 6,
    }
}

/// How an error says that the first expert does not go with the routing
/// matrix.
pub open spec fn misfit_text(c: CatalogView, layer: nat, hidden: usize) -> Seq<char> {
    let w1 = c.raw(expert_name(layer, 0, "w1"@))->Some_0.shape;
    let w2 = c.raw(expert_name(layer, 0, "w2"@))->Some_0.shape;
    let w3 = c.raw(expert_name(layer, 0, "w3"@))->Some_0.shape;
    if doubled(w1[1]) != hidden || doubled(w3[1]) != hidden {
        "expert0 in_features mismatch: hidden="@ + text::dec(hidden as nat) + " w1_cols="@
            + text::dec(doubled(w1[1]) as nat) + " w3_cols="@ + text::dec(doubled(w3[1]) as nat)
    } else {
        "expert0 w2 shape ["@ + text::dec(w2[0] as nat) + ", "@ + text::dec(doubled(w2[1]) as nat)
            + "] want ["@ + text::dec(hidden as nat) + ", "@ + text::dec(w1[0] as nat) + "]"@
    }
}

/// Whether `e` is the error for routed experts that cannot be loaded.
pub open spec fn routed_fault(c: CatalogView, layer: nat, e: TrajectErrorView) -> bool {
    let name = gate_name(layer);
    if !c.has(name) {
        e == TrajectErrorView::Other(name + " not found"@)
    } else if !c.has_dense(name) {
        c.dense_fault(name, e)
    } else {
        let shape = c.raw(name)->Some_0.shape;
        if shape.len() != 2 {
            e == TrajectErrorView::Other(
                "gate shape "@ + local_plan::shape_text(shape) + " want [n_experts, hidden]"@,
            )
        } else if !has_expert(c, layer, 0) {
            expert_fault(c, layer, 0, e)
        } else {
            e == TrajectErrorView::Other(misfit_text(c, layer, shape[1]))
        }
    }
}

/// The routed experts of a layer, with the first one in memory. What the
/// model's configuration says of the experts for each token and of their scale
/// holds; six and one and a half where it says nothing.
pub fn load_layer_routed_moe(
    cat: &SafetensorCatalog,
    layer: usize,
    experts_per_tok: Option<u32>,
    scale: Option<F32Bits>,
    cache_cap: usize,
) -> (res: Result<Layer0RoutedMoe, TrajectError>)
    requires
        cat.wf(),
    ensures
        res is Ok <==> has_routed(cat@, layer as nat),
        match res {
            Ok(g) => routed_is(cat@, layer as nat, experts_per_tok, scale, cache_cap, g),
            Err(e) => routed_fault(cat@, layer as nat, e@),
        },
{
    let name = layer_name(layer, ".ffn.gate.weight");
    if !cat.has(name.as_str()) {
        let mut m = name;
        m.append(" not found");
        return Err(TrajectError::Other(m));
    }
    let gate = match cat.load_f32(name.as_str()) {
        Ok(t) => t,
        Err(e) => {
            return Err(e);
        },
    };
    if gate.shape.len() != 2 {
        let mut m = "gate shape ".to_string();
        m.append(list_of_usize(gate.shape.as_slice(), ", ").as_str());
        m.append(" want [n_experts, hidden]");
        return Err(TrajectError::Other(m));
    }
    let n_experts: usize = gate.rows();
    let hidden: usize = gate.cols();
    // The first expert says how wide they all are.
    let first = match load_fp4_expert_packed(cat, layer, 0) {
        Ok(e) => e,
        Err(e) => {
            return Err(e);
        },
    };
    if first.w1.logical_cols() != hidden || first.w3.logical_cols() != hidden {
        let mut m = "expert0 in_features mismatch: hidden=".to_string();
        m.append(decimal(hidden as u64).as_str());
        count(&mut m, " w1_cols=", first.w1.logical_cols());
        count(&mut m, " w3_cols=", first.w3.logical_cols());
        return Err(TrajectError::Other(m));
    }
    let intermediate: usize = first.w1.rows;
    if first.w2.rows != hidden || first.w2.logical_cols() != intermediate {
        let mut m = "expert0 w2 shape [".to_string();
        m.append(decimal(first.w2.rows as u64).as_str());
        count(&mut m, ", ", first.w2.logical_cols());
        count(&mut m, "] want [", hidden);
        count(&mut m, ", ", intermediate);
        m.append("]");
        return Err(TrajectError::Other(m));
    }
    let mut cache: ExpertLru<ExpertPacked> = ExpertLru::new(cache_cap);
    proof {
        expert_lru::law_put_then_get(cache@, 0, first, 0);
    }
    cache.put(0, first);
    Ok(
        Layer0RoutedMoe {
            layer,
            gate,
            n_experts,
            top_k: match experts_per_tok {
                Some(n) => n as usize,
                None => 6,
            },
            route_scale: match scale {
                Some(x) => x,
                None => F32Bits(0x3fc0_0000),
            },
            hidden,
            intermediate,
            cache,
        },
    )
}

/// One block of the model: attention, and what follows it where it is there.
#[derive(Debug)]
pub struct LayerBlock {
    pub layer: usize,
    pub attn: Layer0AttnWeights,
    pub ffn: Option<Layer0SharedFfn>,
    pub moe: Option<Layer0RoutedMoe>,
}

/// Whether `b` is the block of a layer.
pub open spec fn block_is(
    c: CatalogView,
    layer: nat,
    groups: usize,
    rank: usize,
    experts_per_tok: Option<u32>,
    scale: Option<F32Bits>,
    cache_cap: usize,
    b: LayerBlock,
) -> bool {
    &&& b.layer == layer
    &&& attn_fault(c, layer) is None
    &&& attn_is(c, layer, groups, rank, b.attn)
    &&& (b.ffn is Some <==> ffn_fault(c, layer) is None)
    &&& (b.ffn matches Some(f) ==> ffn_is(c, layer, f))
    &&& (b.moe is Some <==> has_routed(c, layer))
    &&& (b.moe matches Some(g) ==> routed_is(
        c,
        layer,
        experts_per_tok,
        scale,
        cache_cap,
        g,
    ))
}

/// The first `n_layers` blocks, one at least. Attention has to be there in
/// each; the first layer without it says what is wrong.
pub fn load_layer_stack(
    cat: &SafetensorCatalog,
    n_layers: usize,
    o_groups: Option<u32>,
    o_lora_rank: Option<u32>,
    experts_per_tok: Option<u32>,
    scale: Option<F32Bits>,
    cache_cap: usize,
) -> (res: Result<Vec<LayerBlock>, TrajectError>)
    requires
        cat.wf(),
        groups_or(o_groups) * rank_or(o_lora_rank) <= usize::MAX,
    ensures
        match res {
            Ok(bs) => {
                &&& bs@.len() == if n_layers < 1 {
                    1
                } else {
                    n_layers as nat
                }
                &&& forall|i: int|
                    0 <= i < bs@.len() ==> block_is(
                        cat@,
                        i as nat,
                        groups_or(o_groups),
                        rank_or(o_lora_rank),
                        experts_per_tok,
                        scale,
                        cache_cap,
                        #[trigger] bs@[i],
                    )
            },
            Err(e) => exists|i: nat|
                {
                    &&& i < (if n_layers < 1 {
                        1
                    } else {
                        n_layers
                    })
                    &&& #[trigger] attn_fault(cat@, i) == Some(e@)
                    &&& forall|j: nat| j < i ==> #[trigger] attn_fault(cat@, j) is None
                },
        },
{
    let n: usize = if n_layers < 1 {
        1
    } else {
        n_layers
    };
    let mut out: Vec<LayerBlock> = Vec::new();
    let mut layer: usize = 0;
    while layer < n
        invariant
            cat.wf(),
            groups_or(o_groups) * rank_or(o_lora_rank) <= usize::MAX,
            layer <= n,
            n == (if n_layers < 1 {
                1
            } else {
                n_layers
            }),
            out@.len() == layer,
            forall|i: int|
                0 <= i < out@.len() ==> block_is(
                    cat@,
                    i as nat,
                    groups_or(o_groups),
                    rank_or(o_lora_rank),
                    experts_per_tok,
                    scale,
                    cache_cap,
                    #[trigger] out@[i],
                ),
        decreases n - layer,
    {
        let attn = match load_layer_attn(cat, layer, o_groups, o_lora_rank) {
            Ok(a) => a,
            Err(e) => {
                assert forall|j: nat| j < layer implies #[trigger] attn_fault(cat@, j) is None by {
                    assert(block_is(
                        cat@,
                        j,
                        groups_or(o_groups),
                        rank_or(o_lora_rank),
                        experts_per_tok,
                        scale,
                        cache_cap,
                        out@[j as int],
                    ));
                }
                assert(attn_fault(cat@, layer as nat) == Some(e@));
                return Err(e);
            },
        };
        let ffn = match load_layer_shared_ffn(cat, layer) {
            Ok(f) => Some(f),
            Err(_) => None,
        };
        let moe = match load_layer_routed_moe(cat, layer, experts_per_tok, scale, cache_cap) {
            Ok(g) => Some(g),
            Err(_) => None,
        };
        out.push(LayerBlock { layer, attn, ffn, moe });
        layer += 1;
    }
    Ok(out)
}

/// The attention of the first layer.
pub fn load_layer0_attn(
    cat: &SafetensorCatalog,
    o_groups: Option<u32>,
    o_lora_rank: Option<u32>,
) -> (res: Result<Layer0AttnWeights, TrajectError>)
    requires
        cat.wf(),
        groups_or(o_groups) * rank_or(o_lora_rank) <= usize::MAX,
    ensures
        match res {
            Ok(a) => attn_fault(cat@, 0) is None && attn_is(
                cat@,
                0,
                groups_or(o_groups),
                rank_or(o_lora_rank),
                a,
            ),
            Err(e) => attn_fault(cat@, 0) == Some(e@),
        },
{
    load_layer_attn(cat, 0, o_groups, o_lora_rank)
}

/// The shared expert of the first layer.
pub fn load_layer0_shared_ffn(cat: &SafetensorCatalog) -> (res: Result<
    Layer0SharedFfn,
    TrajectError,
>)
    requires
        cat.wf(),
    ensures
        match res {
            Ok(f) => ffn_fault(cat@, 0) is None && ffn_is(cat@, 0, f),
            Err(e) => ffn_fault(cat@, 0) == Some(e@),
        },
{
    load_layer_shared_ffn(cat, 0)
}

/// The routed experts of the first layer.
pub fn load_layer0_routed_moe(
    cat: &SafetensorCatalog,
    experts_per_tok: Option<u32>,
    scale: Option<F32Bits>,
    cache_cap: usize,
) -> (res: Result<Layer0RoutedMoe, TrajectError>)
    requires
        cat.wf(),
    ensures
        res is Ok <==> has_routed(cat@, 0),
        match res {
            Ok(g) => routed_is(cat@, 0, experts_per_tok, scale, cache_cap, g),
            Err(e) => routed_fault(cat@, 0, e@),
        },
{
    load_layer_routed_moe(cat, 0, experts_per_tok, scale, cache_cap)
}

/// The embedding, the output weights, the final norm where it is there, and
/// the name that the embedding stands under.
#[derive(Debug)]
pub struct ModelEnds {
    pub embed: TensorF32,
    pub head: TensorF32,
    pub norm: Option<TensorF32>,
    pub embed_key: String,
}

pub open spec fn embed_names() -> Seq<Seq<char>> {
    seq![
        "embed.weight"@,
        "model.embed_tokens.weight"@,
        "transformer.wte.weight"@,
        "tok_embeddings.weight"@,
    ]
}

pub open spec fn head_names() -> Seq<Seq<char>> {
    seq![
        "head.weight"@,
        "lm_head.weight"@,
        "output.weight"@,
        "model.embed_tokens.weight"@,
    ]
}

pub open spec fn norm_end_names() -> Seq<Seq<char>> {
    seq!["norm.weight"@, "model.norm.weight"@, "transformer.ln_f.weight"@]
}

fn four(a: &str, b: &str, c: &str, d: &str) -> (res: Vec<String>)
    ensures
        text::all_chars(res@) == seq![a@, b@, c@, d@],
{
    let mut res: Vec<String> = Vec::new();
    res.push(a.to_string());
    res.push(b.to_string());
    res.push(c.to_string());
    res.push(d.to_string());
    assert(text::all_chars(res@) =~= seq![a@, b@, c@, d@]);
    res
}

/// What keeps the ends of a model from being loaded.
pub open spec fn ends_fault(c: CatalogView) -> Option<TrajectErrorView> {
    if first_dense(c, embed_names()) is None {
        Some(
            TrajectErrorView::Other(
                "no embedding tensor found in "@ + c.root + " (tried "@ + names_text(embed_names())
                    + ")"@,
            ),
        )
    } else if first_dense(c, head_names()) is None {
        Some(
            TrajectErrorView::Other(
                "no lm head tensor found in "@ + c.root + " (tried "@ + names_text(head_names())
                    + ")"@,
            ),
        )
    } else {
        None
    }
}

fn missing(what: &str, root: &str, names: &Vec<String>) -> (res: TrajectError)
    ensures
        res@ == TrajectErrorView::Other(
            what@ + root@ + " (tried "@ + names_text(text::all_chars(names@)) + ")"@,
        ),
{
    let mut m = what.to_string();
    m.append(root);
    m.append(" (tried ");
    m.append(show_names(names).as_str());
    m.append(")");
    TrajectError::Other(m)
}

/// The ends of a model. The output weights may be those of the embedding.
pub fn load_embed_head_norm(cat: &SafetensorCatalog) -> (res: Result<ModelEnds, TrajectError>)
    requires
        cat.wf(),
    ensures
        match res {
            Ok(m) => {
                &&& ends_fault(cat@) is None
                &&& first_dense(cat@, embed_names()) == Some(m.embed_key@)
                &&& cat@.dense(m.embed_key@, m.embed@)
                &&& (first_dense(cat@, head_names()) matches Some(h) && cat@.dense(h, m.head@))
                &&& match first_dense(cat@, norm_end_names()) {
                    Some(n) => m.norm matches Some(t) && cat@.dense(n, t@),
                    None => m.norm is None,
                }
            },
            Err(e) => ends_fault(cat@) == Some(e@),
        },
{
    let embeds = four(
        "embed.weight",
        "model.embed_tokens.weight",
        "transformer.wte.weight",
        "tok_embeddings.weight",
    );
    let heads = four("head.weight", "lm_head.weight", "output.weight", "model.embed_tokens.weight");
    let mut norms: Vec<String> = Vec::new();
    norms.push("norm.weight".to_string());
    norms.push("model.norm.weight".to_string());
    norms.push("transformer.ln_f.weight".to_string());
    assert(text::all_chars(norms@) =~= norm_end_names());
    let (embed_key, embed) = match load_first_f32(cat, &embeds) {
        Some(r) => r,
        None => {
            return Err(missing("no embedding tensor found in ", cat.root(), &embeds));
        },
    };
    let head = match load_first_f32(cat, &heads) {
        Some(r) => r.1,
        None => {
            return Err(missing("no lm head tensor found in ", cat.root(), &heads));
        },
    };
    let norm = match load_first_f32(cat, &norms) {
        Some(r) => Some(r.1),
        None => None,
    };
    Ok(ModelEnds { embed, head, norm, embed_key })
}

/// Where the embedding stands under the name that tied models use, and no
/// output weights stand before it, the two are the same tensor.
pub proof fn law_tied_head(c: CatalogView)
    requires
        first_dense(c, embed_names()) == Some("model.embed_tokens.weight"@),
        !c.has_dense("head.weight"@),
        !c.has_dense("lm_head.weight"@),
        !c.has_dense("output.weight"@),
        c.has_dense("model.embed_tokens.weight"@),
    ensures
        first_dense(c, head_names()) == Some("model.embed_tokens.weight"@),
{
    let h = head_names();
    let h1 = h.drop_first();
    let h2 = h1.drop_first();
    let h3 = h2.drop_first();
    assert(h[0] == "head.weight"@ && h1[0] == "lm_head.weight"@ && h2[0] == "output.weight"@ && h3[0]
        == "model.embed_tokens.weight"@);
    assert(first_dense(c, h3) == Some("model.embed_tokens.weight"@));
    assert(first_dense(c, h2) == first_dense(c, h3));
    assert(first_dense(c, h1) == first_dense(c, h2));
}

} // verus!
