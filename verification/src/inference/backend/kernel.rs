//! What attention kernels are given, and what has to hold of it.
use vstd::prelude::*;

use crate::error::{TrajectError, TrajectErrorView};
use crate::inference::rank;
use crate::inference::rank::{best_first, order_keys};
use crate::slices::copied;
use crate::text;
use crate::text::decimal;

verus! {

/// Layout of keys and values: tokens first or heads first.
#[derive(Debug, Clone, Copy, PartialEq, Eq, Structural)]
pub enum KvLayout {
    Nhd,
    Hnd,
}

impl Default for KvLayout {
    fn default() -> (res: Self)
        ensures
            res == KvLayout::Nhd,
    {
        KvLayout::Nhd
    }
}

impl KvLayout {
    /// The layout's name in kernels.
    pub fn as_flashinfer(self) -> (res: &'static str)
        ensures
            res@ == match self {
                KvLayout::Nhd => "NHD"@,
                KvLayout::Hnd => "HND"@,
            },
    {
        match self {
            KvLayout::Nhd => "NHD",
            KvLayout::Hnd => "HND",
        }
    }
}

/// Attention of several tokens, each over those up to it.
#[derive(Debug)]
pub struct PrefillRequest<T> {
    pub q: Vec<T>,
    pub k: Vec<T>,
    pub v: Vec<T>,
    pub num_tokens: u32,
    pub num_heads: u32,
    pub head_dim: u32,
    pub layout: KvLayout,
}

impl<T> PrefillRequest<T> {
    /// The values of one token.
    pub open spec fn width(self) -> int {
        self.num_heads * self.head_dim
    }
}

impl<T: Copy> PrefillRequest<T> {
    /// The attention of token `i`, over those up to it.
    pub fn token_request(&self, i: u32) -> (res: DecodeRequest<T>)
        requires
            i < self.num_tokens,
            (i + 1) * self.width() <= self.q@.len(),
            (i + 1) * self.width() <= self.k@.len(),
            (i + 1) * self.width() <= self.v@.len(),
        ensures
            res.q@ == self.q@.subrange(i * self.width(), (i + 1) * self.width()),
            res.k_cache@ == self.k@.take((i + 1) * self.width()),
            res.v_cache@ == self.v@.take((i + 1) * self.width()),
            res.seq_len == i + 1,
            res.num_heads == self.num_heads,
            res.head_dim == self.head_dim,
            res.layout == self.layout,
            res.attn_sink is None,
    {
        let ghost w = self.width();
        assert(self.q.len() <= usize::MAX);
        assert(0 <= w && 0 <= i * w && (i + 1) * w == i * w + w) by (nonlinear_arith)
            requires
                w == self.num_heads * self.head_dim,
        ;
        let width: usize = (self.num_heads as u64 * self.head_dim as u64) as usize;
        let start: usize = i as usize * width;
        let end: usize = start + width;
        let k_cache = copied(self.k.as_slice(), 0, end);
        let v_cache = copied(self.v.as_slice(), 0, end);
        assert(k_cache@ =~= self.k@.take(end as int));
        assert(v_cache@ =~= self.v@.take(end as int));
        DecodeRequest {
            q: copied(self.q.as_slice(), start, end),
            k_cache,
            v_cache,
            seq_len: i + 1,
            num_heads: self.num_heads,
            head_dim: self.head_dim,
            layout: self.layout,
            attn_sink: None,
        }
    }
}

#[derive(Debug)]
pub struct PrefillResult<T> {
    pub o: Vec<T>,
}

/// Attention of one token over a cache.
#[derive(Debug)]
pub struct DecodeRequest<T> {
    pub q: Vec<T>,
    pub k_cache: Vec<T>,
    pub v_cache: Vec<T>,
    pub seq_len: u32,
    pub num_heads: u32,
    pub head_dim: u32,
    pub layout: KvLayout,
    /// One score for each head that takes attention away.
    pub attn_sink: Option<Vec<T>>,
}

#[derive(Debug)]
pub struct DecodeResult<T> {
    pub o: Vec<T>,
}

#[derive(Debug)]
pub struct SampleRequest<T> {
    pub logits: Vec<T>,
    pub temperature: T,
    pub top_p: T,
}

#[derive(Debug, Clone, Copy, PartialEq, Eq, Structural)]
pub struct SampleResult {
    pub token_id: u32,
}

/// The attention kernel that runs anywhere.
#[derive(Debug, Clone, Copy, PartialEq, Eq, Structural)]
pub struct CpuRefKernel;

impl CpuRefKernel {
    pub fn name(&self) -> (res: &'static str)
        ensures
            res@ == "cpu-ref"@,
    {
        "cpu-ref"
    }
}

/// What is wrong with the lengths of what attention is given, if anything.
pub open spec fn attn_fault(
    q: nat,
    k: nat,
    v: nat,
    seq_len: nat,
    heads: nat,
    dim: nat,
) -> Option<TrajectErrorView> {
    if q != heads * dim {
        Some(
            TrajectErrorView::Inference(
                "q len "@ + text::dec(q) + " != H*D "@ + text::dec(heads * dim),
            ),
        )
    } else if k != seq_len * (heads * dim) || v != k {
        Some(TrajectErrorView::Inference("k/v shape mismatch"@))
    } else {
        None
    }
}

/// Checks the lengths of what attention is given.
pub fn check_attn_shapes(
    q: usize,
    k: usize,
    v: usize,
    seq_len: usize,
    num_heads: usize,
    head_dim: usize,
) -> (res: Result<(), TrajectError>)
    requires
        num_heads * head_dim <= usize::MAX,
        seq_len * (num_heads * head_dim) <= usize::MAX,
    ensures
        match res {
            Ok(_) => attn_fault(
                q as nat,
                k as nat,
                v as nat,
                seq_len as nat,
                num_heads as nat,
                head_dim as nat,
            ) is None,
            Err(e) => attn_fault(
                q as nat,
                k as nat,
                v as nat,
                seq_len as nat,
                num_heads as nat,
                head_dim as nat,
            ) == Some(e@),
        },
{
    let width: usize = num_heads * head_dim;
    if q != width {
        let mut m = "q len ".to_string();
        m.append(decimal(q as u64).as_str());
        m.append(" != H*D ");
        m.append(decimal(width as u64).as_str());
        return Err(TrajectError::Inference(m));
    }
    if k != seq_len * width || v != k {
        return Err(TrajectError::Inference("k/v shape mismatch".to_string()));
    }
    Ok(())
}

/// Where the values of head `h` of token `s` start, tokens first.
pub fn head_offset(s: usize, h: usize, num_heads: usize, head_dim: usize) -> (res: usize)
    requires
        h < num_heads,
        (s + 1) * num_heads * head_dim <= usize::MAX,
        head_dim >= 1,
    ensures
        res == (s * num_heads + h) * head_dim,
        res + head_dim <= (s + 1) * num_heads * head_dim,
{
    assert((s + 1) * num_heads == s * num_heads + num_heads) by (nonlinear_arith);
    assert((s * num_heads + h) * head_dim + head_dim <= (s + 1) * num_heads * head_dim)
        by (nonlinear_arith)
        requires
            h + 1 <= num_heads,
            (s + 1) * num_heads == s * num_heads + num_heads,
    ;
    assert(s * num_heads + h <= (s * num_heads + h) * head_dim) by (nonlinear_arith)
        requires
            head_dim >= 1,
            s >= 0,
            num_heads >= 0,
            h >= 0,
    ;
    assert(s * num_heads >= 0) by (nonlinear_arith);
    (s * num_heads + h) * head_dim
}

/// The token that scores best, the first of them where several do: scores are
/// given by the bits of single-precision numbers.
pub fn greedy(scores: &[u32]) -> (res: Result<SampleResult, TrajectError>)
    requires
        scores@.len() <= u32::MAX,
    ensures
        match res {
            Ok(r) => scores@.len() > 0 && r.token_id < scores@.len() && forall|t: int|
                0 <= t < scores@.len() && t != r.token_id ==> (rank::order_of(
                    scores@[r.token_id as int],
                ) > rank::order_of(#[trigger] scores@[t]) || (rank::order_of(
                    scores@[r.token_id as int],
                ) == rank::order_of(scores@[t]) && r.token_id < t)),
            Err(e) => scores@.len() == 0 && e@ == TrajectErrorView::Inference("empty logits"@),
        },
{
    if scores.len() == 0 {
        return Err(TrajectError::Inference("empty logits".to_string()));
    }
    let keys = order_keys(scores);
    let best = best_first(&keys, 1);
    let b: usize = best[0];
    proof {
        assert(best@.len() == 1);
        assert(b < keys@.len());
        assert forall|t: int| 0 <= t < scores@.len() && t != b implies (rank::order_of(
            scores@[b as int],
        ) > rank::order_of(#[trigger] scores@[t]) || (rank::order_of(scores@[b as int])
            == rank::order_of(scores@[t]) && b < t)) by {
            assert(!best@.contains(t as usize));
            assert(rank::beats(keys@, best@[0] as int, (t as usize) as int));
        }
    }
    Ok(SampleResult { token_id: b as u32 })
}

/// Lengths are right where the query holds all heads, and keys and values hold
/// all heads of all tokens; anything else is refused.
pub proof fn law_attn_shapes(q: nat, k: nat, v: nat, seq_len: nat, heads: nat, dim: nat)
    ensures
        attn_fault(q, k, v, seq_len, heads, dim) is None <==> q == heads * dim && k == seq_len * (
        heads * dim) && v == seq_len * (heads * dim),
{
}

} // verus!
