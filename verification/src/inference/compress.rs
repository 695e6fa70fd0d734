//! The compressed history of a layer: tokens are collected in blocks, each
//! block gives one latent, and an indexer picks the latents that are seen.
use vstd::prelude::*;

use crate::inference::kv_pool;
use crate::inference::kv_pool::{
    compress_handle, index_handle, layer_handle, PagedKvPool, Stream,
};
use crate::inference::kv_select;
use crate::inference::rank;
use crate::inference::rank::{order_keys, topk_in_order};
use crate::named::NamedTable;
use crate::slices;
use crate::slices::{copied, extend, fill, overlay, resize};

verus! {

/// The shape of a compressor.
#[derive(Debug, Clone, Copy, PartialEq, Eq, Structural)]
pub struct CompressShape {
    /// Tokens to a block.
    pub ratio: usize,
    /// Values of the latent that a block gives.
    pub head_dim: usize,
    /// Values that each token gives.
    pub out_dim: usize,
    /// Whether a block sees the tokens of the block before it, too.
    pub overlap: bool,
}

impl CompressShape {
    /// Rows of the open state: those of the block, and of the one before it
    /// where blocks overlap.
    pub open spec fn slots(self) -> nat {
        if self.overlap {
            2 * self.ratio as nat
        } else {
            self.ratio as nat
        }
    }

    /// The row that the token at `pos` goes to.
    pub open spec fn slot(self, pos: nat) -> nat {
        if self.overlap {
            self.ratio as nat + pos % (self.ratio as nat)
        } else {
            pos % (self.ratio as nat)
        }
    }

    /// Whether the token at `pos` completes its block.
    pub open spec fn completes(self, pos: nat) -> bool {
        (pos + 1) % (self.ratio as nat) == 0
    }

    /// Values of the latent, one at least.
    pub open spec fn latent(self) -> nat {
        kv_pool::at_least_one(self.head_dim) as nat
    }

    /// Values that are pooled for each row.
    pub open spec fn dims(self) -> nat {
        if self.overlap || self.latent() <= self.out_dim {
            self.latent()
        } else {
            self.out_dim as nat
        }
    }

    /// Where the pooled values of row `i` start: the rows of the block itself
    /// give the second half of their values where blocks overlap.
    pub open spec fn row_start(self, i: nat) -> nat {
        if self.overlap && i >= self.ratio {
            i * self.out_dim as nat + self.latent()
        } else {
            i * self.out_dim as nat
        }
    }

    /// A shape that can be worked with.
    pub open spec fn ok(self) -> bool {
        &&& self.ratio >= 1
        &&& 2 * self.ratio * self.out_dim + self.out_dim + self.latent() + self.latent()
            <= usize::MAX
        &&& 2 * self.ratio <= usize::MAX
    }
}

/// The values `s[start..start + dims]`, with `fallback` for what lies beyond.
pub open spec fn cells<T>(s: Seq<T>, start: nat, dims: nat, fallback: T) -> Seq<T> {
    Seq::new(
        dims,
        |j: int|
            if start + j < s.len() {
                s[start + j]
            } else {
                fallback
            },
    )
}

/// The pooled values of the first `rows` rows.
pub open spec fn pooled<T>(s: Seq<T>, shape: CompressShape, rows: nat, fallback: T) -> Seq<T>
    decreases rows,
{
    if rows == 0 {
        Seq::empty()
    } else {
        pooled(s, shape, (rows - 1) as nat, fallback) + cells(
            s,
            shape.row_start((rows - 1) as nat),
            shape.dims(),
            fallback,
        )
    }
}

/// The open block of a layer.
#[derive(Debug)]
pub struct CompressLayerState<T> {
    /// Row after row, what the tokens of the open block gave.
    pub kv_state: Vec<T>,
    /// Row after row, how they score.
    pub score_state: Vec<T>,
    pub tokens_seen: usize,
}

#[verifier::ext_equal]
pub struct CompressView<T> {
    pub kv: Seq<T>,
    pub score: Seq<T>,
    pub tokens_seen: nat,
}

impl<T> View for CompressLayerState<T> {
    type V = CompressView<T>;

    open spec fn view(&self) -> CompressView<T> {
        CompressView {
            kv: self.kv_state@,
            score: self.score_state@,
            tokens_seen: self.tokens_seen as nat,
        }
    }
}

/// What a complete block holds: `rows` rows of `dims` values, and their
/// scores.
#[derive(Debug)]
pub struct CompressBlock<T> {
    pub rows: usize,
    pub dims: usize,
    pub kv: Vec<T>,
    pub score: Vec<T>,
}

impl<T> CompressView<T> {
    /// Nothing collected: zeros that score `low`.
    pub open spec fn blank(shape: CompressShape, zero: T, low: T) -> CompressView<T> {
        CompressView {
            kv: slices::filled(zero, shape.slots() * shape.out_dim as nat),
            score: slices::filled(low, shape.slots() * shape.out_dim as nat),
            tokens_seen: 0,
        }
    }

    pub open spec fn fits(self, shape: CompressShape) -> bool {
        &&& self.kv.len() == shape.slots() * shape.out_dim
        &&& self.score.len() == shape.slots() * shape.out_dim
    }

    /// With the token at `pos` in its row.
    pub open spec fn written(
        self,
        shape: CompressShape,
        kv: Seq<T>,
        score: Seq<T>,
        pos: nat,
    ) -> CompressView<T> {
        let at = (shape.slot(pos) * shape.out_dim) as int;
        CompressView {
            kv: slices::overlaid(self.kv, at, kv),
            score: slices::overlaid(self.score, at, score),
            tokens_seen: pos + 1,
        }
    }

    /// After a block is complete: where blocks overlap, its rows become those
    /// of the block before.
    pub open spec fn shifted(self, shape: CompressShape) -> CompressView<T> {
        if shape.overlap {
            let half = (shape.ratio * shape.out_dim) as int;
            CompressView {
                kv: self.kv.skip(half) + self.kv.skip(half),
                score: self.score.skip(half) + self.score.skip(half),
                tokens_seen: self.tokens_seen,
            }
        } else {
            self
        }
    }

    /// After the token at `pos`.
    pub open spec fn pushed(
        self,
        shape: CompressShape,
        kv: Seq<T>,
        score: Seq<T>,
        pos: nat,
    ) -> CompressView<T> {
        let w = self.written(shape, kv, score, pos);
        if shape.completes(pos) {
            w.shifted(shape)
        } else {
            w
        }
    }
}

/// The pooled values of all rows.
fn pool_rows<T: Copy>(s: &Vec<T>, shape: CompressShape, fallback: T) -> (res: Vec<T>)
    requires
        shape.ok(),
        s@.len() == shape.slots() * shape.out_dim,
    ensures
        res@ == pooled(s@, shape, shape.slots(), fallback),
{
    let rows: usize = if shape.overlap {
        2 * shape.ratio
    } else {
        shape.ratio
    };
    let latent: usize = if shape.head_dim < 1 {
        1
    } else {
        shape.head_dim
    };
    let dims: usize = if shape.overlap || latent <= shape.out_dim {
        latent
    } else {
        shape.out_dim
    };
    let mut out: Vec<T> = Vec::new();
    let mut i: usize = 0;
    while i < rows
        invariant
            i <= rows == shape.slots(),
            rows <= 2 * shape.ratio,
            dims == shape.dims(),
            latent == shape.latent(),
            shape.ok(),
            s@.len() == shape.slots() * shape.out_dim,
            out@ == pooled(s@, shape, i as nat, fallback),
        decreases rows - i,
    {
        assert(i * shape.out_dim <= 2 * shape.ratio * shape.out_dim) by (nonlinear_arith)
            requires
                i <= 2 * shape.ratio,
        ;
        let base: usize = i * shape.out_dim;
        let start: usize = if shape.overlap && i >= shape.ratio {
            base + latent
        } else {
            base
        };
        let ghost before = out@;
        let mut j: usize = 0;
        assert(out@ =~= before + cells(s@, start as nat, 0, fallback));
        while j < dims
            invariant
                j <= dims <= latent,
                start + latent <= usize::MAX,
                out@ == before + cells(s@, start as nat, j as nat, fallback),
            decreases dims - j,
        {
            let x = if start + j < s.len() {
                s[start + j]
            } else {
                fallback
            };
            out.push(x);
            j += 1;
            assert(out@ =~= before + cells(s@, start as nat, j as nat, fallback));
        }
        i += 1;
    }
    out
}

impl<T: Copy> CompressLayerState<T> {
    pub fn new(shape: CompressShape, zero: T, low: T) -> (res: Self)
        requires
            shape.ok(),
        ensures
            res@ == CompressView::blank(shape, zero, low),
            res@.fits(shape),
    {
        let slots: usize = if shape.overlap {
            2 * shape.ratio
        } else {
            shape.ratio
        };
        assert(slots * shape.out_dim <= 2 * shape.ratio * shape.out_dim) by (nonlinear_arith)
            requires
                slots <= 2 * shape.ratio,
        ;
        let n: usize = slots * shape.out_dim;
        CompressLayerState { kv_state: fill(zero, n), score_state: fill(low, n), tokens_seen: 0 }
    }

    /// Takes in the token at `pos`, given what it gives and how it scores.
    /// The block that it completes, if it does, is returned.
    pub fn push(
        &mut self,
        shape: CompressShape,
        kv: &Vec<T>,
        score: &Vec<T>,
        pos: usize,
        zero: T,
        low: T,
    ) -> (res: Option<CompressBlock<T>>)
        requires
            shape.ok(),
            old(self)@.fits(shape),
            kv@.len() == shape.out_dim,
            score@.len() == shape.out_dim,
            pos < usize::MAX,
        ensures
            final(self)@ == old(self)@.pushed(shape, kv@, score@, pos as nat),
            final(self)@.fits(shape),
            res is Some <==> shape.completes(pos as nat),
            res matches Some(b) ==> {
                let w = old(self)@.written(shape, kv@, score@, pos as nat);
                &&& b.rows == shape.slots()
                &&& b.dims == shape.dims()
                &&& b.kv@ == pooled(w.kv, shape, shape.slots(), zero)
                &&& b.score@ == pooled(w.score, shape, shape.slots(), low)
            },
    {
        let r: usize = pos % shape.ratio;
        assert(shape.ratio * shape.out_dim <= 2 * shape.ratio * shape.out_dim) by (nonlinear_arith);
        let slot: usize = if shape.overlap {
            shape.ratio + r
        } else {
            r
        };
        let ghost slots = shape.slots();
        assert(slot * shape.out_dim + shape.out_dim <= slots * shape.out_dim) by (nonlinear_arith)
            requires
                slot + 1 <= slots,
        ;
        assert(slots * shape.out_dim <= 2 * shape.ratio * shape.out_dim) by (nonlinear_arith)
            requires
                slots <= 2 * shape.ratio,
        ;
        assert(slot * shape.out_dim >= 0) by (nonlinear_arith);
        let at: usize = slot * shape.out_dim;
        let n: usize = shape.out_dim;
        overlay(&mut self.kv_state, at, kv.as_slice(), 0, n);
        overlay(&mut self.score_state, at, score.as_slice(), 0, n);
        assert(kv@.subrange(0, n as int) =~= kv@);
        assert(score@.subrange(0, n as int) =~= score@);
        self.tokens_seen = pos + 1;
        let ghost w = self@;
        assert(w =~= old(self)@.written(shape, kv@, score@, pos as nat));
        if (pos + 1) % shape.ratio != 0 {
            return None;
        }
        let kv_pool = pool_rows(&self.kv_state, shape, zero);
        let score_pool = pool_rows(&self.score_state, shape, low);
        if shape.overlap {
            // The block's rows become those of the block before.
            let half: usize = shape.ratio * shape.out_dim;
            assert(slots * shape.out_dim == half + half) by (nonlinear_arith)
                requires
                    slots == 2 * shape.ratio,
                    half == shape.ratio * shape.out_dim,
            ;
            let kv_late = copied(self.kv_state.as_slice(), half, half + half);
            let score_late = copied(self.score_state.as_slice(), half, half + half);
            overlay(&mut self.kv_state, 0, kv_late.as_slice(), 0, half);
            overlay(&mut self.score_state, 0, score_late.as_slice(), 0, half);
            assert(kv_late@ =~= w.kv.skip(half as int));
            assert(score_late@ =~= w.score.skip(half as int));
            assert(kv_late@.subrange(0, half as int) =~= kv_late@);
            assert(score_late@.subrange(0, half as int) =~= score_late@);
            assert(self@.kv =~= w.shifted(shape).kv);
            assert(self@.score =~= w.shifted(shape).score);
        }
        Some(
            CompressBlock {
                rows: if shape.overlap {
                    2 * shape.ratio
                } else {
                    shape.ratio
                },
                dims: {
                    let latent: usize = if shape.head_dim < 1 {
                        1
                    } else {
                        shape.head_dim
                    };
                    if shape.overlap || latent <= shape.out_dim {
                        latent
                    } else {
                        shape.out_dim
                    }
                },
                kv: kv_pool,
                score: score_pool,
            },
        )
    }
}

/// One latent comes for every `ratio` tokens: of any `ratio` positions in a
/// row exactly one completes a block.
pub proof fn law_one_latent_per_block(shape: CompressShape, pos: nat)
    requires
        shape.ratio >= 1,
    ensures
        exists|i: nat| i < shape.ratio && #[trigger] shape.completes(pos + i),
        forall|i: nat, j: nat|
            i < shape.ratio && j < shape.ratio && #[trigger] shape.completes(pos + i)
                && #[trigger] shape.completes(pos + j) ==> i == j,
{
    let r = shape.ratio as int;
    let m = pos as int % r;
    let d = pos as int / r;
    vstd::arithmetic::div_mod::lemma_fundamental_div_mod(pos as int, r);
    let w = (r - 1 - m) as nat;
    assert((pos + w + 1) == (d + 1) * r) by (nonlinear_arith)
        requires
            pos == r * d + m,
            w == r - 1 - m,
    ;
    vstd::arithmetic::div_mod::lemma_mod_multiples_basic(d + 1, r);
    assert(shape.completes(pos + w));
    assert forall|i: nat, j: nat|
        i < shape.ratio && j < shape.ratio && #[trigger] shape.completes(pos + i)
            && #[trigger] shape.completes(pos + j) implies i == j by {
        let a = (pos + i + 1) as int;
        let b = (pos + j + 1) as int;
        vstd::arithmetic::div_mod::lemma_fundamental_div_mod(a, r);
        vstd::arithmetic::div_mod::lemma_fundamental_div_mod(b, r);
        assert(a / r == b / r) by (nonlinear_arith)
            requires
                a == r * (a / r),
                b == r * (b / r),
                a - b < r,
                b - a < r,
                r >= 1,
        ;
    }
}

/// The number of tokens to score: none where there is nothing to pick from,
/// and no scoring at all without an indexer, a query or an index.
pub open spec fn to_score(
    pool: Option<nat>,
    has_indexer: bool,
    has_query: bool,
    index_len: Option<usize>,
) -> Option<nat> {
    match (pool, index_len) {
        (Some(cl), Some(il)) => if cl > 0 && has_indexer && has_query && il > 0 {
            Some(
                if cl < il {
                    cl
                } else {
                    il as nat
                },
            )
        } else {
            None
        },
        _ => None,
    }
}

/// How many compressed tokens the indexer has to score, if it is asked at all.
pub fn tokens_to_score(
    pool: Option<u32>,
    has_indexer: bool,
    has_query: bool,
    index_len: Option<usize>,
) -> (res: Option<usize>)
    ensures
        match (res, to_score(
            match pool {
                Some(c) => Some(c as nat),
                None => None,
            },
            has_indexer,
            has_query,
            index_len,
        )) {
            (Some(a), Some(b)) => a == b,
            (None, None) => true,
            _ => false,
        },
{
    let cl: u32 = match pool {
        Some(c) => c,
        None => {
            return None;
        },
    };
    if cl == 0 || !has_indexer || !has_query {
        return None;
    }
    match index_len {
        Some(il) => if il == 0 {
            None
        } else if (cl as u64) < il as u64 {
            Some(cl as usize)
        } else {
            Some(il)
        },
        None => None,
    }
}

/// Those of the tokens at `idxs` that keys and values are there for.
pub open spec fn rows_at<T>(
    s: Seq<T>,
    other: Seq<T>,
    width: nat,
    idxs: Seq<usize>,
) -> Seq<T>
    decreases idxs.len(),
{
    if idxs.len() == 0 {
        Seq::empty()
    } else {
        let t = idxs.last() as nat;
        let front = rows_at(s, other, width, idxs.drop_last());
        if (t + 1) * width <= s.len() && (t + 1) * width <= other.len() {
            front + s.subrange((t * width) as int, ((t + 1) * width) as int)
        } else {
            front
        }
    }
}

/// How many of the tokens at `idxs` keys and values are there for.
pub open spec fn rows_there(len: nat, width: nat, idxs: Seq<usize>) -> nat
    decreases idxs.len(),
{
    if idxs.len() == 0 {
        0
    } else {
        rows_there(len, width, idxs.drop_last()) + if (idxs.last() + 1) * width <= len {
            1nat
        } else {
            0
        }
    }
}

/// Whether `kept` is what the indexer leaves of a pool: the tokens that score
/// best, in the order in which they stand.
pub open spec fn picks_best<T>(
    pool: Stream<T>,
    scores: Seq<i64>,
    topk: nat,
    width: nat,
    kept: Stream<T>,
) -> bool {
    if scores.len() == 0 {
        kept == Stream::<T>::none()
    } else {
        exists|idxs: Seq<usize>|
            {
                &&& #[trigger] rank::is_top(idxs, scores, rank::top_count(topk, scores.len()))
                &&& forall|i: int, j: int|
                    0 <= i < j < idxs.len() ==> #[trigger] idxs[i] < #[trigger] idxs[j]
                &&& kept.k == rows_at(pool.k, pool.v, width, idxs)
                &&& kept.v == rows_at(pool.v, pool.k, width, idxs)
                &&& kept.tokens == rows_there(
                    if pool.k.len() < pool.v.len() {
                        pool.k.len()
                    } else {
                        pool.v.len()
                    },
                    width,
                    idxs,
                )
            }
    }
}

proof fn lemma_rows_there(len: nat, width: nat, idxs: Seq<usize>)
    ensures
        rows_there(len, width, idxs) <= idxs.len(),
    decreases idxs.len(),
{
    if idxs.len() > 0 {
        lemma_rows_there(len, width, idxs.drop_last());
    }
}

/// The indexer leaves no more tokens than were scored, and no more than it was
/// told to; one may be left where it was told none.
pub proof fn law_picks_bounded<T>(
    pool: Stream<T>,
    scores: Seq<i64>,
    topk: nat,
    width: nat,
    kept: Stream<T>,
)
    requires
        picks_best(pool, scores, topk, width, kept),
    ensures
        kept.tokens <= scores.len(),
        topk >= 1 ==> kept.tokens <= topk,
{
    if scores.len() > 0 {
        let idxs = choose|idxs: Seq<usize>|
            {
                &&& #[trigger] rank::is_top(idxs, scores, rank::top_count(topk, scores.len()))
                &&& forall|i: int, j: int|
                    0 <= i < j < idxs.len() ==> #[trigger] idxs[i] < #[trigger] idxs[j]
                &&& kept.k == rows_at(pool.k, pool.v, width, idxs)
                &&& kept.v == rows_at(pool.v, pool.k, width, idxs)
                &&& kept.tokens == rows_there(
                    if pool.k.len() < pool.v.len() {
                        pool.k.len()
                    } else {
                        pool.v.len()
                    },
                    width,
                    idxs,
                )
            };
        lemma_rows_there(
            if pool.k.len() < pool.v.len() {
                pool.k.len()
            } else {
                pool.v.len()
            },
            width,
            idxs,
        );
    }
}

/// Keeps the compressed tokens that score best. Scores are given by the bits
/// of single-precision numbers, one for each token that may be picked.
pub fn topk_compress_by_indexer<T: Copy>(
    scores: &[u32],
    topk: usize,
    pool: &(Vec<T>, Vec<T>, u32),
    main_dim: usize,
) -> (res: (Vec<T>, Vec<T>, u32))
    requires
        scores@.len() <= u32::MAX,
        scores@.len() * kv_pool::at_least_one(main_dim) <= usize::MAX,
    ensures
        picks_best(
            kv_select::as_stream(*pool),
            Seq::new(scores@.len(), |i: int| rank::order_of(scores@[i]) as i64),
            topk as nat,
            kv_pool::at_least_one(main_dim) as nat,
            kv_select::as_stream(res),
        ),
{
    let width: usize = if main_dim < 1 {
        1
    } else {
        main_dim
    };
    if scores.len() == 0 {
        let res = (Vec::new(), Vec::new(), 0);
        assert(kv_select::as_stream(res) =~= Stream::<T>::none());
        return res;
    }
    let keys = order_keys(scores);
    let order = topk_in_order(&keys, topk);
    let mut ok: Vec<T> = Vec::new();
    let mut ov: Vec<T> = Vec::new();
    let mut n: u32 = 0;
    let ghost k0 = pool.0@;
    let ghost v0 = pool.1@;
    let ghost least = if k0.len() < v0.len() {
        k0.len()
    } else {
        v0.len()
    };
    let mut o: usize = 0;
    assert(order@.take(0) =~= Seq::empty());
    while o < order.len()
        invariant
            o <= order@.len() <= keys@.len(),
            keys@.len() == scores@.len(),
            scores@.len() <= u32::MAX,
            scores@.len() * width <= usize::MAX,
            width >= 1,
            rank::is_top(order@, keys@, order@.len()),
            k0 == pool.0@,
            v0 == pool.1@,
            least == (if k0.len() < v0.len() {
                k0.len()
            } else {
                v0.len()
            }),
            n <= o,
            ok@ == rows_at(k0, v0, width as nat, order@.take(o as int)),
            ov@ == rows_at(v0, k0, width as nat, order@.take(o as int)),
            n == rows_there(least, width as nat, order@.take(o as int)),
        decreases order@.len() - o,
    {
        let t: usize = order[o];
        assert(order@.take(o + 1).drop_last() =~= order@.take(o as int));
        assert((t + 1) * width <= scores@.len() * width) by (nonlinear_arith)
            requires
                t + 1 <= scores@.len(),
        ;
        assert((t + 1) * width == t * width + width) by (nonlinear_arith);
        assert(t * width >= 0) by (nonlinear_arith);
        let base: usize = t * width;
        if base + width <= pool.0.len() && base + width <= pool.1.len() {
            extend(&mut ok, pool.0.as_slice(), base, base + width);
            extend(&mut ov, pool.1.as_slice(), base, base + width);
            n = n + 1;
        }
        o += 1;
    }
    assert(order@.take(o as int) =~= order@);
    assert(keys@ =~= Seq::new(scores@.len(), |i: int| rank::order_of(scores@[i]) as i64));
    (ok, ov, n)
}

/// What is seen of a compressed pool: all of it, or what the indexer picks
/// where it was asked.
pub fn filter_compress_pool<T: Copy>(
    pool: Option<(Vec<T>, Vec<T>, u32)>,
    scores: Option<&[u32]>,
    topk: usize,
    main_dim: usize,
) -> (res: Option<(Vec<T>, Vec<T>, u32)>)
    requires
        scores matches Some(s) ==> s@.len() <= u32::MAX && s@.len() * kv_pool::at_least_one(
            main_dim,
        ) <= usize::MAX,
    ensures
        match (pool, scores) {
            (Some(p), Some(s)) => res matches Some(r) && picks_best(
                kv_select::as_stream(p),
                Seq::new(s@.len(), |i: int| rank::order_of(s@[i]) as i64),
                topk as nat,
                kv_pool::at_least_one(main_dim) as nat,
                kv_select::as_stream(r),
            ),
            _ => res == pool,
        },
{
    match (pool, scores) {
        (Some(p), Some(s)) => Some(topk_compress_by_indexer(s, topk, &p, main_dim)),
        (p, _) => p,
    }
}

/// The latents that an index holds.
#[derive(Debug)]
pub struct IndexRun<T> {
    pub latents: Vec<T>,
    pub count: usize,
}

/// The state of a layer's open block, by its handle.
pub open spec fn state_at<T>(
    m: Map<Seq<char>, CompressLayerState<T>>,
    key: Seq<char>,
    shape: CompressShape,
    zero: T,
    low: T,
) -> CompressView<T> {
    if m.dom().contains(key) {
        m[key]@
    } else {
        CompressView::blank(shape, zero, low)
    }
}

/// Takes the token at `pos` into the open block under a handle; the first
/// token opens it.
pub fn push_token<T: Copy>(
    states: &mut NamedTable<CompressLayerState<T>>,
    key: &str,
    shape: CompressShape,
    kv: &Vec<T>,
    score: &Vec<T>,
    pos: usize,
    zero: T,
    low: T,
) -> (res: Option<CompressBlock<T>>)
    requires
        old(states).wf(),
        shape.ok(),
        old(states)@.dom().contains(key@) ==> old(states)@[key@]@.fits(shape),
        kv@.len() == shape.out_dim,
        score@.len() == shape.out_dim,
        pos < usize::MAX,
    ensures
        final(states).wf(),
        final(states)@.dom() == old(states)@.dom().insert(key@),
        forall|q: Seq<char>|
            q != key@ && old(states)@.dom().contains(q) ==> #[trigger] final(states)@[q] == old(states)@[q],
        ({
            let was = state_at(old(states)@, key@, shape, zero, low);
            let w = was.written(shape, kv@, score@, pos as nat);
            &&& final(states)@[key@]@ == was.pushed(shape, kv@, score@, pos as nat)
            &&& final(states)@[key@]@.fits(shape)
            &&& (res is Some <==> shape.completes(pos as nat))
            &&& (res matches Some(b) ==> {
                &&& b.rows == shape.slots()
                &&& b.dims == shape.dims()
                &&& b.kv@ == pooled(w.kv, shape, shape.slots(), zero)
                &&& b.score@ == pooled(w.score, shape, shape.slots(), low)
            })
        }),
{
    let ghost before = states@;
    let mut st = match states.remove(key) {
        Some(st) => st,
        None => CompressLayerState::new(shape, zero, low),
    };
    let res = st.push(shape, kv, score, pos, zero, low);
    states.insert(key, st);
    assert(states@.dom() =~= before.dom().insert(key@));
    res
}

/// Stores the latent of a complete block under a layer's compressed handle,
/// as keys and as values, cut or filled up to the width of a token.
pub fn append_latent<T: Copy>(
    kv: &mut PagedKvPool<T>,
    pfx: &str,
    latent: Vec<T>,
    zero: T,
)
    requires
        old(kv).wf(),
        old(kv)@.next_id < u64::MAX,
        old(kv)@.stream(kv_pool::compress_key(pfx@)).tokens < u32::MAX,
    ensures
        final(kv).wf(),
        final(kv)@ == old(kv)@.appended(
            kv_pool::compress_key(pfx@),
            slices::resized(latent@, old(kv)@.width, zero),
            slices::resized(latent@, old(kv)@.width, zero),
        ),
{
    let mut row = latent;
    let width: usize = kv.width();
    resize(&mut row, width, zero);
    let ckey = compress_handle(pfx);
    kv.append_kv(ckey.as_str(), row.as_slice(), row.as_slice());
}

/// Adds a latent to the index under a handle.
pub fn append_index<T: Copy>(store: &mut NamedTable<IndexRun<T>>, key: &str, latent: &Vec<T>)
    requires
        old(store).wf(),
        old(store)@.dom().contains(key@) ==> old(store)@[key@].count < usize::MAX,
    ensures
        final(store).wf(),
        final(store)@.dom() == old(store)@.dom().insert(key@),
        forall|q: Seq<char>|
            q != key@ && old(store)@.dom().contains(q) ==> #[trigger] final(store)@[q] == old(store)@[q],
        ({
            let now = final(store)@[key@];
            if old(store)@.dom().contains(key@) {
                now.latents@ == old(store)@[key@].latents@ + latent@ && now.count == old(store)@[key@].count + 1
            } else {
                now.latents@ == latent@ && now.count == 1
            }
        }),
{
    let ghost before = store@;
    let n: usize = latent.len();
    let mut run = match store.remove(key) {
        Some(r) => r,
        None => IndexRun { latents: Vec::new(), count: 0 },
    };
    extend(&mut run.latents, latent.as_slice(), 0, n);
    assert(latent@.subrange(0, n as int) =~= latent@);
    assert(Seq::<T>::empty() + latent@ =~= latent@);
    run.count = run.count + 1;
    store.insert(key, run);
    assert(store@.dom() =~= before.dom().insert(key@));
}

/// What is left of a table after the entries of `n` layers under a handle have
/// gone: those of the compressed sequences where `compressed` says so, and
/// those of the index sequences.
pub open spec fn forgotten<V>(
    m: Map<Seq<char>, V>,
    prefix: Seq<char>,
    n: nat,
    compressed: bool,
) -> Map<Seq<char>, V>
    decreases n,
{
    if n == 0 {
        m
    } else {
        let pfx = kv_pool::layer_key(prefix, (n - 1) as nat);
        let front = forgotten(m, prefix, (n - 1) as nat, compressed);
        if compressed {
            front.remove(kv_pool::compress_key(pfx)).remove(kv_pool::index_key(pfx))
        } else {
            front.remove(kv_pool::index_key(pfx))
        }
    }
}

/// Forgets the open blocks and the indexes of `layers` layers under a handle.
pub fn forget_layers<T>(
    states: &mut NamedTable<CompressLayerState<T>>,
    index: &mut NamedTable<IndexRun<T>>,
    prefix: &str,
    layers: usize,
)
    requires
        old(states).wf(),
        old(index).wf(),
    ensures
        final(states).wf(),
        final(index).wf(),
        final(states)@ == forgotten(
            old(states)@,
            prefix@,
            kv_pool::at_least_one(layers) as nat,
            true,
        ),
        final(index)@ == forgotten(
            old(index)@,
            prefix@,
            kv_pool::at_least_one(layers) as nat,
            false,
        ),
{
    let most: usize = if layers < 1 {
        1
    } else {
        layers
    };
    let mut li: usize = 0;
    let ghost s0 = states@;
    let ghost i0 = index@;
    while li < most
        invariant
            li <= most,
            states.wf(),
            index.wf(),
            states@ == forgotten(s0, prefix@, li as nat, true),
            index@ == forgotten(i0, prefix@, li as nat, false),
        decreases most - li,
    {
        let pfx = layer_handle(prefix, li);
        let c = compress_handle(pfx.as_str());
        let i = index_handle(pfx.as_str());
        let ghost s1 = states@;
        let ghost i1 = index@;
        let _ = states.remove(c.as_str());
        assert(states@ =~= s1.remove(c@));
        let _ = states.remove(i.as_str());
        assert(states@ =~= s1.remove(c@).remove(i@));
        let _ = index.remove(i.as_str());
        assert(index@ =~= i1.remove(i@));
        li += 1;
    }
}

/// Each token of a block goes to a row of its own, among the rows of the block
/// itself, and the last one completes it.
pub proof fn law_slots(shape: CompressShape, block: nat, i: nat, j: nat)
    requires
        i < shape.ratio,
        j < shape.ratio,
    ensures
        shape.slot(block * shape.ratio as nat + i) < shape.slots(),
        i != j ==> shape.slot(block * shape.ratio as nat + i) != shape.slot(
            block * shape.ratio as nat + j,
        ),
        shape.completes(block * shape.ratio as nat + i) <==> i + 1 == shape.ratio,
        shape.overlap ==> shape.slot(block * shape.ratio as nat + i) == shape.ratio + i,
        !shape.overlap ==> shape.slot(block * shape.ratio as nat + i) == i,
        shape.overlap ==> shape.slots() == 2 * shape.ratio,
        !shape.overlap ==> shape.slots() == shape.ratio,
{
    let r = shape.ratio as int;
    vstd::arithmetic::div_mod::lemma_mod_multiples_vanish(block as int, i as int, r);
    vstd::arithmetic::div_mod::lemma_mod_multiples_vanish(block as int, j as int, r);
    vstd::arithmetic::div_mod::lemma_mod_multiples_vanish(block as int, i as int + 1, r);
    vstd::arithmetic::div_mod::lemma_small_mod(i, r as nat);
    vstd::arithmetic::div_mod::lemma_small_mod(j, r as nat);
    assert(block * r == r * block) by (nonlinear_arith);
    if i + 1 < r {
        vstd::arithmetic::div_mod::lemma_small_mod(i + 1, r as nat);
    } else {
        vstd::arithmetic::div_mod::lemma_mod_self_0(r);
    }
}

/// What a token gave reads back from its row, and the other rows stay as they
/// are.
pub proof fn law_written_reads_back<T>(
    state: CompressView<T>,
    shape: CompressShape,
    kv: Seq<T>,
    score: Seq<T>,
    pos: nat,
)
    requires
        shape.ratio >= 1,
        state.fits(shape),
        kv.len() == shape.out_dim,
        score.len() == shape.out_dim,
    ensures
        ({
            let at = shape.slot(pos) * shape.out_dim;
            let w = state.written(shape, kv, score, pos);
            &&& w.kv.subrange(at, at + shape.out_dim) == kv
            &&& w.score.subrange(at, at + shape.out_dim) == score
            &&& w.kv.take(at) == state.kv.take(at)
            &&& w.kv.skip(at + shape.out_dim) == state.kv.skip(at + shape.out_dim)
            &&& w.tokens_seen == pos + 1
            &&& w.fits(shape)
            &&& !shape.completes(pos) ==> state.pushed(shape, kv, score, pos) == w
            &&& shape.completes(pos) && !shape.overlap ==> state.pushed(shape, kv, score, pos) == w
        }),
{
    let at = shape.slot(pos) * shape.out_dim;
    let n = shape.slots() as int;
    let s = shape.slot(pos) as int;
    let d = shape.out_dim as int;
    assert(s < n);
    assert(0 <= s * d && s * d + d <= n * d) by (nonlinear_arith)
        requires
            0 <= s < n,
            d >= 0,
    ;
    slices::law_overlaid(state.kv, at, kv);
    slices::law_overlaid(state.score, at, score);
}

/// Where blocks overlap, the rows of a complete block are kept as those of the
/// block before the next.
pub proof fn law_block_is_kept<T>(state: CompressView<T>, shape: CompressShape)
    requires
        shape.overlap,
        state.fits(shape),
    ensures
        state.shifted(shape).kv.take((shape.ratio * shape.out_dim) as int) == state.kv.skip(
            (shape.ratio * shape.out_dim) as int,
        ),
        state.shifted(shape).score.take((shape.ratio * shape.out_dim) as int) == state.score.skip(
            (shape.ratio * shape.out_dim) as int,
        ),
        state.shifted(shape).fits(shape),
        state.shifted(shape).tokens_seen == state.tokens_seen,
{
    let half = (shape.ratio * shape.out_dim) as int;
    assert(shape.slots() * shape.out_dim == half + half) by (nonlinear_arith)
        requires
            shape.slots() == 2 * shape.ratio,
            half == shape.ratio * shape.out_dim,
    ;
    assert(0 <= half) by (nonlinear_arith)
        requires
            half == shape.ratio * shape.out_dim,
    ;
    assert(state.shifted(shape).kv.take(half) =~= state.kv.skip(half));
    assert(state.shifted(shape).score.take(half) =~= state.score.skip(half));
}

/// A block is pooled row by row: each row gives the values from where its own
/// start.
pub proof fn law_pooled_rows<T>(
    s: Seq<T>,
    shape: CompressShape,
    rows: nat,
    fallback: T,
    i: nat,
    j: int,
)
    requires
        i < rows,
        0 <= j < shape.dims(),
    ensures
        pooled(s, shape, rows, fallback).len() == rows * shape.dims(),
        0 <= i * shape.dims() + j < rows * shape.dims(),
        shape.row_start(i) + j < s.len() ==> pooled(s, shape, rows, fallback)[i * shape.dims() + j]
            == s[shape.row_start(i) + j],
        shape.row_start(i) + j >= s.len() ==> pooled(s, shape, rows, fallback)[i * shape.dims() + j]
            == fallback,
    decreases rows,
{
    let d = shape.dims();
    let front = pooled(s, shape, (rows - 1) as nat, fallback);
    lemma_pooled_len(s, shape, rows, fallback);
    lemma_pooled_len(s, shape, (rows - 1) as nat, fallback);
    assert((rows - 1) * d + d == rows * d) by (nonlinear_arith);
    assert(0 <= i * d && i * d + d <= rows * d) by (nonlinear_arith)
        requires
            i + 1 <= rows,
    ;
    if i < rows - 1 {
        law_pooled_rows(s, shape, (rows - 1) as nat, fallback, i, j);
        assert(pooled(s, shape, rows, fallback)[i * d + j] == front[i * d + j]);
    }
}

proof fn lemma_pooled_len<T>(s: Seq<T>, shape: CompressShape, rows: nat, fallback: T)
    ensures
        pooled(s, shape, rows, fallback).len() == rows * shape.dims(),
    decreases rows,
{
    if rows > 0 {
        lemma_pooled_len(s, shape, (rows - 1) as nat, fallback);
        assert((rows - 1) * shape.dims() + shape.dims() == rows * shape.dims()) by (
        nonlinear_arith);
    } else {
        assert(0 * shape.dims() == 0) by (nonlinear_arith);
    }
}

/// The indexer scores as many tokens as both the pool and the index hold, and is
/// asked only where there is a pool, a query and an index.
pub proof fn law_to_score(cl: nat, il: usize, has_indexer: bool, has_query: bool)
    ensures
        cl > 0 && il > 0 ==> (to_score(Some(cl), true, true, Some(il)) matches Some(n) && n <= cl
            && n <= il && (n == cl || n == il)),
        !has_indexer || !has_query || cl == 0 || il == 0 ==> to_score(
            Some(cl),
            has_indexer,
            has_query,
            Some(il),
        ) is None,
        to_score(None, has_indexer, has_query, Some(il)) is None,
        to_score(Some(cl), has_indexer, has_query, None) is None,
{
}

/// Each token that is picked brings its own keys and values, and one that is not
/// there in both brings nothing.
pub proof fn law_rows_picked<T>(s: Seq<T>, other: Seq<T>, width: nat, idxs: Seq<usize>, t: usize)
    ensures
        (t + 1) * width <= s.len() && (t + 1) * width <= other.len() ==> rows_at(
            s,
            other,
            width,
            idxs.push(t),
        ) == rows_at(s, other, width, idxs) + s.subrange(t * width, (t + 1) * width),
        (t + 1) * width > s.len() || (t + 1) * width > other.len() ==> rows_at(
            s,
            other,
            width,
            idxs.push(t),
        ) == rows_at(s, other, width, idxs),
        rows_at(s, other, width, Seq::empty()).len() == 0,
        (t + 1) * width <= s.len() ==> rows_there(s.len(), width, idxs.push(t)) == rows_there(
            s.len(),
            width,
            idxs,
        ) + 1,
        (t + 1) * width > s.len() ==> rows_there(s.len(), width, idxs.push(t)) == rows_there(
            s.len(),
            width,
            idxs,
        ),
{
    assert(idxs.push(t).drop_last() =~= idxs);
}

/// After layers are forgotten nothing is left of what they indexed, nor, where
/// that was asked for, of what they compressed; other entries stay.
pub proof fn law_forgotten<V>(
    m: Map<Seq<char>, V>,
    prefix: Seq<char>,
    n: nat,
    compressed: bool,
    layer: nat,
    other: Seq<char>,
)
    ensures
        layer < n ==> !forgotten(m, prefix, n, compressed).dom().contains(
            kv_pool::index_key(kv_pool::layer_key(prefix, layer)),
        ),
        layer < n && compressed ==> !forgotten(m, prefix, n, compressed).dom().contains(
            kv_pool::compress_key(kv_pool::layer_key(prefix, layer)),
        ),
        m.dom().contains(other) && (forall|l: nat|
            l < n ==> other != kv_pool::index_key(#[trigger] kv_pool::layer_key(prefix, l))
                && other != kv_pool::compress_key(kv_pool::layer_key(prefix, l))) ==> forgotten(
            m,
            prefix,
            n,
            compressed,
        ).dom().contains(other) && forgotten(m, prefix, n, compressed)[other] == m[other],
    decreases n,
{
    if n > 0 {
        law_forgotten(m, prefix, (n - 1) as nat, compressed, layer, other);
        let last = kv_pool::layer_key(prefix, (n - 1) as nat);
        assert(last == kv_pool::layer_key(prefix, (n - 1) as nat));
    }
}

/// The state of an open block is what is kept under its handle; the first token
/// opens one whose rows are all blank.
pub proof fn law_open_block<T>(
    m: Map<Seq<char>, CompressLayerState<T>>,
    key: Seq<char>,
    shape: CompressShape,
    zero: T,
    low: T,
    i: int,
)
    requires
        0 <= i < shape.slots() * shape.out_dim,
    ensures
        m.dom().contains(key) ==> state_at(m, key, shape, zero, low) == m[key]@,
        !m.dom().contains(key) ==> {
            let s = state_at(m, key, shape, zero, low);
            &&& s.kv.len() == shape.slots() * shape.out_dim
            &&& s.score.len() == shape.slots() * shape.out_dim
            &&& s.kv[i] == zero
            &&& s.score[i] == low
            &&& s.tokens_seen == 0
        },
{
}

/// As many values are pooled as a head has, and where blocks do not overlap no
/// more than a token gives.
pub proof fn law_values_pooled(shape: CompressShape)
    requires
        shape.head_dim >= 1,
    ensures
        shape.overlap ==> shape.dims() == shape.head_dim,
        !shape.overlap && shape.head_dim <= shape.out_dim ==> shape.dims() == shape.head_dim,
        !shape.overlap && shape.head_dim > shape.out_dim ==> shape.dims() == shape.out_dim,
{
}

} // verus!
