//! Which stored tokens attention sees, and how they are laid out for it: the
//! window at the end, a stride through what lies before it, the compressed
//! history, and one copy for each query head.
use vstd::prelude::*;

use crate::inference::kv_pool;
use crate::inference::kv_pool::Stream;
use crate::slices;
use crate::slices::{copied, extend, fill, resize};

verus! {

/// `x`, `n` times in a row.
pub open spec fn repeated<T>(x: Seq<T>, n: nat) -> Seq<T>
    decreases n,
{
    if n == 0 {
        Seq::empty()
    } else {
        repeated(x, (n - 1) as nat) + x
    }
}

/// Token `t` of a run of tokens `width` values wide; zeros where the run ends
/// before it does.
pub open spec fn token_row<T>(s: Seq<T>, t: nat, width: nat, zero: T) -> Seq<T> {
    if (t + 1) * width <= s.len() {
        s.subrange((t * width) as int, ((t + 1) * width) as int)
    } else {
        slices::filled(zero, width)
    }
}

/// The first `seq` tokens of `kv`, each as often as there are query heads.
pub open spec fn mqa<T>(kv: Seq<T>, seq: nat, n_q_heads: nat, head_dim: nat, zero: T) -> Seq<T>
    decreases seq,
{
    if seq == 0 {
        Seq::empty()
    } else {
        mqa(kv, (seq - 1) as nat, n_q_heads, head_dim, zero) + repeated(
            token_row(kv, (seq - 1) as nat, head_dim, zero),
            n_q_heads,
        )
    }
}

proof fn lemma_repeated_len<T>(x: Seq<T>, n: nat)
    ensures
        repeated(x, n).len() == n * x.len(),
    decreases n,
{
    if n > 0 {
        lemma_repeated_len(x, (n - 1) as nat);
        assert((n - 1) * x.len() + x.len() == n * x.len()) by (nonlinear_arith);
    } else {
        assert(0 * x.len() == 0);
    }
}

proof fn lemma_mqa_len<T>(kv: Seq<T>, seq: nat, n: nat, d: nat, zero: T)
    ensures
        mqa(kv, seq, n, d, zero).len() == seq * (n * d),
    decreases seq,
{
    if seq > 0 {
        let row = token_row(kv, (seq - 1) as nat, d, zero);
        lemma_mqa_len(kv, (seq - 1) as nat, n, d, zero);
        lemma_repeated_len(row, n);
        assert((seq - 1) * d + d == seq * d) by (nonlinear_arith);
        assert((seq - 1) * d >= 0) by (nonlinear_arith)
            requires
                seq >= 1,
        ;
        assert(row.len() == d);
        assert((seq - 1) * (n * d) + n * d == seq * (n * d)) by (nonlinear_arith);
    } else {
        assert(0 * (n * d) == 0);
    }
}

/// Where the copy for head `h` stands in `n` copies.
proof fn lemma_repeated_row<T>(x: Seq<T>, n: nat, h: nat)
    requires
        h < n,
    ensures
        (h + 1) * x.len() <= repeated(x, n).len(),
        repeated(x, n).subrange((h * x.len()) as int, ((h + 1) * x.len()) as int) == x,
    decreases n,
{
    lemma_repeated_len(x, n);
    lemma_repeated_len(x, (n - 1) as nat);
    let d = x.len();
    assert((h + 1) * d <= n * d) by (nonlinear_arith)
        requires
            h < n,
    ;
    assert((h + 1) * d == h * d + d) by (nonlinear_arith);
    assert(h * d >= 0) by (nonlinear_arith);
    if h < n - 1 {
        lemma_repeated_row(x, (n - 1) as nat, h);
        assert(repeated(x, n).subrange((h * d) as int, ((h + 1) * d) as int) =~= repeated(
            x,
            (n - 1) as nat,
        ).subrange((h * d) as int, ((h + 1) * d) as int));
    } else {
        assert(repeated(x, n).subrange((h * d) as int, ((h + 1) * d) as int) =~= x);
    }
}

/// Each query head of each token sees that token's own row.
pub proof fn law_expanded_rows<T>(
    kv: Seq<T>,
    seq: nat,
    n_q_heads: nat,
    head_dim: nat,
    zero: T,
    t: nat,
    h: nat,
)
    requires
        t < seq,
        h < n_q_heads,
    ensures
        ({
            let at = (t * n_q_heads + h) * head_dim;
            let out = mqa(kv, seq, n_q_heads, head_dim, zero);
            &&& at + head_dim <= out.len()
            &&& out.subrange(at as int, (at + head_dim) as int) == token_row(kv, t, head_dim, zero)
        }),
    decreases seq,
{
    let out = mqa(kv, seq, n_q_heads, head_dim, zero);
    let front = mqa(kv, (seq - 1) as nat, n_q_heads, head_dim, zero);
    let row = token_row(kv, (seq - 1) as nat, head_dim, zero);
    let at = (t * n_q_heads + h) * head_dim;
    lemma_mqa_len(kv, seq, n_q_heads, head_dim, zero);
    lemma_mqa_len(kv, (seq - 1) as nat, n_q_heads, head_dim, zero);
    assert(at >= 0) by (nonlinear_arith)
        requires
            at == (t * n_q_heads + h) * head_dim,
    ;
    if t < seq - 1 {
        law_expanded_rows(kv, (seq - 1) as nat, n_q_heads, head_dim, zero, t, h);
        assert(out.subrange(at as int, (at + head_dim) as int) =~= front.subrange(
            at as int,
            (at + head_dim) as int,
        ));
    } else {
        assert((seq - 1) * head_dim >= 0) by (nonlinear_arith)
            requires
                seq >= 1,
        ;
        assert(seq * head_dim == (seq - 1) * head_dim + head_dim) by (nonlinear_arith);
        assert(row.len() == head_dim);
        lemma_repeated_row(row, n_q_heads, h);
        lemma_repeated_len(row, n_q_heads);
        assert(at == front.len() + h * head_dim) by (nonlinear_arith)
            requires
                at == (t * n_q_heads + h) * head_dim,
                front.len() == t * (n_q_heads * head_dim),
        ;
        assert((h + 1) * head_dim == h * head_dim + head_dim) by (nonlinear_arith);
        assert(out.subrange(at as int, (at + head_dim) as int) =~= repeated(
            row,
            n_q_heads,
        ).subrange((h * head_dim) as int, ((h + 1) * head_dim) as int));
    }
}

/// Token `t`, as `token_row` has it, appended to `dst`.
fn extend_row<T: Copy>(dst: &mut Vec<T>, src: &[T], t: usize, width: usize, zero: T)
    requires
        (t + 1) * width <= usize::MAX,
    ensures
        final(dst)@ == old(dst)@ + token_row(src@, t as nat, width as nat, zero),
{
    assert((t + 1) * width == t * width + width) by (nonlinear_arith);
    assert(t * width >= 0) by (nonlinear_arith);
    let base: usize = t * width;
    if base + width <= src.len() {
        extend(dst, src, base, base + width);
    } else {
        let pad = fill(zero, width);
        extend(dst, pad.as_slice(), 0, width);
        assert(pad@.subrange(0, width as int) =~= pad@);
    }
}

/// Expands compressed keys or values, `seq` tokens of one head, to one copy
/// for each query head.
pub fn expand_kv_mqa<T: Copy>(
    kv: &[T],
    seq: usize,
    n_q_heads: usize,
    head_dim: usize,
    zero: T,
) -> (res: Vec<T>)
    requires
        seq * head_dim <= usize::MAX,
    ensures
        res@ == mqa(kv@, seq as nat, n_q_heads as nat, head_dim as nat, zero),
{
    let mut out: Vec<T> = Vec::new();
    let mut s: usize = 0;
    while s < seq
        invariant
            s <= seq,
            seq * head_dim <= usize::MAX,
            out@ == mqa(kv@, s as nat, n_q_heads as nat, head_dim as nat, zero),
        decreases seq - s,
    {
        let ghost before = out@;
        let ghost row = token_row(kv@, s as nat, head_dim as nat, zero);
        let mut h: usize = 0;
        assert(before + repeated(row, 0) =~= before);
        assert((s + 1) * head_dim <= usize::MAX) by (nonlinear_arith)
            requires
                s + 1 <= seq,
                seq * head_dim <= usize::MAX,
        ;
        while h < n_q_heads
            invariant
                h <= n_q_heads,
                (s + 1) * head_dim <= usize::MAX,
                row == token_row(kv@, s as nat, head_dim as nat, zero),
                out@ == before + repeated(row, h as nat),
            decreases n_q_heads - h,
        {
            extend_row(&mut out, kv, s, head_dim, zero);
            assert(out@ =~= before + repeated(row, (h + 1) as nat));
            h += 1;
        }
        s += 1;
    }
    out
}

/// One hidden state as `hc_mult` identical streams.
pub fn expand_hc_streams<T: Copy>(h: &[T], hc_mult: usize) -> (res: Vec<T>)
    ensures
        res@ == repeated(h@, kv_pool::at_least_one(hc_mult) as nat),
{
    let n: usize = if hc_mult < 1 {
        1
    } else {
        hc_mult
    };
    let mut out: Vec<T> = Vec::new();
    let mut i: usize = 0;
    let len: usize = h.len();
    while i < n
        invariant
            i <= n,
            len == h@.len(),
            out@ == repeated(h@, i as nat),
        decreases n - i,
    {
        extend(&mut out, h, 0, len);
        assert(h@.subrange(0, len as int) =~= h@);
        i += 1;
    }
    out
}

/// The first `n_q` entries of a layer's attention sink, filled up with zeros.
pub fn sink_for_heads<T: Copy>(sink: &Option<Vec<T>>, n_q: usize, zero: T) -> (res: Option<Vec<T>>)
    ensures
        match (*sink, res) {
            (Some(s), Some(r)) => r@ == slices::resized(s@, n_q as nat, zero),
            (None, None) => true,
            _ => false,
        },
{
    match sink {
        Some(s) => {
            let len: usize = s.len();
            let mut out = copied(s.as_slice(), 0, len);
            assert(out@ =~= s@);
            resize(&mut out, n_q, zero);
            Some(out)
        },
        None => None,
    }
}

impl<T> Stream<T> {
    /// The last `window` tokens, where there are more; keys or values that are
    /// fewer than the tokens ask for stay as they are.
    pub open spec fn windowed(self, width: nat, window: nat) -> Stream<T> {
        if window == 0 || self.tokens <= window || width == 0 {
            self
        } else {
            let from = ((self.tokens - window) * width) as int;
            let to = (self.tokens * width) as int;
            Stream {
                k: if self.k.len() >= to {
                    self.k.subrange(from, to)
                } else {
                    self.k
                },
                v: if self.v.len() >= to {
                    self.v.subrange(from, to)
                } else {
                    self.v
                },
                tokens: window,
            }
        }
    }
}

/// Keeps the last `window` tokens of a cache whose tokens are `width` values
/// wide; no window keeps all.
pub fn slice_kv_window<T: Copy>(
    k: Vec<T>,
    v: Vec<T>,
    seq_len: u32,
    width: usize,
    window: usize,
) -> (res: (Vec<T>, Vec<T>, u32))
    requires
        seq_len * width <= usize::MAX,
    ensures
        (Stream { k: res.0@, v: res.1@, tokens: res.2 as nat }) == (Stream {
            k: k@,
            v: v@,
            tokens: seq_len as nat,
        }).windowed(width as nat, window as nat),
{
    if window == 0 || seq_len as u64 <= window as u64 || width == 0 {
        return (k, v, seq_len);
    }
    let keep: u32 = window as u32;
    let start: usize = (seq_len - keep) as usize;
    assert(start * width + keep * width == seq_len * width) by (nonlinear_arith)
        requires
            start == seq_len - keep,
    ;
    assert(start * width >= 0 && keep * width >= 0) by (nonlinear_arith);
    let from: usize = start * width;
    let need: usize = keep as usize * width;
    let k_out = if k.len() >= from + need {
        copied(k.as_slice(), from, from + need)
    } else {
        k
    };
    let v_out = if v.len() >= from + need {
        copied(v.as_slice(), from, from + need)
    } else {
        v
    };
    (k_out, v_out, keep)
}

/// Where the window starts.
pub open spec fn window_start(seq_len: nat, window: nat) -> nat {
    if window == 0 || window > seq_len {
        0
    } else {
        (seq_len - window) as nat
    }
}

/// The last token of each full block before the window, at most
/// `max_compress` of them.
pub open spec fn block_ends(start: nat, ratio: nat, max_compress: nat) -> Seq<usize> {
    if ratio <= 1 {
        Seq::empty()
    } else {
        let n = if start / ratio < max_compress {
            start / ratio
        } else {
            max_compress
        };
        Seq::new(n, |i: int| ((i + 1) * ratio - 1) as usize)
    }
}

/// The positions `from`, `from + 1`, … before `to`.
pub open spec fn positions(from: nat, to: nat) -> Seq<usize> {
    Seq::new((to - from) as nat, |i: int| (from + i) as usize)
}

/// The tokens that attention sees: one for each block before the window, then
/// the window.
pub open spec fn sparse(seq_len: nat, window: nat, ratio: nat, max_compress: nat) -> Seq<usize> {
    let start = window_start(seq_len, window);
    block_ends(start, ratio, max_compress) + positions(start, seq_len)
}

/// Indices of the sliding-window tokens and of the strided history.
pub fn build_sparse_kv_indices(
    seq_len: usize,
    window: usize,
    compress_ratio: usize,
    max_compress: usize,
) -> (res: Vec<usize>)
    ensures
        res@ == sparse(seq_len as nat, window as nat, compress_ratio as nat, max_compress as nat),
{
    let start: usize = if window == 0 || window > seq_len {
        0
    } else {
        seq_len - window
    };
    let mut idxs: Vec<usize> = Vec::new();
    if compress_ratio > 1 {
        // One token for each block before the window: the block's last.
        let blocks: usize = start / compress_ratio;
        let n: usize = if blocks < max_compress {
            blocks
        } else {
            max_compress
        };
        let mut i: usize = 0;
        while i < n
            invariant
                i <= n <= blocks,
                compress_ratio > 1,
                blocks == start / compress_ratio,
                idxs@ == Seq::new(
                    i as nat,
                    |j: int| ((j + 1) * compress_ratio - 1) as usize,
                ),
            decreases n - i,
        {
            assert((i + 1) * compress_ratio <= start) by (nonlinear_arith)
                requires
                    i + 1 <= start / compress_ratio,
                    compress_ratio > 1,
            ;
            assert((i + 1) * compress_ratio >= 1) by (nonlinear_arith)
                requires
                    compress_ratio > 1,
            ;
            idxs.push((i + 1) * compress_ratio - 1);
            i += 1;
            assert(idxs@ =~= Seq::new(
                i as nat,
                |j: int| ((j + 1) * compress_ratio - 1) as usize,
            ));
        }
        assert(idxs@ =~= block_ends(start as nat, compress_ratio as nat, max_compress as nat));
    }
    let ghost ends = idxs@;
    let mut p: usize = start;
    assert(idxs@ =~= ends + positions(start as nat, start as nat));
    while p < seq_len
        invariant
            start <= p <= seq_len,
            idxs@ == ends + positions(start as nat, p as nat),
        decreases seq_len - p,
    {
        idxs.push(p);
        p += 1;
        assert(idxs@ =~= ends + positions(start as nat, p as nat));
    }
    idxs
}

/// The tokens that attention sees are tokens of the sequence, each once and in
/// order, and the whole window is among them.
pub proof fn law_sparse_indices(seq_len: usize, window: nat, ratio: nat, max_compress: nat)
    ensures
        ({
            let s = sparse(seq_len as nat, window, ratio, max_compress);
            let start = window_start(seq_len as nat, window);
            &&& forall|i: int| 0 <= i < s.len() ==> #[trigger] s[i] < seq_len
            &&& forall|i: int, j: int| 0 <= i < j < s.len() ==> #[trigger] s[i] < #[trigger] s[j]
            &&& forall|t: usize| start <= t < seq_len ==> #[trigger] s.contains(t)
        }),
{
    let s = sparse(seq_len as nat, window, ratio, max_compress);
    let start = window_start(seq_len as nat, window);
    let ends = block_ends(start, ratio, max_compress);
    assert forall|i: int| 0 <= i < ends.len() implies #[trigger] ends[i] < start && ends[i] == (i
        + 1) * ratio - 1 by {
        assert((i + 1) * ratio <= start) by (nonlinear_arith)
            requires
                i + 1 <= start / ratio,
                ratio > 1,
        ;
        assert((i + 1) * ratio >= 1) by (nonlinear_arith)
            requires
                i >= 0,
                ratio > 1,
        ;
    }
    assert forall|i: int, j: int| 0 <= i < j < s.len() implies #[trigger] s[i] < #[trigger] s[j] by {
        if j < ends.len() {
            assert(s[i] == ends[i] && s[j] == ends[j]);
            assert((i + 1) * ratio < (j + 1) * ratio) by (nonlinear_arith)
                requires
                    i < j,
                    ratio > 1,
            ;
        } else if i < ends.len() {
            assert(s[i] == ends[i]);
        }
    }
    assert forall|i: int| 0 <= i < s.len() implies #[trigger] s[i] < seq_len by {
        if i < ends.len() {
            assert(s[i] == ends[i]);
        }
    }
    assert forall|t: usize| start <= t < seq_len implies #[trigger] s.contains(t) by {
        assert(s[ends.len() + (t - start)] == t);
    }
}

/// The token at `i` of a run of `seq_len` tokens; zeros where it is beyond.
pub open spec fn picked_row<T>(s: Seq<T>, seq_len: nat, width: nat, i: nat, zero: T) -> Seq<T> {
    if i < seq_len {
        token_row(s, i, width, zero)
    } else {
        slices::filled(zero, width)
    }
}

/// The tokens at `idxs`, one after the other.
pub open spec fn picked<T>(
    s: Seq<T>,
    seq_len: nat,
    width: nat,
    idxs: Seq<usize>,
    zero: T,
) -> Seq<T>
    decreases idxs.len(),
{
    if idxs.len() == 0 {
        Seq::empty()
    } else {
        picked(s, seq_len, width, idxs.drop_last(), zero) + picked_row(
            s,
            seq_len,
            width,
            idxs.last() as nat,
            zero,
        )
    }
}

fn pick<T: Copy>(s: &[T], seq_len: usize, width: usize, idxs: &[usize], zero: T) -> (res: Vec<T>)
    requires
        seq_len * width <= usize::MAX,
    ensures
        res@ == picked(s@, seq_len as nat, width as nat, idxs@, zero),
{
    let mut out: Vec<T> = Vec::new();
    let mut o: usize = 0;
    assert(idxs@.take(0) =~= Seq::empty());
    while o < idxs.len()
        invariant
            o <= idxs@.len(),
            seq_len * width <= usize::MAX,
            out@ == picked(s@, seq_len as nat, width as nat, idxs@.take(o as int), zero),
        decreases idxs@.len() - o,
    {
        let i: usize = idxs[o];
        assert(idxs@.take(o + 1).drop_last() =~= idxs@.take(o as int));
        if i < seq_len {
            assert((i + 1) * width <= usize::MAX) by (nonlinear_arith)
                requires
                    i + 1 <= seq_len,
                    seq_len * width <= usize::MAX,
            ;
            extend_row(&mut out, s, i, width, zero);
        } else {
            let pad = fill(zero, width);
            extend(&mut out, pad.as_slice(), 0, width);
            assert(pad@.subrange(0, width as int) =~= pad@);
        }
        o += 1;
    }
    assert(idxs@.take(o as int) =~= idxs@);
    out
}

impl<T> Stream<T> {
    /// The tokens at `idxs`.
    pub open spec fn gathered(self, width: nat, idxs: Seq<usize>, zero: T) -> Stream<T> {
        Stream {
            k: picked(self.k, self.tokens, width, idxs, zero),
            v: picked(self.v, self.tokens, width, idxs, zero),
            tokens: idxs.len(),
        }
    }
}

/// Gathers the tokens at `idxs` from caches whose tokens are `width` values
/// wide, one at least.
pub fn gather_kv_by_idx<T: Copy>(
    k: &[T],
    v: &[T],
    seq_len: usize,
    width: usize,
    idxs: &[usize],
    zero: T,
) -> (res: (Vec<T>, Vec<T>, u32))
    requires
        seq_len * kv_pool::at_least_one(width) <= usize::MAX,
        idxs@.len() <= u32::MAX,
    ensures
        (Stream { k: res.0@, v: res.1@, tokens: res.2 as nat }) == (Stream {
            k: k@,
            v: v@,
            tokens: seq_len as nat,
        }).gathered(kv_pool::at_least_one(width) as nat, idxs@, zero),
{
    let w: usize = if width < 1 {
        1
    } else {
        width
    };
    let ko = pick(k, seq_len, w, idxs, zero);
    let vo = pick(v, seq_len, w, idxs, zero);
    (ko, vo, idxs.len() as u32)
}

/// What the attention of one step is given, before it is expanded.
pub struct KvPlan<T> {
    /// Queries have several heads over one head of keys and values.
    pub multihead: bool,
    pub n_q: nat,
    pub head_dim: nat,
    pub window: nat,
    pub compress_ratio: nat,
    /// How many strided tokens to keep.
    pub max_compress: nat,
    pub zero: T,
}

impl<T> KvPlan<T> {
    /// The values of one stored token.
    pub open spec fn width(self) -> nat {
        let w = if self.multihead {
            self.head_dim
        } else {
            self.n_q * self.head_dim
        };
        if w < 1 {
            1
        } else {
            w
        }
    }

    /// Whether history is strided: the layer compresses, and there is more
    /// than the window.
    pub open spec fn strides(self, s: Stream<T>) -> bool {
        self.compress_ratio > 1 && self.window > 0 && s.tokens > self.window
    }

    /// The tokens that are seen where no compressed history stands behind
    /// them.
    pub open spec fn plain(self, s: Stream<T>) -> Stream<T> {
        if self.strides(s) {
            s.gathered(
                self.width(),
                sparse(s.tokens, self.window, self.compress_ratio, self.max_compress),
                self.zero,
            )
        } else {
            s.windowed(self.width(), self.window)
        }
    }

    /// The tokens that are seen: the window with the compressed history behind
    /// it, where there is one.
    pub open spec fn seen(self, s: Stream<T>, pool: Option<Stream<T>>) -> Stream<T> {
        match pool {
            Some(c) => if c.tokens > 0 {
                let w = s.windowed(self.width(), self.window);
                let need = (c.tokens * self.width()) as int;
                if c.k.len() >= need && c.v.len() >= need {
                    Stream {
                        k: w.k + c.k.take(need),
                        v: w.v + c.v.take(need),
                        tokens: w.tokens + c.tokens,
                    }
                } else {
                    w
                }
            } else {
                self.plain(s)
            },
            None => self.plain(s),
        }
    }

    /// The tokens that are seen, laid out for the query heads.
    pub open spec fn prepared(self, s: Stream<T>, pool: Option<Stream<T>>) -> Stream<T> {
        let c = self.seen(s, pool);
        if self.multihead {
            Stream {
                k: mqa(c.k, c.tokens, self.n_q, self.head_dim, self.zero),
                v: mqa(c.v, c.tokens, self.n_q, self.head_dim, self.zero),
                tokens: c.tokens,
            }
        } else {
            c
        }
    }
}

/// The stream that a triple of keys, values and a count stands for.
pub open spec fn as_stream<T>(c: (Vec<T>, Vec<T>, u32)) -> Stream<T> {
    Stream { k: c.0@, v: c.1@, tokens: c.2 as nat }
}

/// The same of an optional triple.
pub open spec fn opt_stream<T>(c: Option<(Vec<T>, Vec<T>, u32)>) -> Option<Stream<T>> {
    match c {
        Some(x) => Some(as_stream(x)),
        None => None,
    }
}

/// The window, or the strided history, or the window with the compressed
/// history behind it; then one copy for each query head.
pub fn prepare_kv_for_decode<T: Copy>(
    multihead: bool,
    cache: (Vec<T>, Vec<T>, u32),
    n_q: usize,
    head_dim: usize,
    window: usize,
    compress_ratio: usize,
    max_compress: usize,
    compress_pool: Option<(Vec<T>, Vec<T>, u32)>,
    zero: T,
) -> (res: (Vec<T>, Vec<T>, u32))
    requires
        n_q * head_dim <= usize::MAX,
        ({
            let plan = KvPlan {
                multihead,
                n_q: n_q as nat,
                head_dim: head_dim as nat,
                window: window as nat,
                compress_ratio: compress_ratio as nat,
                max_compress: max_compress as nat,
                zero,
            };
            let more = match compress_pool {
                Some(c) => c.2 as nat,
                None => 0,
            };
            &&& cache.2 + more <= u32::MAX
            &&& (cache.2 + more) * plan.width() <= usize::MAX
        }),
    ensures
        as_stream(res) == (KvPlan {
            multihead,
            n_q: n_q as nat,
            head_dim: head_dim as nat,
            window: window as nat,
            compress_ratio: compress_ratio as nat,
            max_compress: max_compress as nat,
            zero,
        }).prepared(as_stream(cache), opt_stream(compress_pool)),
{
    let ghost plan = KvPlan {
        multihead,
        n_q: n_q as nat,
        head_dim: head_dim as nat,
        window: window as nat,
        compress_ratio: compress_ratio as nat,
        max_compress: max_compress as nat,
        zero,
    };
    let ghost s0 = as_stream(cache);
    let ghost pool0 = opt_stream(compress_pool);
    let ghost more = match pool0 {
        Some(c) => c.tokens,
        None => 0,
    };
    let flat: usize = if multihead {
        head_dim
    } else {
        n_q * head_dim
    };
    let width: usize = if flat < 1 {
        1
    } else {
        flat
    };
    assert(width == plan.width());
    assert(cache.2 * width <= usize::MAX && more * width <= usize::MAX) by (nonlinear_arith)
        requires
            (cache.2 + more) * width <= usize::MAX,
    ;
    let seen = match compress_pool {
        Some(c) => if c.2 > 0 {
            let (mut wk, mut wv, wl) = slice_kv_window(cache.0, cache.1, cache.2, width, window);
            let need: usize = c.2 as usize * width;
            if c.0.len() >= need && c.1.len() >= need {
                extend(&mut wk, c.0.as_slice(), 0, need);
                extend(&mut wv, c.1.as_slice(), 0, need);
                assert(c.0@.subrange(0, need as int) =~= c.0@.take(need as int));
                assert(c.1@.subrange(0, need as int) =~= c.1@.take(need as int));
                (wk, wv, wl + c.2)
            } else {
                (wk, wv, wl)
            }
        } else {
            plain_cut(cache, width, window, compress_ratio, max_compress, zero)
        },
        None => plain_cut(cache, width, window, compress_ratio, max_compress, zero),
    };
    assert(as_stream(seen) == plan.seen(s0, pool0));
    if multihead {
        let n: usize = seen.2 as usize;
        assert(n <= cache.2 + more) by {
            lemma_seen_count(plan, s0, pool0);
        }
        assert(n * head_dim <= usize::MAX) by (nonlinear_arith)
            requires
                n <= cache.2 + more,
                head_dim <= width,
                (cache.2 + more) * width <= usize::MAX,
        ;
        (
            expand_kv_mqa(seen.0.as_slice(), n, n_q, head_dim, zero),
            expand_kv_mqa(seen.1.as_slice(), n, n_q, head_dim, zero),
            seen.2,
        )
    } else {
        seen
    }
}

/// No more tokens are seen than there are.
proof fn lemma_seen_count<T>(plan: KvPlan<T>, s: Stream<T>, pool: Option<Stream<T>>)
    requires
        s.tokens <= usize::MAX,
    ensures
        plan.seen(s, pool).tokens <= s.tokens + (match pool {
            Some(c) => c.tokens,
            None => 0,
        }),
{
    lemma_sparse_len(s.tokens, plan.window, plan.compress_ratio, plan.max_compress);
}

proof fn lemma_sparse_len(seq_len: nat, window: nat, ratio: nat, max_compress: nat)
    ensures
        sparse(seq_len, window, ratio, max_compress).len() <= seq_len,
{
    let start = window_start(seq_len, window);
    if ratio > 1 {
        assert(start / ratio <= start) by (nonlinear_arith)
            requires
                ratio > 1,
        ;
    }
}

fn plain_cut<T: Copy>(
    cache: (Vec<T>, Vec<T>, u32),
    width: usize,
    window: usize,
    compress_ratio: usize,
    max_compress: usize,
    zero: T,
) -> (res: (Vec<T>, Vec<T>, u32))
    requires
        width >= 1,
        cache.2 * width <= usize::MAX,
    ensures
        as_stream(res) == if compress_ratio > 1 && window > 0 && cache.2 > window {
            as_stream(cache).gathered(
                width as nat,
                sparse(
                    cache.2 as nat,
                    window as nat,
                    compress_ratio as nat,
                    max_compress as nat,
                ),
                zero,
            )
        } else {
            as_stream(cache).windowed(width as nat, window as nat)
        },
{
    if compress_ratio > 1 && window > 0 && cache.2 as u64 > window as u64 {
        let s: usize = cache.2 as usize;
        let idxs = build_sparse_kv_indices(s, window, compress_ratio, max_compress);
        proof {
            lemma_sparse_len(s as nat, window as nat, compress_ratio as nat, max_compress as nat);
        }
        gather_kv_by_idx(
            cache.0.as_slice(),
            cache.1.as_slice(),
            s,
            width,
            idxs.as_slice(),
            zero,
        )
    } else {
        slice_kv_window(cache.0, cache.1, cache.2, width, window)
    }
}

/// A window keeps the last tokens of a longer sequence, with their keys and
/// values; a shorter one, and one without a window, is kept whole.
pub proof fn law_windowed<T>(s: Stream<T>, width: nat, window: nat)
    requires
        width >= 1,
        s.k.len() == s.tokens * width,
        s.v.len() == s.tokens * width,
    ensures
        window == 0 || s.tokens <= window ==> s.windowed(width, window) == s,
        0 < window < s.tokens ==> {
            let w = s.windowed(width, window);
            &&& w.tokens == window
            &&& w.k == s.k.skip(((s.tokens - window) * width) as int)
            &&& w.v == s.v.skip(((s.tokens - window) * width) as int)
            &&& w.k.len() == window * width
        },
{
    if 0 < window < s.tokens {
        let w = s.windowed(width, window);
        let from = ((s.tokens - window) * width) as int;
        assert(from + window * width == s.tokens * width) by (nonlinear_arith)
            requires
                from == (s.tokens - window) * width,
        ;
        assert(0 <= from) by (nonlinear_arith)
            requires
                from == (s.tokens - window) * width,
                window < s.tokens,
        ;
        assert(w.k =~= s.k.skip(from));
        assert(w.v =~= s.v.skip(from));
    }
}

/// Before the window one token is seen of each full block, its last, up to the
/// number that was asked for; without blocks only the window is seen.
pub proof fn law_history_strided(seq_len: usize, window: nat, ratio: nat, max_compress: nat, i: nat)
    requires
        0 < window <= seq_len,
        ratio > 1,
    ensures
        ({
            let s = sparse(seq_len as nat, window, ratio, max_compress);
            let start = (seq_len - window) as nat;
            &&& i < start / ratio && i < max_compress ==> s[i as int] == (i + 1) * ratio - 1
            &&& s.len() == window + if start / ratio < max_compress {
                start / ratio
            } else {
                max_compress
            }
        }),
        sparse(seq_len as nat, window, 1, max_compress).len() == window,
{
    let start = (seq_len - window) as nat;
    if i < start / ratio {
        assert(0 <= (i + 1) * ratio - 1 < start) by (nonlinear_arith)
            requires
                i + 1 <= start / ratio,
                ratio > 1,
        ;
    }
}

/// Gathered tokens are the tokens at their places: each brings its own row, in
/// the order in which they were asked for.
pub proof fn law_gathered_rows<T>(
    s: Seq<T>,
    seq_len: nat,
    width: nat,
    idxs: Seq<usize>,
    zero: T,
    o: int,
)
    requires
        0 <= o < idxs.len(),
        idxs[o] < seq_len,
        seq_len * width <= s.len(),
    ensures
        picked(s, seq_len, width, idxs, zero).len() == idxs.len() * width,
        picked(s, seq_len, width, idxs, zero).subrange(o * width, (o + 1) * width) == s.subrange(
            idxs[o] * width,
            (idxs[o] + 1) * width,
        ),
    decreases idxs.len(),
{
    lemma_picked_len(s, seq_len, width, idxs, zero);
    let front = idxs.drop_last();
    lemma_picked_len(s, seq_len, width, front, zero);
    let all = picked(s, seq_len, width, idxs, zero);
    let before = picked(s, seq_len, width, front, zero);
    let n = front.len() as int;
    assert(n * width + width == (n + 1) * width) by (nonlinear_arith);
    assert(o * width + width == (o + 1) * width && 0 <= o * width) by (nonlinear_arith)
        requires
            o >= 0,
    ;
    assert((idxs[o] + 1) * width <= s.len()) by (nonlinear_arith)
        requires
            idxs[o] + 1 <= seq_len,
            seq_len * width <= s.len(),
    ;
    if o < n {
        assert((o + 1) * width <= n * width) by (nonlinear_arith)
            requires
                o + 1 <= n,
        ;
        law_gathered_rows(s, seq_len, width, front, zero, o);
        assert(all.subrange(o * width, (o + 1) * width) =~= before.subrange(
            o * width,
            (o + 1) * width,
        ));
    } else {
        assert(all.subrange(o * width, (o + 1) * width) =~= s.subrange(
            idxs[o] * width,
            (idxs[o] + 1) * width,
        ));
    }
}

proof fn lemma_picked_len<T>(s: Seq<T>, seq_len: nat, width: nat, idxs: Seq<usize>, zero: T)
    ensures
        picked(s, seq_len, width, idxs, zero).len() == idxs.len() * width,
    decreases idxs.len(),
{
    if idxs.len() > 0 {
        lemma_picked_len(s, seq_len, width, idxs.drop_last(), zero);
        let i = idxs.last() as int;
        assert((i + 1) * width == i * width + width && 0 <= i * width) by (nonlinear_arith)
            requires
                i >= 0,
        ;
        assert((idxs.len() - 1) * width + width == idxs.len() * width) by (nonlinear_arith);
    } else {
        assert(0 * width == 0) by (nonlinear_arith);
    }
}

/// What attention sees: the window with the compressed history behind it where
/// there is one, the strided history where the layer compresses and there is
/// none yet, and else the window.
pub proof fn law_seen<T>(plan: KvPlan<T>, s: Stream<T>, c: Stream<T>)
    ensures
        c.tokens > 0 && c.k.len() == c.tokens * plan.width() && c.v.len() == c.tokens * plan.width()
            ==> {
            let w = s.windowed(plan.width(), plan.window);
            &&& plan.seen(s, Some(c)).k == w.k + c.k
            &&& plan.seen(s, Some(c)).v == w.v + c.v
            &&& plan.seen(s, Some(c)).tokens == w.tokens + c.tokens
        },
        plan.compress_ratio <= 1 ==> plan.seen(s, None) == s.windowed(plan.width(), plan.window),
        plan.compress_ratio > 1 && 0 < plan.window < s.tokens ==> plan.seen(s, None) == s.gathered(
            plan.width(),
            sparse(s.tokens, plan.window, plan.compress_ratio, plan.max_compress),
            plan.zero,
        ) && plan.seen(s, None).tokens == sparse(
            s.tokens,
            plan.window,
            plan.compress_ratio,
            plan.max_compress,
        ).len(),
{
    if c.tokens > 0 && c.k.len() == c.tokens * plan.width() && c.v.len() == c.tokens
        * plan.width() {
        assert(c.k.take(c.k.len() as int) =~= c.k);
        assert(c.v.take(c.v.len() as int) =~= c.v);
    }
}

/// What is seen goes to attention as it is, or, where several query heads share
/// one head of keys and values, as often as there are query heads: each head of
/// each token gets that token's row.
pub proof fn law_prepared<T>(
    plan: KvPlan<T>,
    s: Stream<T>,
    pool: Option<Stream<T>>,
    t: nat,
    h: nat,
)
    requires
        t < plan.seen(s, pool).tokens,
        h < plan.n_q,
    ensures
        plan.prepared(s, pool).tokens == plan.seen(s, pool).tokens,
        !plan.multihead ==> plan.prepared(s, pool) == plan.seen(s, pool),
        plan.multihead ==> {
            let at = (t * plan.n_q + h) * plan.head_dim;
            let c = plan.seen(s, pool);
            &&& plan.prepared(s, pool).k.subrange(at as int, (at + plan.head_dim) as int)
                == token_row(c.k, t, plan.head_dim, plan.zero)
            &&& plan.prepared(s, pool).v.subrange(at as int, (at + plan.head_dim) as int)
                == token_row(c.v, t, plan.head_dim, plan.zero)
        },
{
    if plan.multihead {
        let c = plan.seen(s, pool);
        law_expanded_rows(c.k, c.tokens, plan.n_q, plan.head_dim, plan.zero, t, h);
        law_expanded_rows(c.v, c.tokens, plan.n_q, plan.head_dim, plan.zero, t, h);
    }
}

/// The row of a token is its own values, and a token has as many as its heads
/// hold.
pub proof fn law_rows<T>(plan: KvPlan<T>, s: Seq<T>, t: nat, width: nat, zero: T)
    ensures
        (t + 1) * width <= s.len() ==> token_row(s, t, width, zero) == s.subrange(
            (t * width) as int,
            ((t + 1) * width) as int,
        ),
        plan.multihead && plan.head_dim >= 1 ==> plan.width() == plan.head_dim,
        !plan.multihead && plan.n_q * plan.head_dim >= 1 ==> plan.width() == plan.n_q
            * plan.head_dim,
{
}

/// What is repeated stands there as often as it is asked for, one after the
/// other.
pub proof fn law_repeated<T>(x: Seq<T>, n: nat, j: nat, k: int)
    requires
        j < n,
        0 <= k < x.len(),
    ensures
        repeated(x, n).len() == n * x.len(),
        0 <= j * x.len() + k < n * x.len(),
        repeated(x, n)[j * x.len() + k] == x[k],
    decreases n,
{
    let w = x.len();
    lemma_repeated_len(x, n);
    lemma_repeated_len(x, (n - 1) as nat);
    assert(j * w + w <= n * w && 0 <= j * w) by (nonlinear_arith)
        requires
            j + 1 <= n,
    ;
    assert((n - 1) * w + w == n * w) by (nonlinear_arith);
    if j < n - 1 {
        law_repeated(x, (n - 1) as nat, j, k);
    }
}

} // verus!
