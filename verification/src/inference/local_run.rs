//! One chunk of a local run: which sequence it works on, the tokens that it
//! starts from, the position of each token that it decodes, and when it ends.
use vstd::prelude::*;

use crate::ids;
use crate::inference::chunked::{ChunkRequest, ChunkRequestView, ChunkResult, ChunkResultView};
use crate::inference::compress;
use crate::inference::compress::filter_compress_pool;
use crate::inference::kv_pool;
use crate::inference::kv_pool::{
    compress_handle, materialize_compress_pool, KvPoolView, PagedKvPool, Stream,
};
use crate::inference::kv_select;
use crate::inference::kv_select::{prepare_kv_for_decode, KvPlan};
use crate::inference::rank;
use crate::slices::copied;
use crate::step::FinishReason;
use crate::text;
use crate::text::{chars_of, list_of_u32};

verus! {

/// A chunk has no more tokens than this.
pub const CHUNK_CAP: u32 = 8;

impl ChunkRequestView {
    /// The handle of the sequence that a request works on: the engine's hint,
    /// else the prefix, else the trajectory.
    pub open spec fn sequence(self) -> Seq<char> {
        match self.prefix_hint {
            Some(h) => h,
            None => match self.prefix {
                Some(p) => ids::hyphenated(p.0),
                None => ids::hyphenated(self.trajectory_id.0),
            },
        }
    }

    /// How many tokens to decode: what the chunk and the rest of the budget
    /// allow, one at least and eight at most.
    pub open spec fn decode_budget(self) -> u32 {
        let left = if self.max_tokens > self.decoded_so_far {
            (self.max_tokens - self.decoded_so_far) as u32
        } else {
            0
        };
        let n = if self.chunk_tokens < left {
            self.chunk_tokens
        } else {
            left
        };
        if n < 1 {
            1
        } else if n > CHUNK_CAP {
            CHUNK_CAP
        } else {
            n
        }
    }

    /// What there is to tokenize; a question mark where there is no text.
    pub open spec fn prompt_text(self) -> Seq<char> {
        match self.delta.text {
            Some(t) => t,
            None => "?"@,
        }
    }
}

/// The handle of the sequence that a request works on.
pub fn sequence_of(req: &ChunkRequest) -> (res: String)
    ensures
        res@ == req@.sequence(),
{
    match &req.prefix_hint {
        Some(h) => h.clone(),
        None => match req.prefix {
            Some(p) => p.to_text(),
            None => req.trajectory_id.to_text(),
        },
    }
}

/// How many tokens to decode for a request.
pub fn decode_budget(req: &ChunkRequest) -> (res: u32)
    ensures
        res == req@.decode_budget(),
        1 <= res <= CHUNK_CAP,
{
    let left: u32 = req.max_tokens.saturating_sub(req.decoded_so_far);
    let n: u32 = if req.chunk_tokens < left {
        req.chunk_tokens
    } else {
        left
    };
    if n < 1 {
        1
    } else if n > CHUNK_CAP {
        CHUNK_CAP
    } else {
        n
    }
}

/// The toy tokens of a text: one for each character, and one for no text.
pub open spec fn toy_tokens(t: Seq<char>, vocab: u32) -> Seq<u32> {
    if t.len() == 0 {
        seq![1u32]
    } else {
        let v: u32 = if vocab < 2 {
            2
        } else {
            vocab
        };
        Seq::new(t.len(), |i: int| (t[i] as u32) % v)
    }
}

/// Tokenizes without a vocabulary: one token for each character.
pub fn toy_tokenize(s: &str, vocab: u32) -> (res: Vec<u32>)
    ensures
        res@ == toy_tokens(s@, vocab),
{
    let cs = chars_of(s);
    let mut out: Vec<u32> = Vec::new();
    if cs.len() == 0 {
        out.push(1);
        assert(out@ =~= seq![1u32]);
        return out;
    }
    let v: u32 = if vocab < 2 {
        2
    } else {
        vocab
    };
    let mut i: usize = 0;
    while i < cs.len()
        invariant
            i <= cs@.len(),
            cs@ == s@,
            v == (if vocab < 2 {
                2
            } else {
                vocab
            }),
            out@ == Seq::new(i as nat, |j: int| (s@[j] as u32) % v),
        decreases cs@.len() - i,
    {
        out.push((cs[i] as u32) % v);
        i += 1;
        assert(out@ =~= Seq::new(i as nat, |j: int| (s@[j] as u32) % v));
    }
    out
}

/// The tokens that a request starts from: those that it brings, else those
/// that a tokenizer gave for its text, else toy tokens.
pub open spec fn prompt_tokens(
    req: ChunkRequestView,
    encoded: Option<Seq<u32>>,
    vocab: u32,
) -> Seq<u32> {
    if req.delta.token_ids.len() > 0 {
        req.delta.token_ids
    } else {
        match encoded {
            Some(e) if e.len() > 0 => e,
            _ => toy_tokens(req.prompt_text(), vocab),
        }
    }
}

/// The tokens that a request starts from. `encoded` is what a tokenizer made
/// of the request's text, where there is one and it succeeded.
pub fn prompt_ids(req: &ChunkRequest, encoded: Option<Vec<u32>>, vocab: u32) -> (res: Vec<u32>)
    ensures
        res@ == prompt_tokens(
            req@,
            match encoded {
                Some(e) => Some(e@),
                None => None,
            },
            vocab,
        ),
        res@.len() > 0,
{
    let n: usize = req.delta.token_ids.len();
    if n > 0 {
        let res = copied(req.delta.token_ids.as_slice(), 0, n);
        assert(res@ =~= req.delta.token_ids@);
        return res;
    }
    if let Some(e) = encoded {
        if e.len() > 0 {
            return e;
        }
    }
    match &req.delta.text {
        Some(t) => toy_tokenize(t.as_str(), vocab),
        None => toy_tokenize("?", vocab),
    }
}

/// What decides how a run ends and how its tokens are shown.
#[derive(Debug, Clone, Copy)]
pub struct RunKind {
    /// Words that the model knows.
    pub vocab: u32,
    pub eos: Option<u32>,
    pub has_tokenizer: bool,
    /// The weights are a model's, not toy ones.
    pub from_files: bool,
}

impl RunKind {
    /// Without a tokenizer and a model, tokens show as their numbers.
    pub open spec fn is_toy(self) -> bool {
        !self.has_tokenizer && !self.from_files
    }

    /// Whether a token ends the run.
    pub open spec fn ends_at(self, tid: u32) -> bool {
        self.eos == Some(tid) || (self.is_toy() && tid % 97 == 0)
    }
}

/// The token to run through the model next, and where it stands.
#[derive(Debug, Clone, Copy, PartialEq, Eq, Structural)]
pub struct NextToken {
    pub tid: u32,
    /// Its position in the sequence, from 0.
    pub abs_pos: usize,
}

/// The decoding of one chunk.
#[derive(Debug)]
pub struct DecodeRun {
    prompt: Vec<u32>,
    out: Vec<u32>,
    budget: u32,
    kind: RunKind,
    halted: bool,
}

#[verifier::ext_equal]
pub struct DecodeRunView {
    pub prompt: Seq<u32>,
    /// Tokens that were decoded.
    pub out: Seq<u32>,
    pub budget: u32,
    pub kind: RunKind,
    pub halted: bool,
}

impl View for DecodeRun {
    type V = DecodeRunView;

    closed spec fn view(&self) -> DecodeRunView {
        DecodeRunView {
            prompt: self.prompt@,
            out: self.out@,
            budget: self.budget,
            kind: self.kind,
            halted: self.halted,
        }
    }
}

/// Toy tokens as they show: each in square brackets.
pub open spec fn toy_text(out: Seq<u32>) -> Seq<char>
    decreases out.len(),
{
    if out.len() == 0 {
        Seq::empty()
    } else {
        toy_text(out.drop_last()) + text::list_text(text::nats_of_u32(seq![out.last()]), ","@)
    }
}

impl DecodeRunView {
    pub open spec fn started(prompt: Seq<u32>, budget: u32, kind: RunKind) -> DecodeRunView {
        DecodeRunView { prompt, out: Seq::empty(), budget, kind, halted: false }
    }

    /// The token that the next one follows.
    pub open spec fn last(self) -> u32 {
        if self.out.len() > 0 {
            self.out.last()
        } else if self.prompt.len() > 0 {
            self.prompt.last()
        } else {
            1
        }
    }

    /// Where that token stands: decoded tokens come after the prompt.
    pub open spec fn position(self) -> int {
        if self.out.len() > 0 {
            self.prompt.len() + self.out.len() - 1
        } else if self.prompt.len() > 0 {
            self.prompt.len() - 1
        } else {
            0
        }
    }

    /// Whether there is another token to decode.
    pub open spec fn goes_on(self) -> bool {
        !self.halted && self.out.len() < self.budget
    }

    /// After the model has chosen a token.
    pub open spec fn sampled(self, token: u32) -> DecodeRunView {
        let tid = token % self.kind.vocab;
        DecodeRunView {
            out: self.out.push(tid),
            halted: self.halted || self.kind.ends_at(tid),
            ..self
        }
    }

    /// What the decoded tokens say. A tokenizer's own words come first.
    pub open spec fn says(self, decoded: Option<Seq<char>>) -> Seq<char> {
        if self.kind.is_toy() {
            toy_text(self.out)
        } else {
            match decoded {
                Some(t) => t,
                None => text::list_text(text::nats_of_u32(self.out), ","@),
            }
        }
    }

    /// Whether the generation is finished: the tokens asked for are there, or
    /// the chunk ended early, or its last token is the end.
    pub open spec fn finished(self, req: ChunkRequestView) -> bool {
        let n = req.decoded_so_far + self.out.len();
        ||| n >= req.max_tokens
        ||| self.out.len() < self.budget
        ||| n >= req.chunk_tokens
        ||| (self.out.len() > 0 && self.kind.eos == Some(self.out.last()))
    }

    /// The result of the chunk.
    pub open spec fn result(
        self,
        req: ChunkRequestView,
        decoded: Option<Seq<char>>,
    ) -> ChunkResultView {
        let finished = self.finished(req);
        ChunkResultView {
            text: self.says(decoded),
            token_ids: self.out,
            tokens_produced: if self.out.len() < 1 {
                1
            } else {
                self.out.len() as u32
            },
            finished,
            finish_reason: if finished {
                Some(FinishReason::Stop)
            } else {
                None
            },
            tool_call: None,
            new_prefix: req.prefix,
            cache_hit_tokens: if req.decoded_so_far < 16 {
                req.decoded_so_far
            } else {
                16
            },
        }
    }
}

impl DecodeRun {
    /// A run keeps to its budget.
    pub closed spec fn wf(&self) -> bool {
        &&& self.out@.len() <= self.budget
        &&& self.budget <= CHUNK_CAP
        &&& self.kind.vocab >= 1
        &&& self.prompt@.len() + CHUNK_CAP <= usize::MAX
    }

    pub fn start(req: &ChunkRequest, prompt: Vec<u32>, kind: RunKind) -> (res: Self)
        requires
            kind.vocab >= 1,
            prompt@.len() + CHUNK_CAP <= usize::MAX,
        ensures
            res.wf(),
            res@ == DecodeRunView::started(prompt@, req@.decode_budget(), kind),
    {
        let res = DecodeRun {
            prompt,
            out: Vec::new(),
            budget: decode_budget(req),
            kind,
            halted: false,
        };
        assert(res@.out =~= Seq::empty());
        res
    }

    /// The token to run through the model next, if the run goes on.
    pub fn next(&self) -> (res: Option<NextToken>)
        requires
            self.wf(),
        ensures
            res is Some <==> self@.goes_on(),
            res matches Some(n) ==> n.tid == self@.last() && n.abs_pos == self@.position(),
    {
        if self.halted || self.out.len() >= self.budget as usize {
            return None;
        }
        let p: usize = self.prompt.len();
        let o: usize = self.out.len();
        let tid: u32 = if o > 0 {
            self.out[o - 1]
        } else if p > 0 {
            self.prompt[p - 1]
        } else {
            1
        };
        let abs_pos: usize = if o > 0 {
            p + o - 1
        } else if p > 0 {
            p - 1
        } else {
            0
        };
        Some(NextToken { tid, abs_pos })
    }

    /// Takes the token that the model chose.
    pub fn sampled(&mut self, token: u32)
        requires
            old(self).wf(),
            old(self)@.goes_on(),
        ensures
            final(self).wf(),
            final(self)@ == old(self)@.sampled(token),
    {
        let tid: u32 = token % self.kind.vocab;
        self.out.push(tid);
        let at_eos = match self.kind.eos {
            Some(e) => e == tid,
            None => false,
        };
        let toy = !self.kind.has_tokenizer && !self.kind.from_files;
        if at_eos || (toy && tid % 97 == 0) {
            self.halted = true;
        }
    }

    /// Ends the run: there is nothing to attend to.
    pub fn halt(&mut self)
        requires
            old(self).wf(),
        ensures
            final(self).wf(),
            final(self)@ == (DecodeRunView { halted: true, ..old(self)@ }),
    {
        self.halted = true;
    }

    /// The tokens decoded so far.
    pub fn decoded(&self) -> (res: &Vec<u32>)
        ensures
            res@ == self@.out,
    {
        &self.out
    }

    fn toy_out(&self) -> (res: String)
        ensures
            res@ == toy_text(self@.out),
    {
        let mut res = String::new();
        let mut i: usize = 0;
        assert(self.out@.take(0) =~= Seq::empty());
        while i < self.out.len()
            invariant
                i <= self.out@.len(),
                res@ == toy_text(self.out@.take(i as int)),
            decreases self.out@.len() - i,
        {
            let mut one: Vec<u32> = Vec::new();
            one.push(self.out[i]);
            assert(one@ =~= seq![self.out@[i as int]]);
            res.append(list_of_u32(one.as_slice(), ",").as_str());
            assert(self.out@.take(i + 1).drop_last() =~= self.out@.take(i as int));
            i += 1;
        }
        assert(self.out@.take(i as int) =~= self.out@);
        res
    }

    /// The result of the chunk. `words` is what a tokenizer made of the
    /// decoded tokens, where there is one and it succeeded.
    pub fn finish(self, req: &ChunkRequest, words: Option<String>) -> (res: ChunkResult)
        requires
            self.wf(),
            req.decoded_so_far + CHUNK_CAP <= u32::MAX,
        ensures
            res@ == self@.result(req@, text::opt_chars(words)),
            res.token_ids@ == self@.out,
            words is Some && (self@.kind.has_tokenizer || self@.kind.from_files) ==> res.text@
                == words->0@,
    {
        let produced: u32 = self.out.len() as u32;
        let toy = !self.kind.has_tokenizer && !self.kind.from_files;
        let says = if toy {
            self.toy_out()
        } else {
            match words {
                Some(t) => t,
                None => list_of_u32(self.out.as_slice(), ","),
            }
        };
        let at_eos = match self.kind.eos {
            Some(e) => produced > 0 && self.out[self.out.len() - 1] == e,
            None => false,
        };
        let n: u32 = req.decoded_so_far + produced;
        let finished = n >= req.max_tokens || produced < self.budget || n >= req.chunk_tokens
            || at_eos;
        let ghost view = self@;
        let res = ChunkResult {
            text: says,
            token_ids: self.out,
            tokens_produced: if produced < 1 {
                1
            } else {
                produced
            },
            finished,
            finish_reason: if finished {
                Some(FinishReason::Stop)
            } else {
                None
            },
            tool_call: None,
            new_prefix: req.prefix,
            cache_hit_tokens: if req.decoded_so_far < 16 {
                req.decoded_so_far
            } else {
                16
            },
        };
        assert(res@ =~= view.result(req@, text::opt_chars(words)));
        res
    }
}

/// A token's row of the embedding; tokens beyond the vocabulary wrap around.
pub fn embed_token<T: Copy>(embed: &[T], vocab: u32, hidden: usize, tid: u32) -> (res: Vec<T>)
    requires
        vocab >= 1,
        (tid % vocab) * hidden + hidden <= embed@.len(),
    ensures
        res@ == embed@.subrange(
            (tid % vocab) * hidden,
            (tid % vocab) * hidden + hidden,
        ),
        res@.len() == hidden,
{
    let i: usize = (tid % vocab) as usize;
    assert(i * hidden >= 0) by (nonlinear_arith);
    assert(embed.len() <= usize::MAX);
    let s: usize = i * hidden;
    copied(embed, s, s + hidden)
}

/// How several hidden streams become one before the output weights.
#[derive(Debug, Clone, Copy, PartialEq, Eq, Structural)]
pub enum Collapse {
    /// There is one stream already.
    Keep,
    /// By the weights that the model has for it.
    Weighted,
    /// By their mean.
    Mean,
}

/// How hidden streams of `len` values in all become one.
pub fn collapse_for(len: usize, hidden: usize, has_weights: bool) -> (res: Collapse)
    ensures
        res == if len == hidden {
            Collapse::Keep
        } else if has_weights {
            Collapse::Weighted
        } else {
            Collapse::Mean
        },
{
    if len == hidden {
        Collapse::Keep
    } else if has_weights {
        Collapse::Weighted
    } else {
        Collapse::Mean
    }
}

/// What the attention of one layer is given for one token.
#[derive(Debug)]
pub struct AttnInput<T> {
    pub k: Vec<T>,
    pub v: Vec<T>,
    pub seq_len: u32,
    /// The position of the query.
    pub q_pos: usize,
}

/// How attention reads what is stored.
#[derive(Debug, Clone, Copy)]
pub struct AttnReading<T> {
    pub multihead: bool,
    pub n_q: usize,
    pub head_dim: usize,
    pub window: usize,
    pub compress_ratio: usize,
    pub max_compress: usize,
    /// How many compressed tokens an indexer leaves.
    pub topk: usize,
    pub zero: T,
}

impl<T> AttnReading<T> {
    pub open spec fn plan(self) -> KvPlan<T> {
        KvPlan {
            multihead: self.multihead,
            n_q: self.n_q as nat,
            head_dim: self.head_dim as nat,
            window: self.window as nat,
            compress_ratio: self.compress_ratio as nat,
            max_compress: self.max_compress as nat,
            zero: self.zero,
        }
    }

    /// Whether what is to be read can be counted and held: all tokens under a
    /// handle and those of its pool, at the width of the attention.
    pub open spec fn fits(self, kv: KvPoolView<T>, pfx: Seq<char>) -> bool {
        let n = kv.stream(pfx).tokens + kv.stream(kv_pool::compress_key(pfx)).tokens;
        &&& self.n_q * self.head_dim <= usize::MAX
        &&& n <= u32::MAX
        &&& n * self.plan().width() <= usize::MAX
        &&& n * kv_pool::at_least_one(self.head_dim) <= usize::MAX
    }
}

/// Whether what an attention is to read can be counted and held.
pub fn attention_fits<T: Copy>(kv: &PagedKvPool<T>, pfx: &str, how: &AttnReading<T>) -> (res: bool)
    requires
        kv.wf(),
    ensures
        res == how.fits(kv@, pfx@),
{
    let own: u128 = kv.tokens_held(pfx);
    let pooled: u128 = kv.tokens_held(compress_handle(pfx).as_str());
    let most: u128 = u32::MAX as u128;
    let limit: u128 = usize::MAX as u128;
    if own > most || pooled > most - own {
        return false;
    }
    let n: u128 = own + pooled;
    let flat: usize = match how.n_q.checked_mul(how.head_dim) {
        Some(w) => w,
        None => {
            return false;
        },
    };
    let dims: usize = if how.head_dim < 1 {
        1
    } else {
        how.head_dim
    };
    let plain: usize = if how.multihead {
        how.head_dim
    } else {
        flat
    };
    let width: usize = if plain < 1 {
        1
    } else {
        plain
    };
    assert(n * width <= u32::MAX * usize::MAX) by (nonlinear_arith)
        requires
            n <= u32::MAX,
            width <= usize::MAX,
    ;
    assert(n * dims <= u32::MAX * usize::MAX) by (nonlinear_arith)
        requires
            n <= u32::MAX,
            dims <= usize::MAX,
    ;
    n * width as u128 <= limit && n * dims as u128 <= limit
}

/// What of a compressed sequence is seen: nothing of an empty one, all of it
/// without scores, and else what scores best.
pub open spec fn pool_seen<T>(
    stored: Stream<T>,
    scores: Option<Seq<u32>>,
    topk: nat,
    width: nat,
    seen: Option<Stream<T>>,
) -> bool {
    if stored.tokens == 0 {
        seen is None
    } else {
        match scores {
            None => seen == Some(stored),
            Some(s) => seen matches Some(c) && compress::picks_best(
                stored,
                Seq::new(s.len(), |i: int| rank::order_of(s[i]) as i64),
                topk,
                width,
                c,
            ),
        }
    }
}

/// The numbers of an optional run.
pub open spec fn opt_seq(o: Option<&[u32]>) -> Option<Seq<u32>> {
    match o {
        Some(x) => Some(x@),
        None => None,
    }
}

/// Reads what is stored for a layer, and lays it out for the token at
/// `abs_pos`; nothing where nothing is stored. `scores` are an indexer's, for
/// the compressed tokens.
pub fn attention_input<T: Copy>(
    kv: &PagedKvPool<T>,
    pfx: &str,
    abs_pos: usize,
    how: &AttnReading<T>,
    scores: Option<&[u32]>,
) -> (res: Option<AttnInput<T>>)
    requires
        kv.wf(),
        how.fits(kv@, pfx@),
        scores matches Some(s) ==> s@.len() <= kv@.stream(kv_pool::compress_key(pfx@)).tokens,
    ensures
        ({
            let s = kv@.stream(pfx@);
            match res {
                None => s.tokens == 0,
                Some(a) => {
                    &&& s.tokens > 0
                    &&& a.q_pos == if abs_pos < s.tokens {
                        abs_pos as int
                    } else {
                        s.tokens - 1
                    }
                    &&& exists|c: Option<Stream<T>>| #[trigger]
                        pool_seen(
                            kv@.stream(kv_pool::compress_key(pfx@)),
                            opt_seq(scores),
                            how.topk as nat,
                            kv_pool::at_least_one(how.head_dim) as nat,
                            c,
                        ) && how.plan().prepared(s, c) == (Stream {
                            k: a.k@,
                            v: a.v@,
                            tokens: a.seq_len as nat,
                        })
                },
            }
        }),
{
    let ghost ckey = kv_pool::compress_key(pfx@);
    let ghost st = kv@.stream(pfx@);
    let ghost cs = kv@.stream(ckey);
    let ghost w = how.plan().width();
    let ghost n = st.tokens + cs.tokens;
    let ghost d = kv_pool::at_least_one(how.head_dim) as int;
    proof {
        if let Some(x) = scores {
            assert(x@.len() * d <= usize::MAX) by (nonlinear_arith)
                requires
                    x@.len() <= n,
                    n * d <= usize::MAX,
                    d >= 1,
            ;
        }
    }
    let cache = kv.materialize_kv(pfx);
    if cache.2 == 0 {
        return None;
    }
    let q_pos: usize = if abs_pos < cache.2 as usize {
        abs_pos
    } else {
        (cache.2 - 1) as usize
    };
    let pool = materialize_compress_pool(kv, pfx);
    let filtered = filter_compress_pool(pool, scores, how.topk, how.head_dim);
    let ghost c = kv_select::opt_stream(filtered);
    assert(kv_select::as_stream(cache) =~= st);
    assert(pool_seen(
        cs,
        opt_seq(scores),
        how.topk as nat,
        kv_pool::at_least_one(how.head_dim) as nat,
        c,
    ));
    proof {
        if let (Some(f), Some(x)) = (c, scores) {
            compress::law_picks_bounded(
                cs,
                Seq::new(x@.len(), |i: int| rank::order_of(x@[i]) as i64),
                how.topk as nat,
                d as nat,
                f,
            );
        }
        let more = match c {
            Some(f) => f.tokens,
            None => 0,
        };
        assert((st.tokens + more) * w <= n * w) by (nonlinear_arith)
            requires
                st.tokens + more <= n,
                w >= 0,
        ;
    }
    let (k, v, seq_len) = prepare_kv_for_decode(
        how.multihead,
        cache,
        how.n_q,
        how.head_dim,
        how.window,
        how.compress_ratio,
        how.max_compress,
        filtered,
        how.zero,
    );
    Some(AttnInput { k, v, seq_len, q_pos })
}

/// A chunk ends: each token that is taken brings the run closer to its budget.
pub proof fn law_chunk_ends(run: DecodeRunView, token: u32)
    requires
        run.goes_on(),
        run.kind.vocab >= 1,
    ensures
        run.sampled(token).out.len() == run.out.len() + 1,
        run.sampled(token).out.len() <= run.budget,
        run.sampled(token).last() < run.kind.vocab,
{
}

/// Positions go up by one with each token that is decoded, and the first
/// decoded token stands right behind the prompt.
pub proof fn law_positions_follow(run: DecodeRunView, token: u32)
    requires
        run.prompt.len() > 0,
        run.kind.vocab >= 1,
    ensures
        run.sampled(token).position() == run.position() + 1,
        run.out.len() == 0 ==> run.position() == run.prompt.len() - 1,
{
}

/// A chunk that stopped at the end token, or short of its budget, finishes the
/// generation; one that is not finished filled its budget and left tokens to
/// decode.
pub proof fn law_finish(run: DecodeRunView, req: ChunkRequestView, decoded: Option<Seq<char>>)
    requires
        run.out.len() <= run.budget,
        !run.goes_on(),
    ensures
        run.result(req, decoded).finished <==> run.result(req, decoded).finish_reason is Some,
        !run.result(req, decoded).finished ==> run.out.len() == run.budget && req.decoded_so_far
            + run.out.len() < req.max_tokens,
        run.result(req, decoded).tokens_produced >= 1,
{
}

/// A run with a tokenizer or a model says the words that its tokens were turned
/// into, and hands on the tokens that it decoded, the prefix that it was asked
/// for, and no tool call.
pub proof fn law_words_are_said(run: DecodeRunView, req: ChunkRequestView, words: Seq<char>)
    requires
        run.kind.has_tokenizer || run.kind.from_files,
    ensures
        run.result(req, Some(words)).text == words,
        run.result(req, Some(words)).token_ids == run.out,
        run.result(req, Some(words)).new_prefix == req.prefix,
        run.result(req, Some(words)).tool_call is None,
{
}

/// Only without words are numbers listed: a run with a tokenizer or a model
/// lists them all in brackets, with commas between.
pub proof fn law_numbers_without_words(run: DecodeRunView, req: ChunkRequestView)
    requires
        run.kind.has_tokenizer || run.kind.from_files,
    ensures
        run.result(req, None).text == text::list_text(
            Seq::new(run.out.len(), |i: int| run.out[i] as nat),
            ","@,
        ),
        run.result(req, None).token_ids == run.out,
{
    assert(text::nats_of_u32(run.out) =~= Seq::new(run.out.len(), |i: int| run.out[i] as nat));
}

/// Toy tokens show one by one, each in its own brackets, whatever words there
/// may be.
pub proof fn law_toy_tokens_shown(
    run: DecodeRunView,
    req: ChunkRequestView,
    words: Option<Seq<char>>,
    a: Seq<u32>,
    b: Seq<u32>,
    n: u32,
)
    requires
        !run.kind.has_tokenizer,
        !run.kind.from_files,
    ensures
        run.result(req, words).text == toy_text(run.out),
        run.result(req, words).token_ids == run.out,
        toy_text(a + b) == toy_text(a) + toy_text(b),
        toy_text(Seq::empty()) == Seq::<char>::empty(),
        toy_text(seq![n]) == seq!['['] + text::dec(n as nat) + seq![']'],
    decreases b.len(),
{
    assert(seq![n].drop_last() =~= Seq::empty());
    assert(text::nats_of_u32(seq![n]) =~= seq![n as nat]);
    text::law_list_text(n as nat, seq![0nat], seq![0nat], ","@);
    reveal_with_fuel(toy_text, 2);
    assert(seq![n].last() == n);
    assert(toy_text(seq![n]) =~= seq!['['] + text::dec(n as nat) + seq![']']);
    if b.len() == 0 {
        assert(a + b =~= a);
        assert(toy_text(a + b) =~= toy_text(a) + toy_text(b));
    } else {
        law_toy_tokens_shown(run, req, words, a, b.drop_last(), n);
        assert((a + b).drop_last() =~= a + b.drop_last());
        assert(toy_text(a + b) =~= toy_text(a) + toy_text(b));
    }
}

/// A chunk counts the tokens that it decoded, and tells up to sixteen tokens
/// that were there before as found in the cache.
pub proof fn law_chunk_counts(run: DecodeRunView, req: ChunkRequestView, words: Option<Seq<char>>)
    requires
        1 <= run.out.len() <= u32::MAX,
    ensures
        run.result(req, words).tokens_produced == run.out.len(),
        req.decoded_so_far <= 16 ==> run.result(req, words).cache_hit_tokens == req.decoded_so_far,
        req.decoded_so_far > 16 ==> run.result(req, words).cache_hit_tokens == 16,
{
}

/// A generation is finished where its limit is reached, where the last token is
/// the end, where the chunk stopped short, and where a chunk's worth of tokens
/// is there; and nowhere else.
pub proof fn law_finished_when(run: DecodeRunView, req: ChunkRequestView, words: Option<Seq<char>>)
    ensures
        req.decoded_so_far + run.out.len() >= req.max_tokens ==> run.result(req, words).finished,
        run.out.len() > 0 && run.kind.eos == Some(run.out.last()) ==> run.result(
            req,
            words,
        ).finished,
        run.out.len() < run.budget ==> run.result(req, words).finished,
        req.decoded_so_far + run.out.len() >= req.chunk_tokens ==> run.result(req, words).finished,
        req.decoded_so_far + run.out.len() < req.max_tokens && req.decoded_so_far + run.out.len()
            < req.chunk_tokens && run.out.len() >= run.budget && (run.out.len() == 0 || run.kind.eos
            != Some(run.out.last())) ==> !run.result(req, words).finished,
        run.result(req, words).finished ==> run.result(req, words).finish_reason == Some(
            FinishReason::Stop,
        ),
        !run.result(req, words).finished ==> run.result(req, words).finish_reason is None,
{
}

/// A chunk decodes as much as it is asked for: the whole chunk where the limit
/// leaves room for it, else all that is left, never more than eight tokens and
/// never none.
pub proof fn law_budget_is_used(req: ChunkRequestView)
    ensures
        1 <= req.chunk_tokens <= 8 && req.decoded_so_far + req.chunk_tokens <= req.max_tokens
            ==> req.decode_budget() == req.chunk_tokens,
        req.decoded_so_far < req.max_tokens < req.decoded_so_far + req.chunk_tokens
            && req.max_tokens - req.decoded_so_far <= 8 ==> req.decode_budget() == req.max_tokens
            - req.decoded_so_far,
        req.chunk_tokens >= 8 && req.decoded_so_far + 8 <= req.max_tokens ==> req.decode_budget()
            == 8,
        req.chunk_tokens == 0 || req.max_tokens <= req.decoded_so_far ==> req.decode_budget() == 1,
{
}

/// A request works on the sequence that it hints at, else on that of its
/// prefix, else on that of its trajectory.
pub proof fn law_sequence_of(req: ChunkRequestView)
    ensures
        req.prefix_hint matches Some(h) ==> req.sequence() == h,
        req.prefix_hint is None && req.prefix is Some ==> req.sequence() == ids::hyphenated(
            req.prefix.unwrap().0,
        ),
        req.prefix_hint is None && req.prefix is None ==> req.sequence() == ids::hyphenated(
            req.trajectory_id.0,
        ),
{
}

/// A run starts from the tokens that the request brings; without any, from
/// those of a tokenizer; and without those, from one token for each character
/// of the text. It never starts from nothing.
pub proof fn law_prompt_tokens(
    req: ChunkRequestView,
    encoded: Option<Seq<u32>>,
    vocab: u32,
    t: Seq<char>,
)
    ensures
        prompt_tokens(req, encoded, vocab).len() > 0,
        req.delta.token_ids.len() > 0 ==> prompt_tokens(req, encoded, vocab) == req.delta.token_ids,
        req.delta.token_ids.len() == 0 && (encoded matches Some(e) && e.len() > 0)
            ==> prompt_tokens(req, encoded, vocab) == encoded.unwrap(),
        req.delta.token_ids.len() == 0 && (encoded is None || encoded.unwrap().len() == 0)
            && req.delta.text == Some(t) && t.len() > 0 ==> prompt_tokens(
            req,
            encoded,
            vocab,
        ).len() == t.len() && (vocab >= 2 ==> forall|i: int|
            0 <= i < t.len() ==> #[trigger] prompt_tokens(req, encoded, vocab)[i] == (t[i] as u32)
                % vocab),
{
    reveal_strlit("?");
}

/// The token that the model chose is the next one of the chunk, and stands
/// behind those before it. The end token stops the run; another token of a
/// model does not.
pub proof fn law_chosen_token_kept(run: DecodeRunView, token: u32)
    requires
        token < run.kind.vocab,
    ensures
        run.sampled(token).out == run.out.push(token),
        run.sampled(token).prompt == run.prompt,
        run.sampled(token).budget == run.budget,
        run.sampled(token).kind == run.kind,
        run.sampled(token).last() == token,
        run.kind.eos == Some(token) ==> !run.sampled(token).goes_on(),
        (run.kind.has_tokenizer || run.kind.from_files) && run.kind.eos != Some(token)
            && !run.halted && run.out.len() + 1 < run.budget ==> run.sampled(token).goes_on(),
{
    assert((token as int) % (run.kind.vocab as int) == token as int) by {
        vstd::arithmetic::div_mod::lemma_small_mod(token as nat, run.kind.vocab as nat);
    }
}

/// A run begins with nothing decoded, behind its whole prompt.
pub proof fn law_run_starts(prompt: Seq<u32>, budget: u32, kind: RunKind)
    requires
        prompt.len() > 0,
        budget > 0,
    ensures
        DecodeRunView::started(prompt, budget, kind).out.len() == 0,
        DecodeRunView::started(prompt, budget, kind).goes_on(),
        DecodeRunView::started(prompt, budget, kind).last() == prompt.last(),
        DecodeRunView::started(prompt, budget, kind).position() == prompt.len() - 1,
        DecodeRunView::started(prompt, budget, kind).kind == kind,
        DecodeRunView::started(prompt, budget, kind).prompt == prompt,
        DecodeRunView::started(prompt, budget, kind).budget == budget,
{
}

/// Nothing of an empty sequence is seen, and all of one that is not scored.
pub proof fn law_seen_of_the_pool<T>(
    stored: Stream<T>,
    scores: Option<Seq<u32>>,
    topk: nat,
    width: nat,
    seen: Option<Stream<T>>,
)
    requires
        pool_seen(stored, scores, topk, width, seen),
    ensures
        stored.tokens == 0 ==> seen is None,
        stored.tokens > 0 && scores is None ==> seen == Some(stored),
        stored.tokens > 0 ==> seen is Some,
{
}

/// A prompt is the text of the step, or a question mark where it has none.
pub proof fn law_prompt_text(req: ChunkRequestView)
    ensures
        req.delta.text matches Some(t) ==> req.prompt_text() == t,
        req.delta.text is None ==> req.prompt_text() == "?"@,
{
}

} // verus!
