//! The way of one chunk through a model's layers: which token goes where,
//! what is stored of it, and what it attends to. The numbers themselves are
//! computed elsewhere.
use vstd::prelude::*;

use crate::error::{TrajectError, TrajectErrorView};
use crate::inference::chunked::{ChunkRequest, ChunkResult};
use crate::inference::kv_pool;
use crate::inference::kv_pool::{
    layer_handle, store_layer_kv_at_pos, KvPoolView, PagedKvPool,
};
use crate::inference::local_run;
use crate::inference::local_run::{sequence_of, DecodeRun, DecodeRunView, RunKind};
use crate::text;
use crate::text::decimal;

verus! {

/// Where a token stands in the model.
#[derive(Debug, Clone, Copy, PartialEq, Eq, Structural)]
pub enum Place {
    /// Before its embedding.
    Embed,
    /// Before a layer's keys and values.
    Project(usize),
    /// Before a layer's attention.
    Attend(usize),
    /// Before a layer's feed-forward part.
    Feed(usize),
    /// Before the next token is chosen.
    Sample,
}

/// What is to be computed next.
#[derive(Debug, Clone, Copy, PartialEq, Eq, Structural)]
pub enum Work {
    /// The embedding of a token.
    Embed { tid: u32 },
    /// A layer's keys and values for the token at a position; they are stored.
    Project { layer: usize, pos: usize },
    /// A layer's attention for the token at a position, or at the last one
    /// that is stored where the position lies beyond.
    Attend { layer: usize, pos: usize },
    /// A layer's feed-forward part for a token.
    Feed { layer: usize, tid: u32 },
    /// The choice of the next token.
    Sample,
    /// Nothing: the chunk is done.
    Finish,
}

/// The way of a chunk.
#[derive(Debug)]
pub struct ChunkWalk {
    run: DecodeRun,
    prompt: Vec<u32>,
    /// The token of the prompt that is on its way, if one is.
    reading: Option<usize>,
    /// Layers of the model; a made-up one has none.
    layers: usize,
    prefix: String,
    place: Place,
}

#[verifier::ext_equal]
pub struct WalkView {
    pub run: DecodeRunView,
    pub reading: Option<nat>,
    pub layers: nat,
    pub prefix: Seq<char>,
    pub place: Place,
}

impl View for ChunkWalk {
    type V = WalkView;

    closed spec fn view(&self) -> WalkView {
        WalkView {
            run: self.run@,
            reading: match self.reading {
                Some(i) => Some(i as nat),
                None => None,
            },
            layers: self.layers as nat,
            prefix: self.prefix@,
            place: self.place,
        }
    }
}

impl WalkView {
    /// The way of a chunk at its start. The first chunk of a step reads the
    /// prompt.
    pub open spec fn started(
        run: DecodeRunView,
        first: bool,
        layers: nat,
        prefix: Seq<char>,
    ) -> WalkView {
        WalkView {
            run,
            reading: if first && run.prompt.len() > 0 {
                Some(0)
            } else {
                None
            },
            layers,
            prefix,
            place: Place::Embed,
        }
    }

    pub open spec fn wf(self) -> bool {
        &&& self.layers <= usize::MAX
        &&& self.reading matches Some(i) ==> i < self.run.prompt.len() && self.run.out.len() == 0
            && !(self.place is Sample)
        &&& self.reading is None && !(self.place is Embed) ==> self.run.goes_on()
        &&& match self.place {
            Place::Project(l) => if self.layers == 0 {
                l == 0 && self.reading is Some
            } else {
                l < self.layers
            },
            Place::Attend(l) => if self.layers == 0 {
                l == 0 && self.reading is None
            } else {
                l < self.layers
            },
            Place::Feed(l) => l < self.layers,
            _ => true,
        }
    }

    /// The token that is on its way.
    pub open spec fn token(self) -> u32 {
        match self.reading {
            Some(i) => self.run.prompt[i as int],
            None => self.run.last(),
        }
    }

    /// Its position.
    pub open spec fn position(self) -> int {
        match self.reading {
            Some(i) => i as int,
            None => self.run.position(),
        }
    }

    /// Whether all is done.
    pub open spec fn is_over(self) -> bool {
        self.reading is None && self.place is Embed && !self.run.goes_on()
    }

    /// The handle of what a layer stores; a made-up model stores under the
    /// prefix itself.
    pub open spec fn handle(self, layer: nat) -> Seq<char> {
        if self.layers == 0 {
            self.prefix
        } else {
            kv_pool::layer_key(self.prefix, layer)
        }
    }

    pub open spec fn work(self) -> Work {
        if self.is_over() {
            Work::Finish
        } else {
            match self.place {
                Place::Embed => Work::Embed { tid: self.token() },
                Place::Project(layer) => Work::Project { layer, pos: self.position() as usize },
                Place::Attend(layer) => Work::Attend {
                    layer,
                    pos: if self.layers == 0 {
                        usize::MAX
                    } else {
                        self.position() as usize
                    },
                },
                Place::Feed(layer) => Work::Feed { layer, tid: self.token() },
                Place::Sample => Work::Sample,
            }
        }
    }

    /// Where the token goes from its last layer: to the choice of the next,
    /// or, in the prompt, to the token behind it.
    pub open spec fn through(self) -> WalkView {
        match self.reading {
            Some(i) => WalkView {
                reading: if i + 1 < self.run.prompt.len() {
                    Some(i + 1)
                } else {
                    None
                },
                place: Place::Embed,
                ..self
            },
            None => WalkView { place: Place::Sample, ..self },
        }
    }

    /// The way after the work at hand, other than a choice, is done.
    pub open spec fn moved(self) -> WalkView {
        match self.place {
            Place::Embed => WalkView {
                place: if self.layers == 0 && self.reading is None {
                    Place::Attend(0)
                } else {
                    Place::Project(0)
                },
                ..self
            },
            Place::Project(l) => if self.layers == 0 {
                self.through()
            } else {
                WalkView { place: Place::Attend(l), ..self }
            },
            Place::Attend(l) => if self.layers == 0 {
                self.through()
            } else {
                WalkView { place: Place::Feed(l), ..self }
            },
            Place::Feed(l) => if l + 1 < self.layers {
                WalkView { place: Place::Project((l + 1) as usize), ..self }
            } else {
                self.through()
            },
            Place::Sample => self,
        }
    }

    /// The way after the next token is chosen.
    pub open spec fn chosen(self, token: u32) -> WalkView {
        WalkView { run: self.run.sampled(token), place: Place::Embed, ..self }
    }

    /// The way after there turned out to be nothing to attend to.
    pub open spec fn halted(self) -> WalkView {
        WalkView {
            run: DecodeRunView { halted: true, ..self.run },
            place: Place::Embed,
            ..self
        }
    }

    /// What is stored for the token at hand: tokens of the prompt are
    /// appended, decoded ones go to their position.
    pub open spec fn stores<T>(
        self,
        kv: KvPoolView<T>,
        layer: nat,
        k: Seq<T>,
        v: Seq<T>,
    ) -> KvPoolView<T> {
        if self.reading is Some {
            kv.appended(self.handle(layer), k, v)
        } else {
            kv.stored(self.handle(layer), k, v, self.position() as nat)
        }
    }
}

impl ChunkWalk {
    pub closed spec fn wf(&self) -> bool {
        &&& self.run.wf()
        &&& self.run@.prompt == self.prompt@
        &&& self.prompt@.len() + local_run::CHUNK_CAP <= usize::MAX
        &&& self@.wf()
    }

    /// The way of a chunk through `layers` layers. `prompt` are the tokens
    /// that the request starts from.
    pub fn start(req: &ChunkRequest, prompt: Vec<u32>, kind: RunKind, layers: usize) -> (res: Self)
        requires
            kind.vocab >= 1,
            prompt@.len() + local_run::CHUNK_CAP <= usize::MAX,
        ensures
            res.wf(),
            res@ == WalkView::started(
                DecodeRunView::started(prompt@, req@.decode_budget(), kind),
                req@.decoded_so_far == 0,
                layers as nat,
                req@.sequence(),
            ),
    {
        let n: usize = prompt.len();
        let again = crate::slices::copied(prompt.as_slice(), 0, n);
        assert(again@ =~= prompt@);
        let run = DecodeRun::start(req, again, kind);
        let reading: Option<usize> = if req.decoded_so_far == 0 && n > 0 {
            Some(0)
        } else {
            None
        };
        ChunkWalk {
            run,
            prompt,
            reading,
            layers,
            prefix: sequence_of(req),
            place: Place::Embed,
        }
    }

    /// The token that is on its way, and its position.
    fn at(&self) -> (res: (u32, usize))
        requires
            self.wf(),
            !self@.is_over(),
        ensures
            res.0 == self@.token(),
            res.1 == self@.position(),
    {
        match self.reading {
            Some(i) => (self.prompt[i], i),
            None => match self.run.next() {
                Some(n) => (n.tid, n.abs_pos),
                None => (0, 0),
            },
        }
    }

    /// What is to be computed next.
    pub fn work(&self) -> (res: Work)
        requires
            self.wf(),
        ensures
            res == self@.work(),
    {
        if self.reading.is_none() && self.run.next().is_none() {
            return Work::Finish;
        }
        let (tid, pos) = self.at();
        match self.place {
            Place::Embed => Work::Embed { tid },
            Place::Project(layer) => Work::Project { layer, pos },
            Place::Attend(layer) => Work::Attend {
                layer,
                pos: if self.layers == 0 {
                    usize::MAX
                } else {
                    pos
                },
            },
            Place::Feed(layer) => Work::Feed { layer, tid },
            Place::Sample => Work::Sample,
        }
    }

    /// The handle of what a layer stores.
    pub fn handle(&self, layer: usize) -> (res: String)
        ensures
            res@ == self@.handle(layer as nat),
    {
        if self.layers == 0 {
            self.prefix.clone()
        } else {
            layer_handle(self.prefix.as_str(), layer)
        }
    }

    /// Goes on after the work at hand, other than a choice, is done.
    pub fn step(&mut self)
        requires
            old(self).wf(),
            !old(self)@.is_over(),
            !(old(self)@.place is Sample),
        ensures
            final(self).wf(),
            final(self)@ == old(self)@.moved(),
    {
        match self.place {
            Place::Embed => {
                self.place = if self.layers == 0 && self.reading.is_none() {
                    Place::Attend(0)
                } else {
                    Place::Project(0)
                };
            },
            Place::Project(l) => {
                if self.layers == 0 {
                    self.pass();
                } else {
                    self.place = Place::Attend(l);
                }
            },
            Place::Attend(l) => {
                if self.layers == 0 {
                    self.pass();
                } else {
                    self.place = Place::Feed(l);
                }
            },
            Place::Feed(l) => {
                if l + 1 < self.layers {
                    self.place = Place::Project(l + 1);
                } else {
                    self.pass();
                }
            },
            Place::Sample => {},
        }
        assert(self@ =~= old(self)@.moved());
    }

    fn pass(&mut self)
        requires
            old(self).wf(),
            !old(self)@.is_over(),
        ensures
            final(self).wf(),
            final(self)@ == old(self)@.through(),
    {
        match self.reading {
            Some(i) => {
                self.reading = if i + 1 < self.prompt.len() {
                    Some(i + 1)
                } else {
                    None
                };
                self.place = Place::Embed;
            },
            None => {
                self.place = Place::Sample;
            },
        }
        assert(self@ =~= old(self)@.through());
    }

    /// Takes the token that the model chose.
    pub fn choose_token(&mut self, token: u32)
        requires
            old(self).wf(),
            old(self)@.place is Sample,
        ensures
            final(self).wf(),
            final(self)@ == old(self)@.chosen(token),
    {
        self.run.sampled(token);
        self.place = Place::Embed;
        assert(self@ =~= old(self)@.chosen(token));
    }

    /// Ends the chunk: nothing is stored that a decoded token could attend to.
    pub fn halt(&mut self)
        requires
            old(self).wf(),
            old(self)@.reading is None,
        ensures
            final(self).wf(),
            final(self)@ == old(self)@.halted(),
    {
        self.run.halt();
        self.place = Place::Embed;
        assert(self@ =~= old(self)@.halted());
    }

    /// Stores the keys and values of the layer at hand. Gives whether a token
    /// was appended; what is compressed follows only then.
    pub fn store<T: Copy>(&self, kv: &mut PagedKvPool<T>, k: &[T], v: &[T]) -> (res: bool)
        requires
            self.wf(),
            self@.place is Project,
            old(kv).wf(),
            k@.len() == old(kv)@.width,
            v@.len() == old(kv)@.width,
            old(kv)@.next_id < u64::MAX,
            old(kv)@.stream(self@.handle(self@.place->Project_0 as nat)).tokens < u32::MAX,
        ensures
            final(kv).wf(),
            final(kv)@ == self@.stores(old(kv)@, self@.place->Project_0 as nat, k@, v@),
            res == (self@.reading is Some || !old(kv)@.refreshes(
                self@.handle(self@.place->Project_0 as nat),
                self@.position() as nat,
            )),
    {
        let (_, pos) = self.at();
        let layer: usize = match self.place {
            Place::Project(l) => l,
            _ => 0,
        };
        let pfx = self.handle(layer);
        if self.reading.is_some() {
            kv.append_kv(pfx.as_str(), k, v);
            assert(k@.take(k@.len() as int) =~= k@);
            assert(v@.take(v@.len() as int) =~= v@);
            true
        } else {
            let (_, appended) = store_layer_kv_at_pos(kv, pfx.as_str(), k, v, pos);
            appended
        }
    }

    /// Whether another token can be counted under the handle at hand, and a page
    /// for it numbered.
    pub fn can_store<T: Copy>(&self, kv: &PagedKvPool<T>) -> (res: bool)
        requires
            self@.place is Project,
            kv.wf(),
        ensures
            res == (kv@.next_id < u64::MAX && kv@.stream(
                self@.handle(self@.place->Project_0 as nat),
            ).tokens < u32::MAX),
    {
        let layer: usize = match self.place {
            Place::Project(l) => l,
            _ => 0,
        };
        kv.may_grow() && kv.tokens_held(self.handle(layer).as_str()) < u32::MAX as u128
    }

    /// What a failure of the attention at hand means: while the prompt is
    /// read, nothing; after that, the end.
    pub fn attention_error(&self, reason: &str) -> (res: Option<TrajectError>)
        requires
            self@.place is Attend,
        ensures
            match res {
                None => self@.reading is Some,
                Some(e) => self@.reading is None && e@ == TrajectErrorView::Inference(
                    if self@.layers == 0 {
                        "local decode: "@ + reason@
                    } else {
                        "local decode L"@ + text::dec(self@.place->Attend_0 as nat) + ": "@
                            + reason@
                    },
                ),
            },
    {
        if self.reading.is_some() {
            return None;
        }
        let layer: usize = match self.place {
            Place::Attend(l) => l,
            _ => 0,
        };
        let mut m: String;
        if self.layers == 0 {
            m = "local decode: ".to_string();
        } else {
            m = "local decode L".to_string();
            m.append(decimal(layer as u64).as_str());
            m.append(": ");
        }
        m.append(reason);
        Some(TrajectError::Inference(m))
    }

    /// The tokens decoded so far.
    pub fn decoded(&self) -> (res: &Vec<u32>)
        ensures
            res@ == self@.run.out,
    {
        self.run.decoded()
    }

    /// The result of the chunk. `words` is what a tokenizer made of the
    /// decoded tokens, where there is one and it succeeded.
    pub fn finish(self, req: &ChunkRequest, words: Option<String>) -> (res: ChunkResult)
        requires
            self.wf(),
            req.decoded_so_far + local_run::CHUNK_CAP <= u32::MAX,
        ensures
            res@ == self@.run.result(req@, text::opt_chars(words)),
            res.token_ids@ == self@.run.out,
            words is Some && (self@.run.kind.has_tokenizer || self@.run.kind.from_files)
                ==> res.text@ == words->0@,
    {
        self.run.finish(req, words)
    }
}

impl WalkView {
    /// Whether the token at hand has left its keys and values with a layer.
    pub open spec fn left_with(self, layer: nat) -> bool {
        match self.place {
            Place::Embed => false,
            Place::Project(l) => layer < l,
            Place::Attend(l) => layer <= l,
            Place::Feed(l) => layer <= l,
            Place::Sample => true,
        }
    }

    /// How many tokens a layer has seen of a sequence that is read from its
    /// beginning.
    pub open spec fn seen_by(self, layer: nat) -> nat {
        match self.reading {
            Some(i) => if self.left_with(layer) {
                i + 1
            } else {
                i
            },
            None => if self.layers == 0 || self.run.out.len() == 0 {
                self.run.prompt.len()
            } else if self.left_with(layer) {
                self.run.prompt.len() + self.run.out.len()
            } else {
                (self.run.prompt.len() + self.run.out.len() - 1) as nat
            },
        }
    }

    /// The cache holds just the tokens that each layer has seen.
    pub open spec fn in_step<T>(self, kv: KvPoolView<T>) -> bool {
        forall|layer: nat|
            layer < self.layers || (layer == 0 && self.layers == 0) ==> kv.stream(
                #[trigger] self.handle(layer),
            ).tokens == self.seen_by(layer)
    }
}

proof fn lemma_decimals_differ(a: nat, b: nat)
    requires
        text::dec(a) == text::dec(b),
    ensures
        a == b,
    decreases a,
{
    let x = text::dec(a);
    let y = text::dec(b);
    assert(x.last() == y.last());
    if a >= 10 && b >= 10 {
        assert(x.drop_last() =~= text::dec(a / 10));
        assert(y.drop_last() =~= text::dec(b / 10));
        lemma_decimals_differ(a / 10, b / 10);
    } else if a >= 10 {
        assert(text::dec(a / 10).len() >= 1);
        assert(x.len() >= 2 && y.len() == 1);
    } else if b >= 10 {
        assert(text::dec(b / 10).len() >= 1);
        assert(y.len() >= 2 && x.len() == 1);
    }
}

proof fn lemma_handles_differ(w: WalkView, a: nat, b: nat)
    requires
        w.layers > 0,
        a != b,
    ensures
        w.handle(a) != w.handle(b),
{
    let head = w.prefix + ":L"@;
    if w.handle(a) == w.handle(b) {
        assert(text::dec(a) =~= w.handle(a).skip(head.len() as int));
        assert(text::dec(b) =~= w.handle(b).skip(head.len() as int));
        lemma_decimals_differ(a, b);
    }
}

/// A walk that reads the prompt into an empty cache starts in step with it.
pub proof fn law_walk_starts_in_step<T>(
    run: DecodeRunView,
    layers: nat,
    prefix: Seq<char>,
    kv: KvPoolView<T>,
)
    requires
        run.prompt.len() > 0,
        ({
            let w = WalkView::started(run, true, layers, prefix);
            forall|layer: nat| kv.stream(#[trigger] w.handle(layer)).tokens == 0
        }),
    ensures
        WalkView::started(run, true, layers, prefix).in_step(kv),
{
}

/// What the walk stores keeps the cache in step with it: each layer holds one
/// token for each that it has seen, in the prompt and after it.
pub proof fn law_storing_keeps_step<T>(w: WalkView, kv: KvPoolView<T>, k: Seq<T>, v: Seq<T>)
    requires
        w.wf(),
        w.in_step(kv),
        w.run.prompt.len() > 0,
        w.place is Project,
    ensures
        w.moved().in_step(w.stores(kv, w.place->Project_0 as nat, k, v)),
{
    let l = w.place->Project_0 as nat;
    let after = w.stores(kv, l, k, v);
    let next = w.moved();
    assert(kv.stream(w.handle(l)).tokens == w.seen_by(l));
    assert forall|layer: nat|
        layer < next.layers || (layer == 0 && next.layers == 0) implies after.stream(
        #[trigger] next.handle(layer),
    ).tokens == next.seen_by(layer) by {
        assert(next.handle(layer) == w.handle(layer));
        if layer != l {
            lemma_handles_differ(w, layer, l);
            assert(kv.stream(w.handle(layer)).tokens == w.seen_by(layer));
        }
    }
}

/// Every other step of the walk, and every choice, leaves the cache in step.
pub proof fn law_walking_keeps_step<T>(w: WalkView, kv: KvPoolView<T>, token: u32)
    requires
        w.wf(),
        w.in_step(kv),
        w.run.prompt.len() > 0,
        !(w.place is Project),
        w.run.kind.vocab >= 1,
    ensures
        !(w.place is Sample) ==> w.moved().in_step(kv),
        w.place is Sample ==> w.chosen(token).in_step(kv),
{
    let next = if w.place is Sample {
        w.chosen(token)
    } else {
        w.moved()
    };
    assert forall|layer: nat|
        layer < next.layers || (layer == 0 && next.layers == 0) implies kv.stream(
        #[trigger] next.handle(layer),
    ).tokens == next.seen_by(layer) by {
        assert(next.handle(layer) == w.handle(layer));
        assert(kv.stream(w.handle(layer)).tokens == w.seen_by(layer));
    }
}

/// A token attends to itself and to all that came before it, and to nothing
/// else: its position is that of the last token that its layer holds.
pub proof fn law_attention_is_causal<T>(w: WalkView, kv: KvPoolView<T>)
    requires
        w.wf(),
        w.in_step(kv),
        w.run.prompt.len() > 0,
        w.layers > 0,
        w.place is Attend,
    ensures
        kv.stream(w.handle(w.place->Attend_0 as nat)).tokens == w.position() + 1,
{
    assert(kv.stream(w.handle(w.place->Attend_0 as nat)).tokens == w.seen_by(
        w.place->Attend_0 as nat,
    ));
}

/// A walk comes to its end: every step brings it closer, and what is left is
/// bounded by the tokens that there may be and the layers.
pub proof fn law_walk_ends(w: WalkView, token: u32)
    requires
        w.wf(),
        !w.is_over(),
        w.run.kind.vocab >= 1,
        w.run.out.len() <= w.run.budget,
    ensures
        w.left() > 0,
        !(w.place is Sample) ==> w.moved().wf() && w.moved().left() < w.left(),
        w.place is Sample ==> w.chosen(token).wf() && w.chosen(token).left() < w.left(),
{
    let per = 3 * w.layers + 4;
    let t = w.tokens_left();
    assert(t >= 1);
    assert(per * t >= per) by (nonlinear_arith)
        requires
            t >= 1,
            per >= 0,
    ;
    if w.place is Sample {
        let c = w.chosen(token);
        assert(c.tokens_left() == t - 1);
        assert(per * (t - 1) == per * t - per) by (nonlinear_arith);
    } else {
        let m = w.moved();
        if m.reading != w.reading {
            assert(m.tokens_left() == t - 1);
            assert(per * (t - 1) == per * t - per) by (nonlinear_arith);
        } else {
            assert(m.tokens_left() == t);
        }
    }
}

impl WalkView {
    /// Tokens that may still go through the model, the one at hand included.
    pub open spec fn tokens_left(self) -> int {
        self.run.budget - self.run.out.len() + match self.reading {
            Some(i) => self.run.prompt.len() - i,
            None => 0,
        }
    }

    /// Steps of the token at hand that are done.
    pub open spec fn steps_done(self) -> int {
        match self.place {
            Place::Embed => 0,
            Place::Project(l) => 3 * l + 1,
            Place::Attend(l) => 3 * l + 2,
            Place::Feed(l) => 3 * l + 3,
            Place::Sample => (3 * self.layers + 3) as int,
        }
    }

    /// A bound on the steps that are left.
    pub open spec fn left(self) -> int {
        (3 * self.layers + 4) * self.tokens_left() - self.steps_done()
    }
}

/// A token goes through the layers one after the other, in each first to its
/// keys and values, then to attention, then to the feed-forward part.
pub proof fn law_way_through_layers(w: WalkView, l: usize)
    requires
        w.layers > 0,
    ensures
        w.place is Embed ==> w.moved().place == Place::Project(0),
        w.place == Place::Project(l) ==> w.moved().place == Place::Attend(l),
        w.place == Place::Attend(l) ==> w.moved().place == Place::Feed(l),
        w.place == Place::Feed(l) && l + 1 < w.layers ==> w.moved().place == Place::Project(
            (l + 1) as usize,
        ) && w.moved().reading == w.reading,
        w.place == Place::Feed(l) && l + 1 >= w.layers && w.reading is None ==> w.moved().place
            is Sample,
        w.moved().run == w.run,
        w.moved().prefix == w.prefix,
{
}

/// The prompt is read token by token from its beginning, and decoding begins
/// behind its last one.
pub proof fn law_prompt_is_read(w: WalkView, i: nat, l: usize)
    requires
        w.layers > 0,
        w.reading == Some(i),
        i < w.run.prompt.len(),
    ensures
        w.token() == w.run.prompt[i as int],
        w.position() == i,
        w.place == Place::Feed(l) && l + 1 >= w.layers ==> w.moved().place is Embed,
        w.place == Place::Feed(l) && l + 1 >= w.layers && i + 1 < w.run.prompt.len()
            ==> w.moved().reading == Some(i + 1),
        w.place == Place::Feed(l) && l + 1 >= w.layers && i + 1 == w.run.prompt.len()
            ==> w.moved().reading is None,
{
}

/// What is computed next is what the token's place says, for the token that is
/// on its way and at its position; at the end there is nothing.
pub proof fn law_work_at_hand(w: WalkView, l: usize)
    requires
        w.wf(),
        w.layers > 0,
        0 <= w.position() <= usize::MAX,
    ensures
        w.is_over() <==> w.work() is Finish,
        !w.is_over() && w.place is Embed ==> w.work() == (Work::Embed { tid: w.token() }),
        !w.is_over() && w.place == Place::Project(l) ==> (w.work() matches Work::Project {
            layer,
            pos,
        } && layer == l && pos == w.position()),
        !w.is_over() && w.place == Place::Attend(l) ==> (w.work() matches Work::Attend {
            layer,
            pos,
        } && layer == l && pos == w.position()),
        !w.is_over() && w.place == Place::Feed(l) ==> w.work() == (Work::Feed {
            layer: l,
            tid: w.token(),
        }),
        !w.is_over() && w.place is Sample ==> w.work() is Sample,
        w.reading is None && w.run.out.len() > 0 ==> w.token() == w.run.out.last(),
{
}

/// A chunk that begins a step reads its prompt; a later one goes on decoding
/// where the last one ended, under the same handles.
pub proof fn law_walk_started(run: DecodeRunView, layers: nat, prefix: Seq<char>)
    requires
        run.prompt.len() > 0,
    ensures
        WalkView::started(run, true, layers, prefix).reading == Some(0nat),
        WalkView::started(run, false, layers, prefix).reading is None,
        WalkView::started(run, true, layers, prefix).place is Embed,
        WalkView::started(run, true, layers, prefix).run == run,
        WalkView::started(run, true, layers, prefix).prefix == prefix,
        WalkView::started(run, true, layers, prefix).layers == layers,
{
}

/// The token that the model chose is decoded, and is the next on its way.
pub proof fn law_choice_goes_on(w: WalkView, token: u32)
    requires
        w.reading is None,
        token < w.run.kind.vocab,
    ensures
        w.chosen(token).run.out == w.run.out.push(token),
        w.chosen(token).token() == token,
        w.chosen(token).place is Embed,
        w.halted().is_over(),
        w.halted().run.out == w.run.out,
{
    local_run::law_chosen_token_kept(w.run, token);
}

/// Keys and values go under the handle of their layer: in the prompt behind
/// those that are there, after it to the token's position.
pub proof fn law_stores_under_layer<T>(
    w: WalkView,
    kv: KvPoolView<T>,
    layer: nat,
    k: Seq<T>,
    v: Seq<T>,
)
    ensures
        w.layers > 0 ==> w.handle(layer) == w.prefix + ":L"@ + text::dec(layer),
        w.layers == 0 ==> w.handle(layer) == w.prefix,
        w.reading is Some ==> w.stores(kv, layer, k, v).stream(w.handle(layer)).k == kv.stream(
            w.handle(layer),
        ).k + k,
        w.reading is None ==> w.stores(kv, layer, k, v) == kv.stored(
            w.handle(layer),
            k,
            v,
            w.position() as nat,
        ),
{
}

/// From its last layer a token of the prompt makes way for the one behind it, the
/// last of them for what is generated, and a generated one for the next choice.
pub proof fn law_from_the_last_layer(w: WalkView)
    ensures
        w.reading matches Some(i) ==> (i + 1 < w.run.prompt.len() ==> w.through().reading == Some(
            i + 1,
        )) && (i + 1 >= w.run.prompt.len() ==> w.through().reading is None)
            && w.through().place == Place::Embed,
        w.reading is None ==> w.through().place == Place::Sample && w.through().reading is None,
        w.through().run == w.run,
{
}

} // verus!
