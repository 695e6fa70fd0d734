//! The physical store of keys and values: pages of tokens, in sequences that
//! go by a prefix handle. Pages are wiped before they go.
use std::collections::HashMap;
use vstd::prelude::*;

use crate::ids::TrajectoryId;
use crate::slices;
use crate::slices::{extend, fill, overlay};
use crate::text;
use crate::text::{decimal, same};

verus! {

/// One physical page.
#[derive(Debug)]
pub struct KvPage<T> {
    /// Keys, token after token.
    pub k: Vec<T>,
    /// Values, token after token.
    pub v: Vec<T>,
    /// How many tokens are in use.
    pub tokens: u32,
}

impl<T: Copy> KvPage<T> {
    /// A page with room for `cap_tokens` tokens.
    pub fn empty(cap_tokens: usize, heads: usize, dim: usize, zero: T) -> (res: Self)
        requires
            cap_tokens * (heads * dim) <= usize::MAX,
            heads * dim <= usize::MAX,
        ensures
            res.k@ == slices::filled(zero, (cap_tokens * (heads * dim)) as nat),
            res.v@ == slices::filled(zero, (cap_tokens * (heads * dim)) as nat),
            res.tokens == 0,
    {
        let n: usize = cap_tokens * (heads * dim);
        KvPage { k: fill(zero, n), v: fill(zero, n), tokens: 0 }
    }

    /// Overwrites all that the page holds.
    pub fn wipe(&mut self, zero: T)
        ensures
            final(self).k@ == slices::filled(zero, old(self).k@.len()),
            final(self).v@ == slices::filled(zero, old(self).v@.len()),
            final(self).tokens == 0,
    {
        let ghost k = self.k@;
        let ghost v = self.v@;
        let mut i: usize = 0;
        while i < self.k.len()
            invariant
                self.k@.len() == k.len(),
                self.v@ == v,
                i <= k.len(),
                forall|j: int| 0 <= j < i ==> self.k@[j] == zero,
            decreases k.len() - i,
        {
            self.k.set(i, zero);
            i += 1;
        }
        i = 0;
        while i < self.v.len()
            invariant
                self.k@.len() == k.len(),
                self.v@.len() == v.len(),
                i <= v.len(),
                forall|j: int| 0 <= j < k.len() ==> self.k@[j] == zero,
                forall|j: int| 0 <= j < i ==> self.v@[j] == zero,
            decreases v.len() - i,
        {
            self.v.set(i, zero);
            i += 1;
        }
        self.tokens = 0;
        assert(self.k@ =~= slices::filled(zero, k.len()));
        assert(self.v@ =~= slices::filled(zero, v.len()));
    }
}

/// The pages of one sequence, in order.
#[derive(Debug)]
pub struct PrefixPages {
    pub prefix: String,
    pub ids: Vec<u64>,
}

/// The sequence that a trajectory works on.
#[derive(Debug)]
pub struct PrefixBinding {
    pub traj: TrajectoryId,
    pub prefix: String,
}

/// A sequence of tokens: their keys, their values, and how many there are.
#[verifier::ext_equal]
pub struct Stream<T> {
    pub k: Seq<T>,
    pub v: Seq<T>,
    pub tokens: nat,
}

impl<T> Stream<T> {
    /// The sequence without tokens.
    pub open spec fn none() -> Stream<T> {
        Stream { k: Seq::empty(), v: Seq::empty(), tokens: 0 }
    }

    /// With one more token.
    pub open spec fn grown(self, k: Seq<T>, v: Seq<T>) -> Stream<T> {
        Stream { k: self.k + k, v: self.v + v, tokens: self.tokens + 1 }
    }

    /// With the last token replaced; a token is `width` values wide.
    pub open spec fn mended(self, width: nat, k: Seq<T>, v: Seq<T>) -> Stream<T> {
        Stream {
            k: self.k.take(self.k.len() - width) + k,
            v: self.v.take(self.v.len() - width) + v,
            tokens: self.tokens,
        }
    }
}

/// How many pages of `page_tokens` tokens it takes to hold `tokens`.
pub open spec fn pages_for(tokens: nat, page_tokens: nat) -> nat {
    ((tokens + page_tokens - 1) / page_tokens as int) as nat
}

/// What a pool holds.
#[verifier::ext_equal]
pub struct KvPoolView<T> {
    pub page_tokens: nat,
    /// The values of one token.
    pub width: nat,
    /// The sequences, by prefix handle.
    pub streams: Map<Seq<char>, Stream<T>>,
    /// The handles that trajectories work on.
    pub bound: Seq<(TrajectoryId, Seq<char>)>,
    /// Pages in memory.
    pub pages: nat,
    /// The number that the next page gets.
    pub next_id: nat,
}

/// That a binding is of another trajectory.
pub open spec fn not_of(t: TrajectoryId) -> spec_fn((TrajectoryId, Seq<char>)) -> bool {
    |b: (TrajectoryId, Seq<char>)| b.0 != t
}

/// That a binding is to another handle.
pub open spec fn not_to(p: Seq<char>) -> spec_fn((TrajectoryId, Seq<char>)) -> bool {
    |b: (TrajectoryId, Seq<char>)| b.1 != p
}

impl<T> KvPoolView<T> {
    /// The sequence under a handle; one without tokens where there is none.
    pub open spec fn stream(self, p: Seq<char>) -> Stream<T> {
        if self.streams.dom().contains(p) {
            self.streams[p]
        } else {
            Stream::none()
        }
    }

    /// Whether one more token opens a page.
    pub open spec fn opens(self, p: Seq<char>) -> bool {
        self.stream(p).tokens % self.page_tokens == 0
    }

    /// With one more token under a handle.
    pub open spec fn appended(self, p: Seq<char>, k: Seq<T>, v: Seq<T>) -> KvPoolView<T> {
        let more: nat = if self.opens(p) {
            1
        } else {
            0
        };
        KvPoolView {
            streams: self.streams.insert(p, self.stream(p).grown(k, v)),
            pages: self.pages + more,
            next_id: self.next_id + more,
            ..self
        }
    }

    /// With the last token under a handle replaced.
    pub open spec fn overwritten(self, p: Seq<char>, k: Seq<T>, v: Seq<T>) -> KvPoolView<T> {
        KvPoolView {
            streams: self.streams.insert(p, self.stream(p).mended(self.width, k, v)),
            ..self
        }
    }

    /// Without the sequence under a handle, and without the bindings to it.
    pub open spec fn freed(self, p: Seq<char>) -> KvPoolView<T> {
        if self.streams.dom().contains(p) {
            KvPoolView {
                streams: self.streams.remove(p),
                pages: (self.pages - pages_for(self.stream(p).tokens, self.page_tokens)) as nat,
                bound: self.bound.filter(not_to(p)),
                ..self
            }
        } else {
            self
        }
    }

    /// With a trajectory bound to a handle, and to no other.
    pub open spec fn binding(self, t: TrajectoryId, p: Seq<char>) -> KvPoolView<T> {
        KvPoolView { bound: self.bound.filter(not_of(t)).push((t, p)), ..self }
    }
}

/// The keys in the pages `ids`.
pub open spec fn page_keys<T>(
    ids: Seq<u64>,
    pages: Map<u64, KvPage<T>>,
    width: nat,
) -> Seq<T>
    decreases ids.len(),
{
    if ids.len() == 0 {
        Seq::empty()
    } else {
        page_keys(ids.drop_last(), pages, width) + pages[ids.last()].k@.take(
            pages[ids.last()].tokens * width,
        )
    }
}

/// The values in the pages `ids`.
pub open spec fn page_values<T>(
    ids: Seq<u64>,
    pages: Map<u64, KvPage<T>>,
    width: nat,
) -> Seq<T>
    decreases ids.len(),
{
    if ids.len() == 0 {
        Seq::empty()
    } else {
        page_values(ids.drop_last(), pages, width) + pages[ids.last()].v@.take(
            pages[ids.last()].tokens * width,
        )
    }
}

/// The tokens in the pages `ids`.
pub open spec fn page_count<T>(ids: Seq<u64>, pages: Map<u64, KvPage<T>>) -> nat
    decreases ids.len(),
{
    if ids.len() == 0 {
        0
    } else {
        page_count(ids.drop_last(), pages) + pages[ids.last()].tokens as nat
    }
}

/// The sequence in the pages `ids`.
pub open spec fn page_stream<T>(
    ids: Seq<u64>,
    pages: Map<u64, KvPage<T>>,
    width: nat,
) -> Stream<T> {
    Stream {
        k: page_keys(ids, pages, width),
        v: page_values(ids, pages, width),
        tokens: page_count(ids, pages),
    }
}

/// What `ids` reach does not change with pages that they do not name.
proof fn lemma_frame<T>(
    ids: Seq<u64>,
    a: Map<u64, KvPage<T>>,
    b: Map<u64, KvPage<T>>,
    width: nat,
)
    requires
        forall|i: int| 0 <= i < ids.len() ==> a[#[trigger] ids[i]] == b[ids[i]],
    ensures
        page_keys(ids, a, width) == page_keys(ids, b, width),
        page_values(ids, a, width) == page_values(ids, b, width),
        page_count(ids, a) == page_count(ids, b),
        page_stream(ids, a, width) == page_stream(ids, b, width),
    decreases ids.len(),
{
    if ids.len() > 0 {
        let front = ids.drop_last();
        assert forall|i: int| 0 <= i < front.len() implies a[#[trigger] front[i]] == b[front[i]] by {
            assert(front[i] == ids[i]);
        }
        lemma_frame(front, a, b, width);
        assert(ids.last() == ids[ids.len() - 1]);
    }
}

/// Where all pages but the last are full, the number of tokens and the number
/// of pages give each other.
proof fn lemma_count<T>(ids: Seq<u64>, pages: Map<u64, KvPage<T>>, page_tokens: nat)
    requires
        page_tokens >= 1,
        ids.len() >= 1,
        forall|i: int| 0 <= i < ids.len() - 1 ==> pages[#[trigger] ids[i]].tokens == page_tokens,
        1 <= pages[ids.last()].tokens <= page_tokens,
    ensures
        page_count(ids, pages) == (ids.len() - 1) * page_tokens + pages[ids.last()].tokens,
        pages_for(page_count(ids, pages), page_tokens) == ids.len(),
        page_count(ids, pages) % page_tokens == 0 <==> pages[ids.last()].tokens == page_tokens,
        page_count(ids, pages) >= 1,
    decreases ids.len(),
{
    let front = ids.drop_last();
    if front.len() > 0 {
        assert forall|i: int| 0 <= i < front.len() - 1 implies pages[#[trigger] front[i]].tokens
            == page_tokens by {
            assert(front[i] == ids[i]);
        }
        assert(front.last() == ids[ids.len() - 2]);
        lemma_count(front, pages, page_tokens);
        assert((front.len() - 1) * page_tokens + page_tokens == (ids.len() - 1) * page_tokens)
            by (nonlinear_arith)
            requires
                front.len() == ids.len() - 1,
        ;
    } else {
        assert(page_count(front, pages) == 0);
        assert((ids.len() - 1) * page_tokens == 0) by (nonlinear_arith)
            requires
                ids.len() == 1,
        ;
    }
    let n = page_count(ids, pages);
    let q = ids.len() - 1;
    let t = pages[ids.last()].tokens as int;
    let p = page_tokens as int;
    assert((n + p - 1) / p == q + 1) by (nonlinear_arith)
        requires
            n == q * p + t,
            1 <= t <= p,
            p >= 1,
    ;
    assert(n % page_tokens == 0 <==> t == p) by (nonlinear_arith)
        requires
            n == q * p + t,
            1 <= t <= p,
            p >= 1,
            p == page_tokens,
            q >= 0,
    ;
    assert(q * p >= 0) by (nonlinear_arith)
        requires
            q >= 0,
            p >= 1,
    ;
}

/// A sequence has `width` keys and values for each token.
proof fn lemma_lengths<T>(ids: Seq<u64>, pages: Map<u64, KvPage<T>>, width: nat)
    requires
        forall|i: int|
            0 <= i < ids.len() ==> (#[trigger] pages[ids[i]]).tokens * width
                <= pages[ids[i]].k@.len() && pages[ids[i]].k@.len() == pages[ids[i]].v@.len(),
    ensures
        page_keys(ids, pages, width).len() == page_count(ids, pages) * width,
        page_values(ids, pages, width).len() == page_count(ids, pages) * width,
    decreases ids.len(),
{
    if ids.len() > 0 {
        let front = ids.drop_last();
        assert forall|i: int| 0 <= i < front.len() implies (#[trigger] pages[front[i]]).tokens
            * width <= pages[front[i]].k@.len() && pages[front[i]].k@.len()
            == pages[front[i]].v@.len() by {
            assert(front[i] == ids[i]);
        }
        lemma_lengths(front, pages, width);
        let last = pages[ids[ids.len() - 1]];
        assert(last.tokens * width >= 0) by (nonlinear_arith);
        assert((page_count(front, pages) + last.tokens as nat) * width == page_count(front, pages)
            * width + last.tokens * width) by (nonlinear_arith);
    } else {
        assert(0 * width == 0);
    }
}

/// Physical paged KV store. Free zeros memory before drop.
#[derive(Debug)]
pub struct PagedKvPool<T> {
    page_tokens: usize,
    num_heads: usize,
    head_dim: usize,
    zero: T,
    pages: HashMap<u64, KvPage<T>>,
    next_id: u64,
    by_prefix: Vec<PrefixPages>,
    by_traj: Vec<PrefixBinding>,
}

/// The bindings, by trajectory and handle.
spec fn bindings(bs: Seq<PrefixBinding>) -> Seq<(TrajectoryId, Seq<char>)> {
    bs.map_values(|b: PrefixBinding| (b.traj, b.prefix@))
}

/// Whether `i` is where the sequence under `p` stands.
spec fn stands(es: Seq<PrefixPages>, i: int, p: Seq<char>) -> bool {
    0 <= i < es.len() && es[i].prefix@ == p
}

spec fn held(es: Seq<PrefixPages>, p: Seq<char>) -> bool {
    exists|i: int| stands(es, i, p)
}

spec fn place(es: Seq<PrefixPages>, p: Seq<char>) -> int {
    choose|i: int| stands(es, i, p)
}

spec fn streams<T>(
    es: Seq<PrefixPages>,
    pages: Map<u64, KvPage<T>>,
    width: nat,
) -> Map<Seq<char>, Stream<T>> {
    Map::new(
        |p: Seq<char>| held(es, p),
        |p: Seq<char>| page_stream(es[place(es, p)].ids@, pages, width),
    )
}

/// Whether page `id` is the `j`-th of sequence `i`.
spec fn owns(es: Seq<PrefixPages>, i: int, j: int, id: u64) -> bool {
    0 <= i < es.len() && 0 <= j < es[i].ids@.len() && es[i].ids@[j] == id
}

/// The pages of one sequence are there, full but for the last, and numbered
/// below `next`.
spec fn entry_ok<T>(e: PrefixPages, pages: Map<u64, KvPage<T>>, page_tokens: nat, next: nat) -> bool {
    &&& e.ids@.len() >= 1
    &&& forall|j: int|
        0 <= j < e.ids@.len() ==> pages.dom().contains(#[trigger] e.ids@[j]) && e.ids@[j] < next
    &&& forall|j: int|
        0 <= j < e.ids@.len() - 1 ==> pages[#[trigger] e.ids@[j]].tokens == page_tokens
    &&& 1 <= pages[e.ids@.last()].tokens <= page_tokens
}

spec fn page_ok<T>(p: KvPage<T>, page_tokens: nat, width: nat) -> bool {
    &&& p.k@.len() == page_tokens * width
    &&& p.v@.len() == page_tokens * width
}

spec fn books_ok<T>(
    es: Seq<PrefixPages>,
    pages: Map<u64, KvPage<T>>,
    page_tokens: nat,
    width: nat,
    next: nat,
) -> bool {
    &&& forall|i: int, j: int|
        0 <= i < es.len() && 0 <= j < es.len() && (#[trigger] es[i]).prefix@ == (
        #[trigger] es[j]).prefix@ ==> i == j
    &&& forall|i: int| 0 <= i < es.len() ==> entry_ok(#[trigger] es[i], pages, page_tokens, next)
    &&& forall|i: int, j: int, a: int, b: int, id: u64|
        #[trigger] owns(es, i, j, id) && #[trigger] owns(es, a, b, id) ==> i == a && j == b
    &&& forall|id: u64| #[trigger]
        pages.dom().contains(id) ==> exists|i: int, j: int| owns(es, i, j, id)
    &&& forall|id: u64| #[trigger]
        pages.dom().contains(id) ==> page_ok(pages[id], page_tokens, width)
    &&& pages.dom().finite()
}

impl<T> View for PagedKvPool<T> {
    type V = KvPoolView<T>;

    closed spec fn view(&self) -> KvPoolView<T> {
        KvPoolView {
            page_tokens: self.page_tokens as nat,
            width: (self.num_heads * self.head_dim) as nat,
            streams: streams(
                self.by_prefix@,
                self.pages@,
                (self.num_heads * self.head_dim) as nat,
            ),
            bound: bindings(self.by_traj@),
            pages: self.pages@.dom().len(),
            next_id: self.next_id as nat,
        }
    }
}

impl<T> PagedKvPool<T> {
    /// No page belongs to two sequences or to none, and the pages of a
    /// sequence are full but for the last.
    pub closed spec fn wf(&self) -> bool {
        &&& self.page_tokens >= 1
        &&& self.num_heads >= 1
        &&& self.head_dim >= 1
        &&& self.num_heads * self.head_dim <= usize::MAX
        &&& self.page_tokens * (self.num_heads * self.head_dim) <= usize::MAX
        &&& books_ok(
            self.by_prefix@,
            self.pages@,
            self.page_tokens as nat,
            (self.num_heads * self.head_dim) as nat,
            self.next_id as nat,
        )
    }
}


/// The place of a handle, where it has one, is the only one.
proof fn lemma_place<T>(
    es: Seq<PrefixPages>,
    pages: Map<u64, KvPage<T>>,
    page_tokens: nat,
    width: nat,
    next: nat,
    i: int,
    p: Seq<char>,
)
    requires
        books_ok(es, pages, page_tokens, width, next),
        stands(es, i, p),
    ensures
        held(es, p),
        place(es, p) == i,
        streams(es, pages, width).dom().contains(p),
        streams(es, pages, width)[p] == page_stream(es[i].ids@, pages, width),
{
    let j = place(es, p);
    assert(stands(es, j, p));
    assert(es[i].prefix@ == es[j].prefix@);
}

/// The pages of a sequence hold what they claim.
proof fn lemma_entry<T>(
    es: Seq<PrefixPages>,
    pages: Map<u64, KvPage<T>>,
    page_tokens: nat,
    width: nat,
    next: nat,
    i: int,
)
    requires
        books_ok(es, pages, page_tokens, width, next),
        page_tokens >= 1,
        0 <= i < es.len(),
    ensures
        ({
            let ids = es[i].ids@;
            let last = pages[ids.last()];
            let s = page_stream(ids, pages, width);
            &&& ids.len() >= 1
            &&& pages.dom().contains(ids.last())
            &&& ids.last() < next
            &&& page_ok(last, page_tokens, width)
            &&& 1 <= last.tokens <= page_tokens
            &&& last.tokens * width <= page_tokens * width
            &&& s.tokens == (ids.len() - 1) * page_tokens + last.tokens
            &&& s.tokens >= last.tokens
            &&& pages_for(s.tokens, page_tokens) == ids.len()
            &&& (s.tokens % page_tokens == 0 <==> last.tokens == page_tokens)
            &&& s.tokens >= 1
            &&& s.k.len() == s.tokens * width
            &&& s.v.len() == s.tokens * width
        }),
{
    let ids = es[i].ids@;
    assert(entry_ok(es[i], pages, page_tokens, next));
    assert(ids.last() == ids[ids.len() - 1]);
    lemma_count(ids, pages, page_tokens);
    assert forall|j: int| 0 <= j < ids.len() implies (#[trigger] pages[ids[j]]).tokens * width
        <= pages[ids[j]].k@.len() && pages[ids[j]].k@.len() == pages[ids[j]].v@.len() by {
        let p = pages[ids[j]];
        assert(pages.dom().contains(ids[j]));
        assert(page_ok(p, page_tokens, width));
        assert(p.tokens <= page_tokens);
        assert(p.tokens * width <= page_tokens * width) by (nonlinear_arith)
            requires
                p.tokens <= page_tokens,
        ;
    }
    lemma_lengths(ids, pages, width);
    let last = pages[ids.last()];
    assert(last.tokens * width <= page_tokens * width) by (nonlinear_arith)
        requires
            last.tokens <= page_tokens,
    ;
    assert((ids.len() - 1) * page_tokens >= 0) by (nonlinear_arith)
        requires
            ids.len() >= 1,
    ;
}

/// What changes when one page of one sequence is written, and that page's
/// number stands last in its sequence.
proof fn lemma_write<T>(
    es: Seq<PrefixPages>,
    pages: Map<u64, KvPage<T>>,
    page_tokens: nat,
    width: nat,
    next: nat,
    i: int,
    page: KvPage<T>,
)
    requires
        books_ok(es, pages, page_tokens, width, next),
        page_tokens >= 1,
        0 <= i < es.len(),
        page_ok(page, page_tokens, width),
        1 <= page.tokens <= page_tokens,
    ensures
        ({
            let ids = es[i].ids@;
            let then = pages.insert(ids.last(), page);
            let n = page.tokens * width;
            let was = pages[ids.last()].tokens * width;
            let s = page_stream(ids, pages, width);
            &&& books_ok(es, then, page_tokens, width, next)
            &&& streams(es, then, width) == streams(es, pages, width).insert(
                es[i].prefix@,
                Stream {
                    k: s.k.take(s.k.len() - was) + page.k@.take(n),
                    v: s.v.take(s.v.len() - was) + page.v@.take(n),
                    tokens: (s.tokens - pages[ids.last()].tokens + page.tokens) as nat,
                },
            )
        }),
{
    let ids = es[i].ids@;
    let id = ids.last();
    let then = pages.insert(id, page);
    let p = es[i].prefix@;
    lemma_entry(es, pages, page_tokens, width, next, i);
    assert(owns(es, i, ids.len() - 1, id));
    assert(then.dom() =~= pages.dom());
    assert forall|a: int| 0 <= a < es.len() implies entry_ok(
        #[trigger] es[a],
        then,
        page_tokens,
        next,
    ) by {
        let e = es[a];
        assert(entry_ok(e, pages, page_tokens, next));
        assert forall|j: int| 0 <= j < e.ids@.len() - 1 implies then[#[trigger] e.ids@[j]].tokens
            == page_tokens by {
            assert(owns(es, a, j, e.ids@[j]));
        }
        assert(owns(es, a, e.ids@.len() - 1, e.ids@.last()));
    }
    assert forall|x: u64| #[trigger] then.dom().contains(x) implies page_ok(
        then[x],
        page_tokens,
        width,
    ) by {
        assert(pages.dom().contains(x));
    }
    assert forall|x: u64| #[trigger] then.dom().contains(x) implies exists|a: int, b: int|
        owns(es, a, b, x) by {
        assert(pages.dom().contains(x));
    }
    assert(books_ok(es, then, page_tokens, width, next));
    let n = page.tokens * width;
    let was = pages[id].tokens * width;
    let s = page_stream(ids, pages, width);
    let front = ids.drop_last();
    assert forall|j: int| 0 <= j < front.len() implies pages[#[trigger] front[j]]
        == then[front[j]] by {
        assert(owns(es, i, j, front[j]));
    }
    lemma_frame(front, pages, then, width);
    let now = Stream {
        k: s.k.take(s.k.len() - was) + page.k@.take(n),
        v: s.v.take(s.v.len() - was) + page.v@.take(n),
        tokens: (s.tokens - pages[id].tokens + page.tokens) as nat,
    };
    assert(was >= 0) by (nonlinear_arith)
        requires
            was == pages[id].tokens * width,
    ;
    assert(s.k.take(s.k.len() - was) =~= page_keys(front, pages, width));
    assert(s.v.take(s.v.len() - was) =~= page_values(front, pages, width));
    assert(page_stream(ids, then, width) =~= now);
    let x = streams(es, then, width);
    let y = streams(es, pages, width).insert(p, now);
    assert(stands(es, i, p));
    assert(x.dom() =~= y.dom());
    assert forall|q: Seq<char>| #[trigger] x.dom().contains(q) implies x[q] == y[q] by {
        let a = place(es, q);
        assert(stands(es, a, q));
        if q == p {
            lemma_place(es, then, page_tokens, width, next, i, p);
        } else {
            let other = es[a].ids@;
            assert forall|j: int| 0 <= j < other.len() implies pages[#[trigger] other[j]]
                == then[other[j]] by {
                assert(owns(es, a, j, other[j]));
                if other[j] == id {
                    assert(owns(es, i, ids.len() - 1, other[j]));
                }
            }
            lemma_frame(other, pages, then, width);
        }
    }
    assert(x =~= y);
}

/// What changes when a fresh page is put at the end of a sequence; the
/// sequence may be one that was not there.
proof fn lemma_open<T>(
    es: Seq<PrefixPages>,
    after: Seq<PrefixPages>,
    pages: Map<u64, KvPage<T>>,
    page_tokens: nat,
    width: nat,
    next: nat,
    i: int,
    id: u64,
    page: KvPage<T>,
)
    requires
        books_ok(es, pages, page_tokens, width, next),
        page_tokens >= 1,
        id == next,
        page_ok(page, page_tokens, width),
        page.tokens == 1,
        0 <= i < after.len(),
        forall|a: int| 0 <= a < after.len() && a != i ==> #[trigger] after[a] == es[a],
        i < es.len() ==> after.len() == es.len() && after[i].prefix@ == es[i].prefix@
            && after[i].ids@ == es[i].ids@.push(id) && pages[es[i].ids@.last()].tokens
            == page_tokens,
        i >= es.len() ==> i == es.len() && after.len() == es.len() + 1 && after[i].ids@ == seq![id]
            && !held(es, after[i].prefix@),
    ensures
        ({
            let then = pages.insert(id, page);
            let p = after[i].prefix@;
            let s = if i < es.len() {
                page_stream(es[i].ids@, pages, width)
            } else {
                Stream::<T>::none()
            };
            &&& books_ok(after, then, page_tokens, width, next + 1)
            &&& !pages.dom().contains(id)
            &&& streams(after, then, width) == streams(es, pages, width).insert(
                p,
                s.grown(page.k@.take(width as int), page.v@.take(width as int)),
            )
        }),
{
    let then = pages.insert(id, page);
    let p = after[i].prefix@;
    if pages.dom().contains(id) {
        let (a, b) = choose|a: int, b: int| owns(es, a, b, id);
        assert(entry_ok(es[a], pages, page_tokens, next));
        assert(es[a].ids@[b] < next);
        assert(false);
    }
    assert forall|a: int, b: int|
        0 <= a < after.len() && 0 <= b < after.len() && (#[trigger] after[a]).prefix@ == (
        #[trigger] after[b]).prefix@ implies a == b by {
        if i >= es.len() {
            if a < i && b == i {
                assert(stands(es, a, p));
            }
            if b < i && a == i {
                assert(stands(es, b, p));
            }
            if a < i && b < i {
                assert(es[a].prefix@ == es[b].prefix@);
            }
        } else {
            assert(es[a].prefix@ == es[b].prefix@);
        }
    }
    assert forall|a: int| 0 <= a < after.len() implies entry_ok(
        #[trigger] after[a],
        then,
        page_tokens,
        next + 1,
    ) by {
        let e = after[a];
        if a < es.len() {
            let o = es[a];
            assert(entry_ok(o, pages, page_tokens, next));
            assert forall|j: int| 0 <= j < e.ids@.len() implies then.dom().contains(
                #[trigger] e.ids@[j],
            ) && e.ids@[j] < next + 1 by {
                if j < o.ids@.len() {
                    assert(e.ids@[j] == o.ids@[j]);
                }
            }
            assert forall|j: int| 0 <= j < e.ids@.len() - 1 implies then[#[trigger] e.ids@[j]].tokens
                == page_tokens by {
                assert(e.ids@[j] == o.ids@[j]);
                if j == o.ids@.len() - 1 {
                    assert(o.ids@[j] == o.ids@.last());
                }
            }
            if a != i {
                assert(e.ids@.last() == o.ids@[o.ids@.len() - 1]);
            }
        }
    }
    assert forall|a: int, b: int, c: int, d: int, x: u64|
        #[trigger] owns(after, a, b, x) && #[trigger] owns(after, c, d, x) implies a == c && b
        == d by {
        if x == id {
            if a != i || (i < es.len() && b < es[i].ids@.len()) {
                assert(owns(es, a, b, x));
                assert(entry_ok(es[a], pages, page_tokens, next));
                assert(es[a].ids@[b] < next);
            }
            if c != i || (i < es.len() && d < es[i].ids@.len()) {
                assert(owns(es, c, d, x));
                assert(entry_ok(es[c], pages, page_tokens, next));
                assert(es[c].ids@[d] < next);
            }
        } else {
            assert(owns(es, a, b, x));
            assert(owns(es, c, d, x));
        }
    }
    assert forall|x: u64| #[trigger] then.dom().contains(x) implies exists|a: int, b: int|
        owns(after, a, b, x) by {
        if x == id {
            assert(owns(after, i, after[i].ids@.len() - 1, x));
        } else {
            assert(pages.dom().contains(x));
            let (a, b) = choose|a: int, b: int| owns(es, a, b, x);
            assert(owns(after, a, b, x));
        }
    }
    assert forall|x: u64| #[trigger] then.dom().contains(x) implies page_ok(
        then[x],
        page_tokens,
        width,
    ) by {
        if x != id {
            assert(pages.dom().contains(x));
        }
    }
    assert(books_ok(after, then, page_tokens, width, next + 1));
    let s = if i < es.len() {
        page_stream(es[i].ids@, pages, width)
    } else {
        Stream::<T>::none()
    };
    let now = s.grown(page.k@.take(width as int), page.v@.take(width as int));
    let ids = after[i].ids@;
    let front = ids.drop_last();
    assert(1 * width == width) by (nonlinear_arith);
    assert forall|j: int| 0 <= j < front.len() implies pages[#[trigger] front[j]]
        == then[front[j]] by {
        assert(owns(es, i, j, front[j]));
        assert(entry_ok(es[i], pages, page_tokens, next));
        assert(es[i].ids@[j] < next);
    }
    lemma_frame(front, pages, then, width);
    if i < es.len() {
        assert(front =~= es[i].ids@);
    } else {
        assert(front =~= Seq::<u64>::empty());
    }
    assert(page_stream(ids, then, width) =~= now);
    let x = streams(after, then, width);
    let y = streams(es, pages, width).insert(p, now);
    assert(stands(after, i, p));
    assert forall|q: Seq<char>| x.dom().contains(q) <==> y.dom().contains(q) by {
        if held(after, q) && q != p {
            let a = place(after, q);
            assert(stands(after, a, q));
            assert(stands(es, a, q));
        }
        if held(es, q) {
            let a = place(es, q);
            assert(stands(es, a, q));
            assert(stands(after, a, q));
        }
    }
    assert forall|q: Seq<char>| #[trigger] x.dom().contains(q) implies x[q] == y[q] by {
        if q == p {
            lemma_place(after, then, page_tokens, width, next + 1, i, p);
        } else {
            let a = place(after, q);
            assert(stands(after, a, q));
            assert(stands(es, a, q));
            lemma_place(es, pages, page_tokens, width, next, a, q);
            let other = es[a].ids@;
            assert forall|j: int| 0 <= j < other.len() implies pages[#[trigger] other[j]]
                == then[other[j]] by {
                assert(entry_ok(es[a], pages, page_tokens, next));
                assert(es[a].ids@[j] < next);
            }
            lemma_frame(other, pages, then, width);
        }
    }
    assert(x =~= y);
}


/// What changes when a sequence goes, with its pages.
proof fn lemma_drop<T>(
    es: Seq<PrefixPages>,
    pages: Map<u64, KvPage<T>>,
    then: Map<u64, KvPage<T>>,
    page_tokens: nat,
    width: nat,
    next: nat,
    i: int,
)
    requires
        books_ok(es, pages, page_tokens, width, next),
        0 <= i < es.len(),
        then == pages.remove_keys(es[i].ids@.to_set()),
    ensures
        books_ok(es.remove(i), then, page_tokens, width, next),
        streams(es.remove(i), then, width) == streams(es, pages, width).remove(es[i].prefix@),
{
    let after = es.remove(i);
    let p = es[i].prefix@;
    let ids = es[i].ids@;
    assert forall|a: int| 0 <= a < after.len() implies #[trigger] after[a] == es[if a < i {
        a
    } else {
        a + 1
    }] by {}
    assert forall|a: int, b: int|
        0 <= a < after.len() && 0 <= b < after.len() && (#[trigger] after[a]).prefix@ == (
        #[trigger] after[b]).prefix@ implies a == b by {
        let x = if a < i {
            a
        } else {
            a + 1
        };
        let y = if b < i {
            b
        } else {
            b + 1
        };
        assert(es[x].prefix@ == es[y].prefix@);
    }
    assert forall|a: int, j: int|
        0 <= a < es.len() && a != i && 0 <= j < es[a].ids@.len() implies then.dom().contains(
        #[trigger] es[a].ids@[j],
    ) by {
        let x = es[a].ids@[j];
        assert(entry_ok(es[a], pages, page_tokens, next));
        if ids.to_set().contains(x) {
            let b = choose|b: int| 0 <= b < ids.len() && ids[b] == x;
            assert(owns(es, i, b, x));
            assert(owns(es, a, j, x));
        }
    }
    assert forall|a: int| 0 <= a < after.len() implies entry_ok(
        #[trigger] after[a],
        then,
        page_tokens,
        next,
    ) by {
        let b = if a < i {
            a
        } else {
            a + 1
        };
        assert(after[a] == es[b]);
        assert(entry_ok(es[b], pages, page_tokens, next));
        let e = es[b];
        assert forall|j: int| 0 <= j < e.ids@.len() implies then.dom().contains(
            #[trigger] e.ids@[j],
        ) by {
            assert(then.dom().contains(es[b].ids@[j]));
        }
        assert(e.ids@.last() == e.ids@[e.ids@.len() - 1]);
    }
    assert forall|a: int, b: int, c: int, d: int, x: u64|
        #[trigger] owns(after, a, b, x) && #[trigger] owns(after, c, d, x) implies a == c && b
        == d by {
        let a0 = if a < i {
            a
        } else {
            a + 1
        };
        let c0 = if c < i {
            c
        } else {
            c + 1
        };
        assert(owns(es, a0, b, x));
        assert(owns(es, c0, d, x));
    }
    assert forall|x: u64| #[trigger] then.dom().contains(x) implies exists|a: int, b: int|
        owns(after, a, b, x) by {
        assert(pages.dom().contains(x));
        let (a, b) = choose|a: int, b: int| owns(es, a, b, x);
        if a == i {
            assert(ids[b] == x);
            assert(ids.to_set().contains(x));
        }
        let a1 = if a < i {
            a
        } else {
            a - 1
        };
        assert(after[a1] == es[a]);
        assert(owns(after, a1, b, x));
    }
    assert forall|x: u64| #[trigger] then.dom().contains(x) implies page_ok(
        then[x],
        page_tokens,
        width,
    ) by {
        assert(pages.dom().contains(x));
    }
    assert(then.dom().subset_of(pages.dom()));
    vstd::set_lib::lemma_set_subset_finite(pages.dom(), then.dom());
    assert(books_ok(after, then, page_tokens, width, next));
    let x = streams(after, then, width);
    let y = streams(es, pages, width).remove(p);
    assert(stands(es, i, p));
    assert forall|q: Seq<char>| x.dom().contains(q) <==> y.dom().contains(q) by {
        if held(after, q) {
            let a = place(after, q);
            assert(stands(after, a, q));
            let a0 = if a < i {
                a
            } else {
                a + 1
            };
            assert(stands(es, a0, q));
            if q == p {
                assert(es[a0].prefix@ == es[i].prefix@);
            }
        }
        if held(es, q) && q != p {
            let a = place(es, q);
            assert(stands(es, a, q));
            let a1 = if a < i {
                a
            } else {
                a - 1
            };
            assert(after[a1] == es[a]);
            assert(stands(after, a1, q));
        }
    }
    assert forall|q: Seq<char>| #[trigger] x.dom().contains(q) implies x[q] == y[q] by {
        let a = place(after, q);
        assert(stands(after, a, q));
        let a0 = if a < i {
            a
        } else {
            a + 1
        };
        assert(stands(es, a0, q));
        lemma_place(es, pages, page_tokens, width, next, a0, q);
        let other = es[a0].ids@;
        assert forall|j: int| 0 <= j < other.len() implies pages[#[trigger] other[j]]
            == then[other[j]] by {
            assert(then.dom().contains(es[a0].ids@[j]));
        }
        lemma_frame(other, pages, then, width);
    }
    assert(x =~= y);
}

impl<T: Copy> PagedKvPool<T> {
    /// A pool without pages. Pages have room for one token at least, tokens
    /// for one head of one value.
    pub fn new(page_tokens: usize, num_heads: usize, head_dim: usize, zero: T) -> (res: Self)
        requires
            at_least_one(num_heads) * at_least_one(head_dim) <= usize::MAX,
            at_least_one(page_tokens) * (at_least_one(num_heads) * at_least_one(head_dim))
                <= usize::MAX,
        ensures
            res.wf(),
            res@ == (KvPoolView {
                page_tokens: at_least_one(page_tokens) as nat,
                width: (at_least_one(num_heads) * at_least_one(head_dim)) as nat,
                streams: Map::<Seq<char>, Stream<T>>::empty(),
                bound: Seq::empty(),
                pages: 0,
                next_id: 1,
            }),
    {
        broadcast use vstd::std_specs::hash::group_hash_axioms;

        let res = PagedKvPool {
            page_tokens: if page_tokens < 1 {
                1
            } else {
                page_tokens
            },
            num_heads: if num_heads < 1 {
                1
            } else {
                num_heads
            },
            head_dim: if head_dim < 1 {
                1
            } else {
                head_dim
            },
            zero,
            pages: HashMap::new(),
            next_id: 1,
            by_prefix: Vec::new(),
            by_traj: Vec::new(),
        };
        assert(res@.streams =~= Map::<Seq<char>, Stream<T>>::empty());
        assert(res@.bound =~= Seq::empty());
        res
    }

    pub fn pages_allocated(&self) -> (res: usize)
        requires
            self.wf(),
        ensures
            res == self@.pages,
    {
        broadcast use vstd::std_specs::hash::group_hash_axioms;

        self.pages.len()
    }

    /// The values of one token.
    pub fn width(&self) -> (res: usize)
        requires
            self.wf(),
        ensures
            res == self@.width,
            res >= 1,
    {
        assert(self.num_heads * self.head_dim >= 1) by (nonlinear_arith)
            requires
                self.num_heads >= 1,
                self.head_dim >= 1,
        ;
        self.num_heads * self.head_dim
    }

    fn find(&self, prefix: &str) -> (res: Option<usize>)
        requires
            self.wf(),
        ensures
            match res {
                Some(i) => stands(self.by_prefix@, i as int, prefix@),
                None => !held(self.by_prefix@, prefix@),
            },
    {
        let mut i: usize = 0;
        while i < self.by_prefix.len()
            invariant
                i <= self.by_prefix@.len(),
                forall|j: int| 0 <= j < i ==> !#[trigger] stands(self.by_prefix@, j, prefix@),
            decreases self.by_prefix@.len() - i,
        {
            if same(self.by_prefix[i].prefix.as_str(), prefix) {
                return Some(i);
            }
            i += 1;
        }
        assert(forall|j: int| !#[trigger] stands(self.by_prefix@, j, prefix@));
        None
    }

    /// How many tokens are held under a handle.
    pub fn tokens_held(&self, prefix: &str) -> (res: u128)
        requires
            self.wf(),
        ensures
            res == self@.stream(prefix@).tokens,
    {
        broadcast use vstd::std_specs::hash::group_hash_axioms;

        let ghost es = self.by_prefix@;
        let ghost pt = self.page_tokens as nat;
        let ghost w = (self.num_heads * self.head_dim) as nat;
        let ghost next = self.next_id as nat;
        let i = match self.find(prefix) {
            Some(i) => i,
            None => {
                return 0;
            },
        };
        proof {
            lemma_place(es, self.pages@, pt, w, next, i as int, prefix@);
            lemma_entry(es, self.pages@, pt, w, next, i as int);
        }
        let ids = &self.by_prefix[i].ids;
        let full: usize = ids.len() - 1;
        assert(full * self.page_tokens <= usize::MAX * usize::MAX) by (nonlinear_arith)
            requires
                full <= usize::MAX,
                self.page_tokens <= usize::MAX,
        ;
        assert(usize::MAX * usize::MAX + u32::MAX <= u128::MAX) by (nonlinear_arith)
            requires
                usize::MAX <= u64::MAX,
        ;
        let before: u128 = full as u128 * self.page_tokens as u128;
        match self.pages.get(&ids[full]) {
            Some(p) => before + p.tokens as u128,
            None => before,
        }
    }

    /// Whether there is a number left for another page.
    pub fn may_grow(&self) -> (res: bool)
        ensures
            res == (self@.next_id < u64::MAX),
    {
        self.next_id < u64::MAX
    }

    /// Binds a trajectory to a handle.
    pub fn bind_prefix(&mut self, traj: TrajectoryId, prefix: String)
        requires
            old(self).wf(),
        ensures
            final(self).wf(),
            final(self)@ == old(self)@.binding(traj, prefix@),
    {
        let ghost start = self.by_traj@;
        let mut kept: Vec<PrefixBinding> = Vec::new();
        let mut i: usize = 0;
        proof {
            assert(bindings(start).take(0) =~= Seq::empty());
            reveal(Seq::filter);
        }
        while i < self.by_traj.len()
            invariant
                i <= self.by_traj@.len(),
                self.by_traj@ == start,
                bindings(kept@) == bindings(start).take(i as int).filter(not_of(traj)),
            decreases self.by_traj@.len() - i,
        {
            let b = &self.by_traj[i];
            proof {
                let all = bindings(start);
                assert(all.take(i + 1) =~= all.take(i as int).push(all[i as int]));
                all.take(i as int).lemma_filter_push(all[i as int], not_of(traj));
            }
            if b.traj != traj {
                kept.push(PrefixBinding { traj: b.traj, prefix: b.prefix.clone() });
                assert(bindings(kept@) =~= bindings(start).take(i + 1).filter(not_of(traj)));
            }
            i += 1;
        }
        assert(bindings(start).take(i as int) =~= bindings(start));
        kept.push(PrefixBinding { traj, prefix });
        self.by_traj = kept;
        assert(self@ =~= old(self)@.binding(traj, prefix@));
    }

    /// Appends one token's keys and values.
    pub fn append_kv(&mut self, prefix: &str, k: &[T], v: &[T])
        requires
            old(self).wf(),
            k@.len() == old(self)@.width,
            v@.len() == old(self)@.width,
            old(self)@.next_id < u64::MAX,
            old(self)@.stream(prefix@).tokens < u32::MAX,
        ensures
            final(self).wf(),
            final(self)@ == old(self)@.appended(prefix@, k@, v@),
    {
        broadcast use vstd::std_specs::hash::group_hash_axioms;

        let need: usize = self.width();
        let page_tokens: usize = self.page_tokens;
        let ghost es = self.by_prefix@;
        let ghost pages = self.pages@;
        let ghost pt = self.page_tokens as nat;
        let ghost w = need as nat;
        let ghost next = self.next_id as nat;
        let at = self.find(prefix);
        let mut fresh = true;
        if let Some(i) = at {
            proof {
                lemma_entry(es, pages, pt, w, next, i as int);
                lemma_place(es, pages, pt, w, next, i as int, prefix@);
            }
            let ids = &self.by_prefix[i].ids;
            let last: u64 = ids[ids.len() - 1];
            let used: u32 = match self.pages.get(&last) {
                Some(p) => p.tokens,
                None => 0,
            };
            if (used as u64) < page_tokens as u64 {
                fresh = false;
                if let Some(mut page) = self.pages.remove(&last) {
                    assert(used * w + w <= pt * w) by (nonlinear_arith)
                        requires
                            used + 1 <= pt,
                    ;
                    assert(used * w >= 0) by (nonlinear_arith);
                    let off: usize = used as usize * need;
                    overlay(&mut page.k, off, k, 0, need);
                    overlay(&mut page.v, off, v, 0, need);
                    page.tokens = used + 1;
                    let ghost pg = page;
            self.pages.insert(last, page);
                    proof {
                        assert(k@.subrange(0, need as int) =~= k@);
                        assert(v@.subrange(0, need as int) =~= v@);
                        let n = pg.tokens * w;
                        assert(n == used * w + w) by (nonlinear_arith)
                            requires
                                n == pg.tokens * w,
                                pg.tokens == used + 1,
                        ;
                        lemma_write(es, pages, pt, w, next, i as int, pg);
                        let s = page_stream(es[i as int].ids@, pages, w);
                        let was = pages[last];
                        assert(pg.k@.take(n) =~= was.k@.take(used * w) + k@);
                        assert(pg.v@.take(n) =~= was.v@.take(used * w) + v@);
                        assert(s.k.take(s.k.len() - used * w) + pg.k@.take(n) =~= s.k + k@);
                        assert(s.v.take(s.v.len() - used * w) + pg.v@.take(n) =~= s.v + v@);
                        assert(self.pages@ =~= pages.insert(last, pg));
                        assert(pages.insert(last, pg).dom() =~= pages.dom());
                        assert(self@ =~= old(self)@.appended(prefix@, k@, v@));
                    }
                }
            }
        }
        if fresh {
            let id: u64 = self.next_id;
            self.next_id = id + 1;
            let mut page = KvPage::empty(page_tokens, self.num_heads, self.head_dim, self.zero);
            assert(w <= pt * w) by (nonlinear_arith)
                requires
                    pt >= 1,
            ;
            overlay(&mut page.k, 0, k, 0, need);
            overlay(&mut page.v, 0, v, 0, need);
            page.tokens = 1;
            let ghost pg = page;
            self.pages.insert(id, page);
            match at {
                Some(i) => {
                    self.by_prefix[i].ids.push(id);
                    proof {
                        lemma_open(es, self.by_prefix@, pages, pt, w, next, i as int, id, pg);
                    }
                },
                None => {
                    let mut ids: Vec<u64> = Vec::new();
                    ids.push(id);
                    assert(ids@ =~= seq![id]);
                    self.by_prefix.push(PrefixPages { prefix: prefix.to_string(), ids });
                    proof {
                        assert(pt > 0);
                        lemma_open(es, self.by_prefix@, pages, pt, w, next, es.len() as int, id, pg);
                        assert(0nat % pt == 0);
                    }
                },
            }
            proof {
                assert(k@.subrange(0, need as int) =~= k@);
                assert(v@.subrange(0, need as int) =~= v@);
                assert(pg.k@.take(w as int) =~= k@);
                assert(pg.v@.take(w as int) =~= v@);
                assert(self@ =~= old(self)@.appended(prefix@, k@, v@));
            }
        }
    }

    /// Overwrites the last stored token's keys and values, where there is one
    /// and enough values are given.
    pub fn overwrite_last_kv(&mut self, prefix: &str, k: &[T], v: &[T]) -> (res: bool)
        requires
            old(self).wf(),
        ensures
            final(self).wf(),
            res <==> k@.len() >= old(self)@.width && v@.len() >= old(self)@.width
                && old(self)@.streams.dom().contains(prefix@),
            res ==> final(self)@ == old(self)@.overwritten(
                prefix@,
                k@.take(old(self)@.width as int),
                v@.take(old(self)@.width as int),
            ),
            !res ==> final(self)@ == old(self)@,
    {
        broadcast use vstd::std_specs::hash::group_hash_axioms;

        let need: usize = self.width();
        if k.len() < need || v.len() < need {
            return false;
        }
        let ghost es = self.by_prefix@;
        let ghost pages = self.pages@;
        let ghost pt = self.page_tokens as nat;
        let ghost w = need as nat;
        let ghost next = self.next_id as nat;
        let i: usize = match self.find(prefix) {
            Some(i) => i,
            None => {
                return false;
            },
        };
        proof {
            lemma_entry(es, pages, pt, w, next, i as int);
            lemma_place(es, pages, pt, w, next, i as int, prefix@);
        }
        let ids = &self.by_prefix[i].ids;
        let last: u64 = ids[ids.len() - 1];
        if let Some(mut page) = self.pages.remove(&last) {
            let used: u32 = page.tokens;
            assert(used * w == (used - 1) * w + w) by (nonlinear_arith);
            assert((used - 1) * w >= 0) by (nonlinear_arith)
                requires
                    used >= 1,
            ;
            let off: usize = (used as usize - 1) * need;
            overlay(&mut page.k, off, k, 0, need);
            overlay(&mut page.v, off, v, 0, need);
            let ghost pg = page;
            self.pages.insert(last, page);
            proof {
                assert(k@.subrange(0, need as int) =~= k@.take(need as int));
                assert(v@.subrange(0, need as int) =~= v@.take(need as int));
                lemma_write(es, pages, pt, w, next, i as int, pg);
                let s = page_stream(es[i as int].ids@, pages, w);
                let n = used * w;
                assert(s.k.take(s.k.len() - n) + pg.k@.take(n) =~= s.k.take(s.k.len() - w)
                    + k@.take(w as int));
                assert(s.v.take(s.v.len() - n) + pg.v@.take(n) =~= s.v.take(s.v.len() - w)
                    + v@.take(w as int));
                assert(self.pages@ =~= pages.insert(last, pg));
                assert(pages.insert(last, pg).dom() =~= pages.dom());
                assert(self@ =~= old(self)@.overwritten(
                    prefix@,
                    k@.take(w as int),
                    v@.take(w as int),
                ));
            }
        }
        true
    }

    /// The keys, the values and the number of tokens under a handle.
    pub fn materialize_kv(&self, prefix: &str) -> (res: (Vec<T>, Vec<T>, u32))
        requires
            self.wf(),
            self@.stream(prefix@).tokens <= u32::MAX,
        ensures
            res.0@ == self@.stream(prefix@).k,
            res.1@ == self@.stream(prefix@).v,
            res.2 == self@.stream(prefix@).tokens,
    {
        broadcast use vstd::std_specs::hash::group_hash_axioms;

        let mut k_all: Vec<T> = Vec::new();
        let mut v_all: Vec<T> = Vec::new();
        let mut tokens: u32 = 0;
        let need: usize = self.width();
        let ghost es = self.by_prefix@;
        let ghost pt = self.page_tokens as nat;
        let ghost w = need as nat;
        let ghost next = self.next_id as nat;
        if let Some(i) = self.find(prefix) {
            proof {
                lemma_place(es, self.pages@, pt, w, next, i as int, prefix@);
            }
            let ids = &self.by_prefix[i].ids;
            let mut j: usize = 0;
            let ghost all = es[i as int].ids@;
            while j < ids.len()
                invariant
                    self.wf(),
                    j <= all.len(),
                    ids@ == all,
                    0 <= i < es.len(),
                    es == self.by_prefix@,
                    all == es[i as int].ids@,
                    w == need == self.num_heads * self.head_dim,
                    pt == self.page_tokens,
                    next == self.next_id,
                    page_count(all, self.pages@) <= u32::MAX,
                    k_all@ == page_keys(all.take(j as int), self.pages@, w),
                    v_all@ == page_values(all.take(j as int), self.pages@, w),
                    tokens == page_count(all.take(j as int), self.pages@),
                decreases all.len() - j,
            {
                let ghost upto = all.take(j + 1);
                proof {
                    assert(upto.drop_last() =~= all.take(j as int));
                    assert(upto.last() == all[j as int]);
                    lemma_count_grows(all, self.pages@, j + 1);
                    assert(entry_ok(es[i as int], self.pages@, pt, next));
                    assert(self.pages@.dom().contains(all[j as int]));
                    assert(page_ok(self.pages@[all[j as int]], pt, w));
                    assert(all.last() == all[all.len() - 1]);
                }
                if let Some(p) = self.pages.get(&ids[j]) {
                    assert(p.tokens <= pt);
                    assert(p.tokens * w <= pt * w) by (nonlinear_arith)
                        requires
                            p.tokens <= pt,
                    ;
                    let n: usize = p.tokens as usize * need;
                    extend(&mut k_all, p.k.as_slice(), 0, n);
                    extend(&mut v_all, p.v.as_slice(), 0, n);
                    assert(p.k@.subrange(0, n as int) =~= p.k@.take(n as int));
                    assert(p.v@.subrange(0, n as int) =~= p.v@.take(n as int));
                    tokens = tokens + p.tokens;
                }
                j += 1;
            }
            assert(all.take(all.len() as int) =~= all);
        }
        (k_all, v_all, tokens)
    }

    /// Physical free: pages are wiped, then dropped. Returns pages freed.
    pub fn free_prefix(&mut self, prefix: &str) -> (res: usize)
        requires
            old(self).wf(),
        ensures
            final(self).wf(),
            final(self)@ == old(self)@.freed(prefix@),
            res == old(self)@.pages - final(self)@.pages,
            res == if old(self)@.streams.dom().contains(prefix@) {
                pages_for(old(self)@.stream(prefix@).tokens, old(self)@.page_tokens)
            } else {
                0
            },
    {
        broadcast use vstd::std_specs::hash::group_hash_axioms;

        let i: usize = match self.find(prefix) {
            Some(i) => i,
            None => {
                return 0;
            },
        };
        let ghost es = self.by_prefix@;
        let ghost pages = self.pages@;
        let ghost pt = self.page_tokens as nat;
        let ghost w = (self.num_heads * self.head_dim) as nat;
        let ghost next = self.next_id as nat;
        proof {
            lemma_entry(es, pages, pt, w, next, i as int);
            lemma_place(es, pages, pt, w, next, i as int, prefix@);
        }
        let zero = self.zero;
        let gone = self.by_prefix.remove(i);
        let ghost ids = gone.ids@;
        let mut n: usize = 0;
        let mut j: usize = 0;
        assert(ids.take(0).to_set() =~= Set::<u64>::empty());
        assert(pages.remove_keys(Set::<u64>::empty()) =~= pages);
        while j < gone.ids.len()
            invariant
                j <= ids.len(),
                n == j,
                ids == gone.ids@,
                0 <= i < es.len(),
                ids == es[i as int].ids@,
                books_ok(es, pages, pt, w, next),
                self.by_prefix@ == es.remove(i as int),
                self.by_traj@ == old(self).by_traj@,
                self.page_tokens == old(self).page_tokens,
                self.num_heads == old(self).num_heads,
                self.head_dim == old(self).head_dim,
                self.next_id == old(self).next_id,
                self.zero == zero,
                self.pages@ == pages.remove_keys(ids.take(j as int).to_set()),
                self.pages@.dom().finite(),
                self.pages@.dom().len() + j == pages.dom().len(),
            decreases ids.len() - j,
        {
            let id: u64 = gone.ids[j];
            let ghost before = self.pages@;
            proof {
                assert(entry_ok(es[i as int], pages, pt, next));
                if ids.take(j as int).to_set().contains(id) {
                    let b = choose|b: int| 0 <= b < j && ids.take(j as int)[b] == id;
                    assert(owns(es, i as int, b, id));
                    assert(owns(es, i as int, j as int, id));
                }
                assert(before.dom().contains(id));
                assert(ids.take(j + 1) =~= ids.take(j as int).push(id));
                ids.take(j as int).lemma_push_to_set_commute(id);
            }
            if let Some(mut page) = self.pages.remove(&id) {
                // Nothing of the sequence stays readable in the freed page.
                page.wipe(zero);
                n += 1;
            }
            proof {
                assert(self.pages@ =~= before.remove(id));
                assert(before.remove(id) =~= pages.remove_keys(ids.take(j + 1).to_set()));
                assert(self.pages@.dom() =~= before.dom().remove(id));
            }
            j += 1;
        }
        assert(ids.take(ids.len() as int) =~= ids);
        let ghost start = self.by_traj@;
        let mut kept: Vec<PrefixBinding> = Vec::new();
        let mut b: usize = 0;
        proof {
            lemma_drop(es, pages, self.pages@, pt, w, next, i as int);
            assert(bindings(start).take(0) =~= Seq::empty());
            reveal(Seq::filter);
        }
        while b < self.by_traj.len()
            invariant
                b <= self.by_traj@.len(),
                self.by_traj@ == start,
                bindings(kept@) == bindings(start).take(b as int).filter(not_to(prefix@)),
            decreases self.by_traj@.len() - b,
        {
            let e = &self.by_traj[b];
            proof {
                let all = bindings(start);
                assert(all.take(b + 1) =~= all.take(b as int).push(all[b as int]));
                all.take(b as int).lemma_filter_push(all[b as int], not_to(prefix@));
            }
            if !same(e.prefix.as_str(), prefix) {
                kept.push(PrefixBinding { traj: e.traj, prefix: e.prefix.clone() });
                assert(bindings(kept@) =~= bindings(start).take(b + 1).filter(not_to(prefix@)));
            }
            b += 1;
        }
        assert(bindings(start).take(b as int) =~= bindings(start));
        self.by_traj = kept;
        assert(self@ =~= old(self)@.freed(prefix@));
        n
    }
}

/// A part of the pages holds no more tokens than all of them.
proof fn lemma_count_grows<T>(ids: Seq<u64>, pages: Map<u64, KvPage<T>>, j: int)
    requires
        0 <= j <= ids.len(),
    ensures
        page_count(ids.take(j), pages) <= page_count(ids, pages),
    decreases ids.len(),
{
    if j == ids.len() {
        assert(ids.take(j) =~= ids);
    } else {
        lemma_count_grows(ids.drop_last(), pages, j);
        assert(ids.drop_last().take(j) =~= ids.take(j));
    }
}

/// `n`, or one where it is none.
pub open spec fn at_least_one(n: usize) -> usize {
    if n < 1 {
        1
    } else {
        n
    }
}

impl<T> KvPoolView<T> {
    /// Whether position `abs_pos` is that of the last token.
    pub open spec fn refreshes(self, p: Seq<char>, abs_pos: nat) -> bool {
        self.stream(p).tokens == abs_pos + 1
    }

    /// What a store at a position does: it refreshes the last token where it
    /// is at that position, and appends anywhere else.
    pub open spec fn stored(self, p: Seq<char>, k: Seq<T>, v: Seq<T>, abs_pos: nat) -> KvPoolView<
        T,
    > {
        if self.refreshes(p, abs_pos) {
            self.overwritten(p, k, v)
        } else {
            self.appended(p, k, v)
        }
    }
}

/// Stores a layer's keys and values for the token at absolute position
/// `abs_pos`: a new token is appended, the last one is refreshed. Returns how
/// many tokens there are then, and whether one was appended.
pub fn store_layer_kv_at_pos<T: Copy>(
    kv: &mut PagedKvPool<T>,
    pfx: &str,
    k: &[T],
    v: &[T],
    abs_pos: usize,
) -> (res: (u32, bool))
    requires
        old(kv).wf(),
        k@.len() == old(kv)@.width,
        v@.len() == old(kv)@.width,
        old(kv)@.next_id < u64::MAX,
        old(kv)@.stream(pfx@).tokens < u32::MAX,
    ensures
        final(kv).wf(),
        final(kv)@ == old(kv)@.stored(pfx@, k@, v@, abs_pos as nat),
        res.0 == final(kv)@.stream(pfx@).tokens,
        res.1 == !old(kv)@.refreshes(pfx@, abs_pos as nat),
{
    let (_, _, prev) = kv.materialize_kv(pfx);
    assert(k@.take(k@.len() as int) =~= k@);
    assert(v@.take(v@.len() as int) =~= v@);
    if prev as u64 == abs_pos as u64 {
        kv.append_kv(pfx, k, v);
        (prev + 1, true)
    } else if prev >= 1 && (prev - 1) as u64 == abs_pos as u64 {
        let ok = kv.overwrite_last_kv(pfx, k, v);
        if !ok {
            kv.append_kv(pfx, k, v);
            return (prev + 1, true);
        }
        (prev, false)
    } else {
        // The cache is ahead of the position or behind it.
        kv.append_kv(pfx, k, v);
        (prev + 1, true)
    }
}

/// The handle of a layer's sequence.
pub open spec fn layer_key(prefix: Seq<char>, layer: nat) -> Seq<char> {
    prefix + ":L"@ + text::dec(layer)
}

/// The handle of a layer's compressed sequence.
pub open spec fn compress_key(pfx: Seq<char>) -> Seq<char> {
    pfx + ":C"@
}

/// The handle of a layer's index sequence.
pub open spec fn index_key(pfx: Seq<char>) -> Seq<char> {
    pfx + ":I"@
}

/// The handle of a layer's sequence.
pub fn layer_handle(prefix: &str, layer: usize) -> (res: String)
    ensures
        res@ == layer_key(prefix@, layer as nat),
{
    let mut s = prefix.to_string();
    s.append(":L");
    s.append(decimal(layer as u64).as_str());
    s
}

/// The handle of a layer's compressed sequence.
pub fn compress_handle(pfx: &str) -> (res: String)
    ensures
        res@ == compress_key(pfx@),
{
    let mut s = pfx.to_string();
    s.append(":C");
    s
}

/// The handle of a layer's index sequence.
pub fn index_handle(pfx: &str) -> (res: String)
    ensures
        res@ == index_key(pfx@),
{
    let mut s = pfx.to_string();
    s.append(":I");
    s
}

/// A layer's compressed sequence, where it has tokens.
pub fn materialize_compress_pool<T: Copy>(kv: &PagedKvPool<T>, pfx: &str) -> (res: Option<
    (Vec<T>, Vec<T>, u32),
>)
    requires
        kv.wf(),
        kv@.stream(compress_key(pfx@)).tokens <= u32::MAX,
    ensures
        ({
            let s = kv@.stream(compress_key(pfx@));
            match res {
                Some(r) => r.0@ == s.k && r.1@ == s.v && r.2 == s.tokens && s.tokens > 0,
                None => s.tokens == 0,
            }
        }),
{
    let ckey = compress_handle(pfx);
    let (k, v, n) = kv.materialize_kv(ckey.as_str());
    if n == 0 {
        None
    } else {
        Some((k, v, n))
    }
}

/// What `n` layers from `layer` on leave after a handle has been freed: the
/// layers' own sequences and their compressed ones are gone.
pub open spec fn layers_freed<T>(
    pool: KvPoolView<T>,
    prefix: Seq<char>,
    n: nat,
) -> KvPoolView<T>
    decreases n,
{
    if n == 0 {
        pool.freed(prefix)
    } else {
        let pfx = layer_key(prefix, (n - 1) as nat);
        layers_freed(pool, prefix, (n - 1) as nat).freed(pfx).freed(compress_key(pfx))
    }
}

/// Frees a handle's own sequence, and those of `layers` layers under it.
/// Returns how many pages were wiped.
pub fn free_layers<T: Copy>(kv: &mut PagedKvPool<T>, prefix: &str, layers: usize) -> (res: usize)
    requires
        old(kv).wf(),
    ensures
        final(kv).wf(),
        final(kv)@ == layers_freed(old(kv)@, prefix@, at_least_one(layers) as nat),
        res == old(kv)@.pages - final(kv)@.pages,
{
    let ghost start = kv@;
    let had: usize = kv.pages_allocated();
    let mut total: usize = kv.free_prefix(prefix);
    let most: usize = if layers < 1 {
        1
    } else {
        layers
    };
    let mut li: usize = 0;
    while li < most
        invariant
            kv.wf(),
            li <= most,
            kv@ == layers_freed(start, prefix@, li as nat),
            had == start.pages,
            total == start.pages - kv@.pages,
        decreases most - li,
    {
        let pfx = layer_handle(prefix, li);
        let a: usize = kv.free_prefix(pfx.as_str());
        let cpfx = compress_handle(pfx.as_str());
        total = total + a;
        let b: usize = kv.free_prefix(cpfx.as_str());
        total = total + b;
        li += 1;
    }
    total
}

/// What a read gives back of a write: the token that was appended stands at
/// the end of what its handle gives, and no other handle is touched.
pub proof fn law_append_reads_back<T>(
    pool: KvPoolView<T>,
    p: Seq<char>,
    q: Seq<char>,
    k: Seq<T>,
    v: Seq<T>,
)
    ensures
        pool.appended(p, k, v).stream(p) == pool.stream(p).grown(k, v),
        q != p ==> pool.appended(p, k, v).stream(q) == pool.stream(q),
{
}

/// A refreshed token reads back, the tokens before it stay, and so do the
/// other handles.
pub proof fn law_overwrite_reads_back<T>(
    pool: KvPoolView<T>,
    p: Seq<char>,
    q: Seq<char>,
    k: Seq<T>,
    v: Seq<T>,
)
    requires
        k.len() == pool.width,
        v.len() == pool.width,
        pool.stream(p).k.len() == pool.stream(p).tokens * pool.width,
        pool.stream(p).v.len() == pool.stream(p).tokens * pool.width,
        pool.stream(p).tokens >= 1,
    ensures
        ({
            let was = pool.stream(p);
            let now = pool.overwritten(p, k, v).stream(p);
            let n = was.k.len() - pool.width;
            &&& now.tokens == was.tokens
            &&& now.k.len() == was.k.len()
            &&& now.v.len() == was.v.len()
            &&& now.k.skip(n) == k
            &&& now.v.skip(n) == v
            &&& now.k.take(n) == was.k.take(n)
            &&& now.v.take(n) == was.v.take(n)
        }),
        q != p ==> pool.overwritten(p, k, v).stream(q) == pool.stream(q),
        pool.overwritten(p, k, v).pages == pool.pages,
{
    let was = pool.stream(p);
    let now = pool.overwritten(p, k, v).stream(p);
    let w = pool.width as int;
    assert(was.tokens * w >= w) by (nonlinear_arith)
        requires
            was.tokens >= 1,
            w >= 0,
    ;
    let n = was.k.len() - w;
    assert(now.k.skip(n) =~= k);
    assert(now.v.skip(n) =~= v);
    assert(now.k.take(n) =~= was.k.take(n));
    assert(now.v.take(n) =~= was.v.take(n));
}

/// After a free nothing is left under the handle, nobody is bound to it, and
/// the other handles are as they were.
pub proof fn law_free_forgets<T>(pool: KvPoolView<T>, p: Seq<char>, q: Seq<char>)
    requires
        pool.streams.dom().contains(p),
    ensures
        pool.freed(p).stream(p) == Stream::<T>::none(),
        q != p ==> pool.freed(p).stream(q) == pool.stream(q),
        forall|i: int|
            0 <= i < pool.freed(p).bound.len() ==> (#[trigger] pool.freed(p).bound[i]).1 != p,
{
    let f = not_to(p);
    assert forall|i: int| 0 <= i < pool.freed(p).bound.len() implies (
    #[trigger] pool.freed(p).bound[i]).1 != p by {
        pool.bound.lemma_filter_pred(f, i);
    }
}

/// A pool that holds no sequence holds no page: freeing what was stored gives
/// all memory back.
pub proof fn law_no_stream_no_page<T>(pool: PagedKvPool<T>)
    requires
        pool.wf(),
        pool@.streams.dom() == Set::<Seq<char>>::empty(),
    ensures
        pool@.pages == 0,
{
    let es = pool.by_prefix@;
    if pool.pages@.dom().len() > 0 {
        assert(pool.pages@.dom().finite());
        let id = pool.pages@.dom().choose();
        assert(pool.pages@.dom().contains(id));
        let (i, j) = choose|i: int, j: int| owns(es, i, j, id);
        assert(stands(es, i, es[i].prefix@));
        assert(pool@.streams.dom().contains(es[i].prefix@));
    }
}

/// The keys and values of a sequence are as many as its tokens ask for.
pub proof fn law_stream_lengths<T>(pool: PagedKvPool<T>, p: Seq<char>)
    requires
        pool.wf(),
    ensures
        pool@.stream(p).k.len() == pool@.stream(p).tokens * pool@.width,
        pool@.stream(p).v.len() == pool@.stream(p).tokens * pool@.width,
        pool@.streams.dom().contains(p) ==> pool@.stream(p).tokens >= 1,
{
    let es = pool.by_prefix@;
    if held(es, p) {
        let i = place(es, p);
        assert(stands(es, i, p));
        lemma_entry(
            es,
            pool.pages@,
            pool.page_tokens as nat,
            pool@.width,
            pool.next_id as nat,
            i,
        );
    } else {
        assert(0 * pool@.width == 0);
    }
}

} // verus!
