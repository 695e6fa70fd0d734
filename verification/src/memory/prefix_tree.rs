//! The logical prefix tree, with radix sharing on insert.
use std::collections::HashMap;
use vstd::prelude::*;

use crate::ids;
use crate::ids::{PrefixNodeId, TrajectoryId};
use crate::memory::block_pool::BlockId;
use crate::memory::prefix_radix;
use crate::memory::tier::TierId;
use crate::pin;
use crate::pin::PinInfo;
use crate::table::value_mut;
use crate::text;
use crate::text::clone_opt;

verus! {

/// One node in the logical radix / prefix tree.
///
/// Physical KV lives in the engine (its radix or prefix cache).
/// `engine_handle` is the opaque key the engine uses for that materialization
/// so the runtime can pin / reuse / evict in lockstep with the memory manager.
#[derive(Debug)]
pub struct PrefixNode {
    pub id: PrefixNodeId,
    pub parent: Option<PrefixNodeId>,
    pub children: Vec<PrefixNodeId>,
    /// Tokens represented by this edge from parent.
    pub tokens: Vec<u32>,
    pub ref_count: u32,
    /// How much the node is shared, in hundredths: 100 for each sharer, 1 for
    /// each cache-hit token.
    pub share_score: u64,
    pub pin: PinInfo,
    pub owners: Vec<TrajectoryId>,
    pub tier: TierId,
    pub blocks: Vec<BlockId>,
    /// Engine-side radix / prefix-cache handle (session-stable key).
    pub engine_handle: Option<String>,
    /// Last touch time for LRU eviction under pressure.
    pub last_access_ms: u64,
    /// Cumulative cache-hit tokens reported by the engine for this node.
    pub cache_hit_tokens: u32,
}

#[verifier::ext_equal]
pub struct PrefixNodeView {
    pub id: PrefixNodeId,
    pub parent: Option<PrefixNodeId>,
    pub children: Seq<PrefixNodeId>,
    pub tokens: Seq<u32>,
    pub ref_count: u32,
    pub share_score: u64,
    pub pin: PinInfo,
    pub owners: Seq<TrajectoryId>,
    pub tier: TierId,
    pub blocks: Seq<BlockId>,
    pub engine_handle: Option<Seq<char>>,
    pub last_access_ms: u64,
    pub cache_hit_tokens: u32,
}

impl View for PrefixNode {
    type V = PrefixNodeView;

    open spec fn view(&self) -> PrefixNodeView {
        PrefixNodeView {
            id: self.id,
            parent: self.parent,
            children: self.children@,
            tokens: self.tokens@,
            ref_count: self.ref_count,
            share_score: self.share_score,
            pin: self.pin,
            owners: self.owners@,
            tier: self.tier,
            blocks: self.blocks@,
            engine_handle: text::opt_chars(self.engine_handle),
            last_access_ms: self.last_access_ms,
            cache_hit_tokens: self.cache_hit_tokens,
        }
    }
}

impl Clone for PrefixNode {
    fn clone(&self) -> (res: Self)
        ensures
            res@ == self@,
    {
        let res = PrefixNode {
            id: self.id,
            parent: self.parent,
            children: self.children.clone(),
            tokens: self.tokens.clone(),
            ref_count: self.ref_count,
            share_score: self.share_score,
            pin: self.pin,
            owners: self.owners.clone(),
            tier: self.tier,
            blocks: self.blocks.clone(),
            engine_handle: clone_opt(&self.engine_handle),
            last_access_ms: self.last_access_ms,
            cache_hit_tokens: self.cache_hit_tokens,
        };
        assert(res@ =~= self@);
        res
    }
}

pub open spec fn not_owner(id: TrajectoryId) -> spec_fn(TrajectoryId) -> bool {
    |c: TrajectoryId| c != id
}

pub open spec fn not_id(id: PrefixNodeId) -> spec_fn(PrefixNodeId) -> bool {
    |c: PrefixNodeId| c != id
}

/// The owners other than `id`, in their order.
pub open spec fn owners_but(s: Seq<TrajectoryId>, id: TrajectoryId) -> Seq<TrajectoryId> {
    s.filter(not_owner(id))
}

/// The ids other than `id`, in their order.
pub open spec fn ids_but(s: Seq<PrefixNodeId>, id: PrefixNodeId) -> Seq<PrefixNodeId> {
    s.filter(not_id(id))
}

impl PrefixNodeView {
    /// A node under `id` that stands for nothing yet.
    pub open spec fn bare(id: PrefixNodeId) -> PrefixNodeView {
        PrefixNodeView {
            id,
            parent: None,
            children: Seq::empty(),
            tokens: Seq::empty(),
            ref_count: 0,
            share_score: 0,
            pin: pin::no_pin(),
            owners: Seq::empty(),
            tier: TierId::Gpu,
            blocks: Seq::empty(),
            engine_handle: None,
            last_access_ms: 0,
            cache_hit_tokens: 0,
        }
    }

    /// One reference more, as far as the counter goes.
    pub open spec fn retained(self) -> PrefixNodeView {
        PrefixNodeView {
            ref_count: if self.ref_count < u32::MAX {
                (self.ref_count + 1) as u32
            } else {
                u32::MAX
            },
            ..self
        }
    }

    /// One reference less.
    pub open spec fn released(self) -> PrefixNodeView {
        PrefixNodeView {
            ref_count: if self.ref_count > 0 {
                (self.ref_count - 1) as u32
            } else {
                0
            },
            ..self
        }
    }

    /// With `owner` among the owners.
    pub open spec fn owned(self, owner: TrajectoryId) -> PrefixNodeView {
        if self.owners.contains(owner) {
            self
        } else {
            PrefixNodeView { owners: self.owners.push(owner), ..self }
        }
    }

    /// Without `owner` among the owners.
    pub open spec fn disowned(self, owner: TrajectoryId) -> PrefixNodeView {
        PrefixNodeView { owners: owners_but(self.owners, owner), ..self }
    }

    /// `points` hundredths more of sharing, as far as the counter goes.
    pub open spec fn scored(self, points: int) -> PrefixNodeView {
        PrefixNodeView {
            share_score: if self.share_score + points > u64::MAX {
                u64::MAX
            } else {
                (self.share_score + points) as u64
            },
            ..self
        }
    }

    /// `hits` more cache-hit tokens, counted and scored.
    pub open spec fn hit(self, hits: u32) -> PrefixNodeView {
        PrefixNodeView {
            cache_hit_tokens: if self.cache_hit_tokens + hits > u32::MAX {
                u32::MAX
            } else {
                (self.cache_hit_tokens + hits) as u32
            },
            ..self.scored(hits as int)
        }
    }
}

impl PrefixNode {
    /// A root under a fresh random id.
    pub fn root() -> (res: Self)
        ensures
            ids::is_random_id(res@.id.0),
            res@ == PrefixNodeView::bare(res@.id),
    {
        let res = PrefixNode {
            id: PrefixNodeId::new(),
            parent: None,
            children: Vec::new(),
            tokens: Vec::new(),
            ref_count: 0,
            share_score: 0,
            pin: PinInfo::default(),
            owners: Vec::new(),
            tier: TierId::Gpu,
            blocks: Vec::new(),
            engine_handle: None,
            last_access_ms: 0,
            cache_hit_tokens: 0,
        };
        assert(res@ =~= PrefixNodeView::bare(res.id));
        res
    }
}

/// The nodes of a tree, by the number of their id.
pub type Nodes = Map<u128, PrefixNodeView>;

/// The nodes with `f` applied to the node `id`, where there is one.
pub open spec fn changed(
    m: Nodes,
    id: PrefixNodeId,
    f: spec_fn(PrefixNodeView) -> PrefixNodeView,
) -> Nodes {
    if m.dom().contains(id.0) {
        m.insert(id.0, f(m[id.0]))
    } else {
        m
    }
}

pub open spec fn retained(m: Nodes, id: PrefixNodeId) -> Nodes {
    changed(m, id, |n: PrefixNodeView| n.retained())
}

pub open spec fn released(m: Nodes, id: PrefixNodeId) -> Nodes {
    changed(m, id, |n: PrefixNodeView| n.released())
}

pub open spec fn owned(m: Nodes, id: PrefixNodeId, owner: TrajectoryId) -> Nodes {
    changed(m, id, |n: PrefixNodeView| n.owned(owner))
}

pub open spec fn disowned(m: Nodes, id: PrefixNodeId, owner: TrajectoryId) -> Nodes {
    changed(m, id, |n: PrefixNodeView| n.disowned(owner))
}

pub open spec fn shared(m: Nodes, id: PrefixNodeId) -> Nodes {
    changed(m, id, |n: PrefixNodeView| n.scored(100))
}

pub open spec fn hit(m: Nodes, id: PrefixNodeId, hits: u32) -> Nodes {
    changed(m, id, |n: PrefixNodeView| n.hit(hits))
}

pub open spec fn touched(m: Nodes, id: PrefixNodeId, now_ms: u64) -> Nodes {
    changed(m, id, |n: PrefixNodeView| PrefixNodeView { last_access_ms: now_ms, ..n })
}

pub open spec fn handled(m: Nodes, id: PrefixNodeId, handle: Seq<char>) -> Nodes {
    changed(m, id, |n: PrefixNodeView| PrefixNodeView { engine_handle: Some(handle), ..n })
}

/// How many tokens `a` and `b` have in common at the start.
pub open spec fn common(a: Seq<u32>, b: Seq<u32>) -> nat
    decreases a.len(),
{
    if a.len() == 0 || b.len() == 0 || a[0] != b[0] {
        0
    } else {
        1 + common(a.drop_first(), b.drop_first())
    }
}

/// The first child that settles where `tokens` go: one that shares their
/// start, or one that is missing from the tree.
pub open spec fn first_hit(m: Nodes, children: Seq<PrefixNodeId>, tokens: Seq<u32>) -> Option<int>
    decreases children.len(),
{
    if children.len() == 0 {
        None
    } else if !m.dom().contains(children[0].0) || common(tokens, m[children[0].0].tokens) > 0 {
        Some(0)
    } else {
        match first_hit(m, children.drop_first(), tokens) {
            Some(i) => Some(i + 1),
            None => None,
        }
    }
}

/// `x` replaced by `y` throughout.
pub open spec fn replaced(s: Seq<PrefixNodeId>, x: PrefixNodeId, y: PrefixNodeId) -> Seq<
    PrefixNodeId,
> {
    s.map_values(
        |c: PrefixNodeId|
            if c == x {
                y
            } else {
                c
            },
    )
}

/// Splits the edge of `node` after `at` tokens: a new node `mid` takes the
/// head and the place under the parent, and `node` hangs below it with the
/// tail. An edge that `at` does not divide stays whole, and a node that is
/// missing or has no parent cannot be split.
pub open spec fn split(m: Nodes, node: PrefixNodeId, at: int, mid: PrefixNodeId) -> Option<
    (Nodes, PrefixNodeId),
> {
    if !m.dom().contains(node.0) {
        None
    } else {
        let n = m[node.0];
        if at == 0 || at >= n.tokens.len() {
            Some((m, node))
        } else {
            match n.parent {
                None => None,
                Some(parent) => {
                    let m1 = changed(
                        m,
                        parent,
                        |p: PrefixNodeView|
                            PrefixNodeView { children: replaced(p.children, node, mid), ..p },
                    );
                    let m2 = changed(
                        m1,
                        node,
                        |c: PrefixNodeView|
                            PrefixNodeView { parent: Some(mid), tokens: n.tokens.skip(at), ..c },
                    );
                    Some(
                        (
                            m2.insert(
                                mid.0,
                                PrefixNodeView {
                                    id: mid,
                                    parent: Some(parent),
                                    children: seq![node],
                                    tokens: n.tokens.take(at),
                                    pin: pin::no_pin(),
                                    blocks: Seq::empty(),
                                    engine_handle: None,
                                    cache_hit_tokens: 0,
                                    ..n
                                },
                            ),
                            mid,
                        ),
                    )
                },
            }
        }
    }
}

/// A new child `leaf` below `parent`; nothing where there is no such parent.
pub open spec fn grown(
    m: Nodes,
    parent: PrefixNodeId,
    tokens: Seq<u32>,
    owner: TrajectoryId,
    leaf: PrefixNodeId,
) -> (Nodes, Option<PrefixNodeId>) {
    if m.dom().contains(parent.0) {
        (
            changed(
                m,
                parent,
                |p: PrefixNodeView| PrefixNodeView { children: p.children.push(leaf), ..p },
            ).insert(
                leaf.0,
                PrefixNodeView {
                    parent: Some(parent),
                    tokens,
                    ref_count: 1,
                    share_score: 100,
                    owners: seq![owner],
                    ..PrefixNodeView::bare(leaf)
                },
            ),
            Some(leaf),
        )
    } else {
        (m, None)
    }
}

/// `id` referenced and owned once more.
pub open spec fn joined(m: Nodes, id: PrefixNodeId, owner: TrajectoryId) -> Nodes {
    owned(retained(m, id), id, owner)
}

/// Puts `tokens` below `parent`, sharing the edges that are there. `mid` and
/// `leaf` are the ids for the nodes that this may create: one where an edge
/// has to be split, one where a new edge begins. The result is the node at
/// which the tokens end.
pub open spec fn inserted(
    m: Nodes,
    parent: PrefixNodeId,
    tokens: Seq<u32>,
    owner: TrajectoryId,
    mid: PrefixNodeId,
    leaf: PrefixNodeId,
) -> (Nodes, Option<PrefixNodeId>)
    decreases tokens.len(),
{
    if tokens.len() == 0 {
        (joined(m, parent, owner), Some(parent))
    } else if !m.dom().contains(parent.0) {
        (m, None)
    } else {
        let children = m[parent.0].children;
        match first_hit(m, children, tokens) {
            None => grown(m, parent, tokens, owner, leaf),
            Some(i) => {
                let c = children[i];
                let edge = m[c.0].tokens;
                let k = common(tokens, edge);
                if !m.dom().contains(c.0) {
                    (m, None)
                } else if k == edge.len() && k == tokens.len() {
                    (shared(joined(m, c, owner), c), Some(c))
                } else if k == edge.len() {
                    proof {
                        lemma_first_hit(m, children, tokens);
                        lemma_common(tokens, edge);
                    }
                    inserted(m, c, tokens.skip(k as int), owner, mid, leaf)
                } else {
                    match split(m, c, k as int, mid) {
                        None => (m, None),
                        Some((m1, s)) => {
                            if k == tokens.len() {
                                (shared(joined(m1, s, owner), s), Some(s))
                            } else {
                                match grown(m1, s, tokens.skip(k as int), owner, leaf) {
                                    (m2, Some(l)) => (shared(m2, s), Some(l)),
                                    (m2, None) => (m2, None),
                                }
                            }
                        },
                    }
                }
            },
        }
    }
}

/// `common` counts what both sequences share, and no more.
pub proof fn lemma_common(a: Seq<u32>, b: Seq<u32>)
    ensures
        common(a, b) <= a.len(),
        common(a, b) <= b.len(),
        forall|i: int| 0 <= i < common(a, b) ==> a[i] == #[trigger] b[i],
        common(a, b) < a.len() && common(a, b) < b.len() ==> a[common(a, b) as int] != b[common(
            a,
            b,
        ) as int],
    decreases a.len(),
{
    if a.len() > 0 && b.len() > 0 && a[0] == b[0] {
        let ra = a.drop_first();
        let rb = b.drop_first();
        lemma_common(ra, rb);
        assert forall|i: int| 0 <= i < common(a, b) implies a[i] == #[trigger] b[i] by {
            if i > 0 {
                assert(ra[i - 1] == rb[i - 1]);
            }
        }
    }
}

/// Only one number is the length of the common start.
pub proof fn lemma_common_is(a: Seq<u32>, b: Seq<u32>, n: int)
    requires
        0 <= n <= a.len(),
        n <= b.len(),
        forall|i: int| 0 <= i < n ==> a[i] == #[trigger] b[i],
        n < a.len() && n < b.len() ==> a[n] != b[n],
    ensures
        common(a, b) == n,
{
    lemma_common(a, b);
    let k = common(a, b) as int;
    if k < n {
        assert(a[k] == b[k]);
    } else if n < k {
        assert(a[n] == b[n]);
    }
}

/// `first_hit` finds the first child that settles the matter.
pub proof fn lemma_first_hit(m: Nodes, children: Seq<PrefixNodeId>, tokens: Seq<u32>)
    ensures
        match first_hit(m, children, tokens) {
            Some(i) => {
                &&& 0 <= i < children.len()
                &&& !m.dom().contains(children[i].0) || common(tokens, m[children[i].0].tokens) > 0
                &&& forall|j: int|
                    0 <= j < i ==> m.dom().contains((#[trigger] children[j]).0) && common(
                        tokens,
                        m[children[j].0].tokens,
                    ) == 0
            },
            None => forall|j: int|
                0 <= j < children.len() ==> m.dom().contains((#[trigger] children[j]).0) && common(
                    tokens,
                    m[children[j].0].tokens,
                ) == 0,
        },
    decreases children.len(),
{
    if children.len() > 0 && !(!m.dom().contains(children[0].0) || common(
        tokens,
        m[children[0].0].tokens,
    ) > 0) {
        let rest = children.drop_first();
        lemma_first_hit(m, rest, tokens);
        assert(forall|j: int| 0 < j < children.len() ==> #[trigger] children[j] == rest[j - 1]);
    }
}

/// Only one child is the first that settles the matter.
pub proof fn lemma_first_hit_is(
    m: Nodes,
    children: Seq<PrefixNodeId>,
    tokens: Seq<u32>,
    i: int,
)
    requires
        0 <= i < children.len(),
        !m.dom().contains(children[i].0) || common(tokens, m[children[i].0].tokens) > 0,
        forall|j: int|
            0 <= j < i ==> m.dom().contains((#[trigger] children[j]).0) && common(
                tokens,
                m[children[j].0].tokens,
            ) == 0,
    ensures
        first_hit(m, children, tokens) == Some(i),
{
    lemma_first_hit(m, children, tokens);
}

/// After one orphan has been handed to `parent`: it names the new parent, and
/// the parent names it, once.
pub open spec fn adopted(m: Nodes, child: PrefixNodeId, parent: Option<PrefixNodeId>) -> Nodes {
    let m1 = changed(m, child, |c: PrefixNodeView| PrefixNodeView { parent, ..c });
    match parent {
        None => m1,
        Some(p) => changed(
            m1,
            p,
            |n: PrefixNodeView|
                if n.children.contains(child) {
                    n
                } else {
                    PrefixNodeView { children: n.children.push(child), ..n }
                },
        ),
    }
}

/// After all the orphans have been handed on, in this order.
pub open spec fn all_adopted(
    m: Nodes,
    orphans: Seq<PrefixNodeId>,
    parent: Option<PrefixNodeId>,
) -> Nodes
    decreases orphans.len(),
{
    if orphans.len() == 0 {
        m
    } else {
        adopted(all_adopted(m, orphans.drop_last(), parent), orphans.last(), parent)
    }
}

/// Takes a node out of the tree: its parent forgets it and adopts its
/// children.
pub open spec fn cut(m: Nodes, id: PrefixNodeId) -> Nodes {
    let node = m[id.0];
    let m1 = m.remove(id.0);
    let m2 = match node.parent {
        None => m1,
        Some(p) => changed(
            m1,
            p,
            |n: PrefixNodeView|
                PrefixNodeView { children: ids_but(n.children, id), ..n },
        ),
    };
    all_adopted(m2, node.children, node.parent)
}

/// A tree: its nodes, and which of them is the root.
#[verifier::ext_equal]
pub struct TreeView {
    pub nodes: Nodes,
    pub root: Option<PrefixNodeId>,
}

impl TreeView {
    /// The root is in the tree, and every node stands under its own id.
    pub open spec fn wf(self) -> bool {
        &&& self.root matches Some(r) && self.nodes.dom().contains(r.0)
        &&& forall|k: u128| #[trigger]
            self.nodes.dom().contains(k) ==> self.nodes[k].id == PrefixNodeId(k)
        &&& self.nodes.dom().finite()
    }

    pub open spec fn has(self, id: PrefixNodeId) -> bool {
        self.nodes.dom().contains(id.0)
    }

    /// Without the node `id`; the root stays.
    pub open spec fn removed(self, id: PrefixNodeId) -> TreeView {
        if Some(id) == self.root || !self.has(id) {
            self
        } else {
            TreeView { nodes: cut(self.nodes, id), ..self }
        }
    }
}

/// In-memory prefix tree with radix sharing on insert.
#[derive(Debug)]
pub struct PrefixTree {
    nodes: HashMap<u128, PrefixNode>,
    root: Option<PrefixNodeId>,
}

impl View for PrefixTree {
    type V = TreeView;

    closed spec fn view(&self) -> TreeView {
        TreeView { nodes: self.nodes@.map_values(|n: PrefixNode| n@), root: self.root }
    }
}

impl Default for PrefixTree {
    /// A tree without any node, not even a root.
    fn default() -> (res: Self)
        ensures
            res@ == (TreeView { nodes: Map::empty(), root: None }),
    {
        let res = PrefixTree { nodes: HashMap::new(), root: None };
        assert(res@.nodes =~= Map::empty());
        res
    }
}

/// How many tokens `a`, from `from` on, and `b` have in common at the start.
fn common_prefix_len(a: &[u32], from: usize, b: &[u32]) -> (res: usize)
    requires
        from <= a@.len(),
    ensures
        res == common(a@.skip(from as int), b@),
        from + res <= a@.len(),
        res <= b@.len(),
{
    let mut n: usize = 0;
    while n < a.len() - from && n < b.len() && a[from + n] == b[n]
        invariant
            from <= a@.len(),
            n <= a@.len() - from,
            n <= b@.len(),
            forall|i: int| 0 <= i < n ==> a@.skip(from as int)[i] == #[trigger] b@[i],
        decreases b@.len() - n,
    {
        n += 1;
    }
    proof {
        lemma_common_is(a@.skip(from as int), b@, n as int);
    }
    n
}

/// The tokens from `from` on.
fn tail_of(tokens: &[u32], from: usize) -> (res: Vec<u32>)
    requires
        from <= tokens@.len(),
    ensures
        res@ == tokens@.skip(from as int),
{
    let mut res: Vec<u32> = Vec::new();
    let mut i: usize = from;
    while i < tokens.len()
        invariant
            from <= i <= tokens@.len(),
            res@ == tokens@.subrange(from as int, i as int),
        decreases tokens@.len() - i,
    {
        res.push(tokens[i]);
        assert(tokens@.subrange(from as int, i + 1) =~= tokens@.subrange(
            from as int,
            i as int,
        ).push(tokens@[i as int]));
        i += 1;
    }
    assert(res@ =~= tokens@.skip(from as int));
    res
}

fn has_id(v: &Vec<PrefixNodeId>, id: PrefixNodeId) -> (res: bool)
    ensures
        res == v@.contains(id),
{
    let mut i: usize = 0;
    while i < v.len()
        invariant
            i <= v@.len(),
            forall|j: int| 0 <= j < i ==> v@[j] != id,
        decreases v@.len() - i,
    {
        if v[i] == id {
            return true;
        }
        i += 1;
    }
    false
}

fn has_owner(v: &Vec<TrajectoryId>, id: TrajectoryId) -> (res: bool)
    ensures
        res == v@.contains(id),
{
    let mut i: usize = 0;
    while i < v.len()
        invariant
            i <= v@.len(),
            forall|j: int| 0 <= j < i ==> v@[j] != id,
        decreases v@.len() - i,
    {
        if v[i] == id {
            return true;
        }
        i += 1;
    }
    false
}

proof fn lemma_ids_but_push(s: Seq<PrefixNodeId>, x: PrefixNodeId, id: PrefixNodeId)
    ensures
        ids_but(s.push(x), id) == (if x != id {
            ids_but(s, id).push(x)
        } else {
            ids_but(s, id)
        }),
{
    s.lemma_filter_push(x, not_id(id));
}

fn ids_without(v: &Vec<PrefixNodeId>, id: PrefixNodeId) -> (res: Vec<PrefixNodeId>)
    ensures
        res@ == ids_but(v@, id),
{
    let mut res: Vec<PrefixNodeId> = Vec::new();
    let mut i: usize = 0;
    proof {
        reveal(Seq::filter);
        assert(v@.take(0) =~= Seq::empty());
        assert(ids_but(v@.take(0), id) =~= Seq::empty());
    }
    while i < v.len()
        invariant
            i <= v@.len(),
            res@ == ids_but(v@.take(i as int), id),
        decreases v@.len() - i,
    {
        proof {
            lemma_ids_but_push(v@.take(i as int), v@[i as int], id);
            assert(v@.take(i + 1) =~= v@.take(i as int).push(v@[i as int]));
        }
        if v[i] != id {
            res.push(v[i]);
        }
        i += 1;
    }
    assert(v@.take(i as int) =~= v@);
    res
}

proof fn lemma_owners_but_push(s: Seq<TrajectoryId>, x: TrajectoryId, id: TrajectoryId)
    ensures
        owners_but(s.push(x), id) == (if x != id {
            owners_but(s, id).push(x)
        } else {
            owners_but(s, id)
        }),
{
    s.lemma_filter_push(x, not_owner(id));
}

fn owners_without(v: &Vec<TrajectoryId>, id: TrajectoryId) -> (res: Vec<TrajectoryId>)
    ensures
        res@ == owners_but(v@, id),
{
    let mut res: Vec<TrajectoryId> = Vec::new();
    let mut i: usize = 0;
    proof {
        reveal(Seq::filter);
        assert(v@.take(0) =~= Seq::empty());
        assert(owners_but(v@.take(0), id) =~= Seq::empty());
    }
    while i < v.len()
        invariant
            i <= v@.len(),
            res@ == owners_but(v@.take(i as int), id),
        decreases v@.len() - i,
    {
        proof {
            lemma_owners_but_push(v@.take(i as int), v@[i as int], id);
            assert(v@.take(i + 1) =~= v@.take(i as int).push(v@[i as int]));
        }
        if v[i] != id {
            res.push(v[i]);
        }
        i += 1;
    }
    assert(v@.take(i as int) =~= v@);
    res
}

impl PrefixTree {
    /// A tree that holds a root under a fresh random id.
    pub fn new() -> (res: Self)
        ensures
            res@.wf(),
            res@.root matches Some(r) && ids::is_random_id(r.0) && res@.nodes == (Map::<
                u128,
                PrefixNodeView,
            >::empty().insert(r.0, PrefixNodeView::bare(r))),
            prefix_radix::radix(res@.nodes, res@.root.unwrap()),
    {
        broadcast use vstd::std_specs::hash::group_hash_axioms;

        let mut tree = Self::default();
        let root = PrefixNode::root();
        let id = root.id;
        tree.nodes.insert(id.0, root);
        tree.root = Some(id);
        assert(tree@.nodes =~= Map::<u128, PrefixNodeView>::empty().insert(
            id.0,
            PrefixNodeView::bare(id),
        ));
        proof {
            prefix_radix::lemma_fresh_radix(id);
        }
        tree
    }

    pub fn root_id(&self) -> (res: PrefixNodeId)
        requires
            self@.root is Some,
        ensures
            Some(res) == self@.root,
    {
        match self.root {
            Some(id) => id,
            None => PrefixNodeId(0),
        }
    }

    pub fn get(&self, id: PrefixNodeId) -> (res: Option<&PrefixNode>)
        ensures
            match res {
                Some(n) => self@.has(id) && n@ == self@.nodes[id.0],
                None => !self@.has(id),
            },
    {
        broadcast use vstd::std_specs::hash::group_hash_axioms;

        self.nodes.get(&id.0)
    }

    /// A borrow of a node, through which it can be changed.
    pub fn get_mut(&mut self, id: PrefixNodeId) -> (res: Option<&mut PrefixNode>)
        ensures
            final(self)@.root == old(self)@.root,
            match res {
                Some(n) => old(self)@.has(id) && n@ == old(self)@.nodes[id.0]
                    && final(self)@.nodes == old(self)@.nodes.insert(id.0, final(n)@),
                None => !old(self)@.has(id) && final(self)@ == old(self)@,
            },
    {
        let res = value_mut(&mut self.nodes, id.0);
        res
    }

    pub fn touch(&mut self, id: PrefixNodeId, now_ms: u64)
        ensures
            final(self)@.root == old(self)@.root,
            final(self)@.nodes == touched(old(self)@.nodes, id, now_ms),
    {
        if let Some(n) = value_mut(&mut self.nodes, id.0) {
            n.last_access_ms = now_ms;
        }
        assert(self@.nodes =~= touched(old(self)@.nodes, id, now_ms));
    }

    pub fn retain(&mut self, id: PrefixNodeId)
        ensures
            final(self)@.root == old(self)@.root,
            final(self)@.nodes == retained(old(self)@.nodes, id),
    {
        if let Some(n) = value_mut(&mut self.nodes, id.0) {
            n.ref_count = n.ref_count.saturating_add(1);
        }
        assert(self@.nodes =~= retained(old(self)@.nodes, id));
    }

    pub fn release(&mut self, id: PrefixNodeId)
        ensures
            final(self)@.root == old(self)@.root,
            final(self)@.nodes == released(old(self)@.nodes, id),
    {
        if let Some(n) = value_mut(&mut self.nodes, id.0) {
            n.ref_count = n.ref_count.saturating_sub(1);
        }
        assert(self@.nodes =~= released(old(self)@.nodes, id));
    }

    pub fn add_owner(&mut self, id: PrefixNodeId, owner: TrajectoryId)
        ensures
            final(self)@.root == old(self)@.root,
            final(self)@.nodes == owned(old(self)@.nodes, id, owner),
    {
        if let Some(n) = value_mut(&mut self.nodes, id.0) {
            if !has_owner(&n.owners, owner) {
                n.owners.push(owner);
            }
        }
        assert(self@.nodes =~= owned(old(self)@.nodes, id, owner));
    }

    pub fn remove_owner(&mut self, id: PrefixNodeId, owner: TrajectoryId)
        ensures
            final(self)@.root == old(self)@.root,
            final(self)@.nodes == disowned(old(self)@.nodes, id, owner),
    {
        if let Some(n) = value_mut(&mut self.nodes, id.0) {
            n.owners = owners_without(&n.owners, owner);
        }
        assert(self@.nodes =~= disowned(old(self)@.nodes, id, owner));
    }

    fn bump_share(&mut self, id: PrefixNodeId)
        ensures
            final(self)@.root == old(self)@.root,
            final(self)@.nodes == shared(old(self)@.nodes, id),
    {
        if let Some(n) = value_mut(&mut self.nodes, id.0) {
            n.share_score = n.share_score.saturating_add(100);
        }
        assert(self@.nodes =~= shared(old(self)@.nodes, id));
    }

    pub fn add_cache_hits(&mut self, id: PrefixNodeId, hits: u32)
        ensures
            final(self)@.root == old(self)@.root,
            final(self)@.nodes == hit(old(self)@.nodes, id, hits),
    {
        if let Some(n) = value_mut(&mut self.nodes, id.0) {
            n.cache_hit_tokens = n.cache_hit_tokens.saturating_add(hits);
            n.share_score = n.share_score.saturating_add(hits as u64);
        }
        assert(self@.nodes =~= hit(old(self)@.nodes, id, hits));
    }

    pub fn set_engine_handle(&mut self, id: PrefixNodeId, handle: &str) -> (res: bool)
        ensures
            res == old(self)@.has(id),
            final(self)@.root == old(self)@.root,
            final(self)@.nodes == handled(old(self)@.nodes, id, handle@),
    {
        let res = match value_mut(&mut self.nodes, id.0) {
            Some(n) => {
                n.engine_handle = Some(handle.to_string());
                true
            },
            None => false,
        };
        assert(self@.nodes =~= handled(old(self)@.nodes, id, handle@));
        res
    }

    pub fn engine_handle(&self, id: PrefixNodeId) -> (res: Option<&str>)
        ensures
            match res {
                Some(h) => self@.has(id) && self@.nodes[id.0].engine_handle == Some(h@),
                None => self@.has(id) ==> self@.nodes[id.0].engine_handle is None,
            },
    {
        match self.get(id) {
            Some(n) => match &n.engine_handle {
                Some(h) => Some(h.as_str()),
                None => None,
            },
            None => None,
        }
    }

    /// The ids of all the nodes, in no particular order.
    pub fn node_ids(&self) -> (res: Vec<PrefixNodeId>)
        ensures
            res@.no_duplicates(),
            forall|id: PrefixNodeId| #[trigger] res@.contains(id) <==> self@.has(id),
            res@.len() == self@.nodes.dom().len(),
    {
        broadcast use vstd::std_specs::hash::group_hash_axioms;

        let mut res: Vec<PrefixNodeId> = Vec::new();
        for k in it: self.nodes.keys()
            invariant
                it.seq() == vstd::std_specs::iter::IteratorSpec::remaining(&self.nodes.keys()),
                res@.len() == it.index(),
                forall|j: int| 0 <= j < it.index() ==> (#[trigger] res@[j]).0 == *it.seq()[j],
        {
            res.push(PrefixNodeId(*k));
        }
        proof {
            let keys = vstd::std_specs::iter::IteratorSpec::remaining(&self.nodes.keys());
            assert(keys.len() == res@.len());
            assert forall|i: int, j: int|
                0 <= i < res@.len() && 0 <= j < res@.len() && i != j implies res@[i]
                != res@[j] by {
                assert(keys[i] != keys[j]);
            }
            assert forall|id: PrefixNodeId| #[trigger] res@.contains(id) == self@.has(id) by {
                assert(keys.unref().to_set() == self.nodes@.dom());
                if res@.contains(id) {
                    let j = choose|j: int| 0 <= j < res@.len() && res@[j] == id;
                    assert(keys.unref()[j] == id.0);
                    assert(keys.unref().contains(id.0));
                    assert(keys.unref().to_set().contains(id.0));
                }
                if self@.has(id) {
                    assert(keys.unref().to_set().contains(id.0));
                    let j = choose|j: int| 0 <= j < keys.unref().len() && keys.unref()[j] == id.0;
                    assert(res@[j] == id);
                }
            }
            assert(self@.nodes.dom() =~= self.nodes@.dom());
        }
        res
    }

    /// All the nodes, in no particular order.
    pub fn nodes(&self) -> (res: Vec<&PrefixNode>)
        ensures
            res@.len() == self@.nodes.dom().len(),
            exists|order: Seq<PrefixNodeId>|
                {
                    &&& #[trigger] order.no_duplicates()
                    &&& order.len() == res@.len()
                    &&& forall|id: PrefixNodeId| #[trigger] order.contains(id) <==> self@.has(id)
                    &&& forall|i: int|
                        0 <= i < order.len() ==> (#[trigger] res@[i])@ == self@.nodes[order[i].0]
                },
    {
        let order = self.node_ids();
        let mut res: Vec<&PrefixNode> = Vec::new();
        let mut i: usize = 0;
        while i < order.len()
            invariant
                i <= order@.len(),
                res@.len() == i,
                forall|id: PrefixNodeId| #[trigger] order@.contains(id) <==> self@.has(id),
                forall|j: int| 0 <= j < i ==> (#[trigger] res@[j])@ == self@.nodes[order@[j].0],
            decreases order@.len() - i,
        {
            assert(order@.contains(order@[i as int]));
            if let Some(n) = self.get(order[i]) {
                res.push(n);
            }
            i += 1;
        }
        res
    }

    /// Splits the edge of `node_id` after `at` tokens, under the id `mid_id`.
    fn split_edge(&mut self, node_id: PrefixNodeId, at: usize, mid_id: PrefixNodeId) -> (res: Option<
        PrefixNodeId,
    >)
        ensures
            final(self)@.root == old(self)@.root,
            match split(old(self)@.nodes, node_id, at as int, mid_id) {
                Some((m, s)) => final(self)@.nodes == m && res == Some(s),
                None => final(self)@.nodes == old(self)@.nodes && res is None,
            },
    {
        broadcast use vstd::std_specs::hash::group_hash_axioms;

        let node = match self.get(node_id) {
            Some(n) => n.clone(),
            None => {
                return None;
            },
        };
        if at == 0 || at >= node.tokens.len() {
            return Some(node_id);
        }
        let parent_id = match node.parent {
            Some(p) => p,
            None => {
                return None;
            },
        };
        let ghost was = self@.nodes;
        let ghost n = node@;
        let tail = tail_of(node.tokens.as_slice(), at);
        let mut head = node.tokens;
        head.truncate(at);
        assert(head@ =~= n.tokens.take(at as int));
        if let Some(p) = value_mut(&mut self.nodes, parent_id.0) {
            let ghost before = p.children@;
            let mut i: usize = 0;
            while i < p.children.len()
                invariant
                    i <= p.children@.len(),
                    p.children@.len() == before.len(),
                    forall|j: int|
                        0 <= j < i ==> #[trigger] p.children@[j] == replaced(
                            before,
                            node_id,
                            mid_id,
                        )[j],
                    forall|j: int| i <= j < before.len() ==> #[trigger] p.children@[j] == before[j],
                    (PrefixNodeView { children: before, ..p@ }) == was[parent_id.0],
                decreases p.children@.len() - i,
            {
                if p.children[i] == node_id {
                    p.children.set(i, mid_id);
                }
                i += 1;
            }
            assert(p.children@ =~= replaced(before, node_id, mid_id));
        }
        let ghost m1 = changed(
            was,
            parent_id,
            |p: PrefixNodeView|
                PrefixNodeView { children: replaced(p.children, node_id, mid_id), ..p },
        );
        assert(self@.nodes =~= m1);
        if let Some(c) = value_mut(&mut self.nodes, node_id.0) {
            c.parent = Some(mid_id);
            c.tokens = tail;
        }
        let ghost m2 = changed(
            m1,
            node_id,
            |c: PrefixNodeView|
                PrefixNodeView { parent: Some(mid_id), tokens: n.tokens.skip(at as int), ..c },
        );
        assert(self@.nodes =~= m2);
        let mid = PrefixNode {
            id: mid_id,
            parent: Some(parent_id),
            children: vec![node_id],
            tokens: head,
            ref_count: node.ref_count,
            share_score: node.share_score,
            pin: PinInfo::default(),
            owners: node.owners,
            tier: node.tier,
            blocks: Vec::new(),
            engine_handle: None,
            last_access_ms: node.last_access_ms,
            cache_hit_tokens: 0,
        };
        let ghost midv = PrefixNodeView {
            id: mid_id,
            parent: Some(parent_id),
            children: seq![node_id],
            tokens: n.tokens.take(at as int),
            pin: pin::no_pin(),
            blocks: Seq::empty(),
            engine_handle: None,
            cache_hit_tokens: 0,
            ..n
        };
        assert(mid@ =~= midv);
        self.nodes.insert(mid_id.0, mid);
        assert(self@.nodes =~= m2.insert(mid_id.0, midv));
        Some(mid_id)
    }

    /// A new child below `parent`, under the id `child_id`.
    fn alloc_child(
        &mut self,
        parent: PrefixNodeId,
        tokens: Vec<u32>,
        owner: TrajectoryId,
        child_id: PrefixNodeId,
    ) -> (res: Option<PrefixNodeId>)
        ensures
            final(self)@.root == old(self)@.root,
            (final(self)@.nodes, res) == grown(old(self)@.nodes, parent, tokens@, owner, child_id),
    {
        broadcast use vstd::std_specs::hash::group_hash_axioms;

        let ghost was = self@.nodes;
        match value_mut(&mut self.nodes, parent.0) {
            Some(p) => {
                p.children.push(child_id);
            },
            None => {
                return None;
            },
        }
        let ghost m1 = changed(
            was,
            parent,
            |p: PrefixNodeView| PrefixNodeView { children: p.children.push(child_id), ..p },
        );
        assert(self@.nodes =~= m1);
        let ghost leaf = PrefixNodeView {
            parent: Some(parent),
            tokens: tokens@,
            ref_count: 1,
            share_score: 100,
            owners: seq![owner],
            ..PrefixNodeView::bare(child_id)
        };
        let node = PrefixNode {
            id: child_id,
            parent: Some(parent),
            children: Vec::new(),
            tokens,
            ref_count: 1,
            share_score: 100,
            pin: PinInfo::default(),
            owners: vec![owner],
            tier: TierId::Gpu,
            blocks: Vec::new(),
            engine_handle: None,
            last_access_ms: 0,
            cache_hit_tokens: 0,
        };
        assert(node@ =~= leaf);
        self.nodes.insert(child_id.0, node);
        assert(self@.nodes =~= m1.insert(child_id.0, leaf));
        Some(child_id)
    }

    /// Append without sharing (always new child, under a fresh random id).
    /// Prefer `insert_tokens`.
    pub fn append(&mut self, parent: PrefixNodeId, tokens: Vec<u32>, owner: TrajectoryId) -> (res:
        Option<PrefixNodeId>)
        ensures
            final(self)@.root == old(self)@.root,
            res is Some <==> old(self)@.has(parent),
            res is None ==> final(self)@ == old(self)@,
            res matches Some(child) ==> ids::is_random_id(child.0) && final(self)@.nodes == grown(
                old(self)@.nodes,
                parent,
                tokens@,
                owner,
                child,
            ).0,
    {
        self.alloc_child(parent, tokens, owner, PrefixNodeId::new())
    }

    /// Radix insert: reuse longest matching child edge, split on divergence.
    /// New nodes stand under fresh random ids. Where those are in use nowhere in
    /// the tree, siblings still start with different tokens, edges below the root
    /// still hold tokens, and parents still list each child once.
    pub fn insert_tokens(&mut self, parent: PrefixNodeId, tokens: &[u32], owner: TrajectoryId) -> (
    res: Option<PrefixNodeId>)
        ensures
            final(self)@.root == old(self)@.root,
            exists|mid: PrefixNodeId, leaf: PrefixNodeId|
                {
                    &&& ids::is_random_id(mid.0) && ids::is_random_id(leaf.0)
                    &&& (final(self)@.nodes, res) == #[trigger] inserted(
                        old(self)@.nodes,
                        parent,
                        tokens@,
                        owner,
                        mid,
                        leaf,
                    )
                    &&& prefix_radix::in_order(old(self)@, parent, mid, leaf)
                        ==> prefix_radix::radix(final(self)@.nodes, final(self)@.root.unwrap())
                },
    {
        let mid = PrefixNodeId::new();
        let leaf = PrefixNodeId::new();
        self.insert_tokens_as(parent, tokens, owner, mid, leaf)
    }

    /// Radix insert under given ids for the nodes that it may create: `mid`
    /// for the head of an edge that is split, `leaf` for a new edge. Where both
    /// are new, a tree in order stays in order.
    pub fn insert_tokens_as(
        &mut self,
        parent: PrefixNodeId,
        tokens: &[u32],
        owner: TrajectoryId,
        mid: PrefixNodeId,
        leaf: PrefixNodeId,
    ) -> (res: Option<PrefixNodeId>)
        ensures
            final(self)@.root == old(self)@.root,
            (final(self)@.nodes, res) == inserted(
                old(self)@.nodes,
                parent,
                tokens@,
                owner,
                mid,
                leaf,
            ),
            prefix_radix::in_order(old(self)@, parent, mid, leaf) ==> prefix_radix::radix(
                final(self)@.nodes,
                final(self)@.root.unwrap(),
            ),
    {
        assert(tokens@.skip(0) =~= tokens@);
        proof {
            if prefix_radix::in_order(self@, parent, mid, leaf) {
                prefix_radix::law_insert_keeps_radix(
                    self@.nodes,
                    self@.root.unwrap(),
                    prefix_radix::Insertion { parent, tokens: tokens@, owner, mid, leaf },
                );
            }
        }
        self.insert_from(parent, tokens, 0, owner, mid, leaf)
    }

    fn insert_from(
        &mut self,
        parent: PrefixNodeId,
        tokens: &[u32],
        from: usize,
        owner: TrajectoryId,
        mid: PrefixNodeId,
        leaf: PrefixNodeId,
    ) -> (res: Option<PrefixNodeId>)
        requires
            from <= tokens@.len(),
        ensures
            final(self)@.root == old(self)@.root,
            (final(self)@.nodes, res) == inserted(
                old(self)@.nodes,
                parent,
                tokens@.skip(from as int),
                owner,
                mid,
                leaf,
            ),
        decreases tokens@.len() - from,
    {
        let ghost m = self@.nodes;
        let ghost path = tokens@.skip(from as int);
        let left: usize = tokens.len() - from;
        if left == 0 {
            self.retain(parent);
            self.add_owner(parent, owner);
            return Some(parent);
        }
        let child_ids = match self.get(parent) {
            Some(n) => n.children.clone(),
            None => {
                return None;
            },
        };
        assert(child_ids@ =~= m[parent.0].children);
        let mut i: usize = 0;
        while i < child_ids.len()
            invariant
                i <= child_ids@.len(),
                from < tokens@.len(),
                left == tokens.len() - from,
                m == self@.nodes,
                self@ == old(self)@,
                m.dom().contains(parent.0),
                child_ids@ == m[parent.0].children,
                path == tokens@.skip(from as int),
                forall|j: int|
                    0 <= j < i ==> m.dom().contains((#[trigger] child_ids@[j]).0) && common(
                        path,
                        m[child_ids@[j].0].tokens,
                    ) == 0,
            decreases child_ids@.len() - i,
        {
            let cid = child_ids[i];
            let child_tokens = match self.get(cid) {
                Some(n) => n.tokens.clone(),
                None => {
                    proof {
                        lemma_first_hit_is(m, child_ids@, path, i as int);
                    }
                    return None;
                },
            };
            assert(child_tokens@ =~= m[cid.0].tokens);
            let shares: usize = common_prefix_len(tokens, from, child_tokens.as_slice());
            if shares > 0 {
                proof {
                    lemma_first_hit_is(m, child_ids@, path, i as int);
                    assert(path.skip(shares as int) =~= tokens@.skip(from + shares));
                }
                if shares == child_tokens.len() {
                    // Fully consume this edge; recurse with remainder.
                    if shares == left {
                        self.retain(cid);
                        self.add_owner(cid, owner);
                        self.bump_share(cid);
                        return Some(cid);
                    }
                    return self.insert_from(cid, tokens, from + shares, owner, mid, leaf);
                }
                let split = match self.split_edge(cid, shares, mid) {
                    Some(s) => s,
                    None => {
                        return None;
                    },
                };
                if shares == left {
                    // New path is a strict prefix of existing edge.
                    self.retain(split);
                    self.add_owner(split, owner);
                    self.bump_share(split);
                    return Some(split);
                }
                // Partial overlap: branch the remainder off the split.
                let rest = tail_of(tokens, from + shares);
                let new_leaf = match self.alloc_child(split, rest, owner, leaf) {
                    Some(l) => l,
                    None => {
                        return None;
                    },
                };
                self.bump_share(split);
                return Some(new_leaf);
            }
            i += 1;
        }
        proof {
            lemma_first_hit(m, child_ids@, path);
        }
        // No matching child — allocate fresh.
        let rest = tail_of(tokens, from);
        self.alloc_child(parent, rest, owner, leaf)
    }

    /// Hands an orphan to `parent`.
    fn adopt(&mut self, child: PrefixNodeId, parent: Option<PrefixNodeId>)
        ensures
            final(self)@.root == old(self)@.root,
            final(self)@.nodes == adopted(old(self)@.nodes, child, parent),
    {
        let ghost was = self@.nodes;
        if let Some(c) = value_mut(&mut self.nodes, child.0) {
            c.parent = parent;
        }
        let ghost m1 = changed(was, child, |c: PrefixNodeView| PrefixNodeView { parent, ..c });
        assert(self@.nodes =~= m1);
        if let Some(p) = parent {
            if let Some(n) = value_mut(&mut self.nodes, p.0) {
                if !has_id(&n.children, child) {
                    n.children.push(child);
                }
            }
        }
        assert(self@.nodes =~= adopted(was, child, parent));
    }

    /// Takes a node out of the tree; its children go to its parent. The root
    /// stays.
    pub fn remove_node(&mut self, id: PrefixNodeId) -> (res: bool)
        ensures
            res == (Some(id) != old(self)@.root && old(self)@.has(id)),
            final(self)@ == old(self)@.removed(id),
    {
        broadcast use vstd::std_specs::hash::group_hash_axioms;

        if let Some(root) = self.root {
            if root == id {
                return false;
            }
        }
        let ghost was = self@.nodes;
        let node = match self.nodes.remove(&id.0) {
            Some(n) => n,
            None => {
                assert(self@.nodes =~= was);
                return false;
            },
        };
        assert(node@ == was[id.0]);
        assert(self@.nodes =~= was.remove(id.0));
        if let Some(parent) = node.parent {
            if let Some(p) = value_mut(&mut self.nodes, parent.0) {
                p.children = ids_without(&p.children, id);
            }
        }
        let ghost m2 = match node.parent {
            None => was.remove(id.0),
            Some(p) => changed(
                was.remove(id.0),
                p,
                |n: PrefixNodeView|
                    PrefixNodeView { children: ids_but(n.children, id), ..n },
            ),
        };
        assert(self@.nodes =~= m2);
        let mut i: usize = 0;
        assert(node.children@.take(0) =~= Seq::empty());
        while i < node.children.len()
            invariant
                i <= node.children@.len(),
                self@.root == old(self)@.root,
                self@.nodes == all_adopted(m2, node.children@.take(i as int), node.parent),
            decreases node.children@.len() - i,
        {
            proof {
                let next = node.children@.take(i + 1);
                assert(next.drop_last() =~= node.children@.take(i as int));
                assert(next.last() == node.children@[i as int]);
            }
            self.adopt(node.children[i], node.parent);
            i += 1;
        }
        assert(node.children@.take(i as int) =~= node.children@);
        true
    }

    pub fn len(&self) -> (res: usize)
        ensures
            res == self@.nodes.dom().len(),
    {
        broadcast use vstd::std_specs::hash::group_hash_axioms;

        assert(self@.nodes.dom() =~= self.nodes@.dom());
        self.nodes.len()
    }

    pub fn is_empty(&self) -> (res: bool)
        ensures
            res == (self@.nodes.dom().len() == 0),
    {
        self.len() == 0
    }
}

} // verus!
