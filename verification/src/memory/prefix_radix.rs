//! What holds of a prefix tree that insertions have built.
use vstd::prelude::*;

use crate::ids::{PrefixNodeId, TrajectoryId};
use crate::memory::manager;
use crate::memory::prefix_laws;
use crate::memory::prefix_tree;
use crate::memory::prefix_tree::{Nodes, PrefixNodeView, TreeView};

verus! {

/// The first token of a node's edge.
pub open spec fn start(m: Nodes, c: PrefixNodeId) -> u32 {
    m[c.0].tokens[0]
}

/// The children of a node start with different tokens.
pub open spec fn starts_differ(m: Nodes, p: u128) -> bool {
    forall|i: int, j: int|
        0 <= i < j < m[p].children.len() ==> start(m, #[trigger] m[p].children[i]) != start(
            m,
            #[trigger] m[p].children[j],
        )
}

/// The nodes form one tree below `root`. Every other node has a parent and an
/// edge with tokens on it, and siblings start with different tokens.
pub open spec fn radix(m: Nodes, root: PrefixNodeId) -> bool {
    &&& prefix_laws::tree_shaped(m)
    &&& m.dom().contains(root.0) && m[root.0].parent is None
    &&& forall|x: u128| #[trigger]
        m.dom().contains(x) ==> x == root.0 || (m[x].parent is Some && m[x].tokens.len() > 0)
    &&& forall|p: u128| #[trigger] m.dom().contains(p) ==> starts_differ(m, p)
}

/// A tree in order, a node of it, and two ids that are new in it.
pub open spec fn in_order(
    tree: TreeView,
    parent: PrefixNodeId,
    mid: PrefixNodeId,
    leaf: PrefixNodeId,
) -> bool {
    &&& tree.root matches Some(r) && radix(tree.nodes, r)
    &&& tree.nodes.dom().contains(parent.0)
    &&& prefix_laws::new_ids(tree.nodes, mid, leaf)
}

/// A root alone is in order.
pub proof fn lemma_fresh_radix(root: PrefixNodeId)
    ensures
        radix(
            Map::<u128, PrefixNodeView>::empty().insert(root.0, PrefixNodeView::bare(root)),
            root,
        ),
{
    let n = Map::<u128, PrefixNodeView>::empty().insert(root.0, PrefixNodeView::bare(root));
    assert(prefix_laws::ranked(n, |x: u128| 0int));
}

/// An insertion: the tokens, whose they are, and where they go; with the ids
/// for nodes that it may create.
pub struct Insertion {
    pub parent: PrefixNodeId,
    pub tokens: Seq<u32>,
    pub owner: TrajectoryId,
    pub mid: PrefixNodeId,
    pub leaf: PrefixNodeId,
}

impl Insertion {
    /// The tree after it.
    pub open spec fn done(self, m: Nodes) -> Nodes {
        prefix_tree::inserted(m, self.parent, self.tokens, self.owner, self.mid, self.leaf).0
    }

    /// It goes under a node of the tree, and its ids are new.
    pub open spec fn fits(self, m: Nodes) -> bool {
        m.dom().contains(self.parent.0) && prefix_laws::new_ids(m, self.mid, self.leaf)
    }
}

/// The tree after several insertions, one after the other.
pub open spec fn after(m: Nodes, steps: Seq<Insertion>) -> Nodes
    decreases steps.len(),
{
    if steps.len() == 0 {
        m
    } else {
        steps.last().done(after(m, steps.drop_last()))
    }
}

/// Whether each of them fits the tree that it finds.
pub open spec fn all_fit(m: Nodes, steps: Seq<Insertion>) -> bool
    decreases steps.len(),
{
    steps.len() == 0 || (all_fit(m, steps.drop_last()) && steps.last().fits(
        after(m, steps.drop_last()),
    ))
}

proof fn lemma_same_radix(m: Nodes, n: Nodes, root: PrefixNodeId)
    requires
        radix(m, root),
        prefix_laws::same_shape(m, n),
    ensures
        radix(n, root),
{
    prefix_laws::lemma_same_tree(m, n);
    assert(m.dom().contains(root.0));
    assert forall|x: u128| #[trigger] n.dom().contains(x) implies x == root.0 || (
    n[x].parent is Some && n[x].tokens.len() > 0) by {
        assert(m.dom().contains(x));
    }
    assert forall|p: u128| #[trigger] n.dom().contains(p) implies starts_differ(n, p) by {
        assert(m.dom().contains(p));
        assert(starts_differ(m, p));
        assert forall|i: int, j: int| 0 <= i < j < n[p].children.len() implies start(
            n,
            #[trigger] n[p].children[i],
        ) != start(n, #[trigger] n[p].children[j]) by {
            let a = m[p].children[i];
            let b = m[p].children[j];
            assert(m.dom().contains(a.0) && m.dom().contains(b.0));
            assert(start(m, a) != start(m, b));
        }
    }
}

proof fn lemma_grown_radix(
    m: Nodes,
    root: PrefixNodeId,
    parent: PrefixNodeId,
    tokens: Seq<u32>,
    owner: TrajectoryId,
    leaf: PrefixNodeId,
)
    requires
        radix(m, root),
        m.dom().contains(parent.0),
        !m.dom().contains(leaf.0),
        tokens.len() > 0,
        forall|i: int|
            0 <= i < m[parent.0].children.len() ==> start(m, #[trigger] m[parent.0].children[i])
                != tokens[0],
    ensures
        radix(prefix_tree::grown(m, parent, tokens, owner, leaf).0, root),
{
    let n = prefix_tree::grown(m, parent, tokens, owner, leaf).0;
    prefix_laws::lemma_grown_tree(m, parent, tokens, owner, leaf);
    assert forall|x: u128| #[trigger] n.dom().contains(x) implies x == root.0 || (
    n[x].parent is Some && n[x].tokens.len() > 0) by {
        if x != leaf.0 {
            assert(m.dom().contains(x));
        }
    }
    assert forall|p: u128| #[trigger] n.dom().contains(p) implies starts_differ(n, p) by {
        if p != leaf.0 {
            assert(m.dom().contains(p));
            assert(starts_differ(m, p));
            assert forall|i: int, j: int| 0 <= i < j < n[p].children.len() implies start(
                n,
                #[trigger] n[p].children[i],
            ) != start(n, #[trigger] n[p].children[j]) by {
                let a = m[p].children[i];
                assert(n[p].children[i] == a && m.dom().contains(a.0));
                if j < m[p].children.len() {
                    let b = m[p].children[j];
                    assert(n[p].children[j] == b && m.dom().contains(b.0));
                    assert(start(m, a) != start(m, b));
                } else {
                    assert(p == parent.0 && n[p].children[j] == leaf);
                }
            }
        }
    }
}

proof fn lemma_split_radix(
    m: Nodes,
    root: PrefixNodeId,
    c: PrefixNodeId,
    at: int,
    mid: PrefixNodeId,
)
    requires
        radix(m, root),
        m.dom().contains(c.0),
        0 < at < m[c.0].tokens.len(),
        m[c.0].parent is Some,
        !m.dom().contains(mid.0),
    ensures
        radix(prefix_tree::split(m, c, at, mid).unwrap().0, root),
{
    prefix_laws::lemma_split_facts(m, c, at, mid);
    prefix_laws::lemma_split_tree(m, c, at, mid);
    let q = m[c.0].parent.unwrap();
    let n = prefix_tree::split(m, c, at, mid).unwrap().0;
    assert(root != c);
    assert(n[root.0].parent is None) by {
        if root != q {
            assert(n[root.0] == m[root.0]);
        }
    }
    assert forall|x: u128| #[trigger] n.dom().contains(x) implies x == root.0 || (
    n[x].parent is Some && n[x].tokens.len() > 0) by {
        if x != mid.0 {
            assert(m.dom().contains(x));
            if x != c.0 && x != q.0 {
                assert(n[x] == m[x]);
            }
        }
    }
    assert forall|p: u128| #[trigger] n.dom().contains(p) implies starts_differ(n, p) by {
        if p != mid.0 {
            assert(m.dom().contains(p));
            assert(starts_differ(m, p));
            assert forall|i: int, j: int| 0 <= i < j < n[p].children.len() implies start(
                n,
                #[trigger] n[p].children[i],
            ) != start(n, #[trigger] n[p].children[j]) by {
                assert(n[p].children.len() == m[p].children.len()) by {
                    if p != c.0 && p != q.0 {
                        assert(n[p] == m[p]);
                    }
                }
                lemma_split_start(m, c, at, mid, p, i);
                lemma_split_start(m, c, at, mid, p, j);
                assert(start(m, m[p].children[i]) != start(m, m[p].children[j]));
            }
        }
    }
}

/// A split leaves the start of each child of each node as it was.
proof fn lemma_split_start(
    m: Nodes,
    c: PrefixNodeId,
    at: int,
    mid: PrefixNodeId,
    p: u128,
    i: int,
)
    requires
        prefix_laws::tree_shaped(m),
        m.dom().contains(c.0),
        0 < at < m[c.0].tokens.len(),
        m[c.0].parent is Some,
        !m.dom().contains(mid.0),
        m.dom().contains(p),
        0 <= i < m[p].children.len(),
    ensures
        ({
            let n = prefix_tree::split(m, c, at, mid).unwrap().0;
            &&& 0 <= i < n[p].children.len()
            &&& start(n, n[p].children[i]) == start(m, m[p].children[i])
        }),
{
    prefix_laws::lemma_split_facts(m, c, at, mid);
    let q = m[c.0].parent.unwrap();
    let n = prefix_tree::split(m, c, at, mid).unwrap().0;
    let x = m[p].children[i];
    assert(m.dom().contains(x.0) && m[x.0].parent == Some(PrefixNodeId(p)));
    if x == c {
        assert(p == q.0);
        assert(n[p].children[i] == mid);
    } else {
        assert(n[p].children[i] == x) by {
            if p != c.0 && p != q.0 {
                assert(n[p] == m[p]);
            }
        }
        assert(n[x.0].tokens == m[x.0].tokens) by {
            if x != q {
                assert(n[x.0] == m[x.0]);
            }
        }
    }
}

/// An insertion keeps the tree in order: edges hold tokens, and siblings start
/// with different ones.
#[verifier::rlimit(60)]
#[verifier::spinoff_prover]
pub proof fn law_insert_keeps_radix(m: Nodes, root: PrefixNodeId, step: Insertion)
    requires
        radix(m, root),
        step.fits(m),
    ensures
        radix(step.done(m), root),
    decreases step.tokens.len(),
{
    let Insertion { parent, tokens, owner, mid, leaf } = step;
    let n = step.done(m);
    if tokens.len() == 0 {
        prefix_laws::lemma_joined_shape(m, parent, owner);
        lemma_same_radix(m, n, root);
    } else {
        let children = m[parent.0].children;
        prefix_tree::lemma_first_hit(m, children, tokens);
        match prefix_tree::first_hit(m, children, tokens) {
            None => {
                assert forall|i: int| 0 <= i < children.len() implies start(
                    m,
                    #[trigger] m[parent.0].children[i],
                ) != tokens[0] by {
                    let c = m[parent.0].children[i];
                    assert(m.dom().contains(c.0) && m[c.0].parent is Some);
                    assert(c != root && m[c.0].tokens.len() > 0);
                    assert(children[i] == c);
                    prefix_tree::lemma_common(tokens, m[c.0].tokens);
                }
                lemma_grown_radix(m, root, parent, tokens, owner, leaf);
            },
            Some(i) => {
                let c = children[i];
                assert(m.dom().contains(m[parent.0].children[i].0));
                let edge = m[c.0].tokens;
                let k = prefix_tree::common(tokens, edge) as int;
                prefix_tree::lemma_common(tokens, edge);
                if k == edge.len() && k == tokens.len() {
                    prefix_laws::lemma_joined_shape(m, c, owner);
                    lemma_same_radix(m, n, root);
                } else if k == edge.len() {
                    let below = Insertion { parent: c, tokens: tokens.skip(k), ..step };
                    law_insert_keeps_radix(m, root, below);
                    assert(below.done(m) == n);
                } else {
                    lemma_split_radix(m, root, c, k, mid);
                    prefix_laws::lemma_split_facts(m, c, k, mid);
                    let m1 = prefix_tree::split(m, c, k, mid).unwrap().0;
                    if k == tokens.len() {
                        prefix_laws::lemma_joined_shape(m1, mid, owner);
                        lemma_same_radix(m1, n, root);
                    } else {
                        let rest = tokens.skip(k);
                        assert(rest[0] == tokens[k]);
                        assert(start(m1, c) == edge[k]);
                        lemma_grown_radix(m1, root, mid, rest, owner, leaf);
                        let m2 = prefix_tree::grown(m1, mid, rest, owner, leaf).0;
                        prefix_laws::lemma_joined_shape(m2, mid, owner);
                        lemma_same_radix(m2, n, root);
                    }
                }
            },
        }
    }
}

/// A tree that a fresh root and any number of insertions have built: siblings
/// start with different tokens, no edge below the root is empty, and every node
/// but the root has a parent that lists it exactly once.
pub proof fn law_built_tree(tree: TreeView, steps: Seq<Insertion>)
    requires
        manager::root_only(tree),
        all_fit(tree.nodes, steps),
    ensures
        radix(after(tree.nodes, steps), tree.root.unwrap()),
        forall|x: u128|
            #![trigger after(tree.nodes, steps)[x]]
            after(tree.nodes, steps).dom().contains(x) && x != tree.root.unwrap().0
                ==> listed_once(after(tree.nodes, steps), x),
    decreases steps.len(),
{
    let root = tree.root.unwrap();
    let n = after(tree.nodes, steps);
    if steps.len() == 0 {
        lemma_fresh_radix(root);
    } else {
        law_built_tree(tree, steps.drop_last());
        law_insert_keeps_radix(after(tree.nodes, steps.drop_last()), root, steps.last());
    }
    assert forall|x: u128|
        #![trigger n[x]]
        n.dom().contains(x) && x != root.0 implies listed_once(n, x) by {
        assert(n.dom().contains(x));
        let p = n[x].parent.unwrap();
        assert(n.dom().contains(p.0) && n[p.0].children.contains(PrefixNodeId(x)));
        let i = choose|i: int|
            0 <= i < n[p.0].children.len() && n[p.0].children[i] == PrefixNodeId(x);
        assert(starts_differ(n, p.0));
        assert forall|j: int|
            0 <= j < n[p.0].children.len() && #[trigger] n[p.0].children[j] == PrefixNodeId(
                x,
            ) implies j == i by {
            if j < i {
                assert(start(n, n[p.0].children[j]) != start(n, n[p.0].children[i]));
            } else if i < j {
                assert(start(n, n[p.0].children[i]) != start(n, n[p.0].children[j]));
            }
        }
    }
}

/// A node's parent is in the tree and lists it, once.
pub open spec fn listed_once(m: Nodes, x: u128) -> bool {
    m[x].parent matches Some(p) && m.dom().contains(p.0) && exists|i: int|
        {
            &&& 0 <= i < m[p.0].children.len()
            &&& #[trigger] m[p.0].children[i] == PrefixNodeId(x)
            &&& forall|j: int|
                0 <= j < m[p.0].children.len() && #[trigger] m[p.0].children[j] == PrefixNodeId(x)
                    ==> j == i
        }
}

/// In such a tree, inserting tokens under a node again gives the same node and
/// makes no new one.
pub proof fn law_built_tree_shares(
    tree: TreeView,
    steps: Seq<Insertion>,
    first: Insertion,
    again: Insertion,
)
    requires
        manager::root_only(tree),
        all_fit(tree.nodes, steps),
        first.fits(after(tree.nodes, steps)),
        again.parent == first.parent,
        again.tokens == first.tokens,
    ensures
        ({
            let m = after(tree.nodes, steps);
            let n = first.done(m);
            let (o, res) = prefix_tree::inserted(
                n,
                again.parent,
                again.tokens,
                again.owner,
                again.mid,
                again.leaf,
            );
            &&& res is Some
            &&& res == prefix_tree::inserted(
                m,
                first.parent,
                first.tokens,
                first.owner,
                first.mid,
                first.leaf,
            ).1
            &&& o.dom() == n.dom()
        }),
{
    law_built_tree(tree, steps);
    let m = after(tree.nodes, steps);
    prefix_laws::law_insert(
        m,
        first.parent,
        first.tokens,
        first.owner,
        first.mid,
        first.leaf,
    );
    prefix_laws::law_reinsert_shares(
        first.done(m),
        again.parent,
        again.tokens,
        again.owner,
        again.mid,
        again.leaf,
    );
}

/// A way down: each node names the one before it as its parent.
pub open spec fn trail(m: Nodes, t: Seq<PrefixNodeId>) -> bool
    decreases t.len(),
{
    &&& t.len() > 0
    &&& m.dom().contains(t.last().0)
    &&& t.len() > 1 ==> trail(m, t.drop_last()) && m[t.last().0].parent == Some(
        t.drop_last().last(),
    )
}

/// The tokens on a way down.
pub open spec fn spelled(m: Nodes, t: Seq<PrefixNodeId>) -> Seq<u32>
    decreases t.len(),
{
    if t.len() <= 1 {
        Seq::empty()
    } else {
        spelled(m, t.drop_last()) + m[t.last().0].tokens
    }
}

/// A way down, with `mid` before `c`.
pub open spec fn by_way_of(t: Seq<PrefixNodeId>, c: PrefixNodeId, mid: PrefixNodeId) -> Seq<
    PrefixNodeId,
>
    decreases t.len(),
{
    if t.len() <= 1 {
        t
    } else if t.last() == c {
        by_way_of(t.drop_last(), c, mid).push(mid).push(c)
    } else {
        by_way_of(t.drop_last(), c, mid).push(t.last())
    }
}

/// Whether one way leads from and to the same nodes as another, over the same
/// tokens.
pub open spec fn same_way(
    m: Nodes,
    t: Seq<PrefixNodeId>,
    n: Nodes,
    u: Seq<PrefixNodeId>,
) -> bool {
    &&& trail(n, u)
    &&& u[0] == t[0]
    &&& u.last() == t.last()
    &&& spelled(n, u) == spelled(m, t)
}

proof fn lemma_trail_push(n: Nodes, v: Seq<PrefixNodeId>, x: PrefixNodeId)
    requires
        trail(n, v),
        n.dom().contains(x.0),
        n[x.0].parent == Some(v.last()),
    ensures
        trail(n, v.push(x)),
        spelled(n, v.push(x)) == spelled(n, v) + n[x.0].tokens,
        v.push(x)[0] == v[0],
        v.push(x).last() == x,
{
    assert(v.push(x).drop_last() =~= v);
}

/// Splitting an edge keeps the tokens between any node and any node above it,
/// the root among them.
pub proof fn law_split_keeps_ways(
    m: Nodes,
    c: PrefixNodeId,
    at: int,
    mid: PrefixNodeId,
    t: Seq<PrefixNodeId>,
)
    requires
        prefix_laws::tree_shaped(m),
        m.dom().contains(c.0),
        0 < at < m[c.0].tokens.len(),
        m[c.0].parent is Some,
        !m.dom().contains(mid.0),
        trail(m, t),
    ensures
        same_way(m, t, prefix_tree::split(m, c, at, mid).unwrap().0, by_way_of(t, c, mid)),
    decreases t.len(),
{
    let n = prefix_tree::split(m, c, at, mid).unwrap().0;
    let x = t.last();
    lemma_split_node(m, c, at, mid, x);
    if t.len() > 1 {
        let front = t.drop_last();
        law_split_keeps_ways(m, c, at, mid, front);
        let v = by_way_of(front, c, mid);
        if x == c {
            lemma_trail_push(n, v, mid);
            lemma_trail_push(n, v.push(mid), c);
            assert(spelled(n, v.push(mid).push(c)) =~= spelled(m, front) + m[c.0].tokens);
        } else {
            lemma_trail_push(n, v, x);
        }
    }
}

/// What a split makes of one node.
proof fn lemma_split_node(
    m: Nodes,
    c: PrefixNodeId,
    at: int,
    mid: PrefixNodeId,
    x: PrefixNodeId,
)
    requires
        prefix_laws::tree_shaped(m),
        m.dom().contains(c.0),
        0 < at < m[c.0].tokens.len(),
        m[c.0].parent is Some,
        !m.dom().contains(mid.0),
        m.dom().contains(x.0),
    ensures
        ({
            let n = prefix_tree::split(m, c, at, mid).unwrap().0;
            &&& n.dom().contains(x.0)
            &&& n.dom().contains(mid.0)
            &&& x != c ==> n[x.0].parent == m[x.0].parent && n[x.0].tokens == m[x.0].tokens
            &&& n[mid.0].parent == m[c.0].parent
            &&& n[c.0].parent == Some(mid)
            &&& n[mid.0].tokens + n[c.0].tokens == m[c.0].tokens
        }),
{
    prefix_laws::lemma_split_facts(m, c, at, mid);
    let q = m[c.0].parent.unwrap();
    let n = prefix_tree::split(m, c, at, mid).unwrap().0;
    if x != c && x != q {
        assert(n[x.0] == m[x.0]);
    }
    assert(m[c.0].tokens.take(at) + m[c.0].tokens.skip(at) =~= m[c.0].tokens);
}

/// Whether every node is still there, under its parent and with its tokens.
spec fn same_edges(m: Nodes, n: Nodes) -> bool {
    forall|x: u128| #[trigger]
        m.dom().contains(x) ==> n.dom().contains(x) && n[x].parent == m[x].parent && n[x].tokens
            == m[x].tokens
}

proof fn lemma_same_ways(m: Nodes, n: Nodes, t: Seq<PrefixNodeId>)
    requires
        same_edges(m, n),
        trail(m, t),
    ensures
        same_way(m, t, n, t),
    decreases t.len(),
{
    assert(m.dom().contains(t.last().0));
    if t.len() > 1 {
        lemma_same_ways(m, n, t.drop_last());
    }
}

proof fn lemma_grown_edges(
    m: Nodes,
    parent: PrefixNodeId,
    tokens: Seq<u32>,
    owner: TrajectoryId,
    leaf: PrefixNodeId,
)
    requires
        m.dom().contains(parent.0),
        !m.dom().contains(leaf.0),
    ensures
        same_edges(m, prefix_tree::grown(m, parent, tokens, owner, leaf).0),
{
}

/// An insertion keeps the tokens between any node and any node above it, the
/// root among them.
#[verifier::spinoff_prover]
pub proof fn law_insert_keeps_ways(m: Nodes, step: Insertion, t: Seq<PrefixNodeId>)
    requires
        prefix_laws::tree_shaped(m),
        step.fits(m),
        trail(m, t),
    ensures
        exists|u: Seq<PrefixNodeId>| #[trigger] same_way(m, t, step.done(m), u),
    decreases step.tokens.len(),
{
    let Insertion { parent, tokens, owner, mid, leaf } = step;
    let n = step.done(m);
    if tokens.len() == 0 {
        prefix_laws::lemma_joined_shape(m, parent, owner);
        lemma_same_ways(m, n, t);
    } else {
        let children = m[parent.0].children;
        prefix_tree::lemma_first_hit(m, children, tokens);
        match prefix_tree::first_hit(m, children, tokens) {
            None => {
                lemma_grown_edges(m, parent, tokens, owner, leaf);
                lemma_same_ways(m, n, t);
            },
            Some(i) => {
                let c = children[i];
                assert(m.dom().contains(m[parent.0].children[i].0));
                let edge = m[c.0].tokens;
                let k = prefix_tree::common(tokens, edge) as int;
                prefix_tree::lemma_common(tokens, edge);
                if k == edge.len() && k == tokens.len() {
                    prefix_laws::lemma_joined_shape(m, c, owner);
                    lemma_same_ways(m, n, t);
                } else if k == edge.len() {
                    let below = Insertion { parent: c, tokens: tokens.skip(k), ..step };
                    law_insert_keeps_ways(m, below, t);
                    assert(below.done(m) == n);
                } else {
                    law_split_keeps_ways(m, c, k, mid, t);
                    let m1 = prefix_tree::split(m, c, k, mid).unwrap().0;
                    let u = by_way_of(t, c, mid);
                    lemma_split_dom(m, c, k, mid, leaf);
                    if k == tokens.len() {
                        prefix_laws::lemma_joined_shape(m1, mid, owner);
                        lemma_same_ways(m1, n, u);
                    } else {
                        let rest = tokens.skip(k);
                        let m2 = prefix_tree::grown(m1, mid, rest, owner, leaf).0;
                        lemma_grown_edges(m1, mid, rest, owner, leaf);
                        lemma_same_ways(m1, m2, u);
                        prefix_laws::lemma_joined_shape(m2, mid, owner);
                        lemma_same_ways(m2, n, u);
                    }
                    assert(same_way(m, t, n, u));
                }
            },
        }
    }
}

proof fn lemma_split_dom(
    m: Nodes,
    c: PrefixNodeId,
    at: int,
    mid: PrefixNodeId,
    leaf: PrefixNodeId,
)
    requires
        prefix_laws::tree_shaped(m),
        m.dom().contains(c.0),
        0 < at < m[c.0].tokens.len(),
        m[c.0].parent is Some,
        prefix_laws::new_ids(m, mid, leaf),
    ensures
        prefix_tree::split(m, c, at, mid).unwrap().0.dom().contains(mid.0),
        !prefix_tree::split(m, c, at, mid).unwrap().0.dom().contains(leaf.0),
{
    prefix_laws::lemma_split_facts(m, c, at, mid);
}

} // verus!
