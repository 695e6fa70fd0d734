//! What holds of the prefix tree as a whole: what was stored is found, and is not
//! stored again. That siblings start with different tokens, that edges hold
//! tokens, and that paths are kept, is in `prefix_radix`.
use vstd::prelude::*;

use crate::ids::{PrefixNodeId, TrajectoryId};
use crate::memory::prefix_tree;
use crate::memory::prefix_tree::{Nodes, PrefixNodeView, TreeView};

verus! {

/// The node at which `tokens` end when they are read from `from` downwards,
/// along the first child that shares their start, over whole edges.
pub open spec fn lookup(m: Nodes, from: PrefixNodeId, tokens: Seq<u32>) -> Option<PrefixNodeId>
    decreases tokens.len(),
{
    if tokens.len() == 0 {
        Some(from)
    } else if !m.dom().contains(from.0) {
        None
    } else {
        let children = m[from.0].children;
        match prefix_tree::first_hit(m, children, tokens) {
            None => None,
            Some(i) => {
                let c = children[i];
                let edge = m[c.0].tokens;
                let k = prefix_tree::common(tokens, edge);
                if m.dom().contains(c.0) && k == edge.len() {
                    proof {
                        prefix_tree::lemma_first_hit(m, children, tokens);
                        prefix_tree::lemma_common(tokens, edge);
                    }
                    lookup(m, c, tokens.skip(k as int))
                } else {
                    None
                }
            },
        }
    }
}

/// Every child that a node names is in the tree and names it as its parent.
pub open spec fn linked_down(m: Nodes) -> bool {
    forall|p: u128, i: int|
        #![trigger m[p].children[i]]
        m.dom().contains(p) && 0 <= i < m[p].children.len() ==> {
            let c = m[p].children[i];
            m.dom().contains(c.0) && m[c.0].parent == Some(PrefixNodeId(p))
        }
}

/// Every parent that a node names is in the tree and names it as its child.
pub open spec fn linked_up(m: Nodes) -> bool {
    forall|x: u128| #[trigger]
        m.dom().contains(x) ==> match m[x].parent {
            Some(p) => m.dom().contains(p.0) && m[p.0].children.contains(PrefixNodeId(x)),
            None => true,
        }
}

/// `rank` grows from every node to those that name it as their parent.
pub open spec fn ranked(m: Nodes, rank: spec_fn(u128) -> int) -> bool {
    forall|x: u128| #[trigger]
        m.dom().contains(x) ==> match m[x].parent {
            Some(p) => rank(p.0) < rank(x),
            None => true,
        }
}

/// The nodes form trees: links go both ways, and no way up leads in a circle.
pub open spec fn tree_shaped(m: Nodes) -> bool {
    linked_down(m) && linked_up(m) && exists|rank: spec_fn(u128) -> int| ranked(m, rank)
}

/// The two ids are new to the tree, and different.
pub open spec fn new_ids(m: Nodes, mid: PrefixNodeId, leaf: PrefixNodeId) -> bool {
    !m.dom().contains(mid.0) && !m.dom().contains(leaf.0) && mid != leaf
}

/// The same nodes, with the same edges, parents and children.
pub open spec fn same_shape(m: Nodes, n: Nodes) -> bool {
    &&& m.dom() == n.dom()
    &&& forall|k: u128| #[trigger]
        m.dom().contains(k) ==> m[k].tokens == n[k].tokens && m[k].children == n[k].children
            && m[k].parent == n[k].parent && m[k].id == n[k].id
}

pub(crate) proof fn lemma_joined_shape(m: Nodes, id: PrefixNodeId, owner: TrajectoryId)
    ensures
        same_shape(m, prefix_tree::joined(m, id, owner)),
        same_shape(m, prefix_tree::shared(prefix_tree::joined(m, id, owner), id)),
        same_shape(m, prefix_tree::shared(m, id)),
{
    let j = prefix_tree::joined(m, id, owner);
    assert(j.dom() =~= m.dom());
    assert(prefix_tree::shared(j, id).dom() =~= m.dom());
    assert(prefix_tree::shared(m, id).dom() =~= m.dom());
}

proof fn lemma_same_first_hit(m: Nodes, n: Nodes, children: Seq<PrefixNodeId>, tokens: Seq<u32>)
    requires
        same_shape(m, n),
    ensures
        prefix_tree::first_hit(m, children, tokens) == prefix_tree::first_hit(n, children, tokens),
    decreases children.len(),
{
    if children.len() > 0 {
        lemma_same_first_hit(m, n, children.drop_first(), tokens);
    }
}

/// What is found depends on the shape alone.
pub proof fn lemma_same_lookup(m: Nodes, n: Nodes, from: PrefixNodeId, tokens: Seq<u32>)
    requires
        same_shape(m, n),
    ensures
        lookup(m, from, tokens) == lookup(n, from, tokens),
    decreases tokens.len(),
{
    if tokens.len() > 0 && m.dom().contains(from.0) {
        let children = m[from.0].children;
        lemma_same_first_hit(m, n, children, tokens);
        prefix_tree::lemma_first_hit(m, children, tokens);
        if let Some(i) = prefix_tree::first_hit(m, children, tokens) {
            let c = children[i];
            if m.dom().contains(c.0) {
                let edge = m[c.0].tokens;
                let k = prefix_tree::common(tokens, edge);
                prefix_tree::lemma_common(tokens, edge);
                if k == edge.len() {
                    lemma_same_lookup(m, n, c, tokens.skip(k as int));
                }
            }
        }
    }
}

pub proof fn lemma_same_tree(m: Nodes, n: Nodes)
    requires
        same_shape(m, n),
        tree_shaped(m),
    ensures
        tree_shaped(n),
{
    let rank = choose|rank: spec_fn(u128) -> int| ranked(m, rank);
    assert forall|x: u128| #[trigger] n.dom().contains(x) implies match n[x].parent {
        Some(p) => n.dom().contains(p.0) && n[p.0].children.contains(PrefixNodeId(x)),
        None => true,
    } by {
        assert(m.dom().contains(x));
    }
    assert forall|p: u128, i: int|
        #![trigger n[p].children[i]]
        n.dom().contains(p) && 0 <= i < n[p].children.len() implies {
        let c = n[p].children[i];
        n.dom().contains(c.0) && n[c.0].parent == Some(PrefixNodeId(p))
    } by {
        assert(m[p].children[i] == n[p].children[i]);
    }
    assert(ranked(n, rank)) by {
        assert forall|x: u128| #[trigger] n.dom().contains(x) implies match n[x].parent {
            Some(p) => rank(p.0) < rank(x),
            None => true,
        } by {
            assert(m.dom().contains(x));
        }
    }
}

/// A common start is measured alike in a longer sequence.
proof fn lemma_common_longer(a: Seq<u32>, b: Seq<u32>, e: Seq<u32>)
    requires
        a.len() > 0,
    ensures
        prefix_tree::common(a + b, e) > 0 <==> prefix_tree::common(a, e) > 0,
        prefix_tree::common(a, e) == e.len() ==> prefix_tree::common(a + b, e) == e.len(),
{
    prefix_tree::lemma_common(a, e);
    prefix_tree::lemma_common(a + b, e);
    assert((a + b)[0] == a[0]);
    if prefix_tree::common(a, e) == e.len() {
        assert forall|i: int| 0 <= i < e.len() implies (a + b)[i] == #[trigger] e[i] by {
            assert(a[i] == e[i]);
        }
        prefix_tree::lemma_common_is(a + b, e, e.len() as int);
    }
}

proof fn lemma_first_hit_longer(
    m: Nodes,
    children: Seq<PrefixNodeId>,
    a: Seq<u32>,
    b: Seq<u32>,
)
    requires
        a.len() > 0,
    ensures
        prefix_tree::first_hit(m, children, a + b) == prefix_tree::first_hit(m, children, a),
    decreases children.len(),
{
    if children.len() > 0 {
        lemma_common_longer(a, b, m[children[0].0].tokens);
        lemma_first_hit_longer(m, children.drop_first(), a, b);
    }
}

/// Reading on from where a first part ended is reading both parts in one.
pub proof fn law_lookup_composes(
    m: Nodes,
    from: PrefixNodeId,
    a: Seq<u32>,
    via: PrefixNodeId,
    b: Seq<u32>,
)
    requires
        lookup(m, from, a) == Some(via),
    ensures
        lookup(m, from, a + b) == lookup(m, via, b),
    decreases a.len(),
{
    if a.len() == 0 {
        assert(a + b =~= b);
    } else {
        let children = m[from.0].children;
        lemma_first_hit_longer(m, children, a, b);
        prefix_tree::lemma_first_hit(m, children, a);
        let i = prefix_tree::first_hit(m, children, a).unwrap();
        let c = children[i];
        let edge = m[c.0].tokens;
        let k = prefix_tree::common(a, edge);
        prefix_tree::lemma_common(a, edge);
        lemma_common_longer(a, b, edge);
        assert((a + b).skip(k as int) =~= a.skip(k as int) + b);
        law_lookup_composes(m, c, a.skip(k as int), via, b);
    }
}

/// A new leaf hides nothing: what was found before is found still.
proof fn lemma_grown_keeps(
    m: Nodes,
    parent: PrefixNodeId,
    tokens: Seq<u32>,
    owner: TrajectoryId,
    leaf: PrefixNodeId,
    from: PrefixNodeId,
    path: Seq<u32>,
)
    requires
        linked_down(m),
        m.dom().contains(parent.0),
        !m.dom().contains(leaf.0),
        path.len() == 0 || m.dom().contains(from.0),
        lookup(m, from, path) is Some,
    ensures
        lookup(prefix_tree::grown(m, parent, tokens, owner, leaf).0, from, path) == lookup(
            m,
            from,
            path,
        ),
    decreases path.len(),
{
    let n = prefix_tree::grown(m, parent, tokens, owner, leaf).0;
    if path.len() > 0 {
        let children = m[from.0].children;
        let more = n[from.0].children;
        prefix_tree::lemma_first_hit(m, children, path);
        let i = prefix_tree::first_hit(m, children, path).unwrap();
        assert forall|j: int| 0 <= j < children.len() implies #[trigger] more[j] == children[j]
            && m.dom().contains(children[j].0) && n.dom().contains(children[j].0)
            && n[children[j].0].tokens == m[children[j].0].tokens by {
            assert(m.dom().contains(m[from.0].children[j].0));
        }
        prefix_tree::lemma_first_hit_is(n, more, path, i);
        let c = children[i];
        let edge = m[c.0].tokens;
        let k = prefix_tree::common(path, edge);
        prefix_tree::lemma_common(path, edge);
        lemma_grown_keeps(m, parent, tokens, owner, leaf, c, path.skip(k as int));
    }
}

/// A new leaf is found where nothing else shares its start.
proof fn lemma_grown_found(
    m: Nodes,
    parent: PrefixNodeId,
    tokens: Seq<u32>,
    owner: TrajectoryId,
    leaf: PrefixNodeId,
)
    requires
        linked_down(m),
        m.dom().contains(parent.0),
        !m.dom().contains(leaf.0),
        tokens.len() > 0,
        prefix_tree::first_hit(m, m[parent.0].children, tokens) is None,
    ensures
        lookup(prefix_tree::grown(m, parent, tokens, owner, leaf).0, parent, tokens) == Some(leaf),
{
    let n = prefix_tree::grown(m, parent, tokens, owner, leaf).0;
    let children = m[parent.0].children;
    let more = n[parent.0].children;
    prefix_tree::lemma_first_hit(m, children, tokens);
    assert forall|j: int| 0 <= j < children.len() implies n.dom().contains((#[trigger] more[j]).0)
        && prefix_tree::common(tokens, n[more[j].0].tokens) == 0 by {
        assert(more[j] == children[j]);
        assert(m.dom().contains(m[parent.0].children[j].0));
    }
    prefix_tree::lemma_common_is(tokens, tokens, tokens.len() as int);
    prefix_tree::lemma_first_hit_is(n, more, tokens, children.len() as int);
    assert(lookup(n, leaf, tokens.skip(tokens.len() as int)) == Some(leaf));
}

pub(crate) proof fn lemma_grown_tree(
    m: Nodes,
    parent: PrefixNodeId,
    tokens: Seq<u32>,
    owner: TrajectoryId,
    leaf: PrefixNodeId,
)
    requires
        tree_shaped(m),
        m.dom().contains(parent.0),
        !m.dom().contains(leaf.0),
    ensures
        tree_shaped(prefix_tree::grown(m, parent, tokens, owner, leaf).0),
{
    let n = prefix_tree::grown(m, parent, tokens, owner, leaf).0;
    assert forall|p: u128, i: int|
        #![trigger n[p].children[i]]
        n.dom().contains(p) && 0 <= i < n[p].children.len() implies {
        let c = n[p].children[i];
        n.dom().contains(c.0) && n[c.0].parent == Some(PrefixNodeId(p))
    } by {
        if p == leaf.0 {
        } else if i < m[p].children.len() {
            assert(m[p].children[i] == n[p].children[i]);
        } else {
            assert(n[p].children[i] == leaf);
        }
    }
    assert forall|x: u128| #[trigger] n.dom().contains(x) implies match n[x].parent {
        Some(p) => n.dom().contains(p.0) && n[p.0].children.contains(PrefixNodeId(x)),
        None => true,
    } by {
        if x == leaf.0 {
            assert(n[parent.0].children[m[parent.0].children.len() as int] == leaf);
        } else {
            assert(m.dom().contains(x));
            if let Some(p) = m[x].parent {
                let i = choose|i: int|
                    0 <= i < m[p.0].children.len() && m[p.0].children[i] == PrefixNodeId(x);
                assert(n[p.0].children[i] == PrefixNodeId(x));
            }
        }
    }
    let rank = choose|rank: spec_fn(u128) -> int| ranked(m, rank);
    let next = |x: u128|
        if x == leaf.0 {
            rank(parent.0) + 1
        } else {
            rank(x)
        };
    assert(ranked(n, next)) by {
        assert forall|x: u128| #[trigger] n.dom().contains(x) implies match n[x].parent {
            Some(p) => next(p.0) < next(x),
            None => true,
        } by {
            if x != leaf.0 {
                assert(m.dom().contains(x));
                assert(n[x].parent == m[x].parent);
            }
        }
    }
}

/// The facts about a split that the proofs below use: it happens, and only
/// the edge's two ends and the new node differ.
pub(crate) proof fn lemma_split_facts(m: Nodes, c: PrefixNodeId, at: int, mid: PrefixNodeId)
    requires
        tree_shaped(m),
        m.dom().contains(c.0),
        0 < at < m[c.0].tokens.len(),
        m[c.0].parent is Some,
        !m.dom().contains(mid.0),
    ensures
        ({
            let q = m[c.0].parent.unwrap();
            let (n, s) = prefix_tree::split(m, c, at, mid).unwrap();
            &&& prefix_tree::split(m, c, at, mid) is Some
            &&& s == mid
            &&& m.dom().contains(q.0)
            &&& q != c
            &&& n.dom() == m.dom().insert(mid.0)
            &&& n[mid.0].tokens == m[c.0].tokens.take(at)
            &&& n[mid.0].children == seq![c]
            &&& n[mid.0].parent == Some(q)
            &&& n[c.0].tokens == m[c.0].tokens.skip(at)
            &&& n[c.0].children == m[c.0].children
            &&& n[c.0].parent == Some(mid)
            &&& n[q.0].tokens == m[q.0].tokens
            &&& n[q.0].children == prefix_tree::replaced(m[q.0].children, c, mid)
            &&& n[q.0].parent == m[q.0].parent
            &&& forall|x: u128|
                #![trigger n[x]]
                m.dom().contains(x) && x != c.0 && x != q.0 ==> n[x] == m[x]
            &&& forall|p: u128, i: int|
                #![trigger m[p].children[i]]
                m.dom().contains(p) && 0 <= i < m[p].children.len() && m[p].children[i] == c ==> p
                    == q.0
        }),
{
    let rank = choose|rank: spec_fn(u128) -> int| ranked(m, rank);
    assert(m.dom().contains(c.0));
    let (n, s) = prefix_tree::split(m, c, at, mid).unwrap();
    assert(n.dom() =~= m.dom().insert(mid.0));
}

pub(crate) proof fn lemma_split_tree(m: Nodes, c: PrefixNodeId, at: int, mid: PrefixNodeId)
    requires
        tree_shaped(m),
        m.dom().contains(c.0),
        0 < at < m[c.0].tokens.len(),
        m[c.0].parent is Some,
        !m.dom().contains(mid.0),
    ensures
        tree_shaped(prefix_tree::split(m, c, at, mid).unwrap().0),
{
    lemma_split_facts(m, c, at, mid);
    let q = m[c.0].parent.unwrap();
    let n = prefix_tree::split(m, c, at, mid).unwrap().0;
    assert forall|p: u128, i: int|
        #![trigger n[p].children[i]]
        n.dom().contains(p) && 0 <= i < n[p].children.len() implies {
        let x = n[p].children[i];
        n.dom().contains(x.0) && n[x.0].parent == Some(PrefixNodeId(p))
    } by {
        if p == mid.0 {
        } else {
            let x = m[p].children[i];
            assert(m.dom().contains(x.0) && m[x.0].parent == Some(PrefixNodeId(p)));
            if p == q.0 && x == c {
            } else {
                assert(n[p].children[i] == x);
                assert(x != c);
            }
        }
    }
    assert forall|x: u128| #[trigger] n.dom().contains(x) implies match n[x].parent {
        Some(p) => n.dom().contains(p.0) && n[p.0].children.contains(PrefixNodeId(x)),
        None => true,
    } by {
        if x == c.0 {
            assert(n[mid.0].children[0] == c);
        } else if x == mid.0 {
            assert(m.dom().contains(c.0));
            let i = choose|i: int| 0 <= i < m[q.0].children.len() && m[q.0].children[i] == c;
            assert(n[q.0].children[i] == mid);
        } else {
            assert(m.dom().contains(x));
            if let Some(p) = m[x].parent {
                let i = choose|i: int|
                    0 <= i < m[p.0].children.len() && m[p.0].children[i] == PrefixNodeId(x);
                assert(n[p.0].children[i] == PrefixNodeId(x));
            }
        }
    }
    let rank = choose|rank: spec_fn(u128) -> int| ranked(m, rank);
    let next = |x: u128|
        if x == mid.0 {
            2 * rank(c.0) - 1
        } else {
            2 * rank(x)
        };
    assert(ranked(n, next)) by {
        assert forall|x: u128| #[trigger] n.dom().contains(x) implies match n[x].parent {
            Some(p) => next(p.0) < next(x),
            None => true,
        } by {
            if x == mid.0 {
                assert(m.dom().contains(c.0));
            } else {
                assert(m.dom().contains(x));
            }
        }
    }
}

/// The head and then the tail of a split edge lead where the edge led.
proof fn lemma_head_and_tail(
    n: Nodes,
    mid: PrefixNodeId,
    c: PrefixNodeId,
    edge: Seq<u32>,
    at: int,
    path: Seq<u32>,
)
    requires
        n.dom().contains(mid.0),
        n.dom().contains(c.0),
        n[mid.0].children == seq![c],
        n[c.0].tokens == edge.skip(at),
        0 < at < edge.len(),
        prefix_tree::common(path, edge) == edge.len(),
    ensures
        prefix_tree::common(path, edge.take(at)) == at,
        lookup(n, mid, path.skip(at)) == lookup(n, c, path.skip(edge.len() as int)),
{
    prefix_tree::lemma_common(path, edge);
    assert forall|j: int| 0 <= j < at implies path[j] == #[trigger] edge.take(at)[j] by {
        assert(path[j] == edge[j]);
    }
    prefix_tree::lemma_common_is(path, edge.take(at), at);
    let rest = path.skip(at);
    let tail = edge.skip(at);
    assert forall|j: int| 0 <= j < tail.len() implies rest[j] == #[trigger] tail[j] by {
        assert(path[at + j] == edge[at + j]);
    }
    prefix_tree::lemma_common_is(rest, tail, tail.len() as int);
    assert(n[mid.0].children[0] == c);
    prefix_tree::lemma_first_hit_is(n, n[mid.0].children, rest, 0);
    assert(rest.skip(tail.len() as int) =~= path.skip(edge.len() as int));
}

/// A split hides nothing: what was found before is found still.
#[verifier::rlimit(40)]
proof fn lemma_split_keeps(
    m: Nodes,
    c: PrefixNodeId,
    at: int,
    mid: PrefixNodeId,
    from: PrefixNodeId,
    path: Seq<u32>,
)
    requires
        tree_shaped(m),
        m.dom().contains(c.0),
        0 < at < m[c.0].tokens.len(),
        m[c.0].parent is Some,
        !m.dom().contains(mid.0),
        path.len() == 0 || m.dom().contains(from.0),
        lookup(m, from, path) is Some,
    ensures
        lookup(prefix_tree::split(m, c, at, mid).unwrap().0, from, path) == lookup(m, from, path),
    decreases path.len(),
{
    lemma_split_facts(m, c, at, mid);
    let q = m[c.0].parent.unwrap();
    let n = prefix_tree::split(m, c, at, mid).unwrap().0;
    let edge = m[c.0].tokens;
    if path.len() > 0 {
        let children = m[from.0].children;
        let now = n[from.0].children;
        prefix_tree::lemma_first_hit(m, children, path);
        let i = prefix_tree::first_hit(m, children, path).unwrap();
        let d = children[i];
        prefix_tree::lemma_common(path, edge.take(at));
        prefix_tree::lemma_common(path, edge);
        assert(edge.take(at)[0] == edge[0]);
        assert(now.len() == children.len());
        assert forall|j: int| 0 <= j <= i implies m.dom().contains((#[trigger] children[j]).0)
            && n.dom().contains(now[j].0) && (prefix_tree::common(path, n[now[j].0].tokens) > 0)
            == (prefix_tree::common(path, m[children[j].0].tokens) > 0) by {
            assert(m.dom().contains(m[from.0].children[j].0));
            if children[j] == c {
                assert(from == q);
                assert(now[j] == mid);
            } else {
                assert(now[j] == children[j]);
                assert(n[children[j].0].tokens == m[children[j].0].tokens);
            }
        }
        prefix_tree::lemma_first_hit_is(n, now, path, i);
        let k = prefix_tree::common(path, m[d.0].tokens) as int;
        prefix_tree::lemma_common(path, m[d.0].tokens);
        lemma_split_keeps(m, c, at, mid, d, path.skip(k));
        if d == c {
            assert(now[i] == mid);
            lemma_head_and_tail(n, mid, c, edge, at, path);
        } else {
            assert(now[i] == d);
        }
    }
}

/// An edge that `tokens` leave half way: `c` is the first child of `from` that
/// shares their start, and shares just `at` tokens of its longer edge.
spec fn diverges(
    m: Nodes,
    from: PrefixNodeId,
    tokens: Seq<u32>,
    i: int,
    c: PrefixNodeId,
    at: int,
) -> bool {
    &&& m.dom().contains(from.0)
    &&& tokens.len() > 0
    &&& prefix_tree::first_hit(m, m[from.0].children, tokens) == Some(i)
    &&& c == m[from.0].children[i]
    &&& at == prefix_tree::common(tokens, m[c.0].tokens)
    &&& at < m[c.0].tokens.len()
}

proof fn lemma_diverges(
    m: Nodes,
    from: PrefixNodeId,
    tokens: Seq<u32>,
    i: int,
    c: PrefixNodeId,
    at: int,
)
    requires
        linked_down(m),
        diverges(m, from, tokens, i, c, at),
    ensures
        0 <= i < m[from.0].children.len(),
        m.dom().contains(c.0),
        m[c.0].parent == Some(from),
        0 < at <= tokens.len(),
        tokens.take(at) == m[c.0].tokens.take(at),
        at < tokens.len() ==> tokens[at] != m[c.0].tokens[at],
        forall|j: int|
            0 <= j < i ==> m.dom().contains((#[trigger] m[from.0].children[j]).0)
                && m[from.0].children[j] != c && prefix_tree::common(
                tokens.take(at),
                m[m[from.0].children[j].0].tokens,
            ) == 0,
{
    let children = m[from.0].children;
    let edge = m[c.0].tokens;
    prefix_tree::lemma_first_hit(m, children, tokens);
    prefix_tree::lemma_common(tokens, edge);
    assert(m.dom().contains(m[from.0].children[i].0));
    assert(tokens.take(at) =~= edge.take(at)) by {
        assert forall|j: int| 0 <= j < at implies tokens.take(at)[j] == edge.take(at)[j] by {
            assert(tokens[j] == edge[j]);
        }
    }
    assert forall|j: int| 0 <= j < i implies m.dom().contains((#[trigger] m[from.0].children[j]).0)
        && m[from.0].children[j] != c && prefix_tree::common(
        tokens.take(at),
        m[m[from.0].children[j].0].tokens,
    ) == 0 by {
        assert(tokens.take(at) + tokens.skip(at) =~= tokens);
        lemma_common_longer(tokens.take(at), tokens.skip(at), m[children[j].0].tokens);
    }
}

/// A split makes the head of the edge findable.
proof fn lemma_split_found(
    m: Nodes,
    from: PrefixNodeId,
    tokens: Seq<u32>,
    i: int,
    c: PrefixNodeId,
    at: int,
    mid: PrefixNodeId,
)
    requires
        tree_shaped(m),
        !m.dom().contains(mid.0),
        diverges(m, from, tokens, i, c, at),
    ensures
        lookup(prefix_tree::split(m, c, at, mid).unwrap().0, from, tokens.take(at)) == Some(mid),
{
    lemma_diverges(m, from, tokens, i, c, at);
    lemma_split_facts(m, c, at, mid);
    let n = prefix_tree::split(m, c, at, mid).unwrap().0;
    let head = tokens.take(at);
    let now = n[from.0].children;
    assert(now[i] == mid);
    assert(n[mid.0].tokens == head);
    prefix_tree::lemma_common_is(head, head, at);
    assert forall|j: int| 0 <= j < i implies n.dom().contains((#[trigger] now[j]).0)
        && prefix_tree::common(head, n[now[j].0].tokens) == 0 by {
        let x = m[from.0].children[j];
        assert(m.dom().contains(x.0) && x != c);
        assert(now[j] == x);
        assert(n[x.0].tokens == m[x.0].tokens);
    }
    prefix_tree::lemma_first_hit_is(n, now, head, i);
    assert(lookup(n, mid, head.skip(at)) == Some(mid));
}

/// Below the head of a split edge, nothing shares the start of what is left.
proof fn lemma_split_open(
    m: Nodes,
    from: PrefixNodeId,
    tokens: Seq<u32>,
    i: int,
    c: PrefixNodeId,
    at: int,
    mid: PrefixNodeId,
)
    requires
        tree_shaped(m),
        !m.dom().contains(mid.0),
        diverges(m, from, tokens, i, c, at),
        at < tokens.len(),
    ensures
        ({
            let n = prefix_tree::split(m, c, at, mid).unwrap().0;
            prefix_tree::first_hit(n, n[mid.0].children, tokens.skip(at)) is None
        }),
{
    lemma_diverges(m, from, tokens, i, c, at);
    lemma_split_facts(m, c, at, mid);
    let n = prefix_tree::split(m, c, at, mid).unwrap().0;
    let rest = tokens.skip(at);
    let tail = m[c.0].tokens.skip(at);
    assert(rest[0] != tail[0]);
    assert(prefix_tree::common(rest, tail) == 0);
    prefix_tree::lemma_first_hit(n, n[mid.0].children, rest);
    assert(n[mid.0].children[0] == c);
}

/// Whatever is found from a node of `m` is found from it in `n` too.
pub open spec fn keeps_paths(m: Nodes, n: Nodes) -> bool {
    forall|from: PrefixNodeId, path: Seq<u32>|
        m.dom().contains(from.0) && lookup(m, from, path) is Some ==> #[trigger] lookup(
            n,
            from,
            path,
        ) == lookup(m, from, path)
}

pub proof fn lemma_same_keeps(m: Nodes, n: Nodes)
    requires
        same_shape(m, n),
    ensures
        keeps_paths(m, n),
{
    assert forall|from: PrefixNodeId, path: Seq<u32>|
        m.dom().contains(from.0) && lookup(m, from, path) is Some implies #[trigger] lookup(
        n,
        from,
        path,
    ) == lookup(m, from, path) by {
        lemma_same_lookup(m, n, from, path);
    }
}

proof fn lemma_grown_keeps_all(
    m: Nodes,
    parent: PrefixNodeId,
    tokens: Seq<u32>,
    owner: TrajectoryId,
    leaf: PrefixNodeId,
)
    requires
        linked_down(m),
        m.dom().contains(parent.0),
        !m.dom().contains(leaf.0),
    ensures
        keeps_paths(m, prefix_tree::grown(m, parent, tokens, owner, leaf).0),
{
    let n = prefix_tree::grown(m, parent, tokens, owner, leaf).0;
    assert forall|from: PrefixNodeId, path: Seq<u32>|
        m.dom().contains(from.0) && lookup(m, from, path) is Some implies #[trigger] lookup(
        n,
        from,
        path,
    ) == lookup(m, from, path) by {
        lemma_grown_keeps(m, parent, tokens, owner, leaf, from, path);
    }
}

proof fn lemma_split_keeps_all(m: Nodes, c: PrefixNodeId, at: int, mid: PrefixNodeId)
    requires
        tree_shaped(m),
        m.dom().contains(c.0),
        0 < at < m[c.0].tokens.len(),
        m[c.0].parent is Some,
        !m.dom().contains(mid.0),
    ensures
        keeps_paths(m, prefix_tree::split(m, c, at, mid).unwrap().0),
{
    let n = prefix_tree::split(m, c, at, mid).unwrap().0;
    assert forall|from: PrefixNodeId, path: Seq<u32>|
        m.dom().contains(from.0) && lookup(m, from, path) is Some implies #[trigger] lookup(
        n,
        from,
        path,
    ) == lookup(m, from, path) by {
        lemma_split_keeps(m, c, at, mid, from, path);
    }
}

pub proof fn lemma_keeps_transitive(a: Nodes, b: Nodes, c: Nodes)
    requires
        keeps_paths(a, b),
        keeps_paths(b, c),
        a.dom().subset_of(b.dom()),
    ensures
        keeps_paths(a, c),
{
    assert forall|from: PrefixNodeId, path: Seq<u32>|
        a.dom().contains(from.0) && lookup(a, from, path) is Some implies #[trigger] lookup(
        c,
        from,
        path,
    ) == lookup(a, from, path) by {
        assert(lookup(b, from, path) == lookup(a, from, path));
    }
}

/// What an insertion promises of the tree before and after it.
pub open spec fn well_inserted(
    m: Nodes,
    parent: PrefixNodeId,
    tokens: Seq<u32>,
    n: Nodes,
    res: Option<PrefixNodeId>,
) -> bool {
    &&& res is Some
    &&& lookup(n, parent, tokens) == res
    &&& n.dom().contains(res.unwrap().0)
    &&& tree_shaped(n)
    &&& m.dom().subset_of(n.dom())
    &&& keeps_paths(m, n)
}

/// The edge has to be split: proved for both ways in which it goes on.
proof fn lemma_insert_split(
    m: Nodes,
    parent: PrefixNodeId,
    tokens: Seq<u32>,
    owner: TrajectoryId,
    mid: PrefixNodeId,
    leaf: PrefixNodeId,
    i: int,
)
    requires
        tree_shaped(m),
        new_ids(m, mid, leaf),
        m.dom().contains(parent.0),
        tokens.len() > 0,
        prefix_tree::first_hit(m, m[parent.0].children, tokens) == Some(i),
        ({
            let c = m[parent.0].children[i];
            prefix_tree::common(tokens, m[c.0].tokens) < m[c.0].tokens.len()
        }),
    ensures
        ({
            let (n, res) = prefix_tree::inserted(m, parent, tokens, owner, mid, leaf);
            &&& well_inserted(m, parent, tokens, n, res)
            &&& n.dom().subset_of(m.dom().insert(mid.0).insert(leaf.0))
        }),
{
    let (n, res) = prefix_tree::inserted(m, parent, tokens, owner, mid, leaf);
    let c = m[parent.0].children[i];
    let k = prefix_tree::common(tokens, m[c.0].tokens) as int;
    prefix_tree::lemma_common(tokens, m[c.0].tokens);
    assert(diverges(m, parent, tokens, i, c, k));
    lemma_diverges(m, parent, tokens, i, c, k);
    lemma_split_found(m, parent, tokens, i, c, k, mid);
    lemma_split_tree(m, c, k, mid);
    lemma_split_facts(m, c, k, mid);
    lemma_split_keeps_all(m, c, k, mid);
    let m1 = prefix_tree::split(m, c, k, mid).unwrap().0;
    if k == tokens.len() {
        assert(tokens.take(k) =~= tokens);
        lemma_joined_shape(m1, mid, owner);
        lemma_same_tree(m1, n);
        lemma_same_lookup(m1, n, parent, tokens);
        lemma_same_keeps(m1, n);
        lemma_keeps_transitive(m, m1, n);
    } else {
        let rest = tokens.skip(k);
        let head = tokens.take(k);
        let m2 = prefix_tree::grown(m1, mid, rest, owner, leaf).0;
        lemma_grown_tree(m1, mid, rest, owner, leaf);
        lemma_split_open(m, parent, tokens, i, c, k, mid);
        lemma_grown_found(m1, mid, rest, owner, leaf);
        lemma_grown_keeps_all(m1, mid, rest, owner, leaf);
        assert(lookup(m2, parent, head) == Some(mid));
        law_lookup_composes(m2, parent, head, mid, rest);
        assert(head + rest =~= tokens);
        lemma_joined_shape(m2, mid, owner);
        lemma_same_tree(m2, n);
        lemma_same_lookup(m2, n, parent, tokens);
        lemma_same_keeps(m2, n);
        lemma_keeps_transitive(m, m1, m2);
        lemma_keeps_transitive(m, m2, n);
    }
}

/// Nothing shares the start of the tokens: they become a leaf.
proof fn lemma_insert_leaf(
    m: Nodes,
    parent: PrefixNodeId,
    tokens: Seq<u32>,
    owner: TrajectoryId,
    leaf: PrefixNodeId,
)
    requires
        tree_shaped(m),
        m.dom().contains(parent.0),
        !m.dom().contains(leaf.0),
        tokens.len() > 0,
        prefix_tree::first_hit(m, m[parent.0].children, tokens) is None,
    ensures
        ({
            let (n, res) = prefix_tree::grown(m, parent, tokens, owner, leaf);
            &&& well_inserted(m, parent, tokens, n, res)
            &&& n.dom() == m.dom().insert(leaf.0)
        }),
{
    let n = prefix_tree::grown(m, parent, tokens, owner, leaf).0;
    lemma_grown_found(m, parent, tokens, owner, leaf);
    lemma_grown_tree(m, parent, tokens, owner, leaf);
    lemma_grown_keeps_all(m, parent, tokens, owner, leaf);
    assert(n.dom() =~= m.dom().insert(leaf.0));
}

/// The tokens are found already: the insertion changes no shape.
proof fn lemma_insert_same(
    m: Nodes,
    n: Nodes,
    parent: PrefixNodeId,
    tokens: Seq<u32>,
    at: PrefixNodeId,
)
    requires
        tree_shaped(m),
        same_shape(m, n),
        lookup(m, parent, tokens) == Some(at),
        m.dom().contains(at.0),
    ensures
        well_inserted(m, parent, tokens, n, Some(at)),
{
    lemma_same_tree(m, n);
    lemma_same_keeps(m, n);
    lemma_same_lookup(m, n, parent, tokens);
}

/// The first edge is shared whole, and the rest was inserted below it.
proof fn lemma_insert_below(
    m: Nodes,
    n: Nodes,
    parent: PrefixNodeId,
    tokens: Seq<u32>,
    i: int,
    res: Option<PrefixNodeId>,
)
    requires
        tree_shaped(m),
        m.dom().contains(parent.0),
        tokens.len() > 0,
        prefix_tree::first_hit(m, m[parent.0].children, tokens) == Some(i),
        ({
            let c = m[parent.0].children[i];
            let edge = m[c.0].tokens;
            &&& prefix_tree::common(tokens, edge) == edge.len()
            &&& well_inserted(m, c, tokens.skip(edge.len() as int), n, res)
        }),
    ensures
        well_inserted(m, parent, tokens, n, res),
{
    let c = m[parent.0].children[i];
    let edge = m[c.0].tokens;
    prefix_tree::lemma_common(tokens, edge);
    let rest = tokens.skip(edge.len() as int);
    let head = tokens.take(edge.len() as int);
    lemma_head_found(m, parent, tokens);
    assert(lookup(n, parent, head) == Some(c));
    law_lookup_composes(n, parent, head, c, rest);
    assert(head + rest =~= tokens);
}

/// What was stored is found: after an insertion, reading the tokens from the
/// same place leads to the node that the insertion gave. What was found
/// before is found still, the tree stays a tree, and only the two given ids
/// can be new in it. (That siblings keep different starts is
/// `prefix_radix::law_insert_keeps_radix`.)
#[verifier::rlimit(60)]
#[verifier::spinoff_prover]
pub proof fn law_insert(
    m: Nodes,
    parent: PrefixNodeId,
    tokens: Seq<u32>,
    owner: TrajectoryId,
    mid: PrefixNodeId,
    leaf: PrefixNodeId,
)
    requires
        tree_shaped(m),
        new_ids(m, mid, leaf),
        m.dom().contains(parent.0),
    ensures
        ({
            let (n, res) = prefix_tree::inserted(m, parent, tokens, owner, mid, leaf);
            &&& well_inserted(m, parent, tokens, n, res)
            &&& n.dom().subset_of(m.dom().insert(mid.0).insert(leaf.0))
        }),
    decreases tokens.len(),
{
    let (n, res) = prefix_tree::inserted(m, parent, tokens, owner, mid, leaf);
    if tokens.len() == 0 {
        lemma_joined_shape(m, parent, owner);
        lemma_insert_same(m, n, parent, tokens, parent);
    } else {
        let children = m[parent.0].children;
        prefix_tree::lemma_first_hit(m, children, tokens);
        match prefix_tree::first_hit(m, children, tokens) {
            None => {
                lemma_insert_leaf(m, parent, tokens, owner, leaf);
            },
            Some(i) => {
                let c = children[i];
                assert(m.dom().contains(m[parent.0].children[i].0));
                let edge = m[c.0].tokens;
                let k = prefix_tree::common(tokens, edge) as int;
                prefix_tree::lemma_common(tokens, edge);
                if k == edge.len() && k == tokens.len() {
                    lemma_joined_shape(m, c, owner);
                    lemma_head_found(m, parent, tokens);
                    assert(tokens.take(k) =~= tokens);
                    lemma_insert_same(m, n, parent, tokens, c);
                } else if k == edge.len() {
                    law_insert(m, c, tokens.skip(k), owner, mid, leaf);
                    lemma_insert_below(m, n, parent, tokens, i, res);
                } else {
                    lemma_insert_split(m, parent, tokens, owner, mid, leaf, i);
                }
            },
        }
    }
}

/// Reading just the first edge of a path leads to its lower end.
proof fn lemma_head_found(m: Nodes, from: PrefixNodeId, tokens: Seq<u32>)
    requires
        linked_down(m),
        m.dom().contains(from.0),
        tokens.len() > 0,
        prefix_tree::first_hit(m, m[from.0].children, tokens) is Some,
        ({
            let c = m[from.0].children[prefix_tree::first_hit(
                m,
                m[from.0].children,
                tokens,
            ).unwrap()];
            prefix_tree::common(tokens, m[c.0].tokens) == m[c.0].tokens.len()
        }),
    ensures
        ({
            let c = m[from.0].children[prefix_tree::first_hit(
                m,
                m[from.0].children,
                tokens,
            ).unwrap()];
            lookup(m, from, tokens.take(m[c.0].tokens.len() as int)) == Some(c)
        }),
{
    let children = m[from.0].children;
    prefix_tree::lemma_first_hit(m, children, tokens);
    let i = prefix_tree::first_hit(m, children, tokens).unwrap();
    let c = m[from.0].children[i];
    assert(m.dom().contains(c.0));
    let edge = m[c.0].tokens;
    prefix_tree::lemma_common(tokens, edge);
    let head = tokens.take(edge.len() as int);
    assert(head =~= edge) by {
        assert forall|j: int| 0 <= j < edge.len() implies head[j] == edge[j] by {
            assert(tokens[j] == edge[j]);
        }
    }
    let rest = tokens.skip(edge.len() as int);
    assert(head + rest =~= tokens);
    lemma_first_hit_longer(m, children, head, rest);
    prefix_tree::lemma_common_is(head, edge, edge.len() as int);
    assert(lookup(m, c, head.skip(edge.len() as int)) == Some(c));
}

/// Radix sharing: tokens that are already in the tree are not stored again.
/// The insertion gives the node that they lead to, and makes no new one.
pub proof fn law_reinsert_shares(
    m: Nodes,
    parent: PrefixNodeId,
    tokens: Seq<u32>,
    owner: TrajectoryId,
    mid: PrefixNodeId,
    leaf: PrefixNodeId,
)
    requires
        lookup(m, parent, tokens) is Some,
    ensures
        ({
            let (n, res) = prefix_tree::inserted(m, parent, tokens, owner, mid, leaf);
            &&& res == lookup(m, parent, tokens)
            &&& n.dom() == m.dom()
            &&& same_shape(m, n)
        }),
    decreases tokens.len(),
{
    if tokens.len() == 0 {
        lemma_joined_shape(m, parent, owner);
    } else {
        let children = m[parent.0].children;
        prefix_tree::lemma_first_hit(m, children, tokens);
        let i = prefix_tree::first_hit(m, children, tokens).unwrap();
        let c = children[i];
        let edge = m[c.0].tokens;
        let k = prefix_tree::common(tokens, edge) as int;
        prefix_tree::lemma_common(tokens, edge);
        if k == tokens.len() {
            lemma_joined_shape(m, c, owner);
            assert(tokens.skip(k).len() == 0);
        } else {
            law_reinsert_shares(m, c, tokens.skip(k), owner, mid, leaf);
        }
    }
}

/// `n` holds the nodes of `m` with nothing but their links changed.
pub open spec fn same_but_links(m: Nodes, n: Nodes) -> bool {
    forall|k: u128| #[trigger]
        n.dom().contains(k) ==> m.dom().contains(k) && n[k] == (PrefixNodeView {
            parent: n[k].parent,
            children: n[k].children,
            ..m[k]
        })
}

/// Which nodes the adoption of `orphans` links to what.
spec fn adoption(
    m: Nodes,
    orphans: Seq<PrefixNodeId>,
    parent: Option<PrefixNodeId>,
    n: Nodes,
) -> bool {
    &&& n.dom() == m.dom()
    &&& same_but_links(m, n)
    &&& forall|k: u128|
        #![trigger n[k]]
        n.dom().contains(k) ==> {
            &&& n[k].parent == (if orphans.contains(PrefixNodeId(k)) {
                parent
            } else {
                m[k].parent
            })
            &&& parent != Some(PrefixNodeId(k)) ==> n[k].children == m[k].children
            &&& parent == Some(PrefixNodeId(k)) ==> forall|x: PrefixNodeId| #[trigger]
                n[k].children.contains(x) <==> m[k].children.contains(x) || orphans.contains(x)
        }
}

proof fn lemma_adoption(m: Nodes, orphans: Seq<PrefixNodeId>, parent: Option<PrefixNodeId>)
    ensures
        adoption(m, orphans, parent, prefix_tree::all_adopted(m, orphans, parent)),
    decreases orphans.len(),
{
    let n = prefix_tree::all_adopted(m, orphans, parent);
    if orphans.len() > 0 {
        let front = orphans.drop_last();
        let last = orphans.last();
        lemma_adoption(m, front, parent);
        let a = prefix_tree::all_adopted(m, front, parent);
        assert(n.dom() =~= m.dom());
        assert forall|x: PrefixNodeId| #[trigger] orphans.contains(x) == (front.contains(x) || x
            == last) by {
            if orphans.contains(x) && x != last {
                let i = choose|i: int| 0 <= i < orphans.len() && orphans[i] == x;
                assert(front[i] == x);
            }
            if front.contains(x) {
                let i = choose|i: int| 0 <= i < front.len() && front[i] == x;
                assert(orphans[i] == x);
            }
            if x == last {
                assert(orphans[orphans.len() - 1] == x);
            }
        }
        assert forall|k: u128|
            #![trigger n[k]]
            n.dom().contains(k) implies {
            &&& n[k].parent == (if orphans.contains(PrefixNodeId(k)) {
                parent
            } else {
                m[k].parent
            })
            &&& parent != Some(PrefixNodeId(k)) ==> n[k].children == m[k].children
            &&& parent == Some(PrefixNodeId(k)) ==> forall|x: PrefixNodeId| #[trigger]
                n[k].children.contains(x) <==> m[k].children.contains(x) || orphans.contains(x)
        } by {
            assert(a.dom().contains(k));
            if parent == Some(PrefixNodeId(k)) {
                assert forall|x: PrefixNodeId| #[trigger] n[k].children.contains(x)
                    == (m[k].children.contains(x) || orphans.contains(x)) by {
                    let before = a[k].children;
                    if !before.contains(last) {
                        assert(n[k].children == before.push(last));
                        if before.contains(x) {
                            let i = choose|i: int| 0 <= i < before.len() && before[i] == x;
                            assert(before.push(last)[i] == x);
                        }
                        if x == last {
                            assert(before.push(last)[before.len() as int] == x);
                        }
                        if n[k].children.contains(x) && x != last {
                            let i = choose|i: int|
                                0 <= i < n[k].children.len() && n[k].children[i] == x;
                            assert(before[i] == x);
                        }
                    }
                }
            }
        }
        assert forall|k: u128| #[trigger] n.dom().contains(k) implies m.dom().contains(k) && n[k]
            == (PrefixNodeView { parent: n[k].parent, children: n[k].children, ..m[k] }) by {
            assert(a.dom().contains(k));
        }
    }
}

/// What a node's removal does to the links of the others.
spec fn unlinked(m: Nodes, id: PrefixNodeId, n: Nodes) -> bool {
    let p = m[id.0].parent;
    &&& n.dom() == m.dom().remove(id.0)
    &&& same_but_links(m, n)
    &&& forall|k: u128|
        #![trigger n[k]]
        n.dom().contains(k) ==> {
            &&& n[k].parent == (if m[k].parent == Some(id) {
                p
            } else {
                m[k].parent
            })
            &&& p != Some(PrefixNodeId(k)) ==> n[k].children == m[k].children
            &&& p == Some(PrefixNodeId(k)) ==> forall|x: PrefixNodeId| #[trigger]
                n[k].children.contains(x) <==> (m[k].children.contains(x) && x != id)
                    || m[id.0].children.contains(x)
        }
}

proof fn lemma_ids_but(s: Seq<PrefixNodeId>, id: PrefixNodeId)
    ensures
        forall|x: PrefixNodeId| #[trigger]
            prefix_tree::ids_but(s, id).contains(x) <==> s.contains(x) && x != id,
    decreases s.len(),
{
    reveal(Seq::filter);
    let kept = prefix_tree::ids_but(s, id);
    if s.len() > 0 {
        let front = s.drop_last();
        lemma_ids_but(front, id);
        let before = prefix_tree::ids_but(front, id);
        assert forall|x: PrefixNodeId| #[trigger] kept.contains(x) == (s.contains(x) && x != id) by {
            if kept.contains(x) {
                let i = choose|i: int| 0 <= i < kept.len() && kept[i] == x;
                if i < before.len() {
                    assert(before[i] == x);
                    assert(before.contains(x));
                    let j = choose|j: int| 0 <= j < front.len() && front[j] == x;
                    assert(s[j] == x);
                } else {
                    assert(s[s.len() - 1] == x);
                }
            }
            if s.contains(x) && x != id {
                let j = choose|j: int| 0 <= j < s.len() && s[j] == x;
                if j < front.len() {
                    assert(front[j] == x);
                    assert(before.contains(x));
                    let i = choose|i: int| 0 <= i < before.len() && before[i] == x;
                    assert(kept[i] == x);
                } else {
                    assert(kept[kept.len() - 1] == x);
                }
            }
        }
    }
}

/// A node's children are just those that name it as their parent, and it is
/// not its own parent.
proof fn lemma_family(m: Nodes, id: PrefixNodeId)
    requires
        tree_shaped(m),
        m.dom().contains(id.0),
    ensures
        m[id.0].parent != Some(id),
        m[id.0].parent matches Some(p) ==> m.dom().contains(p.0),
        forall|k: u128|
            m.dom().contains(k) ==> (#[trigger] m[id.0].children.contains(PrefixNodeId(k))
                <==> m[k].parent == Some(id)),
{
    let rank = choose|rank: spec_fn(u128) -> int| ranked(m, rank);
    assert forall|k: u128| m.dom().contains(k) implies (#[trigger] m[id.0].children.contains(
        PrefixNodeId(k),
    ) == (m[k].parent == Some(id))) by {
        if m[id.0].children.contains(PrefixNodeId(k)) {
            let i = choose|i: int|
                0 <= i < m[id.0].children.len() && m[id.0].children[i] == PrefixNodeId(k);
            assert(m[id.0].children[i] == PrefixNodeId(k));
        }
    }
}

proof fn lemma_cut(m: Nodes, id: PrefixNodeId)
    requires
        m.dom().contains(id.0),
        m[id.0].parent != Some(id),
        m[id.0].parent matches Some(p) ==> m.dom().contains(p.0),
        forall|k: u128|
            m.dom().contains(k) ==> (#[trigger] m[id.0].children.contains(PrefixNodeId(k))
                <==> m[k].parent == Some(id)),
    ensures
        unlinked(m, id, prefix_tree::cut(m, id)),
{
    let node = m[id.0];
    let m1 = m.remove(id.0);
    let n = prefix_tree::cut(m, id);
    let m2 = match node.parent {
        None => m1,
        Some(p) => prefix_tree::changed(
            m1,
            p,
            |n: PrefixNodeView|
                PrefixNodeView { children: prefix_tree::ids_but(n.children, id), ..n },
        ),
    };
    lemma_adoption(m2, node.children, node.parent);
    assert(adoption(m2, node.children, node.parent, n));
    assert(m2.dom() =~= m.dom().remove(id.0));
    assert forall|k: u128| #[trigger] m2.dom().contains(k) implies m2[k] == (if node.parent == Some(
        PrefixNodeId(k),
    ) {
        PrefixNodeView { children: prefix_tree::ids_but(m[k].children, id), ..m[k] }
    } else {
        m[k]
    }) by {}
    assert forall|k: u128| #[trigger] n.dom().contains(k) implies m.dom().contains(k) && n[k]
        == (PrefixNodeView { parent: n[k].parent, children: n[k].children, ..m[k] }) by {
        assert(m2.dom().contains(k));
    }
    assert forall|k: u128|
        #![trigger n[k]]
        n.dom().contains(k) implies {
        &&& n[k].parent == (if m[k].parent == Some(id) {
            node.parent
        } else {
            m[k].parent
        })
        &&& node.parent != Some(PrefixNodeId(k)) ==> n[k].children == m[k].children
        &&& node.parent == Some(PrefixNodeId(k)) ==> forall|x: PrefixNodeId| #[trigger]
            n[k].children.contains(x) <==> (m[k].children.contains(x) && x != id)
                || m[id.0].children.contains(x)
    } by {
        assert(m2.dom().contains(k) && m.dom().contains(k));
        assert(m[id.0].children.contains(PrefixNodeId(k)) == (m[k].parent == Some(id)));
        if node.parent == Some(PrefixNodeId(k)) {
            lemma_ids_but(m[k].children, id);
        }
    }
}

/// Taking a node out keeps the tree a tree: the node is gone, and nothing but
/// links has changed of the others.
pub proof fn law_remove(m: Nodes, id: PrefixNodeId)
    requires
        tree_shaped(m),
        m.dom().contains(id.0),
    ensures
        tree_shaped(prefix_tree::cut(m, id)),
        prefix_tree::cut(m, id).dom() == m.dom().remove(id.0),
        same_but_links(m, prefix_tree::cut(m, id)),
{
    lemma_family(m, id);
    lemma_cut(m, id);
    let n = prefix_tree::cut(m, id);
    let rank = choose|rank: spec_fn(u128) -> int| ranked(m, rank);
    let up = m[id.0].parent;
    assert(m.dom().contains(id.0));
    assert forall|p: u128, i: int|
        #![trigger n[p].children[i]]
        n.dom().contains(p) && 0 <= i < n[p].children.len() implies {
        let c = n[p].children[i];
        n.dom().contains(c.0) && n[c.0].parent == Some(PrefixNodeId(p))
    } by {
        let c = n[p].children[i];
        assert(n[p].children.contains(c));
        if up == Some(PrefixNodeId(p)) {
            if m[id.0].children.contains(c) {
                let j = choose|j: int| 0 <= j < m[id.0].children.len() && m[id.0].children[j] == c;
                assert(m.dom().contains(m[id.0].children[j].0));
                assert(m.dom().contains(c.0));
            } else {
                let j = choose|j: int| 0 <= j < m[p].children.len() && m[p].children[j] == c;
                assert(m.dom().contains(m[p].children[j].0));
            }
        } else {
            assert(m.dom().contains(m[p].children[i].0));
            assert(c != id);
        }
    }
    assert forall|x: u128| #[trigger] n.dom().contains(x) implies match n[x].parent {
        Some(p) => n.dom().contains(p.0) && n[p.0].children.contains(PrefixNodeId(x)),
        None => true,
    } by {
        assert(m.dom().contains(x));
        assert(n[x].parent == (if m[x].parent == Some(id) {
            up
        } else {
            m[x].parent
        }));
        if let Some(p) = n[x].parent {
            assert(p != id);
            assert(n.dom().contains(p.0));
            assert(n[p.0] == n[p.0]);
        }
    }
    assert(ranked(n, rank)) by {
        assert forall|x: u128| #[trigger] n.dom().contains(x) implies match n[x].parent {
            Some(p) => rank(p.0) < rank(x),
            None => true,
        } by {
            assert(m.dom().contains(x));
            assert(n[x].parent == (if m[x].parent == Some(id) {
                up
            } else {
                m[x].parent
            }));
        }
    }
}

/// The root never leaves the tree.
pub proof fn law_root_stays(t: TreeView, id: PrefixNodeId)
    requires
        t.wf(),
        tree_shaped(t.nodes),
    ensures
        t.removed(id).root == t.root,
        t.removed(id).has(t.root.unwrap()),
        t.removed(id).wf(),
{
    if Some(id) != t.root && t.has(id) {
        law_remove(t.nodes, id);
    }
}

/// Every node stands under its own id.
pub open spec fn keyed(m: Nodes) -> bool {
    forall|k: u128| #[trigger] m.dom().contains(k) ==> m[k].id == PrefixNodeId(k)
}

/// An insertion loses no node and puts every node under its own id, whatever
/// ids it is given.
pub proof fn lemma_insert_keyed(
    m: Nodes,
    parent: PrefixNodeId,
    tokens: Seq<u32>,
    owner: TrajectoryId,
    mid: PrefixNodeId,
    leaf: PrefixNodeId,
)
    requires
        keyed(m),
        m.dom().finite(),
    ensures
        ({
            let n = prefix_tree::inserted(m, parent, tokens, owner, mid, leaf).0;
            &&& keyed(n)
            &&& n.dom().finite()
            &&& m.dom().subset_of(n.dom())
        }),
    decreases tokens.len(),
{
    if tokens.len() > 0 && m.dom().contains(parent.0) {
        let children = m[parent.0].children;
        prefix_tree::lemma_first_hit(m, children, tokens);
        if let Some(i) = prefix_tree::first_hit(m, children, tokens) {
            let c = children[i];
            if m.dom().contains(c.0) {
                let edge = m[c.0].tokens;
                let k = prefix_tree::common(tokens, edge) as int;
                prefix_tree::lemma_common(tokens, edge);
                if k == edge.len() && k < tokens.len() {
                    lemma_insert_keyed(m, c, tokens.skip(k), owner, mid, leaf);
                }
            }
        }
    }
}

/// Taking out a node leaves every other node under its own id.
pub proof fn lemma_removed_wf(t: TreeView, id: PrefixNodeId)
    requires
        t.wf(),
    ensures
        t.removed(id).wf(),
        Some(id) != t.root && t.has(id) ==> t.removed(id).nodes.dom() == t.nodes.dom().remove(id.0),
        same_but_links(t.nodes, t.removed(id).nodes),
{
    if Some(id) != t.root && t.has(id) {
        let m = t.nodes;
        let node = m[id.0];
        let m1 = m.remove(id.0);
        let m2 = match node.parent {
            None => m1,
            Some(p) => prefix_tree::changed(
                m1,
                p,
                |n: PrefixNodeView|
                    PrefixNodeView { children: prefix_tree::ids_but(n.children, id), ..n },
            ),
        };
        lemma_adoption(m2, node.children, node.parent);
        let n = prefix_tree::cut(m, id);
        assert(m2.dom() =~= m.dom().remove(id.0));
        assert forall|k: u128| #[trigger] n.dom().contains(k) implies m.dom().contains(k) && n[k]
            == (PrefixNodeView { parent: n[k].parent, children: n[k].children, ..m[k] }) by {
            assert(m2.dom().contains(k));
        }
    }
}

} // verus!
