//! What holds of the memory manager as a whole.
use vstd::prelude::*;

use crate::error::TrajectErrorView;
use crate::ids;
use crate::ids::{PrefixNodeId, TrajectoryId};
use crate::memory::block_pool;
use crate::memory::block_pool::{BlockId, PoolView};
use crate::memory::manager;
use crate::memory::manager::{ManagerView, SessionView};
use crate::memory::prefix_laws;
use crate::memory::prefix_tree;
use crate::memory::prefix_tree::{Nodes, PrefixNodeView};
use crate::pin::PinInfo;
use crate::ratio::Milli;
use crate::text;

verus! {

/// The node is safe from eviction at `now_ms`: it is the root, its pin holds,
/// or somebody owns it and refers to it.
pub open spec fn spared(m: ManagerView, id: PrefixNodeId, now_ms: u64) -> bool {
    m.tree.has(id) && !m.evictable(id, now_ms)
}

/// Whatever is evicted, a node that may not go stays, with its pin, its
/// references and its owners: above all a pinned node, the root, and the leaf
/// that a trajectory is bound to.
pub proof fn law_eviction_spares(
    m: ManagerView,
    gone: Seq<PrefixNodeId>,
    now_ms: u64,
    threshold: Milli,
    id: PrefixNodeId,
)
    requires
        m.tree.wf(),
        m.may_evict(gone, now_ms, threshold),
        spared(m, id, now_ms),
    ensures
        ({
            let after = m.all_freed(gone);
            &&& after.tree.wf()
            &&& after.tree.root == m.tree.root
            &&& spared(after, id, now_ms)
            &&& after.tree.nodes[id.0] == (PrefixNodeView {
                parent: after.tree.nodes[id.0].parent,
                children: after.tree.nodes[id.0].children,
                ..m.tree.nodes[id.0]
            })
        }),
    decreases gone.len(),
{
    if gone.len() > 0 {
        let front = gone.drop_last();
        law_eviction_spares(m, front, now_ms, threshold, id);
        let before = m.all_freed(front);
        assert(before.evictable(gone.last(), now_ms));
        prefix_laws::lemma_removed_wf(before.tree, gone.last());
        assert(before.tree.removed(gone.last()).nodes.dom().contains(id.0));
    }
}

/// A pinned node survives every eviction while its pin holds.
pub proof fn law_pin_protects(
    m: ManagerView,
    node: PrefixNodeId,
    pin: PinInfo,
    gone: Seq<PrefixNodeId>,
    now_ms: u64,
    threshold: Milli,
)
    requires
        m.tree.wf(),
        m.tree.has(node),
        pin.holds(now_ms),
        m.with_pin(node, pin).may_evict(gone, now_ms, threshold),
    ensures
        m.with_pin(node, pin).all_freed(gone).tree.has(node),
        m.with_pin(node, pin).all_freed(gone).tree.nodes[node.0].pin == pin,
{
    let p = m.with_pin(node, pin);
    assert(p.tree.wf());
    law_eviction_spares(p, gone, now_ms, threshold, node);
}

/// The leaf that a trajectory is bound to is never evicted.
pub proof fn law_bound_leaf_stays(
    m: ManagerView,
    traj: TrajectoryId,
    node: PrefixNodeId,
    gone: Seq<PrefixNodeId>,
    now_ms: u64,
    threshold: Milli,
)
    requires
        m.tree.wf(),
        m.tree.has(node),
        m.with_binding(traj, node).may_evict(gone, now_ms, threshold),
    ensures
        m.with_binding(traj, node).all_freed(gone).tree.has(node),
{
    let b = m.with_binding(traj, node);
    assert(b.tree.wf());
    let n = b.tree.nodes[node.0];
    assert(n.ref_count > 0);
    assert(n.owners.contains(traj)) by {
        let before = b.tree.nodes[node.0].owners;
        if before.len() > 0 {
            assert(before[before.len() - 1] == traj || before.contains(traj));
        }
    }
    law_eviction_spares(b, gone, now_ms, threshold, node);
}

/// A trajectory that is released leaves nothing behind that it alone held: an
/// unpinned leaf with no other owner may go.
pub proof fn law_release_frees(m: ManagerView, traj: TrajectoryId, node: PrefixNodeId, now_ms: u64)
    requires
        m.bound(traj) == Some(node),
        m.tree.has(node),
        Some(node) != m.tree.root,
        !m.tree.nodes[node.0].pin.holds(now_ms),
        forall|o: TrajectoryId| #[trigger] m.tree.nodes[node.0].owners.contains(o) ==> o == traj,
    ensures
        m.without(traj).evictable(node, now_ms),
        m.without(traj).bound(traj) is None,
        !m.without(traj).sessions.dom().contains(traj.0),
{
    let owners = m.tree.nodes[node.0].owners;
    lemma_no_owner_left(owners, traj);
}

proof fn lemma_no_owner_left(owners: Seq<TrajectoryId>, traj: TrajectoryId)
    requires
        forall|o: TrajectoryId| #[trigger] owners.contains(o) ==> o == traj,
    ensures
        prefix_tree::owners_but(owners, traj).len() == 0,
    decreases owners.len(),
{
    reveal(Seq::filter);
    if owners.len() > 0 {
        let front = owners.drop_last();
        assert(owners.contains(owners[owners.len() - 1]));
        assert forall|o: TrajectoryId| #[trigger] front.contains(o) implies o == traj by {
            let i = choose|i: int| 0 <= i < front.len() && front[i] == o;
            assert(owners[i] == o);
            assert(owners.contains(o));
        }
        lemma_no_owner_left(front, traj);
    }
}

/// The blocks that nodes hold.
pub open spec fn held(nodes: Nodes) -> Set<BlockId> {
    Set::new(
        |b: BlockId|
            exists|k: u128| #[trigger] nodes.dom().contains(k) && nodes[k].blocks.contains(b),
    )
}

/// No block is held twice.
pub open spec fn blocks_apart(nodes: Nodes) -> bool {
    &&& forall|k: u128| #[trigger] nodes.dom().contains(k) ==> nodes[k].blocks.no_duplicates()
    &&& forall|k: u128, l: u128, b: BlockId|
        #![trigger nodes[k].blocks.contains(b), nodes[l].blocks.contains(b)]
        nodes.dom().contains(k) && nodes.dom().contains(l) && nodes[k].blocks.contains(b)
            && nodes[l].blocks.contains(b) ==> k == l
}

/// The books are right: the pool has lent just the blocks that nodes hold, no
/// block is held twice, and the tier counts what the pool has lent.
pub open spec fn books_right(m: ManagerView) -> bool {
    &&& m.pool.lends(held(m.tree.nodes))
    &&& blocks_apart(m.tree.nodes)
    &&& m.gpu.used_blocks == m.pool.allocated
}

/// The nodes of `m` are in `n` with the same blocks, and the new ones hold none.
pub open spec fn same_blocks(m: Nodes, n: Nodes) -> bool {
    &&& m.dom().subset_of(n.dom())
    &&& forall|k: u128| #[trigger]
        n.dom().contains(k) ==> if m.dom().contains(k) {
            n[k].blocks == m[k].blocks
        } else {
            n[k].blocks.len() == 0
        }
}

proof fn lemma_same_blocks(m: Nodes, n: Nodes)
    requires
        same_blocks(m, n),
    ensures
        held(n) == held(m),
        blocks_apart(m) ==> blocks_apart(n),
{
    assert forall|b: BlockId| held(n).contains(b) == held(m).contains(b) by {
        if held(n).contains(b) {
            let k = choose|k: u128| #[trigger] n.dom().contains(k) && n[k].blocks.contains(b);
            assert(m.dom().contains(k) && m[k].blocks.contains(b));
        }
        if held(m).contains(b) {
            let k = choose|k: u128| #[trigger] m.dom().contains(k) && m[k].blocks.contains(b);
            assert(n.dom().contains(k) && n[k].blocks.contains(b));
        }
    }
    assert(held(n) =~= held(m));
    if blocks_apart(m) {
        assert forall|k: u128| #[trigger] n.dom().contains(k) implies n[k].blocks.no_duplicates() by {
            if m.dom().contains(k) {
                assert(m[k].blocks.no_duplicates());
            }
        }
        assert forall|k: u128, l: u128, b: BlockId|
            #![trigger n[k].blocks.contains(b), n[l].blocks.contains(b)]
            n.dom().contains(k) && n.dom().contains(l) && n[k].blocks.contains(b)
                && n[l].blocks.contains(b) implies k == l by {
            assert(m.dom().contains(k) && m.dom().contains(l));
            assert(m[k].blocks.contains(b) && m[l].blocks.contains(b));
        }
    }
}

proof fn lemma_insert_blocks(
    m: Nodes,
    parent: PrefixNodeId,
    tokens: Seq<u32>,
    owner: TrajectoryId,
    mid: PrefixNodeId,
    leaf: PrefixNodeId,
)
    requires
        prefix_laws::new_ids(m, mid, leaf),
    ensures
        same_blocks(m, prefix_tree::inserted(m, parent, tokens, owner, mid, leaf).0),
    decreases tokens.len(),
{
    if tokens.len() > 0 && m.dom().contains(parent.0) {
        let children = m[parent.0].children;
        prefix_tree::lemma_first_hit(m, children, tokens);
        if let Some(i) = prefix_tree::first_hit(m, children, tokens) {
            let c = children[i];
            if m.dom().contains(c.0) {
                let edge = m[c.0].tokens;
                let k = prefix_tree::common(tokens, edge) as int;
                prefix_tree::lemma_common(tokens, edge);
                if k == edge.len() && k < tokens.len() {
                    lemma_insert_blocks(m, c, tokens.skip(k), owner, mid, leaf);
                }
            }
        }
    }
}

/// A node that gets a block keeps the books right.
proof fn lemma_with_block(m: ManagerView, child: PrefixNodeId)
    requires
        books_right(m),
        m.pool.wf(),
    ensures
        books_right(m.with_block(child)),
{
    let after = m.with_block(child);
    if m.tree.has(child) && m.tree.nodes[child.0].blocks.len() == 0 && m.pool.next() is Some {
        let b = m.pool.next().unwrap();
        let nodes = m.tree.nodes;
        let n = after.tree.nodes;
        block_pool::law_alloc_gives_unused(m.pool, held(nodes));
        assert(n[child.0].blocks[0] == b);
        assert forall|x: BlockId| held(n).contains(x) == held(nodes).insert(b).contains(x) by {
            if held(n).contains(x) {
                let k = choose|k: u128| #[trigger] n.dom().contains(k) && n[k].blocks.contains(x);
                if k != child.0 {
                    assert(nodes.dom().contains(k) && nodes[k].blocks.contains(x));
                }
            }
            if held(nodes).contains(x) {
                let k = choose|k: u128| #[trigger]
                    nodes.dom().contains(k) && nodes[k].blocks.contains(x);
                assert(n.dom().contains(k) && n[k].blocks.contains(x));
            }
            if x == b {
                assert(n.dom().contains(child.0) && n[child.0].blocks.contains(b));
            }
        }
        assert(held(n) =~= held(nodes).insert(b));
        assert forall|k: u128| #[trigger] n.dom().contains(k) implies n[k].blocks.no_duplicates() by {
            if k != child.0 {
                assert(nodes.dom().contains(k));
            }
        }
        assert forall|k: u128, l: u128, x: BlockId|
            #![trigger n[k].blocks.contains(x), n[l].blocks.contains(x)]
            n.dom().contains(k) && n.dom().contains(l) && n[k].blocks.contains(x)
                && n[l].blocks.contains(x) implies k == l by {
            if k != child.0 {
                assert(nodes.dom().contains(k) && nodes[k].blocks.contains(x));
            }
            if l != child.0 {
                assert(nodes.dom().contains(l) && nodes[l].blocks.contains(x));
            }
            if k != l && (k == child.0 || l == child.0) {
                assert(held(nodes).contains(x));
            }
        }
    }
}

/// Blocks that are returned are lent no more.
proof fn lemma_all_returned(p: PoolView, used: Set<BlockId>, ids: Seq<BlockId>)
    requires
        p.lends(used),
        ids.no_duplicates(),
        forall|i: int| 0 <= i < ids.len() ==> used.contains(#[trigger] ids[i]),
    ensures
        p.all_returned(ids).lends(used.difference(ids.to_set())),
    decreases ids.len(),
{
    if ids.len() == 0 {
        assert(used.difference(ids.to_set()) =~= used);
    } else {
        let front = ids.drop_last();
        let last = ids.last();
        assert forall|i: int| 0 <= i < front.len() implies used.contains(#[trigger] front[i]) by {
            assert(front[i] == ids[i]);
        }
        lemma_all_returned(p, used, front);
        let left = used.difference(front.to_set());
        assert(!front.contains(last)) by {
            if front.contains(last) {
                let i = choose|i: int| 0 <= i < front.len() && front[i] == last;
                assert(ids[i] == ids[ids.len() - 1]);
            }
        }
        assert(used.contains(ids[ids.len() - 1]));
        block_pool::law_free_returns(p.all_returned(front), left, last);
        assert forall|b: BlockId| ids.to_set().contains(b) == front.to_set().insert(last).contains(
            b,
        ) by {
            if ids.contains(b) && b != last {
                let i = choose|i: int| 0 <= i < ids.len() && ids[i] == b;
                assert(front[i] == b);
            }
            if front.contains(b) {
                let i = choose|i: int| 0 <= i < front.len() && front[i] == b;
                assert(ids[i] == b);
            }
            if b == last {
                assert(ids[ids.len() - 1] == b);
            }
        }
        assert(used.difference(ids.to_set()) =~= left.remove(last));
    }
}

/// Eviction keeps the books right.
pub proof fn law_eviction_keeps_books(m: ManagerView, id: PrefixNodeId)
    requires
        books_right(m),
        m.tree.wf(),
        m.tree.has(id),
        Some(id) != m.tree.root,
    ensures
        books_right(m.freed(id)),
{
    let nodes = m.tree.nodes;
    let n = m.freed(id).tree.nodes;
    let blocks = nodes[id.0].blocks;
    prefix_laws::lemma_removed_wf(m.tree, id);
    assert forall|i: int| 0 <= i < blocks.len() implies held(nodes).contains(
        #[trigger] blocks[i],
    ) by {
        assert(nodes.dom().contains(id.0) && nodes[id.0].blocks.contains(blocks[i]));
    }
    lemma_all_returned(m.pool, held(nodes), blocks);
    assert forall|b: BlockId| held(n).contains(b) == held(nodes).difference(
        blocks.to_set(),
    ).contains(b) by {
        if held(n).contains(b) {
            let k = choose|k: u128| #[trigger] n.dom().contains(k) && n[k].blocks.contains(b);
            assert(nodes.dom().contains(k) && nodes[k].blocks.contains(b));
            if blocks.contains(b) {
                assert(nodes[id.0].blocks.contains(b));
            }
        }
        if held(nodes).contains(b) && !blocks.contains(b) {
            let k = choose|k: u128| #[trigger]
                nodes.dom().contains(k) && nodes[k].blocks.contains(b);
            assert(n.dom().contains(k) && n[k].blocks.contains(b));
        }
    }
    assert(held(n) =~= held(nodes).difference(blocks.to_set()));
    assert forall|k: u128| #[trigger] n.dom().contains(k) implies n[k].blocks.no_duplicates() by {
        assert(nodes.dom().contains(k));
    }
    assert forall|k: u128, l: u128, x: BlockId|
        #![trigger n[k].blocks.contains(x), n[l].blocks.contains(x)]
        n.dom().contains(k) && n.dom().contains(l) && n[k].blocks.contains(x)
            && n[l].blocks.contains(x) implies k == l by {
        assert(nodes.dom().contains(k) && nodes.dom().contains(l));
        assert(nodes[k].blocks.contains(x) && nodes[l].blocks.contains(x));
    }
}

/// A new manager's books are right.
pub proof fn law_fresh_books(tree: prefix_tree::TreeView, block_capacity: usize)
    requires
        crate::memory::manager::root_only(tree),
    ensures
        books_right(crate::memory::manager::fresh(tree, block_capacity)),
        prefix_laws::tree_shaped(tree.nodes),
{
    let nodes = tree.nodes;
    assert(held(nodes) =~= Set::empty());
    let rank = |x: u128| 0int;
    assert(prefix_laws::ranked(nodes, rank));
}

/// Storing tokens keeps the books right and the tree a tree.
#[verifier::rlimit(60)]
pub proof fn law_store_keeps_books(
    m: ManagerView,
    traj: TrajectoryId,
    parent: PrefixNodeId,
    tokens: Seq<u32>,
    now_ms: u64,
    mid: PrefixNodeId,
    leaf: PrefixNodeId,
)
    requires
        books_right(m),
        m.pool.wf(),
        prefix_laws::new_ids(m.tree.nodes, mid, leaf),
    ensures
        books_right(m.stored(traj, parent, tokens, now_ms, mid, leaf).0),
{
    let (n, res) = prefix_tree::inserted(m.tree.nodes, parent, tokens, traj, mid, leaf);
    lemma_insert_blocks(m.tree.nodes, parent, tokens, traj, mid, leaf);
    lemma_same_blocks(m.tree.nodes, n);
    if let Some(child) = res {
        let m0 = m.with_nodes(n);
        let m1 = m0.with_handle(child, parent);
        assert(same_blocks(m0.tree.nodes, m1.tree.nodes));
        lemma_same_blocks(m0.tree.nodes, m1.tree.nodes);
        let m2 = m1.with_nodes(prefix_tree::touched(m1.tree.nodes, child, now_ms));
        assert(same_blocks(m1.tree.nodes, m2.tree.nodes));
        lemma_same_blocks(m1.tree.nodes, m2.tree.nodes);
        let m3 = m2.with_block(child);
        lemma_with_block(m2, child);
        if m3.tree.has(child) {
            law_bind_keeps_books(m3, traj, child);
        }
    }
}

/// Binding a trajectory keeps the books right.
pub proof fn law_bind_keeps_books(m: ManagerView, traj: TrajectoryId, node: PrefixNodeId)
    requires
        books_right(m),
    ensures
        books_right(m.with_binding(traj, node)),
{
    let after = m.with_binding(traj, node);
    assert(same_blocks(m.tree.nodes, after.tree.nodes));
    lemma_same_blocks(m.tree.nodes, after.tree.nodes);
}

/// Releasing a trajectory, pinning and cache hits keep the books right.
pub proof fn law_others_keep_books(
    m: ManagerView,
    traj: TrajectoryId,
    node: PrefixNodeId,
    pin: PinInfo,
    hits: u32,
    now_ms: u64,
)
    requires
        books_right(m),
    ensures
        books_right(m.without(traj)),
        books_right(m.with_pin(node, pin)),
        books_right(m.with_hits(traj, hits, now_ms)),
{
    assert(same_blocks(m.tree.nodes, m.without(traj).tree.nodes));
    lemma_same_blocks(m.tree.nodes, m.without(traj).tree.nodes);
    assert(same_blocks(m.tree.nodes, m.with_pin(node, pin).tree.nodes));
    lemma_same_blocks(m.tree.nodes, m.with_pin(node, pin).tree.nodes);
    assert(same_blocks(m.tree.nodes, m.with_hits(traj, hits, now_ms).tree.nodes));
    lemma_same_blocks(m.tree.nodes, m.with_hits(traj, hits, now_ms).tree.nodes);
}

/// After tokens have been stored the trajectory stands at their end: it is
/// bound to the leaf, which is in the tree, carries a handle, and is found
/// by reading the tokens from where the trajectory stood.
#[verifier::rlimit(60)]
pub proof fn law_store_moves(
    m: ManagerView,
    traj: TrajectoryId,
    parent: PrefixNodeId,
    tokens: Seq<u32>,
    now_ms: u64,
    mid: PrefixNodeId,
    leaf: PrefixNodeId,
)
    requires
        prefix_laws::tree_shaped(m.tree.nodes),
        prefix_laws::new_ids(m.tree.nodes, mid, leaf),
        m.tree.has(parent),
    ensures
        ({
            let (after, res) = m.stored(traj, parent, tokens, now_ms, mid, leaf);
            &&& res matches Ok(child) && {
                &&& after.bound(traj) == Some(child)
                &&& after.tree.has(child)
                &&& after.handle(child) is Some
                &&& after.sessions.dom().contains(traj.0)
                &&& prefix_laws::lookup(after.tree.nodes, parent, tokens) == Some(child)
            }
            &&& prefix_laws::tree_shaped(after.tree.nodes)
            &&& prefix_laws::keeps_paths(m.tree.nodes, after.tree.nodes)
        }),
{
    let (n, res) = prefix_tree::inserted(m.tree.nodes, parent, tokens, traj, mid, leaf);
    prefix_laws::law_insert(m.tree.nodes, parent, tokens, traj, mid, leaf);
    let child = res.unwrap();
    let (after, answer) = m.stored(traj, parent, tokens, now_ms, mid, leaf);
    let m1 = m.with_nodes(n).with_handle(child, parent);
    let m2 = m1.with_nodes(prefix_tree::touched(m1.tree.nodes, child, now_ms));
    let m3 = m2.with_block(child);
    assert(m1.handle(child) is Some);
    assert(m2.handle(child) is Some);
    assert(m3.handle(child) is Some);
    assert(m3.tree.has(child));
    assert(after == m3.with_binding(traj, child));
    assert(m3.tree.nodes.dom() =~= n.dom());
    assert(after.tree.nodes.dom() =~= n.dom());
    assert(prefix_laws::same_shape(n, m3.tree.nodes));
    assert(prefix_laws::same_shape(m3.tree.nodes, after.tree.nodes));
    assert(prefix_laws::same_shape(n, after.tree.nodes));
    assert(after.handle(child) is Some);
    prefix_laws::lemma_same_lookup(n, after.tree.nodes, parent, tokens);
    prefix_laws::lemma_same_tree(n, after.tree.nodes);
    prefix_laws::lemma_same_keeps(n, after.tree.nodes);
    prefix_laws::lemma_keeps_transitive(m.tree.nodes, n, after.tree.nodes);
}

/// Trajectories share prefixes: a second one that stores the same tokens from
/// the same node comes to the same leaf, and no node is added.
pub proof fn law_second_store_shares(
    m: ManagerView,
    first: TrajectoryId,
    second: TrajectoryId,
    parent: PrefixNodeId,
    tokens: Seq<u32>,
    at: u64,
    later: u64,
    mid: PrefixNodeId,
    leaf: PrefixNodeId,
    mid2: PrefixNodeId,
    leaf2: PrefixNodeId,
)
    requires
        prefix_laws::tree_shaped(m.tree.nodes),
        prefix_laws::new_ids(m.tree.nodes, mid, leaf),
        m.tree.has(parent),
    ensures
        ({
            let (m1, r1) = m.stored(first, parent, tokens, at, mid, leaf);
            let (m2, r2) = m1.stored(second, parent, tokens, later, mid2, leaf2);
            &&& r1 is Ok
            &&& r2 == r1
            &&& m2.tree.nodes.dom() == m1.tree.nodes.dom()
        }),
{
    law_store_moves(m, first, parent, tokens, at, mid, leaf);
    let (m1, r1) = m.stored(first, parent, tokens, at, mid, leaf);
    let child = r1->Ok_0;
    prefix_laws::law_reinsert_shares(m1.tree.nodes, parent, tokens, second, mid2, leaf2);
    let n = prefix_tree::inserted(m1.tree.nodes, parent, tokens, second, mid2, leaf2).0;
    let a = m1.with_nodes(n).with_handle(child, parent);
    let b = a.with_nodes(prefix_tree::touched(a.tree.nodes, child, later));
    let c = b.with_block(child);
    assert(a.tree.nodes.dom() =~= n.dom());
    assert(b.tree.nodes.dom() =~= n.dom());
    assert(c.tree.nodes.dom() =~= n.dom());
    assert(c.with_binding(second, child).tree.nodes.dom() =~= n.dom());
}

/// The node at which stored tokens end is there, is owned by who stored them,
/// and is referred to.
pub proof fn law_stored_node_is_owned(
    m: Nodes,
    parent: PrefixNodeId,
    tokens: Seq<u32>,
    owner: TrajectoryId,
    mid: PrefixNodeId,
    leaf: PrefixNodeId,
)
    requires
        m.dom().contains(parent.0),
    ensures
        prefix_tree::inserted(m, parent, tokens, owner, mid, leaf).1 matches Some(end) ==> {
            let n = prefix_tree::inserted(m, parent, tokens, owner, mid, leaf).0;
            &&& n.dom().contains(end.0)
            &&& n[end.0].owners.contains(owner)
            &&& n[end.0].ref_count > 0
        },
    decreases tokens.len(),
{
    if tokens.len() == 0 {
        lemma_joined(m, parent, owner);
    } else {
        let children = m[parent.0].children;
        if let Some(i) = prefix_tree::first_hit(m, children, tokens) {
            prefix_tree::lemma_first_hit(m, children, tokens);
            let c = children[i];
            if m.dom().contains(c.0) {
                let edge = m[c.0].tokens;
                let k = prefix_tree::common(tokens, edge);
                prefix_tree::lemma_common(tokens, edge);
                if k == edge.len() && k == tokens.len() {
                    lemma_joined(m, c, owner);
                } else if k == edge.len() {
                    law_stored_node_is_owned(m, c, tokens.skip(k as int), owner, mid, leaf);
                } else if let Some((m1, s)) = prefix_tree::split(m, c, k as int, mid) {
                    assert(m1.dom().contains(s.0));
                    lemma_joined(m1, s, owner);
                    assert(seq![owner][0] == owner);
                }
            }
        } else {
            assert(seq![owner][0] == owner);
        }
    }
}

proof fn lemma_joined(m: Nodes, id: PrefixNodeId, owner: TrajectoryId)
    requires
        m.dom().contains(id.0),
    ensures
        prefix_tree::joined(m, id, owner).dom().contains(id.0),
        prefix_tree::joined(m, id, owner)[id.0].owners.contains(owner),
        prefix_tree::joined(m, id, owner)[id.0].ref_count > 0,
{
    let n = prefix_tree::joined(m, id, owner);
    let owners = n[id.0].owners;
    if !m[id.0].owners.contains(owner) {
        assert(owners[owners.len() - 1] == owner);
    }
}

/// References are counted one by one, owners stand once, and what the cache
/// served is added to a node's count and its sharing.
pub proof fn law_node_counts(n: PrefixNodeView, owner: TrajectoryId, hits: u32)
    ensures
        n.ref_count < u32::MAX ==> n.retained().ref_count == n.ref_count + 1,
        n.ref_count > 0 ==> n.released().ref_count == n.ref_count - 1,
        n.ref_count == 0 ==> n.released().ref_count == 0,
        n.retained().tokens == n.tokens,
        n.owned(owner).owners.contains(owner),
        n.owned(owner).owned(owner) == n.owned(owner),
        n.cache_hit_tokens + hits <= u32::MAX ==> n.hit(hits).cache_hit_tokens
            == n.cache_hit_tokens + hits,
        n.share_score + hits <= u64::MAX ==> n.hit(hits).share_score == n.share_score + hits,
        n.share_score + 100 <= u64::MAX ==> n.scored(100).share_score == n.share_score + 100,
{
    let o = n.owned(owner).owners;
    if !n.owners.contains(owner) {
        assert(o[o.len() - 1] == owner);
    }
}

/// A trajectory that is bound stands at that node, which refers to it once more
/// and is owned by it; it has a session from then on. Others stay where they
/// are.
pub proof fn law_binding(m: ManagerView, traj: TrajectoryId, node: PrefixNodeId, other: TrajectoryId)
    requires
        m.tree.has(node),
        other != traj,
    ensures
        ({
            let after = m.with_binding(traj, node);
            &&& after.bound(traj) == Some(node)
            &&& after.bound(other) == m.bound(other)
            &&& after.tree.has(node)
            &&& after.tree.nodes[node.0].owners.contains(traj)
            &&& after.tree.nodes[node.0].ref_count > 0
            &&& m.session(traj) is Some ==> after.session(traj) == m.session(traj)
            &&& m.session(traj) is None ==> after.session(traj) == Some(
                crate::ids::hyphenated(traj.0),
            )
            &&& after.session(other) == m.session(other)
            &&& m.bound(traj) matches Some(was) ==> was != node && m.tree.has(was)
                && m.tree.nodes[was.0].ref_count > 0 ==> after.tree.nodes[was.0].ref_count
                == m.tree.nodes[was.0].ref_count - 1
        }),
{
    let left = match m.bound(traj) {
        Some(was) if was != node => prefix_tree::released(m.tree.nodes, was),
        _ => m.tree.nodes,
    };
    lemma_joined(left, node, traj);
}

/// The session that is told is the trajectory's, with what was counted for it
/// before; others keep theirs.
pub proof fn law_session_bound(
    m: ManagerView,
    traj: TrajectoryId,
    session_id: Seq<char>,
    other: TrajectoryId,
)
    requires
        other != traj,
    ensures
        m.with_session(traj, session_id).session(traj) == Some(session_id),
        m.with_session(traj, session_id).session(other) == m.session(other),
        m.sessions.dom().contains(traj.0) ==> m.with_session(
            traj,
            session_id,
        ).sessions[traj.0].total_cache_hit_tokens == m.sessions[traj.0].total_cache_hit_tokens,
        m.with_session(traj, session_id).bindings == m.bindings,
{
}

/// The engine knows a trajectory's leaf by its handle, or by its id where it
/// has none; a trajectory without a leaf has no key.
pub proof fn law_hint(m: ManagerView, traj: TrajectoryId)
    ensures
        m.bound(traj) is None ==> m.hint(traj) is None,
        m.bound(traj) matches Some(node) ==> (m.tree.has(node)
            && m.tree.nodes[node.0].engine_handle is Some ==> m.hint(traj)
            == m.tree.nodes[node.0].engine_handle) && (!m.tree.has(node)
            || m.tree.nodes[node.0].engine_handle is None ==> m.hint(traj) == Some(
            crate::ids::hyphenated(node.0),
        )),
{
}

/// What the cache served is added to the session's total and to the leaf, and
/// the leaf is touched; no hits change nothing.
pub proof fn law_hits_noted(m: ManagerView, traj: TrajectoryId, hits: u32, now_ms: u64)
    requires
        hits > 0,
    ensures
        m.with_hits(traj, 0, now_ms) == m,
        m.sessions.dom().contains(traj.0) && m.sessions[traj.0].total_cache_hit_tokens + hits
            <= u32::MAX ==> m.with_hits(traj, hits, now_ms).sessions[traj.0].total_cache_hit_tokens
            == m.sessions[traj.0].total_cache_hit_tokens + hits,
        m.sessions.dom().contains(traj.0) && m.sessions[traj.0].generate_count < u32::MAX
            ==> m.with_hits(traj, hits, now_ms).sessions[traj.0].generate_count
            == m.sessions[traj.0].generate_count + 1,
        m.bound(traj) matches Some(node) ==> m.tree.has(node) ==> {
            let n = m.with_hits(traj, hits, now_ms).tree.nodes[node.0];
            &&& n.last_access_ms == now_ms
            &&& m.tree.nodes[node.0].cache_hit_tokens + hits <= u32::MAX ==> n.cache_hit_tokens
                == m.tree.nodes[node.0].cache_hit_tokens + hits
        },
{
}

/// A pin is put on the node that it is meant for and on no other.
pub proof fn law_pin_on_node(m: ManagerView, node: PrefixNodeId, pin: PinInfo, other: PrefixNodeId)
    requires
        m.tree.has(node),
        other != node,
    ensures
        m.with_pin(node, pin).tree.nodes[node.0].pin == pin,
        m.with_pin(node, pin).tree.nodes[node.0].tokens == m.tree.nodes[node.0].tokens,
        m.tree.has(other) ==> m.with_pin(node, pin).tree.nodes[other.0]
            == m.tree.nodes[other.0],
        m.with_pin(node, pin).bindings == m.bindings,
{
}

/// Tokens are appended where their trajectory stands: once there is room, they
/// are read from there to the leaf that is given, at which the trajectory then
/// stands. Without tokens nothing moves, and without room nothing is stored.
pub proof fn law_append(
    m: ManagerView,
    traj: TrajectoryId,
    tokens: Seq<u32>,
    now_ms: u64,
    room: ManagerView,
    mid: PrefixNodeId,
    leaf: PrefixNodeId,
    after: ManagerView,
    res: Result<PrefixNodeId, crate::error::TrajectErrorView>,
    from: PrefixNodeId,
)
    requires
        m.appended(traj, tokens, now_ms, room, mid, leaf, after, res),
        m.bound(traj) == Some(from),
    ensures
        tokens.len() == 0 ==> after == m && res == Ok::<
            PrefixNodeId,
            crate::error::TrajectErrorView,
        >(from),
        tokens.len() > 0 && m.pool.allocated < m.pool.capacity ==> room == m,
        tokens.len() > 0 && !room.has_room() ==> res is Err && after == room,
        tokens.len() > 0 && room.has_room() && prefix_laws::tree_shaped(room.tree.nodes)
            && prefix_laws::new_ids(room.tree.nodes, mid, leaf) && room.tree.has(from) ==> res is Ok
            && prefix_laws::lookup(after.tree.nodes, from, tokens) == Some(res->Ok_0)
            && after.bound(traj) == Some(res->Ok_0) && after.tree.has(res->Ok_0)
            && prefix_laws::keeps_paths(room.tree.nodes, after.tree.nodes),
{
    reveal(ManagerView::appended);
    if tokens.len() > 0 && room.has_room() && prefix_laws::tree_shaped(room.tree.nodes)
        && prefix_laws::new_ids(room.tree.nodes, mid, leaf) && room.tree.has(from) {
        law_store_moves(room, traj, from, tokens, now_ms, mid, leaf);
    }
}

/// There is room where a block is left.
pub proof fn law_room(m: ManagerView)
    ensures
        m.has_room() <==> m.pool.allocated < m.pool.capacity,
{
}

/// Eviction goes on until the pressure is gone or nothing may go, takes only
/// what may go, and begins only under pressure.
pub proof fn law_eviction_relieves(
    m: ManagerView,
    gone: Seq<PrefixNodeId>,
    now_ms: u64,
    threshold: Milli,
    id: PrefixNodeId,
)
    requires
        m.evicts(gone, now_ms, threshold),
    ensures
        m.all_freed(gone).gpu.load().reaches(threshold) ==> !m.all_freed(gone).evictable(
            id,
            now_ms,
        ),
        !m.gpu.load().reaches(threshold) ==> gone.len() == 0,
        gone.len() > 0 ==> m.evictable(gone[0], now_ms) && (m.evictable(id, now_ms)
            ==> m.eviction.weight(m.tree.nodes[gone[0].0]) <= m.eviction.weight(
            m.tree.nodes[id.0],
        )),
{
    reveal(ManagerView::evicts);
    if gone.len() > 0 {
        lemma_first_gone(m, gone, now_ms, threshold);
    }
}

proof fn lemma_first_gone(
    m: ManagerView,
    gone: Seq<PrefixNodeId>,
    now_ms: u64,
    threshold: Milli,
)
    requires
        gone.len() > 0,
        m.may_evict(gone, now_ms, threshold),
    ensures
        m.gpu.load().reaches(threshold),
        m.lightest(gone[0], now_ms),
    decreases gone.len(),
{
    let front = gone.drop_last();
    if front.len() > 0 {
        lemma_first_gone(m, front, now_ms, threshold);
        assert(front[0] == gone[0]);
    } else {
        assert(m.all_freed(front) == m);
    }
}

/// A node that is given up is there no more, and its blocks go back to the
/// pool.
pub proof fn law_freed(m: ManagerView, id: PrefixNodeId)
    requires
        m.tree.wf(),
        m.tree.has(id),
        Some(id) != m.tree.root,
    ensures
        !m.freed(id).tree.has(id),
        m.freed(id).tree.root == m.tree.root,
        m.freed(id).gpu.used_blocks == m.freed(id).pool.allocated,
        m.tree.nodes[id.0].blocks.len() == 0 ==> m.freed(id).pool == m.pool,
        m.freed(id).bindings == m.bindings,
        m.freed(id).sessions == m.sessions,
{
    prefix_laws::lemma_removed_wf(m.tree, id);
}

/// A leaf that has no block gets one, the next of the pool, where the pool has
/// one; the tier counts it.
pub proof fn law_leaf_gets_block(m: ManagerView, child: PrefixNodeId)
    requires
        m.tree.has(child),
        m.tree.nodes[child.0].blocks.len() == 0,
    ensures
        m.pool.next() matches Some(b) ==> m.with_block(child).tree.nodes[child.0].blocks
            == seq![b] && m.with_block(child).gpu.used_blocks == m.with_block(
            child,
        ).pool.allocated,
        m.pool.next() is None ==> m.with_block(child) == m,
{
    if let Some(b) = m.pool.next() {
        assert(m.with_block(child).tree.nodes[child.0].blocks =~= seq![b]);
    }
}

/// The hits of all sessions together are the sum of theirs: none without
/// sessions, and each one adds its own.
pub proof fn law_hits_add_up(sessions: Map<u128, SessionView>, keys: Set<u128>, k: u128)
    requires
        keys.finite(),
        !keys.contains(k),
    ensures
        manager::total_hits(sessions, Set::empty()) == 0,
        manager::total_hits(sessions, keys.insert(k)) == manager::total_hits(sessions, keys)
            + sessions[k].total_cache_hit_tokens,
{
    let f = manager::adding(sessions);
    vstd::set::fold::lemma_fold_empty(0int, f);
    vstd::set::fold::lemma_fold_insert(keys, 0int, f, k);
}

/// The nodes that count as pinned are those of the tree whose pin has a
/// deadline.
pub proof fn law_pinned_nodes(m: ManagerView, k: u128)
    ensures
        m.pinned().contains(k) <==> m.tree.nodes.dom().contains(k)
            && m.tree.nodes[k].pin.pin_until_ms is Some,
{
}

/// A pool that stays full says how much of it is taken.
pub proof fn law_full_told(m: ManagerView)
    ensures
        m.full() == TrajectErrorView::MemoryPressure(
            "need "@ + text::dec(1) + " blocks, allocated "@ + text::dec(m.pool.allocated as nat)
                + "/"@ + text::dec(m.pool.capacity as nat),
        ),
        manager::unbound() == TrajectErrorView::Other("trajectory has no prefix binding"@),
{
}

/// Each node that goes gives the engine's handle that it has, in the order in
/// which they go.
pub proof fn law_handles_of_the_gone(m: ManagerView, gone: Seq<PrefixNodeId>, id: PrefixNodeId)
    ensures
        m.handles(Seq::empty()).len() == 0,
        m.all_freed(Seq::empty()) == m,
        m.all_freed(gone.push(id)) == m.all_freed(gone).freed(id),
        m.all_freed(gone).tree.nodes[id.0].engine_handle matches Some(h) ==> m.handles(
            gone.push(id),
        ) == m.handles(gone).push(h),
        m.all_freed(gone).tree.nodes[id.0].engine_handle is None ==> m.handles(gone.push(id))
            == m.handles(gone),
{
    assert(gone.push(id).drop_last() =~= gone);
}

/// Room is made only where there is none, and then by what may go under a
/// pressure of 850 in a thousand.
pub proof fn law_room_is_made(m: ManagerView, now: u64, after: ManagerView)
    requires
        m.made_room(now, after),
    ensures
        m.pool.allocated < m.pool.capacity ==> after == m,
        m.pool.allocated >= m.pool.capacity ==> exists|gone: Seq<PrefixNodeId>| #[trigger]
            m.evicts(gone, now, Milli(850)) && after == m.all_freed(gone),
{
}

/// Next tokens go below the node that the trajectory is bound to, or below the
/// root.
pub proof fn law_tip(m: ManagerView, traj: TrajectoryId)
    ensures
        m.bound(traj) matches Some(node) ==> m.tip(traj) == node,
        m.bound(traj) is None ==> Some(m.tip(traj)) == m.tree.root || m.tree.root is None,
{
}

/// The tokens that two runs have in common are the same in both, and the next,
/// where both go on, differ.
pub proof fn law_common_start(a: Seq<u32>, b: Seq<u32>)
    ensures
        prefix_tree::common(a, b) <= a.len(),
        prefix_tree::common(a, b) <= b.len(),
        a.take(prefix_tree::common(a, b) as int) == b.take(prefix_tree::common(a, b) as int),
        prefix_tree::common(a, b) < a.len() && prefix_tree::common(a, b) < b.len()
            ==> a[prefix_tree::common(a, b) as int] != b[prefix_tree::common(a, b) as int],
    decreases a.len(),
{
    let n = prefix_tree::common(a, b) as int;
    if a.len() > 0 && b.len() > 0 && a[0] == b[0] {
        let x = a.drop_first();
        let y = b.drop_first();
        law_common_start(x, y);
        assert forall|i: int| 0 <= i < n implies a[i] == b[i] by {
            if i > 0 {
                assert(x.take(n - 1)[i - 1] == y.take(n - 1)[i - 1]);
                assert(x[i - 1] == a[i] && y[i - 1] == b[i]);
            }
        }
        assert(a.take(n) =~= b.take(n));
        if n < a.len() && n < b.len() {
            assert(x[n - 1] == a[n] && y[n - 1] == b[n]);
        }
    } else {
        assert(a.take(0) =~= b.take(0));
    }
}

/// What is done to one node of the tree leaves the others, and changes of that
/// one what it says.
pub proof fn law_one_node_changed(
    m: Nodes,
    id: PrefixNodeId,
    other: PrefixNodeId,
    owner: TrajectoryId,
    handle: Seq<char>,
    now: u64,
)
    requires
        m.dom().contains(id.0),
        other.0 != id.0,
    ensures
        prefix_tree::handled(m, id, handle)[id.0] == (PrefixNodeView {
            engine_handle: Some(handle),
            ..m[id.0]
        }),
        prefix_tree::touched(m, id, now)[id.0] == (PrefixNodeView { last_access_ms: now, ..m[id.0] }),
        prefix_tree::shared(m, id)[id.0] == m[id.0].scored(100),
        prefix_tree::retained(m, id)[id.0] == m[id.0].retained(),
        prefix_tree::released(m, id)[id.0] == m[id.0].released(),
        prefix_tree::owned(m, id, owner)[id.0] == m[id.0].owned(owner),
        !prefix_tree::disowned(m, id, owner)[id.0].owners.contains(owner),
        prefix_tree::disowned(m, id, owner)[id.0].tokens == m[id.0].tokens,
        m.dom().contains(other.0) ==> {
            &&& prefix_tree::handled(m, id, handle)[other.0] == m[other.0]
            &&& prefix_tree::touched(m, id, now)[other.0] == m[other.0]
            &&& prefix_tree::shared(m, id)[other.0] == m[other.0]
            &&& prefix_tree::retained(m, id)[other.0] == m[other.0]
            &&& prefix_tree::released(m, id)[other.0] == m[other.0]
            &&& prefix_tree::owned(m, id, owner)[other.0] == m[other.0]
            &&& prefix_tree::disowned(m, id, owner)[other.0] == m[other.0]
        },
{
    broadcast use vstd::seq_lib::group_filter_ensures;

    let kept = m[id.0].owners.filter(prefix_tree::not_owner(owner));
    if kept.contains(owner) {
        let i = choose|i: int| 0 <= i < kept.len() && kept[i] == owner;
        m[id.0].owners.lemma_filter_pred(prefix_tree::not_owner(owner), i);
    }
}

/// A node without a handle takes its parent's, or is known by its own id; one
/// with a handle keeps it.
pub proof fn law_handle_taken_over(m: ManagerView, child: PrefixNodeId, parent: PrefixNodeId)
    requires
        m.tree.nodes.dom().contains(child.0),
    ensures
        m.handle(child) is Some ==> m.with_handle(child, parent) == m,
        m.handle(child) is None && m.handle(parent) is Some ==> m.with_handle(child, parent).handle(
            child,
        ) == m.handle(parent),
        m.handle(child) is None && m.handle(parent) is None ==> m.with_handle(child, parent).handle(
            child,
        ) == Some(ids::hyphenated(child.0)),
{
}

} // verus!
