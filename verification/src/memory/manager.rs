//! The memory manager: prefix tree, block pool, eviction and bindings.
use std::collections::HashMap;
use vstd::prelude::*;

use crate::error;
use crate::error::{TrajectError, TrajectErrorView};
use crate::ids;
use crate::ids::{PrefixNodeId, TrajectoryId};
use crate::memory::block_pool::{BlockPool, PoolView};
use crate::memory::eviction::EvictionPolicy;
use crate::memory::prefix_laws;
use crate::memory::prefix_tree;
use crate::memory::prefix_tree::{Nodes, PrefixNode, PrefixNodeView, PrefixTree, TreeView};
use crate::memory::tier::{MemoryTier, TierId};
use crate::pin;
use crate::pin::PinInfo;
use crate::ratio::{Milli, Ratio};
use crate::table::value_mut;
use crate::text;
use crate::text::decimal;

verus! {

#[derive(Debug, Clone, Copy, PartialEq, Eq, Structural)]
pub struct MemoryStats {
    pub nodes: usize,
    pub blocks_allocated: usize,
    pub blocks_capacity: usize,
    pub gpu_pressure: Ratio,
    pub total_cache_hit_tokens: u32,
    pub pinned_nodes: usize,
}

impl Default for MemoryStats {
    fn default() -> (res: Self)
        ensures
            res == (MemoryStats {
                nodes: 0,
                blocks_allocated: 0,
                blocks_capacity: 0,
                gpu_pressure: Ratio { num: 0, den: 1 },
                total_cache_hit_tokens: 0,
                pinned_nodes: 0,
            }),
    {
        MemoryStats {
            nodes: 0,
            blocks_allocated: 0,
            blocks_capacity: 0,
            gpu_pressure: Ratio { num: 0, den: 1 },
            total_cache_hit_tokens: 0,
            pinned_nodes: 0,
        }
    }
}

/// Per-trajectory session binding for engine radix alignment.
#[derive(Debug)]
pub struct SessionBinding {
    pub session_id: String,
    pub total_cache_hit_tokens: u32,
    pub generate_count: u32,
}

pub struct SessionView {
    pub session_id: Seq<char>,
    pub total_cache_hit_tokens: u32,
    pub generate_count: u32,
}

impl View for SessionBinding {
    type V = SessionView;

    open spec fn view(&self) -> SessionView {
        SessionView {
            session_id: self.session_id@,
            total_cache_hit_tokens: self.total_cache_hit_tokens,
            generate_count: self.generate_count,
        }
    }
}

impl Clone for SessionBinding {
    fn clone(&self) -> (res: Self)
        ensures
            res == *self,
    {
        SessionBinding {
            session_id: self.session_id.clone(),
            total_cache_hit_tokens: self.total_cache_hit_tokens,
            generate_count: self.generate_count,
        }
    }
}

/// `a + b`, as far as the counter goes.
pub open spec fn plus(a: u32, b: u32) -> u32 {
    if a + b > u32::MAX {
        u32::MAX
    } else {
        (a + b) as u32
    }
}

/// The manager's state.
#[verifier::ext_equal]
pub struct ManagerView {
    pub tree: TreeView,
    pub pool: PoolView,
    pub gpu: MemoryTier,
    pub eviction: EvictionPolicy,
    pub bindings: Map<u128, PrefixNodeId>,
    pub sessions: Map<u128, SessionView>,
}

/// The message for a trajectory without prefix.
pub open spec fn unbound() -> TrajectErrorView {
    TrajectErrorView::Other("trajectory has no prefix binding"@)
}

impl ManagerView {
    /// The tree has its root and its nodes in place, and the pool counts right.
    pub open spec fn wf(self) -> bool {
        self.tree.wf() && self.pool.wf()
    }

    pub open spec fn with_nodes(self, nodes: Nodes) -> ManagerView {
        ManagerView { tree: TreeView { nodes, ..self.tree }, ..self }
    }

    /// The leaf that a trajectory is bound to.
    pub open spec fn bound(self, traj: TrajectoryId) -> Option<PrefixNodeId> {
        if self.bindings.dom().contains(traj.0) {
            Some(self.bindings[traj.0])
        } else {
            None
        }
    }

    /// With `session_id` as the trajectory's session; what was counted for it
    /// stays.
    pub open spec fn with_session(self, traj: TrajectoryId, session_id: Seq<char>) -> ManagerView {
        ManagerView {
            sessions: self.sessions.insert(
                traj.0,
                if self.sessions.dom().contains(traj.0) {
                    SessionView { session_id, ..self.sessions[traj.0] }
                } else {
                    SessionView { session_id, total_cache_hit_tokens: 0, generate_count: 0 }
                },
            ),
            ..self
        }
    }

    /// Binds a trajectory to a node: the node it leaves is released, the node
    /// it joins is retained and owned, and it has a session from then on.
    pub open spec fn with_binding(self, traj: TrajectoryId, node: PrefixNodeId) -> ManagerView {
        let left = match self.bound(traj) {
            Some(was) if was != node => prefix_tree::released(self.tree.nodes, was),
            _ => self.tree.nodes,
        };
        let m = ManagerView { bindings: self.bindings.insert(traj.0, node), ..self }.with_nodes(
            prefix_tree::joined(left, node, traj),
        );
        if self.sessions.dom().contains(traj.0) {
            m
        } else {
            m.with_session(traj, ids::hyphenated(traj.0))
        }
    }

    /// Records cache hits with the leaf and with the session.
    pub open spec fn with_hits(self, traj: TrajectoryId, hits: u32, now_ms: u64) -> ManagerView {
        if hits == 0 {
            self
        } else {
            let m = match self.bound(traj) {
                Some(node) => self.with_nodes(
                    prefix_tree::touched(
                        prefix_tree::hit(self.tree.nodes, node, hits),
                        node,
                        now_ms,
                    ),
                ),
                None => self,
            };
            if self.sessions.dom().contains(traj.0) {
                let s = self.sessions[traj.0];
                ManagerView {
                    sessions: self.sessions.insert(
                        traj.0,
                        SessionView {
                            total_cache_hit_tokens: plus(s.total_cache_hit_tokens, hits),
                            generate_count: plus(s.generate_count, 1),
                            ..s
                        },
                    ),
                    ..m
                }
            } else {
                m
            }
        }
    }

    /// With `pin` on the node.
    pub open spec fn with_pin(self, node: PrefixNodeId, pin: PinInfo) -> ManagerView {
        self.with_nodes(
            prefix_tree::changed(
                self.tree.nodes,
                node,
                |n: PrefixNodeView| PrefixNodeView { pin, ..n },
            ),
        )
    }

    /// Without the trajectory: its leaf is disowned and released, and its
    /// session is forgotten.
    pub open spec fn without(self, traj: TrajectoryId) -> ManagerView {
        let m = match self.bound(traj) {
            Some(node) => ManagerView {
                bindings: self.bindings.remove(traj.0),
                ..self
            }.with_nodes(
                prefix_tree::released(
                    prefix_tree::disowned(self.tree.nodes, node, traj),
                    node,
                ),
            ),
            None => self,
        };
        ManagerView { sessions: self.sessions.remove(traj.0), ..m }
    }

    /// The node may be given up: not the root, and the policy lets it go.
    pub open spec fn evictable(self, id: PrefixNodeId, now_ms: u64) -> bool {
        &&& Some(id) != self.tree.root
        &&& self.tree.has(id)
        &&& EvictionPolicy::may_go(self.tree.nodes[id.0], now_ms)
    }

    /// Without the node: its blocks go back to the pool, in their order.
    pub open spec fn freed(self, id: PrefixNodeId) -> ManagerView {
        let pool = self.pool.all_returned(self.tree.nodes[id.0].blocks);
        ManagerView {
            tree: self.tree.removed(id),
            pool,
            gpu: MemoryTier { used_blocks: pool.allocated, ..self.gpu },
            ..self
        }
    }

    /// Without all of `gone`, given up in this order.
    pub open spec fn all_freed(self, gone: Seq<PrefixNodeId>) -> ManagerView
        decreases gone.len(),
    {
        if gone.len() == 0 {
            self
        } else {
            self.all_freed(gone.drop_last()).freed(gone.last())
        }
    }

    /// The engine's handles of all of `gone`, as far as they have one.
    pub open spec fn handles(self, gone: Seq<PrefixNodeId>) -> Seq<Seq<char>>
        decreases gone.len(),
    {
        if gone.len() == 0 {
            Seq::empty()
        } else {
            let before = self.handles(gone.drop_last());
            match self.all_freed(gone.drop_last()).tree.nodes[gone.last().0].engine_handle {
                Some(h) => before.push(h),
                None => before,
            }
        }
    }

    /// No node that may go weighs less.
    pub open spec fn lightest(self, id: PrefixNodeId, now_ms: u64) -> bool {
        &&& self.evictable(id, now_ms)
        &&& forall|other: PrefixNodeId| #[trigger]
            self.evictable(other, now_ms) ==> self.eviction.weight(self.tree.nodes[id.0])
                <= self.eviction.weight(self.tree.nodes[other.0])
    }

    /// `gone` is a way to evict from here: each is given up under pressure,
    /// as one of the lightest.
    pub open spec fn may_evict(self, gone: Seq<PrefixNodeId>, now_ms: u64, threshold: Milli) -> bool
        decreases gone.len(),
    {
        gone.len() == 0 || {
            let before = self.all_freed(gone.drop_last());
            &&& self.may_evict(gone.drop_last(), now_ms, threshold)
            &&& before.gpu.load().reaches(threshold)
            &&& before.lightest(gone.last(), now_ms)
        }
    }

    /// The pressure is gone, or nothing more may go.
    pub open spec fn relieved(self, now_ms: u64, threshold: Milli) -> bool {
        !self.gpu.load().reaches(threshold) || forall|id: PrefixNodeId|
            !#[trigger] self.evictable(id, now_ms)
    }

    /// `gone` is a full eviction: it goes on until the pressure is relieved.
    #[verifier::opaque]
    pub open spec fn evicts(self, gone: Seq<PrefixNodeId>, now_ms: u64, threshold: Milli) -> bool {
        self.may_evict(gone, now_ms, threshold) && self.all_freed(gone).relieved(now_ms, threshold)
    }

    /// A block is to be had.
    pub open spec fn has_room(self) -> bool {
        self.pool.allocated + 1 <= self.pool.capacity
    }

    /// `m` is what is left after room has been made: the same where there was
    /// room, else what an eviction under 0.85 of pressure leaves.
    pub open spec fn made_room(self, now_ms: u64, m: ManagerView) -> bool {
        if self.has_room() {
            m == self
        } else {
            exists|gone: Seq<PrefixNodeId>| #[trigger]
                self.evicts(gone, now_ms, Milli(850)) && m == self.all_freed(gone)
        }
    }

    /// The message for a pool that stays full.
    pub open spec fn full(self) -> TrajectErrorView {
        TrajectErrorView::MemoryPressure(
            "need "@ + text::dec(1) + " blocks, allocated "@ + text::dec(
                self.pool.allocated as nat,
            ) + "/"@ + text::dec(self.pool.capacity as nat),
        )
    }

    /// The node under which a trajectory's next tokens go.
    pub open spec fn tip(self, traj: TrajectoryId) -> PrefixNodeId {
        match self.bound(traj) {
            Some(node) => node,
            None => self.tree.root.unwrap(),
        }
    }

    /// The handle of a node, where it has one.
    pub open spec fn handle(self, id: PrefixNodeId) -> Option<Seq<char>> {
        if self.tree.has(id) {
            self.tree.nodes[id.0].engine_handle
        } else {
            None
        }
    }

    /// The key under which the engine knows a trajectory's leaf: its handle, or
    /// its id so the engine can log / key by it.
    pub open spec fn hint(self, traj: TrajectoryId) -> Option<Seq<char>> {
        match self.bound(traj) {
            None => None,
            Some(node) => match self.handle(node) {
                Some(h) => Some(h),
                None => Some(ids::hyphenated(node.0)),
            },
        }
    }

    /// The session of a trajectory.
    pub open spec fn session(self, traj: TrajectoryId) -> Option<Seq<char>> {
        if self.sessions.dom().contains(traj.0) {
            Some(self.sessions[traj.0].session_id)
        } else {
            None
        }
    }

    /// With `pin` on a trajectory's leaf, where it has one.
    pub open spec fn with_leaf_pin(self, traj: TrajectoryId, pin: PinInfo) -> ManagerView {
        match self.bound(traj) {
            Some(node) => self.with_pin(node, pin),
            None => self,
        }
    }

    /// With a handle on `child` in any case: its own, or that of `parent`, or
    /// its id.
    pub open spec fn with_handle(self, child: PrefixNodeId, parent: PrefixNodeId) -> ManagerView {
        match self.handle(child) {
            Some(_) => self,
            None => self.with_nodes(
                prefix_tree::handled(
                    self.tree.nodes,
                    child,
                    match self.handle(parent) {
                        Some(h) => h,
                        None => ids::hyphenated(child.0),
                    },
                ),
            ),
        }
    }

    /// With a block on `child`, where it has none and the pool has one.
    pub open spec fn with_block(self, child: PrefixNodeId) -> ManagerView {
        if self.tree.has(child) && self.tree.nodes[child.0].blocks.len() == 0
            && self.pool.next() is Some {
            let block = self.pool.next().unwrap();
            ManagerView {
                pool: self.pool.taken(),
                gpu: MemoryTier { used_blocks: self.pool.taken().allocated, ..self.gpu },
                ..self
            }.with_nodes(
                prefix_tree::changed(
                    self.tree.nodes,
                    child,
                    |n: PrefixNodeView| PrefixNodeView { blocks: n.blocks.push(block), ..n },
                ),
            )
        } else {
            self
        }
    }

    /// Stores `tokens` below `parent` for the trajectory, once there is room:
    /// they are shared with what is there, the leaf gets handle, time and
    /// block, and the trajectory moves to it.
    pub open spec fn stored(
        self,
        traj: TrajectoryId,
        parent: PrefixNodeId,
        tokens: Seq<u32>,
        now_ms: u64,
        mid: PrefixNodeId,
        leaf: PrefixNodeId,
    ) -> (ManagerView, Result<PrefixNodeId, TrajectErrorView>) {
        match prefix_tree::inserted(self.tree.nodes, parent, tokens, traj, mid, leaf) {
            (n, None) => (self.with_nodes(n), Err(TrajectErrorView::PrefixNotFound(parent))),
            (n, Some(child)) => {
                let m1 = self.with_nodes(n).with_handle(child, parent);
                let m2 = m1.with_nodes(prefix_tree::touched(m1.tree.nodes, child, now_ms));
                let m3 = m2.with_block(child);
                if m3.tree.has(child) {
                    (m3.with_binding(traj, child), Ok(child))
                } else {
                    (m3, Err(TrajectErrorView::PrefixNotFound(child)))
                }
            },
        }
    }
}

impl ManagerView {
    /// What storing `tokens` for a trajectory may do: without tokens it gives
    /// the present leaf; else room is made, which leaves `room`, and where
    /// there is room then the tokens are stored below the present leaf.
    #[verifier::opaque]
    pub open spec fn appended(
        self,
        traj: TrajectoryId,
        tokens: Seq<u32>,
        now_ms: u64,
        room: ManagerView,
        mid: PrefixNodeId,
        leaf: PrefixNodeId,
        after: ManagerView,
        res: Result<PrefixNodeId, TrajectErrorView>,
    ) -> bool {
        if tokens.len() == 0 {
            after == self && res == match self.bound(traj) {
                Some(node) => Ok(node),
                None => Err::<PrefixNodeId, TrajectErrorView>(unbound()),
            }
        } else {
            &&& self.made_room(now_ms, room)
            &&& (after, res) == if room.has_room() {
                room.stored(traj, self.tip(traj), tokens, now_ms, mid, leaf)
            } else {
                (room, Err::<PrefixNodeId, TrajectErrorView>(room.full()))
            }
        }
    }

    /// The cache-hit tokens of all sessions together.
    pub open spec fn hits(self) -> int {
        total_hits(self.sessions, self.sessions.dom())
    }

    /// The nodes that carry a pin, whether it still holds or not.
    pub open spec fn pinned(self) -> Set<u128> {
        self.tree.nodes.dom().filter(|k: u128| self.tree.nodes[k].pin.pin_until_ms is Some)
    }
}

/// The sum over the sessions `keys`.
pub open spec fn total_hits(sessions: Map<u128, SessionView>, keys: Set<u128>) -> int {
    keys.fold(0int, adding(sessions))
}

pub open spec fn adding(sessions: Map<u128, SessionView>) -> spec_fn(int, u128) -> int {
    |sum: int, k: u128| sum + sessions[k].total_cache_hit_tokens
}

/// Those of `keys` whose nodes carry a pin.
spec fn with_pins(nodes: Nodes, keys: Set<u128>) -> Set<u128> {
    keys.filter(|k: u128| nodes[k].pin.pin_until_ms is Some)
}

proof fn lemma_with_pins(nodes: Nodes, keys: Set<u128>, k: u128)
    requires
        keys.finite(),
        !keys.contains(k),
    ensures
        with_pins(nodes, keys.insert(k)).len() == with_pins(nodes, keys).len() + (
        if nodes[k].pin.pin_until_ms is Some {
            1int
        } else {
            0
        }),
{
    let some = with_pins(nodes, keys);
    assert(some.finite()) by {
        vstd::set_lib::lemma_len_subset(some, keys);
    }
    if nodes[k].pin.pin_until_ms is Some {
        assert(with_pins(nodes, keys.insert(k)) =~= some.insert(k));
    } else {
        assert(with_pins(nodes, keys.insert(k)) =~= some);
    }
}

/// The view of a result that carries a node.
pub open spec fn node_res(r: Result<PrefixNodeId, TrajectError>) -> Result<
    PrefixNodeId,
    TrajectErrorView,
> {
    match r {
        Ok(id) => Ok(id),
        Err(e) => Err(e@),
    }
}

/// Unified hierarchical memory: logical prefix tree + block pool + eviction.
///
/// Engine physical KV (its radix or prefix cache) is addressed via
/// `PrefixNode.engine_handle`. The runtime owns pin / ref / eviction
/// decisions; the handle is what gets sent as `prefix_id` on generate.
pub struct MemoryManager {
    pub tree: PrefixTree,
    pub pool: BlockPool,
    pub gpu: MemoryTier,
    pub eviction: EvictionPolicy,
    /// Trajectory → currently bound leaf prefix.
    pub bindings: HashMap<u128, PrefixNodeId>,
    /// Trajectory → agent session (stable across generate/tool turns).
    pub sessions: HashMap<u128, SessionBinding>,
}

impl View for MemoryManager {
    type V = ManagerView;

    open spec fn view(&self) -> ManagerView {
        ManagerView {
            tree: self.tree@,
            pool: self.pool@,
            gpu: self.gpu,
            eviction: self.eviction,
            bindings: self.bindings@,
            sessions: self.sessions@.map_values(|s: SessionBinding| s@),
        }
    }
}

/// The state of a new manager over the tree `tree`.
pub open spec fn fresh(tree: TreeView, block_capacity: usize) -> ManagerView {
    ManagerView {
        tree,
        pool: PoolView::fresh(block_capacity),
        gpu: MemoryTier { id: TierId::Gpu, capacity_blocks: block_capacity, used_blocks: 0 },
        eviction: EvictionPolicy { share_weight: Milli(2000), ref_weight: Milli(1000) },
        bindings: Map::empty(),
        sessions: Map::empty(),
    }
}

/// A tree of nothing but a root with a random id.
pub open spec fn root_only(tree: TreeView) -> bool {
    tree.root matches Some(r) && ids::is_random_id(r.0) && tree.nodes == (Map::<
        u128,
        PrefixNodeView,
    >::empty().insert(r.0, PrefixNodeView::bare(r)))
}

impl MemoryManager {
    /// A manager over `block_capacity` blocks; one more has to be countable.
    pub fn new(block_capacity: usize) -> (res: Self)
        requires
            block_capacity < usize::MAX,
        ensures
            res@.wf(),
            root_only(res@.tree),
            res@ == fresh(res@.tree, block_capacity),
    {
        let res = MemoryManager {
            tree: PrefixTree::new(),
            pool: BlockPool::new(block_capacity),
            gpu: MemoryTier::new(TierId::Gpu, block_capacity),
            eviction: EvictionPolicy::default(),
            bindings: HashMap::new(),
            sessions: HashMap::new(),
        };
        assert(res@ =~= fresh(res@.tree, block_capacity));
        res
    }

    pub fn root_id(&self) -> (res: PrefixNodeId)
        requires
            self@.tree.root is Some,
        ensures
            Some(res) == self@.tree.root,
    {
        self.tree.root_id()
    }

    /// Register a stable session id for a trajectory (defaults to traj id string).
    pub fn bind_session(&mut self, traj: TrajectoryId, session_id: &str)
        ensures
            final(self)@ == old(self)@.with_session(traj, session_id@),
    {
        broadcast use vstd::std_specs::hash::group_hash_axioms;

        let session_id: String = session_id.to_string();
        let ghost wanted = session_id@;
        if self.sessions.contains_key(&traj.0) {
            if let Some(s) = value_mut(&mut self.sessions, traj.0) {
                s.session_id = session_id;
            }
        } else {
            self.sessions.insert(
                traj.0,
                SessionBinding { session_id, total_cache_hit_tokens: 0, generate_count: 0 },
            );
        }
        assert(self@ =~= old(self)@.with_session(traj, wanted));
    }

    pub fn session_id(&self, traj: TrajectoryId) -> (res: Option<&str>)
        ensures
            match res {
                Some(s) => self@.sessions.dom().contains(traj.0)
                    && self@.sessions[traj.0].session_id == s@,
                None => !self@.sessions.dom().contains(traj.0),
            },
    {
        match self.session_binding(traj) {
            Some(s) => Some(s.session_id.as_str()),
            None => None,
        }
    }

    pub fn session_binding(&self, traj: TrajectoryId) -> (res: Option<&SessionBinding>)
        ensures
            match res {
                Some(s) => self@.sessions.dom().contains(traj.0) && self@.sessions[traj.0] == s@,
                None => !self@.sessions.dom().contains(traj.0),
            },
    {
        broadcast use vstd::std_specs::hash::group_hash_axioms;

        self.sessions.get(&traj.0)
    }

    pub fn binding(&self, traj: TrajectoryId) -> (res: Option<PrefixNodeId>)
        ensures
            res == self@.bound(traj),
    {
        broadcast use vstd::std_specs::hash::group_hash_axioms;

        match self.bindings.get(&traj.0) {
            Some(n) => Some(*n),
            None => None,
        }
    }

    pub fn bind_trajectory(&mut self, traj: TrajectoryId, node: PrefixNodeId) -> (res: Result<
        (),
        TrajectError,
    >)
        ensures
            old(self)@.wf() ==> final(self)@.wf(),
            if old(self)@.tree.has(node) {
                res is Ok && final(self)@ == old(self)@.with_binding(traj, node)
            } else {
                final(self)@ == old(self)@ && error::res_view(res) == Err::<(), TrajectErrorView>(
                    TrajectErrorView::PrefixNotFound(node),
                )
            },
    {
        broadcast use vstd::std_specs::hash::group_hash_axioms;

        if self.tree.get(node).is_none() {
            return Err(TrajectError::PrefixNotFound(node));
        }
        let ghost was = self@;
        if let Some(left) = self.bindings.insert(traj.0, node) {
            if left != node {
                self.tree.release(left);
            }
        }
        self.tree.retain(node);
        self.tree.add_owner(node, traj);
        let ghost nodes = self@.tree.nodes;
        let ghost mid = ManagerView { bindings: was.bindings.insert(traj.0, node), ..was }.with_nodes(
            nodes,
        );
        assert(self@ =~= mid);
        if !self.sessions.contains_key(&traj.0) {
            let name = traj.to_text();
            self.bind_session(traj, name.as_str());
        }
        assert(self@ =~= was.with_binding(traj, node));
        Ok(())
    }

    /// Opaque engine prefix key for the trajectory's current leaf (or session).
    pub fn engine_prefix_hint(&self, traj: TrajectoryId) -> (res: Option<String>)
        ensures
            text::opt_chars(res) == self@.hint(traj),
    {
        let node = match self.binding(traj) {
            Some(n) => n,
            None => {
                return None;
            },
        };
        if let Some(h) = self.tree.engine_handle(node) {
            return Some(h.to_string());
        }
        Some(node.to_text())
    }

    /// Bind an engine-side handle onto the current prefix leaf.
    pub fn set_engine_handle(&mut self, traj: TrajectoryId, handle: &str) -> (res: Result<
        (),
        TrajectError,
    >)
        ensures
            old(self)@.wf() ==> final(self)@.wf(),
            match old(self)@.bound(traj) {
                Some(node) => res is Ok && final(self)@ == old(self)@.with_nodes(
                    prefix_tree::handled(old(self)@.tree.nodes, node, handle@),
                ),
                None => final(self)@ == old(self)@ && error::res_view(res) == Err::<
                    (),
                    TrajectErrorView,
                >(unbound()),
            },
    {
        let node = match self.binding(traj) {
            Some(n) => n,
            None => {
                return Err(TrajectError::Other("trajectory has no prefix binding".to_string()));
            },
        };
        self.tree.set_engine_handle(node, handle);
        Ok(())
    }

    /// Record engine cache-hit tokens against the current leaf + session totals.
    pub fn note_cache_hit(&mut self, traj: TrajectoryId, hits: u32, now_ms: u64) -> (res: Result<
        (),
        TrajectError,
    >)
        ensures
            old(self)@.wf() ==> final(self)@.wf(),
            res is Ok,
            final(self)@ == old(self)@.with_hits(traj, hits, now_ms),
    {
        if hits == 0 {
            return Ok(());
        }
        let ghost was = self@;
        if let Some(node) = self.binding(traj) {
            self.tree.add_cache_hits(node, hits);
            self.tree.touch(node, now_ms);
        }
        if let Some(s) = value_mut(&mut self.sessions, traj.0) {
            s.total_cache_hit_tokens = s.total_cache_hit_tokens.saturating_add(hits);
            s.generate_count = s.generate_count.saturating_add(1);
        }
        assert(self@ =~= was.with_hits(traj, hits, now_ms));
        Ok(())
    }

    pub fn total_cache_hits(&self, traj: TrajectoryId) -> (res: u32)
        ensures
            res == (if self@.sessions.dom().contains(traj.0) {
                self@.sessions[traj.0].total_cache_hit_tokens
            } else {
                0
            }),
    {
        match self.session_binding(traj) {
            Some(s) => s.total_cache_hit_tokens,
            None => 0,
        }
    }

    pub fn pin_node(&mut self, node: PrefixNodeId, pin: PinInfo) -> (res: Result<(), TrajectError>)
        ensures
            old(self)@.wf() ==> final(self)@.wf(),
            final(self)@ == old(self)@.with_pin(node, pin),
            error::res_view(res) == (if old(self)@.tree.has(node) {
                Ok::<(), TrajectErrorView>(())
            } else {
                Err(TrajectErrorView::PrefixNotFound(node))
            }),
    {
        let ghost was = self@;
        let res = match self.tree.get_mut(node) {
            Some(n) => {
                n.pin = pin;
                Ok(())
            },
            None => Err(TrajectError::PrefixNotFound(node)),
        };
        assert(self@ =~= was.with_pin(node, pin));
        res
    }

    /// Pin the trajectory's current prefix for a tool gap.
    pub fn pin_trajectory(&mut self, traj: TrajectoryId, pin: PinInfo) -> (res: Result<
        PrefixNodeId,
        TrajectError,
    >)
        ensures
            old(self)@.wf() ==> final(self)@.wf(),
            match old(self)@.bound(traj) {
                None => final(self)@ == old(self)@ && node_res(res) == Err::<
                    PrefixNodeId,
                    TrajectErrorView,
                >(unbound()),
                Some(node) => final(self)@ == old(self)@.with_pin(node, pin) && node_res(res) == (
                if old(self)@.tree.has(node) {
                    Ok::<PrefixNodeId, TrajectErrorView>(node)
                } else {
                    Err(TrajectErrorView::PrefixNotFound(node))
                }),
            },
    {
        let node = match self.binding(traj) {
            Some(n) => n,
            None => {
                return Err(TrajectError::Other("trajectory has no prefix binding".to_string()));
            },
        };
        match self.pin_node(node, pin) {
            Ok(_) => Ok(node),
            Err(e) => Err(e),
        }
    }

    pub fn unpin_node(&mut self, node: PrefixNodeId) -> (res: Result<(), TrajectError>)
        ensures
            old(self)@.wf() ==> final(self)@.wf(),
            final(self)@ == old(self)@.with_pin(node, pin::no_pin()),
            error::res_view(res) == (if old(self)@.tree.has(node) {
                Ok::<(), TrajectErrorView>(())
            } else {
                Err(TrajectErrorView::PrefixNotFound(node))
            }),
    {
        let ghost was = self@;
        let res = match self.tree.get_mut(node) {
            Some(n) => {
                n.pin.unpin();
                Ok(())
            },
            None => Err(TrajectError::PrefixNotFound(node)),
        };
        assert(self@ =~= was.with_pin(node, pin::no_pin()));
        res
    }

    pub fn unpin_trajectory(&mut self, traj: TrajectoryId) -> (res: Result<(), TrajectError>)
        ensures
            old(self)@.wf() ==> final(self)@.wf(),
            match old(self)@.bound(traj) {
                None => final(self)@ == old(self)@ && res is Ok,
                Some(node) => final(self)@ == old(self)@.with_pin(node, pin::no_pin())
                    && error::res_view(res) == (if old(self)@.tree.has(node) {
                    Ok::<(), TrajectErrorView>(())
                } else {
                    Err(TrajectErrorView::PrefixNotFound(node))
                }),
            },
    {
        match self.binding(traj) {
            Some(node) => self.unpin_node(node),
            None => Ok(()),
        }
    }

    pub fn release_trajectory(&mut self, traj: TrajectoryId)
        ensures
            old(self)@.wf() ==> final(self)@.wf(),
            final(self)@ == old(self)@.without(traj),
    {
        broadcast use vstd::std_specs::hash::group_hash_axioms;

        let ghost was = self@;
        if let Some(node) = self.bindings.remove(&traj.0) {
            self.tree.remove_owner(node, traj);
            self.tree.release(node);
        }
        self.sessions.remove(&traj.0);
        assert(self@ =~= was.without(traj));
    }

    /// Free a node. Returns `Some(engine_handle)` if freed, `None` if not
    /// eligible.
    ///
    /// Eligible when unpinned and either `ref_count == 0` or no remaining
    /// owners (refcounts can lag after trajectory release).
    fn free_node(&mut self, id: PrefixNodeId, now_ms: u64) -> (res: Option<Option<String>>)
        requires
            old(self)@.wf(),
        ensures
            final(self)@.wf(),
            match res {
                Some(h) => {
                    &&& old(self)@.evictable(id, now_ms)
                    &&& final(self)@ == old(self)@.freed(id)
                    &&& text::opt_chars(h) == old(self)@.tree.nodes[id.0].engine_handle
                },
                None => !old(self)@.evictable(id, now_ms) && final(self)@ == old(self)@,
            },
    {
        if id == self.tree.root_id() {
            return None;
        }
        let node = match self.tree.get(id) {
            Some(n) => n.clone(),
            None => {
                return None;
            },
        };
        if node.pin.is_pinned(now_ms) {
            return None;
        }
        if node.ref_count > 0 && node.owners.len() > 0 {
            return None;
        }
        let ghost was = self@;
        let mut i: usize = 0;
        assert(node.blocks@.take(0) =~= Seq::empty());
        while i < node.blocks.len()
            invariant
                i <= node.blocks@.len(),
                self@.pool.wf(),
                self@ == (ManagerView {
                    pool: was.pool.all_returned(node.blocks@.take(i as int)),
                    ..was
                }),
            decreases node.blocks@.len() - i,
        {
            proof {
                let next = node.blocks@.take(i + 1);
                assert(next.drop_last() =~= node.blocks@.take(i as int));
            }
            self.pool.free(node.blocks[i]);
            i += 1;
        }
        assert(node.blocks@.take(i as int) =~= node.blocks@);
        self.gpu.used_blocks = self.pool.allocated();
        let handle = node.engine_handle;
        self.tree.remove_node(id);
        proof {
            prefix_laws::lemma_removed_wf(was.tree, id);
            assert(self@ =~= was.freed(id));
        }
        Some(handle)
    }

    /// The nodes other than the root.
    fn inner_nodes(&self) -> (res: Vec<&PrefixNode>)
        requires
            self@.wf(),
        ensures
            forall|i: int|
                0 <= i < res@.len() ==> {
                    let n = (#[trigger] res@[i])@;
                    &&& self@.tree.has(n.id)
                    &&& Some(n.id) != self@.tree.root
                    &&& self@.tree.nodes[n.id.0] == n
                },
            forall|id: PrefixNodeId|
                self@.tree.has(id) && Some(id) != self@.tree.root ==> exists|i: int|
                    0 <= i < res@.len() && (#[trigger] res@[i])@ == #[trigger] self@.tree.nodes[id.0],
    {
        let order = self.tree.node_ids();
        let root = self.tree.root_id();
        let mut res: Vec<&PrefixNode> = Vec::new();
        let mut i: usize = 0;
        while i < order.len()
            invariant
                i <= order@.len(),
                self@.wf(),
                Some(root) == self@.tree.root,
                forall|id: PrefixNodeId| #[trigger] order@.contains(id) <==> self@.tree.has(id),
                forall|j: int|
                    0 <= j < res@.len() ==> {
                        let n = (#[trigger] res@[j])@;
                        &&& self@.tree.has(n.id)
                        &&& n.id != root
                        &&& self@.tree.nodes[n.id.0] == n
                    },
                forall|j: int|
                    0 <= j < i && order@[j] != root ==> exists|k: int|
                        0 <= k < res@.len() && (#[trigger] res@[k])@ == self@.tree.nodes[(
                        #[trigger] order@[j]).0],
            decreases order@.len() - i,
        {
            let id = order[i];
            assert(order@.contains(id));
            let ghost before = res@;
            if id != root {
                if let Some(n) = self.tree.get(id) {
                    res.push(n);
                    assert(res@[before.len() as int]@ == self@.tree.nodes[id.0]);
                }
            }
            assert forall|j: int| 0 <= j < i + 1 && order@[j] != root implies exists|k: int|
                0 <= k < res@.len() && (#[trigger] res@[k])@ == self@.tree.nodes[(
                #[trigger] order@[j]).0] by {
                if j < i {
                    let k = choose|k: int|
                        0 <= k < before.len() && (#[trigger] before[k])@
                            == self@.tree.nodes[order@[j].0];
                    assert(res@[k] == before[k]);
                }
            }
            i += 1;
        }
        assert forall|id: PrefixNodeId|
            self@.tree.has(id) && Some(id) != self@.tree.root implies exists|k: int|
            0 <= k < res@.len() && (#[trigger] res@[k])@ == #[trigger] self@.tree.nodes[id.0] by {
            assert(order@.contains(id));
            let j = choose|j: int| 0 <= j < order@.len() && order@[j] == id;
            assert(order@[j] != root);
        }
        res
    }

    /// The node to give up next: one of the lightest that may go.
    fn next_victim(&self, now_ms: u64) -> (res: Option<PrefixNodeId>)
        requires
            self@.wf(),
        ensures
            match res {
                Some(id) => self@.lightest(id, now_ms),
                None => forall|id: PrefixNodeId| !#[trigger] self@.evictable(id, now_ms),
            },
    {
        let candidates = self.inner_nodes();
        match self.eviction.pick(&candidates, now_ms) {
            Some(c) => {
                proof {
                    let i = choose|i: int|
                        {
                            &&& 0 <= i < candidates@.len()
                            &&& (#[trigger] candidates@[i])@.id == c.node_id
                            &&& self.eviction.rated(candidates@[i]@, now_ms) == Some(c.score as nat)
                            &&& forall|j: int|
                                0 <= j < candidates@.len() ==> (self.eviction.rated(
                                    (#[trigger] candidates@[j])@,
                                    now_ms,
                                ) matches Some(s) ==> s >= c.score && (j < i ==> s > c.score))
                        };
                    assert(self@.tree.nodes[c.node_id.0] == candidates@[i]@);
                    assert forall|other: PrefixNodeId| #[trigger]
                        self@.evictable(other, now_ms) implies self@.eviction.weight(
                        self@.tree.nodes[c.node_id.0],
                    ) <= self@.eviction.weight(self@.tree.nodes[other.0]) by {
                        let j = choose|j: int|
                            0 <= j < candidates@.len() && (#[trigger] candidates@[j])@
                                == self@.tree.nodes[other.0];
                        assert(self.eviction.rated(candidates@[j]@, now_ms) is Some);
                    }
                }
                Some(c.node_id)
            },
            None => {
                assert forall|id: PrefixNodeId| !#[trigger] self@.evictable(id, now_ms) by {
                    if self@.evictable(id, now_ms) {
                        let j = choose|j: int|
                            0 <= j < candidates@.len() && (#[trigger] candidates@[j])@
                                == self@.tree.nodes[id.0];
                        assert(self.eviction.rated(candidates@[j]@, now_ms) is None);
                    }
                }
                None
            },
        }
    }

    /// Evict unreferenced, unpinned nodes under pressure.
    /// Returns `(node_count, engine_handles_to_free)`. Among nodes of equal
    /// score, which goes first is not fixed.
    pub fn maybe_evict(&mut self, now_ms: u64, pressure_threshold: Milli) -> (res: (
        usize,
        Vec<String>,
    ))
        requires
            old(self)@.wf(),
        ensures
            final(self)@.wf(),
            exists|gone: Seq<PrefixNodeId>|
                {
                    &&& #[trigger] old(self)@.evicts(gone, now_ms, pressure_threshold)
                    &&& final(self)@ == old(self)@.all_freed(gone)
                    &&& res.0 == gone.len()
                    &&& text::all_chars(res.1@) == old(self)@.handles(gone)
                },
    {
        let ghost was = self@;
        let ghost mut gone: Seq<PrefixNodeId> = Seq::empty();
        let total: usize = self.tree.len();
        let mut freed: usize = 0;
        let mut handles: Vec<String> = Vec::new();
        let mut stuck = false;
        assert(text::all_chars(handles@) =~= Seq::empty());
        while !stuck && self.gpu.pressure().at_least(pressure_threshold)
            invariant
                self@.wf(),
                was.may_evict(gone, now_ms, pressure_threshold),
                self@ == was.all_freed(gone),
                freed == gone.len(),
                freed + self@.tree.nodes.dom().len() == total,
                text::all_chars(handles@) == was.handles(gone),
                stuck ==> forall|id: PrefixNodeId| !#[trigger] self@.evictable(id, now_ms),
            decreases
                    self@.tree.nodes.dom().len(),
                    (if stuck {
                        0int
                    } else {
                        1int
                    }),
        {
            match self.next_victim(now_ms) {
                Some(id) => {
                    let ghost now = self@;
                    if let Some(h) = self.free_node(id, now_ms) {
                        proof {
                            prefix_laws::lemma_removed_wf(now.tree, id);
                            assert(now.tree.nodes.dom().remove(id.0).len()
                                == now.tree.nodes.dom().len() - 1);
                            let next = gone.push(id);
                            assert(next.drop_last() =~= gone);
                            assert(was.all_freed(next) == now.freed(id));
                            gone = next;
                        }
                        freed += 1;
                        if let Some(handle) = h {
                            let ghost before = text::all_chars(handles@);
                            let ghost name = handle@;
                            handles.push(handle);
                            assert(text::all_chars(handles@) =~= before.push(name));
                        }
                    }
                },
                None => {
                    stuck = true;
                },
            }
        }
        assert(was.evicts(gone, now_ms, pressure_threshold)) by {
            reveal(ManagerView::evicts);
        }
        (freed, handles)
    }

    /// Makes room for one block, by eviction if need be.
    fn ensure_capacity(&mut self, now_ms: u64) -> (res: Result<(), TrajectError>)
        requires
            old(self)@.wf(),
        ensures
            final(self)@.wf(),
            old(self)@.made_room(now_ms, final(self)@),
            error::res_view(res) == (if final(self)@.has_room() {
                Ok::<(), TrajectErrorView>(())
            } else {
                Err(final(self)@.full())
            }),
    {
        if self.pool.allocated() < self.pool.capacity() {
            return Ok(());
        }
        let _ = self.maybe_evict(now_ms, Milli(850));
        if self.pool.allocated() < self.pool.capacity() {
            Ok(())
        } else {
            let mut message: String = "need ".to_string();
            message.append(decimal(1).as_str());
            message.append(" blocks, allocated ");
            message.append(decimal(self.pool.allocated() as u64).as_str());
            message.append("/");
            message.append(decimal(self.pool.capacity() as u64).as_str());
            Err(TrajectError::MemoryPressure(message))
        }
    }

    /// Insert tokens under the trajectory's current prefix (radix-shared).
    pub fn append_tokens(&mut self, traj: TrajectoryId, tokens: Vec<u32>) -> (res: Result<
        PrefixNodeId,
        TrajectError,
    >)
        requires
            old(self)@.wf(),
        ensures
            final(self)@.wf(),
            exists|room: ManagerView, mid: PrefixNodeId, leaf: PrefixNodeId|
                {
                    &&& #[trigger] old(self)@.appended(
                        traj,
                        tokens@,
                        0,
                        room,
                        mid,
                        leaf,
                        final(self)@,
                        node_res(res),
                    )
                    &&& ids::is_random_id(mid.0)
                    &&& ids::is_random_id(leaf.0)
                },
    {
        self.append_tokens_at(traj, tokens, 0)
    }

    /// Insert tokens at the time `now_ms`. New nodes stand under fresh random
    /// ids.
    pub fn append_tokens_at(&mut self, traj: TrajectoryId, tokens: Vec<u32>, now_ms: u64) -> (res:
        Result<PrefixNodeId, TrajectError>)
        requires
            old(self)@.wf(),
        ensures
            final(self)@.wf(),
            exists|room: ManagerView, mid: PrefixNodeId, leaf: PrefixNodeId|
                {
                    &&& #[trigger] old(self)@.appended(
                        traj,
                        tokens@,
                        now_ms,
                        room,
                        mid,
                        leaf,
                        final(self)@,
                        node_res(res),
                    )
                    &&& ids::is_random_id(mid.0)
                    &&& ids::is_random_id(leaf.0)
                },
    {
        let mid = PrefixNodeId::new();
        let leaf = PrefixNodeId::new();
        self.append_tokens_as(traj, tokens, now_ms, mid, leaf)
    }

    /// Insert tokens under given ids for the nodes that this may create.
    pub fn append_tokens_as(
        &mut self,
        traj: TrajectoryId,
        tokens: Vec<u32>,
        now_ms: u64,
        mid: PrefixNodeId,
        leaf: PrefixNodeId,
    ) -> (res: Result<PrefixNodeId, TrajectError>)
        requires
            old(self)@.wf(),
        ensures
            final(self)@.wf(),
            exists|room: ManagerView| #[trigger]
                old(self)@.appended(
                    traj,
                    tokens@,
                    now_ms,
                    room,
                    mid,
                    leaf,
                    final(self)@,
                    node_res(res),
                ),
    {
        reveal(ManagerView::appended);
        let ghost was = self@;
        if tokens.len() == 0 {
            let res = match self.binding(traj) {
                Some(n) => Ok(n),
                None => Err(TrajectError::Other("trajectory has no prefix binding".to_string())),
            };
            assert(was.appended(traj, tokens@, now_ms, was, mid, leaf, self@, node_res(res)));
            return res;
        }
        let parent = match self.binding(traj) {
            Some(n) => n,
            None => self.tree.root_id(),
        };
        match self.ensure_capacity(now_ms) {
            Ok(_) => {},
            Err(e) => {
                let res: Result<PrefixNodeId, TrajectError> = Err(e);
                assert(was.appended(traj, tokens@, now_ms, self@, mid, leaf, self@, node_res(res)));
                return res;
            },
        }
        let ghost room = self@;
        proof {
            prefix_laws::lemma_insert_keyed(room.tree.nodes, parent, tokens@, traj, mid, leaf);
        }
        let child = match self.tree.insert_tokens_as(parent, tokens.as_slice(), traj, mid, leaf) {
            Some(c) => c,
            None => {
                let res: Result<PrefixNodeId, TrajectError> = Err(
                    TrajectError::PrefixNotFound(parent),
                );
                assert(was.appended(traj, tokens@, now_ms, room, mid, leaf, self@, node_res(res)));
                return res;
            },
        };
        let ghost n = self@.tree.nodes;
        assert(self@ =~= room.with_nodes(n));
        // Inherit / set engine handle: keep parent handle when fully shared,
        // else leaf id.
        if self.tree.engine_handle(child).is_none() {
            let handle: String = match self.tree.engine_handle(parent) {
                Some(h) => h.to_string(),
                None => child.to_text(),
            };
            self.tree.set_engine_handle(child, handle.as_str());
        }
        let ghost m1 = room.with_nodes(n).with_handle(child, parent);
        assert(self@ =~= m1);
        self.tree.touch(child, now_ms);
        let ghost m2 = m1.with_nodes(prefix_tree::touched(m1.tree.nodes, child, now_ms));
        assert(self@ =~= m2);
        if let Some(node) = self.tree.get_mut(child) {
            if node.blocks.len() == 0 {
                if let Some(bid) = self.pool.alloc_block() {
                    node.blocks.push(bid);
                    self.gpu.used_blocks = self.pool.allocated();
                }
            }
        }
        let ghost m3 = m2.with_block(child);
        assert(self@ =~= m3);
        assert(self@.wf());
        let res = match self.bind_trajectory(traj, child) {
            Ok(_) => Ok(child),
            Err(e) => Err(e),
        };
        assert(was.appended(traj, tokens@, now_ms, room, mid, leaf, self@, node_res(res)));
        res
    }

    /// The cache-hit tokens of all sessions together.
    fn sum_hits(&self) -> (res: u32)
        requires
            self@.hits() <= u32::MAX,
        ensures
            res == self@.hits(),
    {
        broadcast use vstd::std_specs::hash::group_hash_axioms;

        let ghost sessions = self@.sessions;
        let ghost f = adding(sessions);
        let ghost mut done: Set<u128> = Set::empty();
        let mut sum: u128 = 0;
        let many: usize = self.sessions.len();
        proof {
            vstd::set::fold::lemma_fold_empty(0int, f);
        }
        for k in it: self.sessions.keys()
            invariant
                it.seq() == vstd::std_specs::iter::IteratorSpec::remaining(&self.sessions.keys()),
                it.seq().len() == many,
                sessions == self@.sessions,
                f == adding(sessions),
                done.finite(),
                forall|x: u128| #[trigger]
                    done.contains(x) <==> exists|j: int|
                        0 <= j < it.index() && *#[trigger] it.seq()[j] == x,
                sum == total_hits(sessions, done),
                sum <= it.index() * u32::MAX,
        {
            proof {
                let n = it.index();
                assert(*it.seq()[n] == *k);
                assert(it.seq().unref()[n] == *k);
                assert(it.seq().unref().contains(*k));
                assert(it.seq().unref().to_set() == self.sessions@.dom());
                assert(it.seq().unref().to_set().contains(*k));
                assert(!done.contains(*k)) by {
                    if done.contains(*k) {
                        let j = choose|j: int| 0 <= j < n && *#[trigger] it.seq()[j] == *k;
                        assert(it.seq()[j] == it.seq()[n]);
                    }
                }
                vstd::set::fold::lemma_fold_insert(done, 0int, f, *k);
                assert(total_hits(sessions, done.insert(*k)) == total_hits(sessions, done)
                    + sessions[*k].total_cache_hit_tokens);
                let before = done;
                done = done.insert(*k);
                assert forall|x: u128| #[trigger] done.contains(x) == (exists|j: int|
                    0 <= j < n + 1 && *#[trigger] it.seq()[j] == x) by {
                    if done.contains(x) {
                        if x == *k {
                            assert(*it.seq()[n] == x);
                        } else {
                            assert(before.contains(x));
                            let j = choose|j: int| 0 <= j < n && *#[trigger] it.seq()[j] == x;
                            assert(0 <= j < n + 1);
                        }
                    }
                    if exists|j: int| 0 <= j < n + 1 && *#[trigger] it.seq()[j] == x {
                        let j = choose|j: int| 0 <= j < n + 1 && *#[trigger] it.seq()[j] == x;
                        if j < n {
                            assert(before.contains(x));
                        }
                    }
                }
            }
            if let Some(s) = self.sessions.get(k) {
                sum = sum + s.total_cache_hit_tokens as u128;
            }
        }
        proof {
            let keys = vstd::std_specs::iter::IteratorSpec::remaining(&self.sessions.keys());
            assert(done =~= sessions.dom()) by {
                assert(keys.unref().to_set() == self.sessions@.dom());
                assert forall|x: u128| #[trigger] done.contains(x) == sessions.dom().contains(x) by {
                    if done.contains(x) {
                        let j = choose|j: int| 0 <= j < keys.len() && *#[trigger] keys[j] == x;
                        assert(keys.unref()[j] == x);
                        assert(keys.unref().contains(x));
                        assert(keys.unref().to_set().contains(x));
                    }
                    if sessions.dom().contains(x) {
                        assert(keys.unref().to_set().contains(x));
                        let j = choose|j: int|
                            0 <= j < keys.unref().len() && keys.unref()[j] == x;
                        assert(*keys[j] == x);
                    }
                }
            }
        }
        sum as u32
    }

    /// How many nodes carry a pin.
    fn count_pinned(&self) -> (res: usize)
        ensures
            res == self@.pinned().len(),
    {
        let ghost nodes = self@.tree.nodes;
        let ghost mut done: Set<u128> = Set::empty();
        let order = self.tree.node_ids();
        let mut count: usize = 0;
        let mut i: usize = 0;
        assert(with_pins(nodes, done) =~= Set::empty());
        while i < order.len()
            invariant
                i <= order@.len(),
                nodes == self@.tree.nodes,
                order@.no_duplicates(),
                forall|id: PrefixNodeId| #[trigger] order@.contains(id) <==> self@.tree.has(id),
                done.finite(),
                forall|x: u128| #[trigger]
                    done.contains(x) <==> exists|j: int|
                        0 <= j < i && (#[trigger] order@[j]).0 == x,
                count == with_pins(nodes, done).len(),
                count <= i,
            decreases order@.len() - i,
        {
            let id = order[i];
            assert(order@.contains(id));
            proof {
                assert(!done.contains(id.0)) by {
                    if done.contains(id.0) {
                        let j = choose|j: int| 0 <= j < i && (#[trigger] order@[j]).0 == id.0;
                        assert(order@[j] == order@[i as int]);
                    }
                }
                lemma_with_pins(nodes, done, id.0);
                let before = done;
                done = done.insert(id.0);
                assert forall|x: u128| #[trigger] done.contains(x) == (exists|j: int|
                    0 <= j < i + 1 && (#[trigger] order@[j]).0 == x) by {
                    if done.contains(x) {
                        if x == id.0 {
                            assert(order@[i as int].0 == x);
                        } else {
                            assert(before.contains(x));
                            let j = choose|j: int| 0 <= j < i && (#[trigger] order@[j]).0 == x;
                            assert(0 <= j < i + 1);
                        }
                    }
                    if exists|j: int| 0 <= j < i + 1 && (#[trigger] order@[j]).0 == x {
                        let j = choose|j: int| 0 <= j < i + 1 && (#[trigger] order@[j]).0 == x;
                        if j < i {
                            assert(before.contains(x));
                        }
                    }
                }
            }
            if let Some(n) = self.tree.get(id) {
                if n.pin.pin_until_ms.is_some() {
                    count += 1;
                }
            }
            i += 1;
        }
        proof {
            assert forall|x: u128| #[trigger] done.contains(x) == nodes.dom().contains(x) by {
                if done.contains(x) {
                    let j = choose|j: int| 0 <= j < i && (#[trigger] order@[j]).0 == x;
                    assert(order@.contains(order@[j]));
                }
                if nodes.dom().contains(x) {
                    assert(self@.tree.has(PrefixNodeId(x)));
                    assert(order@.contains(PrefixNodeId(x)));
                    let j = choose|j: int| 0 <= j < order@.len() && order@[j] == PrefixNodeId(x);
                    assert(order@[j].0 == x);
                }
            }
            assert(done =~= nodes.dom());
            assert(with_pins(nodes, done) =~= self@.pinned());
        }
        count
    }

    pub fn stats(&self) -> (res: MemoryStats)
        requires
            self@.hits() <= u32::MAX,
        ensures
            res == (MemoryStats {
                nodes: self@.tree.nodes.dom().len() as usize,
                blocks_allocated: self@.pool.allocated,
                blocks_capacity: self@.pool.capacity,
                gpu_pressure: self@.gpu.load(),
                total_cache_hit_tokens: self@.hits() as u32,
                pinned_nodes: self@.pinned().len() as usize,
            }),
            res.nodes == self@.tree.nodes.dom().len(),
            res.pinned_nodes == self@.pinned().len(),
    {
        MemoryStats {
            nodes: self.tree.len(),
            blocks_allocated: self.pool.allocated(),
            blocks_capacity: self.pool.capacity(),
            gpu_pressure: self.gpu.pressure(),
            total_cache_hit_tokens: self.sum_hits(),
            pinned_nodes: self.count_pinned(),
        }
    }
}

impl Default for MemoryManager {
    fn default() -> (res: Self)
        ensures
            res@.wf(),
            root_only(res@.tree),
            res@ == fresh(res@.tree, 4096),
    {
        Self::new(4096)
    }
}

} // verus!
