//! Prefixes: the radix tree, the blocks behind it, and eviction.

use traject::error::TrajectError;
use traject::ids::{PrefixNodeId, TrajectoryId};
use traject::memory::block_pool::BlockPool;
use traject::memory::eviction::EvictionPolicy;
use traject::memory::manager::MemoryManager;
use traject::memory::prefix_tree::PrefixTree;
use traject::memory::tier::{MemoryTier, TierId};
use traject::pin::{PinInfo, PinReason};
use traject::ratio::Milli;

#[test]
fn shared_prefix_reuses_node() {
    let mut mem = MemoryManager::new(128);
    let t1 = TrajectoryId::new();
    let t2 = TrajectoryId::new();
    let root = mem.root_id();
    mem.bind_trajectory(t1, root).unwrap();
    mem.bind_trajectory(t2, root).unwrap();
    let a = mem.append_tokens(t1, vec![1, 2, 3]).unwrap();
    mem.bind_trajectory(t2, root).unwrap();
    let b = mem.append_tokens(t2, vec![1, 2, 3]).unwrap();
    assert_eq!(a, b);
    assert!(mem.tree.get(a).unwrap().ref_count >= 2);
}

#[test]
fn engine_handle_and_cache_hit_track() {
    let mut mem = MemoryManager::new(128);
    let t = TrajectoryId::new();
    let root = mem.root_id();
    mem.bind_trajectory(t, root).unwrap();
    mem.bind_session(t, "sess-1");
    let node = mem.append_tokens_at(t, vec![1, 2], 1000).unwrap();
    assert!(mem.engine_prefix_hint(t).is_some());
    mem.set_engine_handle(t, "engine-prefix-abc").unwrap();
    assert_eq!(mem.tree.engine_handle(node), Some("engine-prefix-abc"));
    mem.note_cache_hit(t, 42, 2000).unwrap();
    assert_eq!(mem.total_cache_hits(t), 42);
    assert_eq!(mem.tree.get(node).unwrap().cache_hit_tokens, 42);
}

#[test]
fn pin_protects_from_eviction() {
    let mut mem = MemoryManager::new(2);
    let t = TrajectoryId::new();
    let root = mem.root_id();
    mem.bind_trajectory(t, root).unwrap();
    let n = mem.append_tokens(t, vec![1]).unwrap();
    // Force high pressure by filling the pool.
    let _ = mem.append_tokens(t, vec![2]);
    mem.pin_node(n, PinInfo::pin_until(u64::MAX, PinReason::WaitingTool, 1)).unwrap();
    // Release the binding so that the count can drop; the pin blocks the free.
    mem.release_trajectory(t);
    let (freed, handles) = mem.maybe_evict(0, Milli(0));
    assert!(
        mem.tree.get(n).is_some(),
        "pinned node must survive, freed={freed} handles={handles:?}"
    );
}

#[test]
fn eviction_returns_engine_handles() {
    let mut mem = MemoryManager::new(1);
    let t = TrajectoryId::new();
    let root = mem.root_id();
    mem.bind_trajectory(t, root).unwrap();
    let n = mem.append_tokens(t, vec![1, 2, 3]).unwrap();
    mem.set_engine_handle(t, "eng-h-1").unwrap();
    assert_eq!(mem.tree.engine_handle(n), Some("eng-h-1"));
    mem.release_trajectory(t);
    // The pool is full already.
    let (freed, handles) = mem.maybe_evict(0, Milli(0));
    assert!(freed >= 1, "expected free, got {freed}");
    assert!(handles.iter().any(|h| h == "eng-h-1"), "handles={handles:?}");
}

#[test]
fn append_child() {
    let mut tree = PrefixTree::new();
    let root = tree.root_id();
    let child = tree.append(root, vec![1, 2, 3], TrajectoryId::new()).unwrap();
    assert_eq!(tree.len(), 2);
    assert_eq!(tree.get(child).unwrap().tokens, vec![1, 2, 3]);
}

#[test]
fn radix_share_identical() {
    let mut tree = PrefixTree::new();
    let root = tree.root_id();
    let t1 = TrajectoryId::new();
    let t2 = TrajectoryId::new();
    let a = tree.insert_tokens(root, &[10, 20, 30], t1).unwrap();
    let b = tree.insert_tokens(root, &[10, 20, 30], t2).unwrap();
    assert_eq!(a, b);
    assert!(tree.get(a).unwrap().ref_count >= 2);
}

#[test]
fn radix_split_on_divergence() {
    let mut tree = PrefixTree::new();
    let root = tree.root_id();
    let t1 = TrajectoryId::new();
    let t2 = TrajectoryId::new();
    let a = tree.insert_tokens(root, &[1, 2, 3, 4], t1).unwrap();
    let b = tree.insert_tokens(root, &[1, 2, 9, 9], t2).unwrap();
    assert_ne!(a, b);
    // A node for [1, 2] stands between.
    let mid = tree.get(a).unwrap().parent.unwrap();
    assert_eq!(tree.get(mid).unwrap().tokens, vec![1, 2]);
    assert_eq!(tree.get(b).unwrap().parent, Some(mid));
}

fn path(tree: &PrefixTree, leaf: PrefixNodeId) -> Vec<u32> {
    let mut out: Vec<u32> = vec![];
    let mut at = Some(leaf);
    while let Some(id) = at {
        let node = tree.get(id).unwrap();
        let mut edge = node.tokens.clone();
        edge.extend(out);
        out = edge;
        at = node.parent;
    }
    out
}

#[test]
fn a_path_reads_back_what_was_inserted() {
    let mut tree = PrefixTree::new();
    let root = tree.root_id();
    let inputs: [&[u32]; 6] =
        [&[1, 2, 3, 4], &[1, 2, 9], &[1, 2], &[1, 2, 3, 4, 5], &[7], &[1, 2, 3]];
    let mut leaves = vec![];
    for tokens in inputs {
        leaves.push(tree.insert_tokens(root, tokens, TrajectoryId::new()).unwrap());
    }
    for (leaf, tokens) in leaves.iter().zip(inputs) {
        assert_eq!(path(&tree, *leaf), tokens.to_vec());
    }
    // No two children of a node begin with the same token.
    for id in tree.node_ids() {
        let mut firsts: Vec<u32> =
            tree.get(id).unwrap().children.iter().map(|c| tree.get(*c).unwrap().tokens[0]).collect();
        let n = firsts.len();
        firsts.sort();
        firsts.dedup();
        assert_eq!(firsts.len(), n);
    }
}

#[test]
fn inserting_under_an_unknown_node_gives_nothing() {
    let mut tree = PrefixTree::new();
    assert!(tree.insert_tokens(PrefixNodeId(99), &[1], TrajectoryId::new()).is_none());
    assert!(tree.append(PrefixNodeId(99), vec![1], TrajectoryId::new()).is_none());
    assert_eq!(tree.len(), 1);
    assert!(!tree.is_empty());
}

#[test]
fn a_removed_node_hands_its_children_to_its_parent() {
    let mut tree = PrefixTree::new();
    let root = tree.root_id();
    let t = TrajectoryId::new();
    let a = tree.insert_tokens(root, &[1], t).unwrap();
    let b = tree.insert_tokens(a, &[2], t).unwrap();
    assert!(tree.remove_node(a));
    assert!(tree.get(a).is_none());
    assert_eq!(tree.get(b).unwrap().parent, Some(root));
    assert!(!tree.remove_node(a));
}

#[test]
fn owners_and_counts() {
    let mut tree = PrefixTree::new();
    let root = tree.root_id();
    let t = TrajectoryId::new();
    let a = tree.insert_tokens(root, &[1], t).unwrap();
    let before = tree.get(a).unwrap().ref_count;
    tree.retain(a);
    assert_eq!(tree.get(a).unwrap().ref_count, before + 1);
    tree.release(a);
    assert_eq!(tree.get(a).unwrap().ref_count, before);
    let other = TrajectoryId::new();
    tree.add_owner(a, other);
    tree.add_owner(a, other);
    assert_eq!(tree.get(a).unwrap().owners.iter().filter(|o| **o == other).count(), 1);
    tree.remove_owner(a, other);
    assert!(!tree.get(a).unwrap().owners.contains(&other));
    tree.touch(a, 77);
    assert_eq!(tree.get(a).unwrap().last_access_ms, 77);
}

#[test]
fn blocks_come_and_go() {
    let mut pool = BlockPool::new(2);
    let a = pool.alloc_block().unwrap();
    let b = pool.alloc_block().unwrap();
    assert_ne!(a, b);
    assert!(pool.alloc_block().is_none());
    assert_eq!(pool.allocated(), 2);
    assert_eq!(pool.capacity(), 2);
    pool.free(a);
    assert_eq!(pool.allocated(), 1);
    assert_eq!(pool.alloc_block(), Some(a));
}

#[test]
fn pressure_is_what_is_used() {
    let mut tier = MemoryTier::new(TierId::Gpu, 4);
    assert!(!tier.pressure().at_least(Milli(1)));
    tier.used_blocks = 3;
    assert!(tier.pressure().at_least(Milli(750)));
    assert!(!tier.pressure().at_least(Milli(751)));
}

#[test]
fn the_least_shared_node_goes_first() {
    let mut tree = PrefixTree::new();
    let root = tree.root_id();
    let t = TrajectoryId::new();
    let hit = tree.insert_tokens(root, &[1], t).unwrap();
    let plain = tree.insert_tokens(root, &[2], t).unwrap();
    tree.add_cache_hits(hit, 5);
    let policy = EvictionPolicy::default();
    // Nothing that is referred to goes.
    assert!(policy.score(tree.get(plain).unwrap(), 0).is_none());
    for id in [hit, plain] {
        tree.release(id);
        tree.remove_owner(id, t);
    }
    let nodes = vec![tree.get(hit).unwrap(), tree.get(plain).unwrap()];
    assert_eq!(policy.pick(&nodes, 1000).unwrap().node_id, plain);
}

#[test]
fn an_unknown_trajectory_has_no_prefix() {
    let mut mem = MemoryManager::new(4);
    let t = TrajectoryId::new();
    assert!(mem.binding(t).is_none());
    assert!(mem.engine_prefix_hint(t).is_none());
    assert!(mem.session_id(t).is_none());
    let err = mem.bind_trajectory(t, PrefixNodeId(5)).unwrap_err();
    assert!(matches!(err, TrajectError::PrefixNotFound(PrefixNodeId(5))));
    assert!(mem.set_engine_handle(t, "h").is_err());
    assert!(mem.pin_node(PrefixNodeId(5), PinInfo::default()).is_err());
    assert!(mem.unpin_node(PrefixNodeId(5)).is_err());
}

#[test]
fn a_full_pool_makes_room_by_eviction() {
    let mut mem = MemoryManager::new(1);
    let root = mem.root_id();
    let a = TrajectoryId::new();
    mem.bind_trajectory(a, root).unwrap();
    let n = mem.append_tokens_at(a, vec![1], 10).unwrap();
    mem.release_trajectory(a);
    let b = TrajectoryId::new();
    mem.bind_trajectory(b, root).unwrap();
    let m = mem.append_tokens_at(b, vec![2], 20).unwrap();
    assert!(mem.tree.get(n).is_none());
    assert_eq!(mem.tree.get(m).unwrap().tokens, vec![2]);
}

#[test]
fn stats_count_what_is_held() {
    let mut mem = MemoryManager::new(8);
    let root = mem.root_id();
    let t = TrajectoryId::new();
    mem.bind_trajectory(t, root).unwrap();
    mem.bind_session(t, "s");
    let n = mem.append_tokens_at(t, vec![1, 2], 5).unwrap();
    mem.note_cache_hit(t, 3, 6).unwrap();
    mem.pin_trajectory(t, PinInfo::pin_until(100, PinReason::Manual, 1)).unwrap();
    let stats = mem.stats();
    assert_eq!(stats.nodes, 2);
    assert_eq!(stats.total_cache_hit_tokens, 3);
    assert_eq!(stats.pinned_nodes, 1);
    assert_eq!(stats.blocks_capacity, 8);
    mem.unpin_trajectory(t).unwrap();
    assert_eq!(mem.stats().pinned_nodes, 0);
    assert_eq!(mem.session_binding(t).unwrap().session_id, "s");
    assert_eq!(mem.binding(t), Some(n));
}

#[test]
fn siblings_differ_and_parents_list_their_children_once() {
    let mut tree = PrefixTree::new();
    let root = tree.root_id();
    let t = TrajectoryId::new();
    let below = tree.insert_tokens(root, &[5, 6, 7], t).unwrap();
    tree.insert_tokens(below, &[8], t).unwrap();
    tree.insert_tokens(root, &[5, 9], t).unwrap();
    tree.insert_tokens(root, &[], t).unwrap();
    let n = tree.len();
    assert_eq!(tree.insert_tokens(root, &[5, 6, 7], TrajectoryId::new()), Some(below));
    assert_eq!(tree.len(), n);
    for id in tree.node_ids() {
        let node = tree.get(id).unwrap();
        if id == root {
            assert!(node.parent.is_none());
            continue;
        }
        assert!(!node.tokens.is_empty());
        let parent = tree.get(node.parent.unwrap()).unwrap();
        assert_eq!(parent.children.iter().filter(|c| **c == id).count(), 1);
    }
}

#[test]
fn a_split_keeps_every_path() {
    let mut tree = PrefixTree::new();
    let root = tree.root_id();
    let t = TrajectoryId::new();
    let a = tree.insert_tokens(root, &[1, 2, 3, 4], t).unwrap();
    let b = tree.insert_tokens(a, &[5], t).unwrap();
    let before = (path(&tree, a), path(&tree, b));
    // This one splits the edge of the first.
    tree.insert_tokens(root, &[1, 2, 8], t).unwrap();
    assert_eq!((path(&tree, a), path(&tree, b)), before);
    assert_eq!(tree.get(a).unwrap().tokens, vec![3, 4]);
}

#[test]
fn new_nodes_have_random_ids() {
    let mut mem = MemoryManager::new(4);
    let root = mem.root_id();
    let t = TrajectoryId::new();
    mem.bind_trajectory(t, root).unwrap();
    let leaf = mem.append_tokens_at(t, vec![1, 2], 1).unwrap();
    assert_eq!((leaf.0 >> 76) & 0xf, 4);
    assert_eq!((leaf.0 >> 62) & 0x3, 2);
    assert_ne!(leaf, root);
}
