//! Which node to give up under pressure.
use vstd::prelude::*;

use crate::ids::PrefixNodeId;
use crate::memory::prefix_tree::{PrefixNode, PrefixNodeView};
use crate::ratio::Milli;

verus! {

#[derive(Debug, Clone, Copy, PartialEq, Eq, Structural)]
pub struct EvictionCandidate {
    pub node_id: PrefixNodeId,
    /// The weighted score, in hundred-thousandths.
    pub score: u128,
}

#[derive(Debug, Clone, Copy, PartialEq, Eq, Structural)]
pub struct EvictionPolicy {
    /// Weight on `share_score` (higher share → harder to evict).
    pub share_weight: Milli,
    /// Weight on `ref_count`.
    pub ref_weight: Milli,
}

impl Default for EvictionPolicy {
    fn default() -> (res: Self)
        ensures
            res == (EvictionPolicy { share_weight: Milli(2000), ref_weight: Milli(1000) }),
    {
        EvictionPolicy { share_weight: Milli(2000), ref_weight: Milli(1000) }
    }
}

impl EvictionPolicy {
    /// A node may be given up when it is not pinned and either nothing refers
    /// to it or nobody owns it any more (the count of references can lag
    /// behind after a trajectory is released).
    pub open spec fn may_go(node: PrefixNodeView, now_ms: u64) -> bool {
        !node.pin.holds(now_ms) && (node.ref_count == 0 || node.owners.len() == 0)
    }

    /// The weighted sum of sharing and references.
    pub open spec fn weight(self, node: PrefixNodeView) -> nat {
        (self.share_weight.0 * node.share_score + self.ref_weight.0 * node.ref_count * 100) as nat
    }

    pub open spec fn rated(self, node: PrefixNodeView, now_ms: u64) -> Option<nat> {
        if Self::may_go(node, now_ms) {
            Some(self.weight(node))
        } else {
            None
        }
    }

    /// Lower score = better eviction candidate. Nodes that may not go are
    /// skipped.
    pub fn score(&self, node: &PrefixNode, now_ms: u64) -> (res: Option<u128>)
        ensures
            match res {
                Some(s) => self.rated(node@, now_ms) == Some(s as nat),
                None => self.rated(node@, now_ms) is None,
            },
    {
        if node.pin.is_pinned(now_ms) {
            return None;
        }
        if node.ref_count > 0 && node.owners.len() > 0 {
            return None;
        }
        assert(0 <= self.share_weight.0 * node.share_score <= u32::MAX * u64::MAX)
            by (nonlinear_arith)
            requires
                0 <= self.share_weight.0 <= u32::MAX,
                0 <= node.share_score <= u64::MAX,
        ;
        assert(0 <= self.ref_weight.0 * node.ref_count <= u32::MAX * u32::MAX) by (nonlinear_arith)
            requires
                0 <= self.ref_weight.0 <= u32::MAX,
                0 <= node.ref_count <= u32::MAX,
        ;
        Some(
            (self.share_weight.0 as u128) * (node.share_score as u128) + (self.ref_weight.0 as u128)
                * (node.ref_count as u128) * 100,
        )
    }

    /// The first of the nodes with the lowest score.
    pub fn pick(&self, nodes: &Vec<&PrefixNode>, now_ms: u64) -> (res: Option<EvictionCandidate>)
        ensures
            match res {
                Some(c) => exists|i: int|
                    {
                        &&& 0 <= i < nodes@.len()
                        &&& (#[trigger] nodes@[i])@.id == c.node_id
                        &&& self.rated(nodes@[i]@, now_ms) == Some(c.score as nat)
                        &&& forall|j: int|
                            0 <= j < nodes@.len() ==> (self.rated(
                                (#[trigger] nodes@[j])@,
                                now_ms,
                            ) matches Some(s) ==> s >= c.score && (j < i ==> s > c.score))
                    },
                None => forall|j: int|
                    0 <= j < nodes@.len() ==> self.rated(
                        (#[trigger] nodes@[j])@,
                        now_ms,
                    ) is None,
            },
    {
        let mut best: Option<EvictionCandidate> = None;
        let ghost mut at: int = 0;
        let mut i: usize = 0;
        while i < nodes.len()
            invariant
                i <= nodes@.len(),
                match best {
                    Some(c) => {
                        &&& 0 <= at < i
                        &&& nodes@[at]@.id == c.node_id
                        &&& self.rated(nodes@[at]@, now_ms) == Some(c.score as nat)
                        &&& forall|j: int|
                            0 <= j < i ==> (self.rated((#[trigger] nodes@[j])@, now_ms) matches Some(
                                s,
                            ) ==> s >= c.score && (j < at ==> s > c.score))
                    },
                    None => forall|j: int|
                        0 <= j < i ==> self.rated((#[trigger] nodes@[j])@, now_ms) is None,
                },
            decreases nodes@.len() - i,
        {
            let n = nodes[i];
            if let Some(score) = self.score(n, now_ms) {
                let better = match &best {
                    Some(c) => score < c.score,
                    None => true,
                };
                if better {
                    best = Some(EvictionCandidate { node_id: n.id, score });
                    proof {
                        at = i as int;
                    }
                }
            }
            i += 1;
        }
        best
    }
}

/// A node that is pinned never goes, nor one that somebody owns and refers to;
/// any other may.
pub proof fn law_may_go(node: PrefixNodeView, now_ms: u64)
    ensures
        node.pin.holds(now_ms) ==> !EvictionPolicy::may_go(node, now_ms),
        node.ref_count > 0 && node.owners.len() > 0 ==> !EvictionPolicy::may_go(node, now_ms),
        !node.pin.holds(now_ms) && node.ref_count == 0 ==> EvictionPolicy::may_go(node, now_ms),
        !node.pin.holds(now_ms) && node.owners.len() == 0 ==> EvictionPolicy::may_go(
            node,
            now_ms,
        ),
{
}

/// What is shared more and referred to more weighs more: each hundredth of
/// sharing and each reference add their weight, and a node without either
/// weighs nothing.
pub proof fn law_weight(
    p: EvictionPolicy,
    node: PrefixNodeView,
    more_shared: PrefixNodeView,
    more_referred: PrefixNodeView,
    now_ms: u64,
)
    requires
        more_shared.share_score == node.share_score + 1,
        more_shared.ref_count == node.ref_count,
        more_referred.share_score == node.share_score,
        more_referred.ref_count == node.ref_count + 1,
    ensures
        p.weight(more_shared) == p.weight(node) + p.share_weight.0,
        p.weight(more_referred) == p.weight(node) + 100 * p.ref_weight.0,
        node.share_score == 0 && node.ref_count == 0 ==> p.weight(node) == 0,
        EvictionPolicy::may_go(node, now_ms) ==> p.rated(node, now_ms) == Some(p.weight(node)),
        !EvictionPolicy::may_go(node, now_ms) ==> p.rated(node, now_ms) is None,
{
    let (a, b) = (p.share_weight.0 as int, p.ref_weight.0 as int);
    let (s, r) = (node.share_score as int, node.ref_count as int);
    assert(a * (s + 1) == a * s + a) by (nonlinear_arith);
    assert(b * (r + 1) * 100 == b * r * 100 + 100 * b) by (nonlinear_arith);
    assert(0 <= a * s && 0 <= b * r * 100) by (nonlinear_arith)
        requires
            a >= 0,
            b >= 0,
            s >= 0,
            r >= 0,
    ;
    assert(s == 0 && r == 0 ==> a * s + b * r * 100 == 0) by (nonlinear_arith);
}

} // verus!
