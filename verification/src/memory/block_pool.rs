//! A pool of fixed-size blocks.
use vstd::prelude::*;

verus! {

#[derive(Debug, Clone, Copy, PartialEq, Eq, Structural, Hash)]
pub struct BlockId(pub u64);

/// The pool's books.
#[verifier::ext_equal]
pub struct PoolView {
    pub next_id: u64,
    pub free: Seq<BlockId>,
    pub capacity: usize,
    pub allocated: usize,
}

impl PoolView {
    pub open spec fn fresh(capacity: usize) -> PoolView {
        PoolView { next_id: 1, free: Seq::empty(), capacity, allocated: 0 }
    }

    /// The block that comes next: the one returned last, or a new one while
    /// the capacity lasts.
    pub open spec fn next(self) -> Option<BlockId> {
        if self.free.len() > 0 {
            Some(self.free.last())
        } else if self.allocated >= self.capacity {
            None
        } else {
            Some(BlockId(self.next_id))
        }
    }

    /// After a block has been taken.
    pub open spec fn taken(self) -> PoolView {
        if self.free.len() > 0 {
            PoolView {
                free: self.free.drop_last(),
                allocated: (self.allocated + 1) as usize,
                ..self
            }
        } else if self.allocated >= self.capacity {
            self
        } else {
            PoolView {
                next_id: (self.next_id + 1) as u64,
                allocated: (self.allocated + 1) as usize,
                ..self
            }
        }
    }

    /// After `id` has been returned.
    pub open spec fn returned(self, id: BlockId) -> PoolView {
        PoolView {
            free: self.free.push(id),
            allocated: if self.allocated > 0 {
                (self.allocated - 1) as usize
            } else {
                0
            },
            ..self
        }
    }

    /// After all of `ids` have been returned, in this order.
    pub open spec fn all_returned(self, ids: Seq<BlockId>) -> PoolView
        decreases ids.len(),
    {
        if ids.len() == 0 {
            self
        } else {
            self.all_returned(ids.drop_last()).returned(ids.last())
        }
    }

    /// The counters are in order: no more numbers have been given out than
    /// blocks are allocated or free.
    pub open spec fn wf(self) -> bool {
        &&& 1 <= self.next_id
        &&& self.next_id - 1 <= self.allocated + self.free.len() <= usize::MAX
        &&& self.capacity < usize::MAX
    }

    /// `used` are the blocks given out and not returned: all known, none of
    /// them free, and as many as the pool counts.
    pub open spec fn lends(self, used: Set<BlockId>) -> bool {
        &&& self.free.no_duplicates()
        &&& used.finite()
        &&& used.len() == self.allocated
        &&& forall|b: BlockId| #[trigger] used.contains(b) ==> 1 <= b.0 < self.next_id
        &&& forall|b: BlockId|
            #[trigger] self.free.contains(b) ==> 1 <= b.0 < self.next_id && !used.contains(b)
    }
}

/// Simple fixed-size block pool; it numbers blocks and holds no memory.
#[derive(Debug)]
pub struct BlockPool {
    next_id: u64,
    free: Vec<BlockId>,
    capacity: usize,
    allocated: usize,
}

impl View for BlockPool {
    type V = PoolView;

    closed spec fn view(&self) -> PoolView {
        PoolView {
            next_id: self.next_id,
            free: self.free@,
            capacity: self.capacity,
            allocated: self.allocated,
        }
    }
}

impl BlockPool {
    /// A pool of `capacity` blocks. Their numbers, from 1 on, and one more
    /// have to fit into the counter.
    pub fn new(capacity: usize) -> (res: Self)
        requires
            capacity < usize::MAX,
        ensures
            res@ == PoolView::fresh(capacity),
            res@.wf(),
    {
        BlockPool { next_id: 1, free: Vec::new(), capacity, allocated: 0 }
    }

    pub fn alloc_block(&mut self) -> (res: Option<BlockId>)
        requires
            old(self)@.wf(),
        ensures
            res == old(self)@.next(),
            final(self)@ == old(self)@.taken(),
            final(self)@.wf(),
    {
        if let Some(id) = self.free.pop() {
            self.allocated += 1;
            return Some(id);
        }
        if self.allocated >= self.capacity {
            return None;
        }
        let id = BlockId(self.next_id);
        self.next_id += 1;
        self.allocated += 1;
        Some(id)
    }

    pub fn free(&mut self, id: BlockId)
        requires
            old(self)@.wf(),
        ensures
            final(self)@ == old(self)@.returned(id),
            final(self)@.wf(),
    {
        self.free.push(id);
        assert(self.free.len() <= usize::MAX);
        self.allocated = self.allocated.saturating_sub(1);
    }

    pub fn allocated(&self) -> (res: usize)
        ensures
            res == self@.allocated,
    {
        self.allocated
    }

    pub fn capacity(&self) -> (res: usize)
        ensures
            res == self@.capacity,
    {
        self.capacity
    }
}

/// A new pool has lent nothing.
pub proof fn law_fresh_pool_lends_nothing(capacity: usize)
    ensures
        PoolView::fresh(capacity).lends(Set::empty()),
{
}

/// A block that is taken was not in use, and is in use from then on.
pub proof fn law_alloc_gives_unused(p: PoolView, used: Set<BlockId>)
    requires
        p.wf(),
        p.lends(used),
        p.next() is Some,
    ensures
        !used.contains(p.next().unwrap()),
        p.taken().lends(used.insert(p.next().unwrap())),
{
    let id = p.next().unwrap();
    if p.free.len() > 0 {
        assert(p.free.contains(id));
        let after = p.taken();
        assert forall|b: BlockId| #[trigger] after.free.contains(b) implies 1 <= b.0
            < after.next_id && !used.insert(id).contains(b) by {
            let k = choose|k: int| 0 <= k < after.free.len() && after.free[k] == b;
            assert(p.free[k] == b);
            assert(p.free.contains(b));
            assert(p.free[p.free.len() - 1] == id);
        }
        assert forall|i: int, j: int|
            0 <= i < after.free.len() && 0 <= j < after.free.len() && i
                != j implies after.free[i] != after.free[j] by {
            assert(p.free[i] != p.free[j]);
        }
    }
}

/// A block that is returned is in use no more.
pub proof fn law_free_returns(p: PoolView, used: Set<BlockId>, id: BlockId)
    requires
        p.lends(used),
        used.contains(id),
    ensures
        p.returned(id).lends(used.remove(id)),
        p.returned(id).allocated == p.allocated - 1,
        p.returned(id).next() == Some(id),
{
    let after = p.returned(id);
    assert(!p.free.contains(id));
    assert forall|b: BlockId| #[trigger] after.free.contains(b) implies 1 <= b.0 < after.next_id
        && !used.remove(id).contains(b) by {
        let k = choose|k: int| 0 <= k < after.free.len() && after.free[k] == b;
        if k < p.free.len() {
            assert(p.free[k] == b);
            assert(p.free.contains(b));
        }
    }
    assert forall|i: int, j: int|
        0 <= i < after.free.len() && 0 <= j < after.free.len() && i
            != j implies after.free[i] != after.free[j] by {
        if i < p.free.len() && j < p.free.len() {
            assert(p.free[i] != p.free[j]);
        } else if i < p.free.len() {
            assert(p.free.contains(p.free[i]));
        } else {
            assert(p.free.contains(p.free[j]));
        }
    }
    assert(used.len() > 0) by {
        assert(used.remove(id).len() == used.len() - 1);
    }
}

/// A pool that is used as meant never lends more blocks than it has.
pub proof fn law_capacity_kept(p: PoolView)
    requires
        p.allocated + p.free.len() <= p.capacity,
    ensures
        p.taken().allocated + p.taken().free.len() <= p.capacity,
        p.next() is None <==> p.allocated == p.capacity,
{
}

} // verus!
