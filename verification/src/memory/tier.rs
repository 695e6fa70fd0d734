//! Tiers of block memory.
use vstd::prelude::*;

use crate::ratio::{Milli, Ratio};

verus! {

#[derive(Debug, Clone, Copy, PartialEq, Eq, Structural, Hash)]
pub enum TierId {
    Gpu,
    Cpu,
    Remote,
}

#[derive(Debug, Clone, Copy, PartialEq, Eq, Structural)]
pub struct MemoryTier {
    pub id: TierId,
    pub capacity_blocks: usize,
    pub used_blocks: usize,
}

impl MemoryTier {
    /// How full the tier is; one without capacity is full.
    pub open spec fn load(self) -> Ratio {
        if self.capacity_blocks == 0 {
            Ratio { num: 1, den: 1 }
        } else {
            Ratio { num: self.used_blocks as u64, den: self.capacity_blocks as u64 }
        }
    }

    pub fn new(id: TierId, capacity_blocks: usize) -> (res: Self)
        ensures
            res == (MemoryTier { id, capacity_blocks, used_blocks: 0 }),
    {
        MemoryTier { id, capacity_blocks, used_blocks: 0 }
    }

    /// How full the tier is; one without capacity is full.
    pub fn pressure(&self) -> (res: Ratio)
        ensures
            res == self.load(),
            res.den > 0,
    {
        if self.capacity_blocks == 0 {
            return Ratio { num: 1, den: 1 };
        }
        Ratio { num: self.used_blocks as u64, den: self.capacity_blocks as u64 }
    }
}

/// A tier is under a threshold's pressure where so many thousandths of it are
/// used; one without capacity is under any.
pub proof fn law_pressure(t: MemoryTier, threshold: Milli)
    ensures
        t.capacity_blocks > 0 ==> (t.load().reaches(threshold) <==> t.used_blocks * 1000
            >= threshold.0 * t.capacity_blocks),
        t.capacity_blocks == 0 && threshold.0 <= 1000 ==> t.load().reaches(threshold),
{
    assert(threshold.0 * 1 == threshold.0) by (nonlinear_arith);
}

} // verus!
