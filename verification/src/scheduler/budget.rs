//! Budgets that bound one scheduler tick.
use vstd::prelude::*;

verus! {

#[derive(Debug, Clone, Copy, PartialEq, Eq, Structural)]
pub struct TokenBudget {
    pub capacity: u32,
    pub remaining: u32,
}

/// `a - b`, or zero where that is negative.
pub open spec fn minus(a: u32, b: u32) -> u32 {
    if a >= b {
        (a - b) as u32
    } else {
        0
    }
}

impl TokenBudget {
    pub fn new(capacity: u32) -> (res: Self)
        ensures
            res == (TokenBudget { capacity, remaining: capacity }),
    {
        TokenBudget { capacity, remaining: capacity }
    }

    /// Takes `n` tokens, all or none.
    pub fn try_consume(&mut self, n: u32) -> (res: bool)
        ensures
            res == (old(self).remaining >= n),
            *final(self) == (if old(self).remaining >= n {
                TokenBudget { remaining: (old(self).remaining - n) as u32, ..*old(self) }
            } else {
                *old(self)
            }),
    {
        if self.remaining >= n {
            self.remaining = self.remaining - n;
            true
        } else {
            false
        }
    }

    pub fn refill(&mut self)
        ensures
            *final(self) == (TokenBudget {
                capacity: old(self).capacity,
                remaining: old(self).capacity,
            }),
    {
        self.remaining = self.capacity;
    }

    /// Runtime tweak from decode count / memory / latency feedback: what was
    /// used stays used.
    pub fn adjust_capacity(&mut self, new_capacity: u32)
        ensures
            *final(self) == old(self).resized(new_capacity),
    {
        let used: u32 = self.capacity.saturating_sub(self.remaining);
        self.capacity = new_capacity;
        self.remaining = new_capacity.saturating_sub(used);
    }

    pub open spec fn used(self) -> u32 {
        minus(self.capacity, self.remaining)
    }

    pub open spec fn resized(self, new_capacity: u32) -> TokenBudget {
        TokenBudget { capacity: new_capacity, remaining: minus(new_capacity, self.used()) }
    }
}

#[derive(Debug, Clone, Copy, PartialEq, Eq, Structural)]
pub struct ToolConcurrencyBudget {
    pub capacity: u32,
    pub in_flight: u32,
}

impl ToolConcurrencyBudget {
    pub fn new(capacity: u32) -> (res: Self)
        ensures
            res == (ToolConcurrencyBudget { capacity, in_flight: 0 }),
    {
        ToolConcurrencyBudget { capacity, in_flight: 0 }
    }

    pub fn try_acquire(&mut self) -> (res: bool)
        ensures
            res == (old(self).in_flight < old(self).capacity),
            *final(self) == (if old(self).in_flight < old(self).capacity {
                ToolConcurrencyBudget { in_flight: (old(self).in_flight + 1) as u32, ..*old(self) }
            } else {
                *old(self)
            }),
    {
        if self.in_flight < self.capacity {
            self.in_flight = self.in_flight + 1;
            true
        } else {
            false
        }
    }

    pub fn release(&mut self)
        ensures
            *final(self) == old(self).released(),
    {
        self.in_flight = self.in_flight.saturating_sub(1);
    }

    /// One tool fewer in flight.
    pub open spec fn released(self) -> ToolConcurrencyBudget {
        ToolConcurrencyBudget { in_flight: minus(self.in_flight, 1), ..self }
    }
}

/// Dual budget that bounds one scheduler tick.
#[derive(Debug, Clone, Copy, PartialEq, Eq, Structural)]
pub struct SchedulerBudget {
    pub tokens: TokenBudget,
    pub tools: ToolConcurrencyBudget,
}

impl Default for SchedulerBudget {
    fn default() -> (res: Self)
        ensures
            res == (SchedulerBudget {
                tokens: TokenBudget { capacity: 2048, remaining: 2048 },
                tools: ToolConcurrencyBudget { capacity: 64, in_flight: 0 },
            }),
    {
        SchedulerBudget { tokens: TokenBudget::new(2048), tools: ToolConcurrencyBudget::new(64) }
    }
}

#[derive(Debug, Clone, Copy, PartialEq, Eq, Structural)]
pub struct BudgetSnapshot {
    pub token_remaining: u32,
    pub token_capacity: u32,
    pub tools_in_flight: u32,
    pub tools_capacity: u32,
}

/// The four numbers of a budget.
pub open spec fn snapshot(b: SchedulerBudget) -> BudgetSnapshot {
    BudgetSnapshot {
        token_remaining: b.tokens.remaining,
        token_capacity: b.tokens.capacity,
        tools_in_flight: b.tools.in_flight,
        tools_capacity: b.tools.capacity,
    }
}

impl From<&SchedulerBudget> for BudgetSnapshot {
    fn from(b: &SchedulerBudget) -> (res: Self) {
        BudgetSnapshot {
            token_remaining: b.tokens.remaining,
            token_capacity: b.tokens.capacity,
            tools_in_flight: b.tools.in_flight,
            tools_capacity: b.tools.capacity,
        }
    }
}

impl vstd::std_specs::convert::FromSpecImpl<&SchedulerBudget> for BudgetSnapshot {
    open spec fn obeys_from_spec() -> bool {
        true
    }

    open spec fn from_spec(b: &SchedulerBudget) -> BudgetSnapshot {
        snapshot(*b)
    }
}

/// Resizing keeps what was used, as far as the new capacity holds it.
pub proof fn law_resize_keeps_used(b: TokenBudget, new_capacity: u32)
    requires
        b.remaining <= b.capacity,
        b.used() <= new_capacity,
    ensures
        b.resized(new_capacity).used() == b.used(),
        b.resized(new_capacity).remaining <= new_capacity,
{
}

/// Resizing back undoes a resizing that the used tokens fit in.
pub proof fn law_resize_undo(b: TokenBudget, new_capacity: u32)
    requires
        b.remaining <= b.capacity,
        b.used() <= new_capacity,
    ensures
        b.resized(new_capacity).resized(b.capacity) == b,
{
}

/// What is left after a resizing is the new capacity less what was used, and
/// nothing where more was used.
pub proof fn law_resize_leaves(b: TokenBudget, new_capacity: u32)
    requires
        b.remaining <= b.capacity,
    ensures
        b.resized(new_capacity).capacity == new_capacity,
        b.capacity - b.remaining <= new_capacity ==> b.resized(new_capacity).remaining
            == new_capacity - (b.capacity - b.remaining),
        b.capacity - b.remaining > new_capacity ==> b.resized(new_capacity).remaining == 0,
{
}

/// A tool that is done leaves one fewer in flight, down to none.
pub proof fn law_release(b: ToolConcurrencyBudget)
    ensures
        b.released().capacity == b.capacity,
        b.in_flight > 0 ==> b.released().in_flight == b.in_flight - 1,
        b.in_flight == 0 ==> b.released().in_flight == 0,
{
}

/// A snapshot shows each number of the budget as it stands.
pub proof fn law_snapshot(b: SchedulerBudget)
    ensures
        snapshot(b).token_remaining == b.tokens.remaining,
        snapshot(b).token_capacity == b.tokens.capacity,
        snapshot(b).tools_in_flight == b.tools.in_flight,
        snapshot(b).tools_capacity == b.tools.capacity,
{
}

} // verus!
