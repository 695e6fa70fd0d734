//! Priorities of ready steps, pin advice and the pin policy.
use std::cmp::Ordering;
use vstd::prelude::*;

use crate::ids::TrajectoryId;
use crate::pin::{PinInfo, PinReason};
use crate::ratio::Milli;
use crate::trajectory::TrajectoryPriority;

verus! {

/// Why a step is eligible this tick, ordered high → low.
#[derive(Debug, Clone, Copy, PartialEq, Eq, PartialOrd, Ord, Structural)]
pub enum SchedulableKind {
    /// Already decoding — never preempt lightly.
    ActiveDecode,
    /// Tool just returned; resume generate ASAP for pin locality.
    PostToolGenerate,
    /// High-priority new / resumed trajectory.
    HighPriorityNew,
    /// Async tool execution.
    Tool,
    /// Ordinary newly submitted trajectory.
    NormalNew,
}

impl SchedulableKind {
    /// Place in the order of urgency; the most urgent kind has rank 0.
    pub open spec fn place(self) -> int {
        match self {
            SchedulableKind::ActiveDecode => 0,
            SchedulableKind::PostToolGenerate => 1,
            SchedulableKind::HighPriorityNew => 2,
            SchedulableKind::Tool => 3,
            SchedulableKind::NormalNew => 4,
        }
    }

    fn rank(self) -> (res: u8)
        ensures
            res == self.place(),
    {
        match self {
            SchedulableKind::ActiveDecode => 0,
            SchedulableKind::PostToolGenerate => 1,
            SchedulableKind::HighPriorityNew => 2,
            SchedulableKind::Tool => 3,
            SchedulableKind::NormalNew => 4,
        }
    }
}

/// Composite sort key for the ready queue.
#[derive(Debug, Clone, Copy, PartialEq, Eq, Structural)]
pub struct SchedPriority {
    pub kind: SchedulableKind,
    pub trajectory_priority: TrajectoryPriority,
    pub fairness_credit: i64,
}

impl SchedPriority {
    /// `self` runs strictly before `other`: by urgency of kind, then by
    /// higher trajectory priority, then by higher fairness credit.
    pub open spec fn before(self, other: SchedPriority) -> bool {
        ||| self.kind.place() < other.kind.place()
        ||| self.kind == other.kind && {
            ||| self.trajectory_priority.0 > other.trajectory_priority.0
            ||| self.trajectory_priority == other.trajectory_priority && self.fairness_credit
                > other.fairness_credit
        }
    }

    pub fn new(
        kind: SchedulableKind,
        trajectory_priority: TrajectoryPriority,
        fairness_credit: i64,
    ) -> (res: Self)
        ensures
            res == (SchedPriority { kind, trajectory_priority, fairness_credit }),
    {
        SchedPriority { kind, trajectory_priority, fairness_credit }
    }

    /// `self` runs strictly before `other`.
    pub fn is_before(&self, other: &SchedPriority) -> (res: bool)
        ensures
            res == self.before(*other),
    {
        let mine: u8 = self.kind.rank();
        let theirs: u8 = other.kind.rank();
        if mine != theirs {
            mine < theirs
        } else if self.trajectory_priority.0 != other.trajectory_priority.0 {
            self.trajectory_priority.0 > other.trajectory_priority.0
        } else {
            self.fairness_credit > other.fairness_credit
        }
    }
}

impl PartialOrd for SchedPriority {
    fn partial_cmp(&self, other: &Self) -> (res: Option<Ordering>) {
        if self.is_before(other) {
            Some(Ordering::Less)
        } else if other.is_before(self) {
            Some(Ordering::Greater)
        } else {
            Some(Ordering::Equal)
        }
    }
}

impl vstd::std_specs::cmp::PartialOrdSpecImpl for SchedPriority {
    open spec fn obeys_partial_cmp_spec() -> bool {
        true
    }

    open spec fn partial_cmp_spec(&self, other: &Self) -> Option<Ordering> {
        if self.before(*other) {
            Some(Ordering::Less)
        } else if other.before(*self) {
            Some(Ordering::Greater)
        } else {
            Some(Ordering::Equal)
        }
    }
}

/// The order of priorities is total: of two different ones exactly one runs
/// before the other.
pub proof fn law_priority_total(a: SchedPriority, b: SchedPriority)
    ensures
        !(a.before(b) && b.before(a)),
        a != b ==> a.before(b) || b.before(a),
        !a.before(a),
{
    assert(a.kind.place() == b.kind.place() ==> a.kind == b.kind);
}

/// The order of priorities is transitive.
pub proof fn law_priority_transitive(a: SchedPriority, b: SchedPriority, c: SchedPriority)
    requires
        a.before(b),
        b.before(c),
    ensures
        a.before(c),
{
}

#[derive(Debug, Clone, Copy, PartialEq, Eq, Structural)]
pub enum PinAction {
    Pin { until_ms: u64, reason: PinReason, strength: u8 },
    Unpin,
    Keep(PinInfo),
}

/// Pin / unpin advice from the scheduler after a tick.
#[derive(Debug, Clone, Copy, PartialEq, Eq, Structural)]
pub struct PinDecision {
    pub trajectory_id: TrajectoryId,
    pub action: PinAction,
}

/// Policy knobs for computing pin TTL when entering `WaitingTool`.
#[derive(Debug, Clone, Copy, PartialEq, Eq, Structural)]
pub struct PinPolicy {
    pub base_ttl_ms: u64,
    pub max_ttl_ms: u64,
    pub min_ttl_ms: u64,
    /// Extra TTL multiplier from historical tool latency (p95 / base).
    pub latency_factor: Milli,
}

impl Default for PinPolicy {
    fn default() -> (res: Self)
        ensures
            res == (PinPolicy {
                base_ttl_ms: 5_000,
                max_ttl_ms: 60_000,
                min_ttl_ms: 500,
                latency_factor: Milli(1500),
            }),
    {
        PinPolicy {
            base_ttl_ms: 5_000,
            max_ttl_ms: 60_000,
            min_ttl_ms: 500,
            latency_factor: Milli(1500),
        }
    }
}

/// `x` brought into the range from `lo` to `hi`.
pub open spec fn within(x: int, lo: int, hi: int) -> int {
    if x < lo {
        lo
    } else if x > hi {
        hi
    } else {
        x
    }
}

/// `x` brought into the range from `lo` to `hi`.
pub fn clamp(x: u64, lo: u64, hi: u64) -> (res: u64)
    requires
        lo <= hi,
    ensures
        res == within(x as int, lo as int, hi as int),
{
    if x < lo {
        lo
    } else if x > hi {
        hi
    } else {
        x
    }
}

impl PinPolicy {
    /// The bounds are in order.
    pub open spec fn wf(self) -> bool {
        self.min_ttl_ms <= self.max_ttl_ms
    }

    /// How long to pin for a tool with this p95 latency: the latency times
    /// the factor, rounded down, or the base where nothing is known of the
    /// tool; in any case within the bounds.
    pub open spec fn ttl(self, observed_p95_ms: Option<u64>) -> int {
        within(
            match observed_p95_ms {
                Some(p95) => p95 * self.latency_factor.0 / 1000,
                None => self.base_ttl_ms as int,
            },
            self.min_ttl_ms as int,
            self.max_ttl_ms as int,
        )
    }

    pub fn ttl_for_tool_latency(&self, observed_p95_ms: Option<u64>) -> (res: u64)
        requires
            self.wf(),
        ensures
            res == self.ttl(observed_p95_ms),
    {
        match observed_p95_ms {
            Some(p95) => {
                assert(p95 * self.latency_factor.0 <= u64::MAX * u32::MAX) by (nonlinear_arith)
                    requires
                        0 <= p95 <= u64::MAX,
                        0 <= self.latency_factor.0 <= u32::MAX,
                ;
                let scaled: u128 = (p95 as u128) * (self.latency_factor.0 as u128) / 1000;
                let raw: u64 = if scaled > u64::MAX as u128 {
                    u64::MAX
                } else {
                    scaled as u64
                };
                clamp(raw, self.min_ttl_ms, self.max_ttl_ms)
            },
            None => clamp(self.base_ttl_ms, self.min_ttl_ms, self.max_ttl_ms),
        }
    }
}

/// A pin's life stays within the policy's bounds.
pub proof fn law_ttl_within_bounds(p: PinPolicy, observed_p95_ms: Option<u64>)
    requires
        p.wf(),
    ensures
        p.min_ttl_ms <= p.ttl(observed_p95_ms) <= p.max_ttl_ms,
{
}

/// A slower tool is never pinned for a shorter time.
pub proof fn law_ttl_monotone(p: PinPolicy, fast: u64, slow: u64)
    requires
        p.wf(),
        fast <= slow,
    ensures
        p.ttl(Some(fast)) <= p.ttl(Some(slow)),
{
    let f = p.latency_factor.0;
    assert(fast * f <= slow * f) by (nonlinear_arith)
        requires
            0 <= fast <= slow,
            0 <= f,
    ;
    vstd::arithmetic::div_mod::lemma_div_is_ordered(fast * f, slow * f, 1000);
}

/// What is most urgent: a step that decodes runs before one that follows a
/// tool, that before a new trajectory of high priority, that before a tool, and
/// that before any other new one, whatever their priorities and credits.
pub proof fn law_kinds_in_order(
    decode: SchedPriority,
    post_tool: SchedPriority,
    high: SchedPriority,
    tool: SchedPriority,
    new: SchedPriority,
)
    requires
        decode.kind is ActiveDecode,
        post_tool.kind is PostToolGenerate,
        high.kind is HighPriorityNew,
        tool.kind is Tool,
        new.kind is NormalNew,
    ensures
        decode.before(post_tool),
        post_tool.before(high),
        high.before(tool),
        tool.before(new),
        !post_tool.before(decode),
        !high.before(post_tool),
        !tool.before(high),
        !new.before(tool),
{
}

/// Among steps of one kind the trajectory of higher priority runs first, and
/// among those of one priority the one with more credit.
pub proof fn law_higher_first(a: SchedPriority, b: SchedPriority)
    requires
        a.kind == b.kind,
    ensures
        a.trajectory_priority.0 > b.trajectory_priority.0 ==> a.before(b),
        a.trajectory_priority == b.trajectory_priority && a.fairness_credit > b.fairness_credit
            ==> a.before(b),
        a.before(b) ==> a.trajectory_priority.0 >= b.trajectory_priority.0,
{
}

/// A pin lasts as long as the tool is expected to take: the measured time by
/// the factor, or the base time where nothing was measured, wherever the bounds
/// leave room; and the bound where they do not.
pub proof fn law_ttl_follows_latency(p: PinPolicy, p95: u64)
    requires
        p.wf(),
    ensures
        p.min_ttl_ms <= p95 * p.latency_factor.0 / 1000 <= p.max_ttl_ms ==> p.ttl(Some(p95)) == p95
            * p.latency_factor.0 / 1000,
        p95 * p.latency_factor.0 / 1000 < p.min_ttl_ms ==> p.ttl(Some(p95)) == p.min_ttl_ms,
        p95 * p.latency_factor.0 / 1000 > p.max_ttl_ms ==> p.ttl(Some(p95)) == p.max_ttl_ms,
        p.min_ttl_ms <= p.base_ttl_ms <= p.max_ttl_ms ==> p.ttl(None) == p.base_ttl_ms,
        p.base_ttl_ms < p.min_ttl_ms ==> p.ttl(None) == p.min_ttl_ms,
        p.base_ttl_ms > p.max_ttl_ms ==> p.ttl(None) == p.max_ttl_ms,
{
}

/// Bringing a number into a range leaves one that is in it, and takes another
/// to the nearest bound.
pub proof fn law_within(x: int, lo: int, hi: int)
    requires
        lo <= hi,
    ensures
        lo <= within(x, lo, hi) <= hi,
        lo <= x <= hi ==> within(x, lo, hi) == x,
        x <= lo ==> within(x, lo, hi) == lo,
        x >= hi ==> within(x, lo, hi) == hi,
{
}

} // verus!
