//! The scheduler: a queue of ready steps and the tick that fills the budgets.
use vstd::prelude::*;

use crate::clock::now_ms;
use crate::ids::{StepId, TrajectoryId};
use crate::pin::PinReason;
use crate::ratio::Milli;
use crate::scheduler::budget;
use crate::scheduler::budget::{
    BudgetSnapshot, SchedulerBudget, TokenBudget, ToolConcurrencyBudget,
};
use crate::scheduler::pinning;
use crate::scheduler::priority::{
    PinAction, PinDecision, PinPolicy, SchedPriority, SchedulableKind,
};
use crate::scheduler::tick_laws;
use crate::step::{Step, StepView};

verus! {

/// Tunables for the unified scheduler.
#[derive(Debug, Clone, Copy, PartialEq, Eq, Structural)]
pub struct SchedulerConfig {
    pub budget: SchedulerBudget,
    pub pin_policy: PinPolicy,
    /// Default chunk size for interruptible generate execution.
    pub chunk_tokens: u32,
}

impl Default for SchedulerConfig {
    fn default() -> (res: Self)
        ensures
            res == (SchedulerConfig {
                budget: SchedulerBudget {
                    tokens: TokenBudget { capacity: 2048, remaining: 2048 },
                    tools: ToolConcurrencyBudget { capacity: 64, in_flight: 0 },
                },
                pin_policy: PinPolicy {
                    base_ttl_ms: 5_000,
                    max_ttl_ms: 60_000,
                    min_ttl_ms: 500,
                    latency_factor: Milli(1500),
                },
                chunk_tokens: 64,
            }),
    {
        SchedulerConfig {
            budget: SchedulerBudget::default(),
            pin_policy: PinPolicy::default(),
            chunk_tokens: 64,
        }
    }
}

/// A step that is eligible for the current tick.
#[derive(Debug)]
pub struct ReadyStep {
    pub trajectory_id: TrajectoryId,
    pub step: Step,
    pub priority: SchedPriority,
    /// Tokens already produced in an in-flight generate (for `ActiveDecode`).
    pub decoded_so_far: u32,
}

pub struct ReadyStepView {
    pub trajectory_id: TrajectoryId,
    pub step: StepView,
    pub priority: SchedPriority,
    pub decoded_so_far: u32,
}

impl View for ReadyStep {
    type V = ReadyStepView;

    open spec fn view(&self) -> ReadyStepView {
        ReadyStepView {
            trajectory_id: self.trajectory_id,
            step: self.step@,
            priority: self.priority,
            decoded_so_far: self.decoded_so_far,
        }
    }
}

impl Clone for ReadyStep {
    fn clone(&self) -> (res: Self)
        ensures
            res@ == self@,
    {
        ReadyStep {
            trajectory_id: self.trajectory_id,
            step: self.step.clone(),
            priority: self.priority,
            decoded_so_far: self.decoded_so_far,
        }
    }
}

/// What the scheduler wants executors to do this tick.
#[derive(Debug, Clone, Copy, PartialEq, Eq, Structural)]
pub enum TickAction {
    /// Run up to `chunk_tokens` more tokens on a generate step.
    RunGenerateChunk { trajectory_id: TrajectoryId, step_id: StepId, chunk_tokens: u32 },
    /// Launch (or continue) async tool execution.
    RunTool { trajectory_id: TrajectoryId, step_id: StepId },
    /// Pure runtime control — no GPU / tool budget.
    RunControl { trajectory_id: TrajectoryId, step_id: StepId },
}

/// Result of one scheduler iteration.
#[derive(Debug, Clone)]
pub struct SchedulerTick {
    pub actions: Vec<TickAction>,
    pub pin_decisions: Vec<PinDecision>,
    pub budget: BudgetSnapshot,
}

/// Events fed into the scheduler between ticks.
#[derive(Debug)]
pub enum SchedEvent {
    StepSubmitted {
        trajectory_id: TrajectoryId,
        step: Step,
        kind: SchedulableKind,
        priority: SchedPriority,
    },
    GenerateChunkDone {
        trajectory_id: TrajectoryId,
        step_id: StepId,
        tokens_produced: u32,
        finished: bool,
    },
    ToolFinished { trajectory_id: TrajectoryId, step_id: StepId },
    ToolStarted { trajectory_id: TrajectoryId, step_id: StepId },
    MemoryPressure { high: bool },
}

impl Clone for SchedEvent {
    fn clone(&self) -> (res: Self)
        ensures
            match *self {
                SchedEvent::StepSubmitted { trajectory_id, step, kind, priority } => res matches
                SchedEvent::StepSubmitted {
                    trajectory_id: t,
                    step: s,
                    kind: k,
                    priority: p,
                } && t == trajectory_id && s@ == step@ && k == kind && p == priority,
                _ => res == *self,
            },
    {
        match self {
            SchedEvent::StepSubmitted { trajectory_id, step, kind, priority } =>
                SchedEvent::StepSubmitted {
                trajectory_id: *trajectory_id,
                step: step.clone(),
                kind: *kind,
                priority: *priority,
            },
            SchedEvent::GenerateChunkDone { trajectory_id, step_id, tokens_produced, finished } =>
                SchedEvent::GenerateChunkDone {
                trajectory_id: *trajectory_id,
                step_id: *step_id,
                tokens_produced: *tokens_produced,
                finished: *finished,
            },
            SchedEvent::ToolFinished { trajectory_id, step_id } => SchedEvent::ToolFinished {
                trajectory_id: *trajectory_id,
                step_id: *step_id,
            },
            SchedEvent::ToolStarted { trajectory_id, step_id } => SchedEvent::ToolStarted {
                trajectory_id: *trajectory_id,
                step_id: *step_id,
            },
            SchedEvent::MemoryPressure { high } => SchedEvent::MemoryPressure { high: *high },
        }
    }
}

/// The views of the queue's items.
pub open spec fn views(items: Seq<ReadyStep>) -> Seq<ReadyStepView> {
    items.map_values(|r: ReadyStep| r@)
}

/// `x` put into the queue `s`: behind everything that it does not run before.
pub open spec fn placed(s: Seq<ReadyStepView>, x: ReadyStepView) -> Seq<ReadyStepView>
    decreases s.len(),
{
    if s.len() > 0 && x.priority.before(s.last().priority) {
        placed(s.drop_last(), x).push(s.last())
    } else {
        s.push(x)
    }
}

/// The queue in the order of priority; items of equal priority keep the order
/// in which they came.
pub open spec fn by_priority(s: Seq<ReadyStepView>) -> Seq<ReadyStepView>
    decreases s.len(),
{
    if s.len() == 0 {
        s
    } else {
        placed(by_priority(s.drop_last()), s.last())
    }
}

/// No item stands behind one that it runs before.
pub open spec fn in_order(s: Seq<ReadyStepView>) -> bool {
    forall|i: int, j: int|
        0 <= i < j < s.len() ==> !(#[trigger] s[j]).priority.before((#[trigger] s[i]).priority)
}

/// The items of one priority, in the order in which they stand.
pub open spec fn class(s: Seq<ReadyStepView>, p: SchedPriority) -> Seq<ReadyStepView> {
    s.filter(|r: ReadyStepView| r.priority == p)
}

/// How many tokens a generate step gets in one tick: a chunk, or what is left
/// of its own limit, and one token in any case.
pub open spec fn chunk_for(chunk_tokens: u32, max_tokens: u32, decoded: u32) -> u32 {
    let left = budget::minus(max_tokens, decoded);
    let most = if chunk_tokens < left {
        chunk_tokens
    } else {
        left
    };
    if most < 1 {
        1
    } else {
        most
    }
}

/// How far a tick has come.
#[verifier::ext_equal]
pub struct Fill {
    pub tokens_left: u32,
    pub in_flight: u32,
    pub actions: Seq<TickAction>,
    pub pins: Seq<PinDecision>,
    pub waiting: Seq<ReadyStepView>,
}

/// The knobs that one tick reads.
pub struct Knobs {
    pub chunk_tokens: u32,
    pub tool_capacity: u32,
    pub base_ttl_ms: u64,
    pub now: u64,
}

impl Fill {
    /// Considers one more item. A generate step runs where its chunk fits in
    /// the tokens that are left, a tool step where a tool is free, with a pin
    /// for the wait; either waits otherwise. A control step always runs.
    pub open spec fn with(self, item: ReadyStepView, knobs: Knobs) -> Fill {
        match item.step {
            StepView::Generate { id, max_tokens, .. } => {
                let chunk = chunk_for(knobs.chunk_tokens, max_tokens, item.decoded_so_far);
                if self.tokens_left >= chunk {
                    Fill {
                        tokens_left: (self.tokens_left - chunk) as u32,
                        actions: self.actions.push(
                            TickAction::RunGenerateChunk {
                                trajectory_id: item.trajectory_id,
                                step_id: id,
                                chunk_tokens: chunk,
                            },
                        ),
                        ..self
                    }
                } else {
                    Fill { waiting: self.waiting.push(item), ..self }
                }
            },
            StepView::Tool { id, .. } => {
                if self.in_flight < knobs.tool_capacity {
                    Fill {
                        in_flight: (self.in_flight + 1) as u32,
                        actions: self.actions.push(
                            TickAction::RunTool { trajectory_id: item.trajectory_id, step_id: id },
                        ),
                        pins: self.pins.push(
                            PinDecision {
                                trajectory_id: item.trajectory_id,
                                action: PinAction::Pin {
                                    until_ms: pinning::later(knobs.now, knobs.base_ttl_ms as int),
                                    reason: PinReason::WaitingTool,
                                    strength: 2,
                                },
                            },
                        ),
                        ..self
                    }
                } else {
                    Fill { waiting: self.waiting.push(item), ..self }
                }
            },
            StepView::Control { id, .. } => Fill {
                actions: self.actions.push(
                    TickAction::RunControl { trajectory_id: item.trajectory_id, step_id: id },
                ),
                ..self
            },
        }
    }

    /// Considers all the items, one after the other.
    pub open spec fn with_all(self, items: Seq<ReadyStepView>, knobs: Knobs) -> Fill
        decreases items.len(),
    {
        if items.len() == 0 {
            self
        } else {
            self.with_all(items.drop_last(), knobs).with(items.last(), knobs)
        }
    }
}

/// The scheduler's state.
#[verifier::ext_equal]
pub struct SchedulerView {
    pub config: SchedulerConfig,
    pub budget: SchedulerBudget,
    pub ready: Seq<ReadyStepView>,
    pub memory_pressure_high: bool,
}

impl SchedulerView {
    pub open spec fn fresh(config: SchedulerConfig) -> SchedulerView {
        SchedulerView {
            config,
            budget: config.budget,
            ready: Seq::empty(),
            memory_pressure_high: false,
        }
    }

    /// The step stands in the queue.
    pub open spec fn queued(self, trajectory_id: TrajectoryId, step_id: StepId) -> bool {
        exists|i: int|
            0 <= i < self.ready.len() && (#[trigger] self.ready[i]).trajectory_id == trajectory_id
                && self.ready[i].step.id() == step_id
    }

    /// After an event: a submitted step joins the queue, a finished tool frees
    /// its place, and the memory's pressure is noted.
    pub open spec fn heard(self, event: SchedEvent) -> SchedulerView {
        match event {
            SchedEvent::StepSubmitted { trajectory_id, step, priority, .. } => SchedulerView {
                ready: self.ready.push(
                    ReadyStepView { trajectory_id, step: step@, priority, decoded_so_far: 0 },
                ),
                ..self
            },
            SchedEvent::ToolFinished { .. } => SchedulerView {
                budget: SchedulerBudget { tools: self.budget.tools.released(), ..self.budget },
                ..self
            },
            SchedEvent::MemoryPressure { high } => SchedulerView {
                memory_pressure_high: high,
                ..self
            },
            _ => self,
        }
    }

    pub open spec fn knobs(self, now: u64) -> Knobs {
        Knobs {
            chunk_tokens: self.config.chunk_tokens,
            tool_capacity: self.budget.tools.capacity,
            base_ttl_ms: self.config.pin_policy.base_ttl_ms,
            now,
        }
    }

    /// What a tick at time `now` does: the token budget is refilled, and the
    /// queue is gone through in the order of priority.
    pub open spec fn filled(self, now: u64) -> Fill {
        Fill {
            tokens_left: self.budget.tokens.capacity,
            in_flight: self.budget.tools.in_flight,
            actions: Seq::empty(),
            pins: Seq::empty(),
            waiting: Seq::empty(),
        }.with_all(by_priority(self.ready), self.knobs(now))
    }

    /// The state after a tick at time `now`.
    pub open spec fn ticked(self, now: u64) -> SchedulerView {
        let fill = self.filled(now);
        SchedulerView {
            budget: SchedulerBudget {
                tokens: TokenBudget { remaining: fill.tokens_left, ..self.budget.tokens },
                tools: ToolConcurrencyBudget {
                    in_flight: fill.in_flight,
                    ..self.budget.tools
                },
            },
            ready: fill.waiting,
            ..self
        }
    }

    /// With another token capacity, now and for the ticks to come.
    pub open spec fn resized(self, capacity: u32) -> SchedulerView {
        SchedulerView {
            budget: SchedulerBudget {
                tokens: self.budget.tokens.resized(capacity),
                ..self.budget
            },
            config: SchedulerConfig {
                budget: SchedulerBudget {
                    tokens: TokenBudget { capacity, ..self.config.budget.tokens },
                    ..self.config.budget
                },
                ..self.config
            },
            ..self
        }
    }
}

/// Unified trajectory step scheduler.
///
/// Main loop contract:
/// ```text
/// loop {
///   1. collect ready steps (decode / post-tool generate / tools / new)
///   2. sort by SchedPriority
///   3. fill token_budget + tool_concurrency_budget
///   4. emit TickActions (chunked generate / async tool)
///   5. apply pin decisions
/// }
/// ```
#[derive(Debug)]
pub struct Scheduler {
    config: SchedulerConfig,
    budget: SchedulerBudget,
    ready: Vec<ReadyStep>,
    memory_pressure_high: bool,
}

impl View for Scheduler {
    type V = SchedulerView;

    closed spec fn view(&self) -> SchedulerView {
        SchedulerView {
            config: self.config,
            budget: self.budget,
            ready: views(self.ready@),
            memory_pressure_high: self.memory_pressure_high,
        }
    }
}

/// Puts `item` into the sorted queue.
fn place(queue: &mut Vec<ReadyStep>, item: ReadyStep)
    ensures
        views(final(queue)@) == placed(views(old(queue)@), item@),
{
    let ghost all = views(queue@);
    let mut pos: usize = queue.len();
    assert(all.take(pos as int) =~= all);
    assert(placed(all, item@) =~= placed(all.take(pos as int), item@) + all.skip(pos as int));
    while pos > 0 && item.priority.is_before(&queue[pos - 1].priority)
        invariant
            pos <= queue@.len(),
            all == views(queue@),
            placed(all, item@) == placed(all.take(pos as int), item@) + all.skip(pos as int),
        decreases pos,
    {
        proof {
            let part = all.take(pos as int);
            assert(part.last() == queue@[pos - 1]@);
            assert(part.drop_last() =~= all.take(pos - 1));
            assert(placed(part, item@) == placed(all.take(pos - 1), item@).push(all[pos - 1]));
            assert(placed(all.take(pos - 1), item@).push(all[pos - 1]) + all.skip(pos as int)
                =~= placed(all.take(pos - 1), item@) + all.skip(pos - 1));
        }
        pos -= 1;
    }
    proof {
        let part = all.take(pos as int);
        if pos > 0 {
            assert(part.last() == queue@[pos - 1]@);
        }
        assert(placed(part, item@) == part.push(item@));
    }
    let ghost it = item@;
    queue.insert(pos, item);
    assert(views(queue@) =~= all.take(pos as int).push(it) + all.skip(pos as int));
}

/// Sorts the queue.
fn sort_queue(items: Vec<ReadyStep>) -> (res: Vec<ReadyStep>)
    ensures
        views(res@) == by_priority(views(items@)),
{
    let ghost all = views(items@);
    let mut out: Vec<ReadyStep> = Vec::new();
    assert(views(out@) =~= all.take(0));
    for item in it: items
        invariant
            it.seq() == items@,
            all == views(items@),
            views(out@) == by_priority(all.take(it.index())),
    {
        proof {
            let n = it.index();
            assert(all.take(n + 1).drop_last() =~= all.take(n));
            assert(all.take(n + 1).last() == item@);
        }
        place(&mut out, item);
    }
    assert(all.take(all.len() as int) =~= all);
    out
}

impl Scheduler {
    pub fn new(config: SchedulerConfig) -> (res: Self)
        ensures
            res@ == SchedulerView::fresh(config),
    {
        let budget = config.budget;
        let res = Scheduler { config, budget, ready: Vec::new(), memory_pressure_high: false };
        assert(res@ =~= SchedulerView::fresh(config));
        res
    }

    pub fn config(&self) -> (res: &SchedulerConfig)
        ensures
            *res == self@.config,
    {
        &self.config
    }

    pub fn budget_snapshot(&self) -> (res: BudgetSnapshot)
        ensures
            res == budget::snapshot(self@.budget),
    {
        BudgetSnapshot::from(&self.budget)
    }

    pub fn push_ready(&mut self, item: ReadyStep)
        ensures
            final(self)@ == (SchedulerView { ready: old(self)@.ready.push(item@), ..old(self)@ }),
    {
        let ghost it = item@;
        self.ready.push(item);
        assert(self@.ready =~= old(self)@.ready.push(it));
    }

    pub fn has_step(&self, trajectory_id: TrajectoryId, step_id: StepId) -> (res: bool)
        ensures
            res == self@.queued(trajectory_id, step_id),
    {
        let mut i: usize = 0;
        while i < self.ready.len()
            invariant
                i <= self.ready@.len(),
                forall|j: int|
                    0 <= j < i ==> !((#[trigger] self@.ready[j]).trajectory_id == trajectory_id
                        && self@.ready[j].step.id() == step_id),
            decreases self.ready@.len() - i,
        {
            assert(self@.ready[i as int] == self.ready@[i as int]@);
            if self.ready[i].trajectory_id == trajectory_id && self.ready[i].step.id() == step_id {
                return true;
            }
            i += 1;
        }
        false
    }

    pub fn ready_len(&self) -> (res: usize)
        ensures
            res == self@.ready.len(),
    {
        self.ready.len()
    }

    pub fn ingest(&mut self, event: SchedEvent)
        ensures
            final(self)@ == old(self)@.heard(event),
    {
        match event {
            SchedEvent::StepSubmitted { trajectory_id, step, kind: _, priority } => {
                self.push_ready(ReadyStep { trajectory_id, step, priority, decoded_so_far: 0 });
            },
            SchedEvent::GenerateChunkDone { .. } => {
                // consumption was accounted at schedule time
            },
            SchedEvent::ToolStarted { .. } => {
                // in_flight was incremented when the action was emitted
            },
            SchedEvent::ToolFinished { .. } => {
                self.budget.tools.release();
            },
            SchedEvent::MemoryPressure { high } => {
                self.memory_pressure_high = high;
            },
        }
    }

    /// One scheduling iteration, at the clock's time: whatever the time is,
    /// what happens is what `tick_at` does at that time.
    pub fn tick(&mut self) -> (res: SchedulerTick)
        ensures
            exists|now: u64|
                #![trigger old(self)@.filled(now)]
                final(self)@ == old(self)@.ticked(now) && res.actions@ == old(self)@.filled(
                    now,
                ).actions && res.pin_decisions@ == old(self)@.filled(now).pins && res.budget
                    == budget::snapshot(final(self)@.budget),
    {
        let now: u64 = now_ms();
        self.tick_at(now)
    }

    /// One scheduling iteration at the time `now`.
    pub fn tick_at(&mut self, now: u64) -> (res: SchedulerTick)
        ensures
            final(self)@ == old(self)@.ticked(now),
            res.actions@ == old(self)@.filled(now).actions,
            res.pin_decisions@ == old(self)@.filled(now).pins,
            res.budget == budget::snapshot(final(self)@.budget),
            forall|i: int|
                0 <= i < res.actions@.len() ==> tick_laws::owed(
                    old(self)@,
                    #[trigger] res.actions@[i],
                ),
    {
        let ghost was = self@;
        let ghost knobs = was.knobs(now);
        self.budget.tokens.refill();
        let mut taken: Vec<ReadyStep> = Vec::new();
        std::mem::swap(&mut taken, &mut self.ready);
        let items = sort_queue(taken);
        let ghost order = by_priority(was.ready);
        let ghost start = Fill {
            tokens_left: was.budget.tokens.capacity,
            in_flight: was.budget.tools.in_flight,
            actions: Seq::empty(),
            pins: Seq::empty(),
            waiting: Seq::empty(),
        };
        let mut actions: Vec<TickAction> = Vec::new();
        let mut pin_decisions: Vec<PinDecision> = Vec::new();
        let mut still_ready: Vec<ReadyStep> = Vec::new();
        assert(views(still_ready@) =~= Seq::empty());
        assert(order.take(0) =~= Seq::empty());
        for item in it: items
            invariant
                it.seq() == items@,
                order == views(items@),
                knobs == was.knobs(now),
                self.config == was.config,
                self.memory_pressure_high == was.memory_pressure_high,
                self.budget.tokens.capacity == was.budget.tokens.capacity,
                self.budget.tools.capacity == was.budget.tools.capacity,
                (Fill {
                    tokens_left: self.budget.tokens.remaining,
                    in_flight: self.budget.tools.in_flight,
                    actions: actions@,
                    pins: pin_decisions@,
                    waiting: views(still_ready@),
                }) == start.with_all(order.take(it.index()), knobs),
        {
            let ghost so_far = start.with_all(order.take(it.index()), knobs);
            let ghost seen = item@;
            proof {
                let n = it.index();
                assert(order.take(n + 1).drop_last() =~= order.take(n));
                assert(order.take(n + 1).last() == seen);
                assert(start.with_all(order.take(n + 1), knobs) == so_far.with(seen, knobs));
            }
            let ReadyStep { trajectory_id, step, priority, decoded_so_far } = item;
            match step {
                Step::Generate { id, max_tokens, delta, constraints } => {
                    let left: u32 = max_tokens.saturating_sub(decoded_so_far);
                    let most: u32 = if self.config.chunk_tokens < left {
                        self.config.chunk_tokens
                    } else {
                        left
                    };
                    let chunk: u32 = if most < 1 {
                        1
                    } else {
                        most
                    };
                    if self.budget.tokens.try_consume(chunk) {
                        // Not queued again here: the driver queues the step as
                        // `ActiveDecode` after a partial chunk.
                        actions.push(
                            TickAction::RunGenerateChunk {
                                trajectory_id,
                                step_id: id,
                                chunk_tokens: chunk,
                            },
                        );
                    } else {
                        still_ready.push(
                            ReadyStep {
                                trajectory_id,
                                step: Step::Generate { id, max_tokens, delta, constraints },
                                priority,
                                decoded_so_far,
                            },
                        );
                        assert(views(still_ready@) =~= so_far.waiting.push(seen));
                    }
                },
                Step::Tool { id, call, timeout_ms } => {
                    if self.budget.tools.try_acquire() {
                        // Advise pin for the tool gap; the driver applies it and
                        // may refine it with p95.
                        let ttl: u64 = self.config.pin_policy.base_ttl_ms;
                        pin_decisions.push(
                            PinDecision {
                                trajectory_id,
                                action: PinAction::Pin {
                                    until_ms: now.saturating_add(ttl),
                                    reason: PinReason::WaitingTool,
                                    strength: 2,
                                },
                            },
                        );
                        actions.push(TickAction::RunTool { trajectory_id, step_id: id });
                    } else {
                        still_ready.push(
                            ReadyStep {
                                trajectory_id,
                                step: Step::Tool { id, call, timeout_ms },
                                priority,
                                decoded_so_far,
                            },
                        );
                        assert(views(still_ready@) =~= so_far.waiting.push(seen));
                    }
                },
                Step::Control { id, .. } => {
                    actions.push(TickAction::RunControl { trajectory_id, step_id: id });
                },
            }
        }
        assert(order.take(order.len() as int) =~= order);
        self.ready = still_ready;
        proof {
            assert forall|i: int| 0 <= i < actions@.len() implies tick_laws::owed(
                was,
                #[trigger] actions@[i],
            ) by {
                tick_laws::law_actions_run_queued_steps(was, now, i);
            }
        }
        SchedulerTick { actions, pin_decisions, budget: BudgetSnapshot::from(&self.budget) }
    }

    pub fn adjust_token_capacity(&mut self, capacity: u32)
        ensures
            final(self)@ == old(self)@.resized(capacity),
    {
        self.budget.tokens.adjust_capacity(capacity);
        self.config.budget.tokens.capacity = capacity;
    }

    pub fn pin_policy(&self) -> (res: &PinPolicy)
        ensures
            *res == self@.config.pin_policy,
    {
        &self.config.pin_policy
    }
}

/// Sorting puts the queue in order of priority, loses and adds nothing, and
/// keeps the order of arrival among items of one priority.
pub proof fn law_by_priority(s: Seq<ReadyStepView>)
    ensures
        in_order(by_priority(s)),
        by_priority(s).len() == s.len(),
        by_priority(s).to_multiset() == s.to_multiset(),
        forall|p: SchedPriority| #[trigger] class(by_priority(s), p) == class(s, p),
    decreases s.len(),
{
    if s.len() > 0 {
        let front = s.drop_last();
        law_by_priority(front);
        lemma_placed(by_priority(front), s.last());
        vstd::seq_lib::to_multiset_build(front, s.last());
        assert(front.push(s.last()) =~= s);
        assert forall|p: SchedPriority| #[trigger] class(by_priority(s), p) == class(s, p) by {
            assert(class(by_priority(s), p) == class(by_priority(front).push(s.last()), p));
            assert(class(by_priority(front), p) == class(front, p));
            let same = |r: ReadyStepView| r.priority == p;
            by_priority(front).lemma_filter_push(s.last(), same);
            front.lemma_filter_push(s.last(), same);
        }
    }
}

proof fn lemma_placed(s: Seq<ReadyStepView>, x: ReadyStepView)
    requires
        in_order(s),
    ensures
        in_order(placed(s, x)),
        placed(s, x).len() == s.len() + 1,
        placed(s, x).to_multiset() == s.to_multiset().insert(x),
        forall|p: SchedPriority| #[trigger] class(placed(s, x), p) == class(s.push(x), p),
        forall|i: int|
            0 <= i < placed(s, x).len() ==> #[trigger] placed(s, x)[i] == x || s.contains(
                placed(s, x)[i],
            ),
    decreases s.len(),
{
    broadcast use vstd::seq_lib::group_to_multiset_ensures;

    if s.len() > 0 && x.priority.before(s.last().priority) {
        let front = s.drop_last();
        let last = s.last();
        lemma_placed(front, x);
        let inner = placed(front, x);
        assert(front.push(last) =~= s);
        assert forall|i: int| 0 <= i < inner.len() implies !last.priority.before(
            (#[trigger] inner[i]).priority,
        ) by {
            if inner[i] == x {
                crate::scheduler::priority::law_priority_total(x.priority, last.priority);
            } else {
                let k = choose|k: int| 0 <= k < front.len() && front[k] == inner[i];
                assert(s[k] == front[k]);
                assert(!s[s.len() - 1].priority.before(s[k].priority));
            }
        }
        assert(in_order(inner.push(last)));
        assert(inner.push(last).to_multiset() == s.to_multiset().insert(x)) by {
            assert(front.to_multiset().insert(x).insert(last) =~= front.to_multiset().insert(
                last,
            ).insert(x));
        }
        assert forall|p: SchedPriority| #[trigger] class(placed(s, x), p) == class(s.push(x), p) by {
            let same = |r: ReadyStepView| r.priority == p;
            inner.lemma_filter_push(last, same);
            front.lemma_filter_push(x, same);
            front.lemma_filter_push(last, same);
            s.lemma_filter_push(x, same);
            assert(class(inner, p) == class(front.push(x), p));
            crate::scheduler::priority::law_priority_total(x.priority, last.priority);
        }
        assert forall|i: int| 0 <= i < placed(s, x).len() implies #[trigger] placed(s, x)[i] == x
            || s.contains(placed(s, x)[i]) by {
            if i < inner.len() {
                assert(placed(s, x)[i] == inner[i]);
                if inner[i] != x {
                    let k = choose|k: int| 0 <= k < front.len() && front[k] == inner[i];
                    assert(s[k] == inner[i]);
                }
            } else {
                assert(s[s.len() - 1] == placed(s, x)[i]);
            }
        }
    } else {
        assert forall|i: int, j: int| 0 <= i < j < s.push(x).len() implies !(#[trigger] s.push(
            x,
        )[j]).priority.before((#[trigger] s.push(x)[i]).priority) by {
            if j == s.len() {
                // x runs before the last item no more than before those in front of it
                let last = s.last();
                if i < s.len() - 1 {
                    assert(!s[s.len() - 1].priority.before(s[i].priority));
                    if x.priority.before(s[i].priority) {
                        crate::scheduler::priority::law_priority_total(
                            s[i].priority,
                            last.priority,
                        );
                        if s[i].priority != last.priority {
                            crate::scheduler::priority::law_priority_transitive(
                                x.priority,
                                s[i].priority,
                                last.priority,
                            );
                        }
                    }
                }
            }
        }
        assert forall|i: int| 0 <= i < s.push(x).len() implies #[trigger] s.push(x)[i] == x
            || s.contains(s.push(x)[i]) by {
            if i < s.len() {
                assert(s[i] == s.push(x)[i]);
            }
        }
    }
}

/// The tokens that the actions of a tick may produce.
pub open spec fn tokens_of(actions: Seq<TickAction>) -> int
    decreases actions.len(),
{
    if actions.len() == 0 {
        0
    } else {
        tokens_of(actions.drop_last()) + match actions.last() {
            TickAction::RunGenerateChunk { chunk_tokens, .. } => chunk_tokens as int,
            _ => 0,
        }
    }
}

/// The tools that the actions of a tick start.
pub open spec fn tools_of(actions: Seq<TickAction>) -> int
    decreases actions.len(),
{
    if actions.len() == 0 {
        0
    } else {
        tools_of(actions.drop_last()) + match actions.last() {
            TickAction::RunTool { .. } => 1int,
            _ => 0,
        }
    }
}

/// The item cannot run on what is left.
pub open spec fn held_up(item: ReadyStepView, fill: Fill, knobs: Knobs) -> bool {
    match item.step {
        StepView::Generate { max_tokens, .. } => fill.tokens_left < chunk_for(
            knobs.chunk_tokens,
            max_tokens,
            item.decoded_so_far,
        ),
        StepView::Tool { .. } => fill.in_flight >= knobs.tool_capacity,
        StepView::Control { .. } => false,
    }
}

proof fn lemma_fill(start: Fill, items: Seq<ReadyStepView>, knobs: Knobs)
    requires
        start.actions.len() == 0,
        start.pins.len() == 0,
        start.waiting.len() == 0,
    ensures
        ({
            let f = start.with_all(items, knobs);
            &&& f.actions.len() + f.waiting.len() == items.len()
            &&& tokens_of(f.actions) + f.tokens_left == start.tokens_left
            &&& start.in_flight + tools_of(f.actions) == f.in_flight
            &&& f.pins.len() == tools_of(f.actions)
            &&& tokens_of(f.actions) >= 0
            &&& tools_of(f.actions) >= 0
            &&& start.in_flight <= knobs.tool_capacity ==> f.in_flight <= knobs.tool_capacity
            &&& forall|i: int|
                0 <= i < f.waiting.len() ==> held_up(#[trigger] f.waiting[i], f, knobs)
            &&& in_order(items) ==> in_order(f.waiting)
            &&& forall|i: int|
                0 <= i < f.waiting.len() ==> items.contains(#[trigger] f.waiting[i])
        }),
    decreases items.len(),
{
    if items.len() > 0 {
        let front = items.drop_last();
        let item = items.last();
        lemma_fill(start, front, knobs);
        let mid = start.with_all(front, knobs);
        let f = mid.with(item, knobs);
        assert(f == start.with_all(items, knobs));
        if f.actions.len() > mid.actions.len() {
            assert(f.actions.drop_last() =~= mid.actions);
        }
        assert forall|i: int| 0 <= i < f.waiting.len() implies held_up(
            #[trigger] f.waiting[i],
            f,
            knobs,
        ) && items.contains(f.waiting[i]) by {
            if i < mid.waiting.len() {
                assert(f.waiting[i] == mid.waiting[i]);
                assert(held_up(mid.waiting[i], mid, knobs));
                let k = choose|k: int| 0 <= k < front.len() && front[k] == mid.waiting[i];
                assert(items[k] == f.waiting[i]);
            } else {
                assert(items[items.len() - 1] == f.waiting[i]);
            }
        }
        if in_order(items) {
            assert forall|i: int, j: int| 0 <= i < j < front.len() implies !(
            #[trigger] front[j]).priority.before((#[trigger] front[i]).priority) by {
                assert(items[i] == front[i] && items[j] == front[j]);
            }
            assert forall|i: int, j: int| 0 <= i < j < f.waiting.len() implies !(
            #[trigger] f.waiting[j]).priority.before((#[trigger] f.waiting[i]).priority) by {
                if j < mid.waiting.len() {
                    assert(f.waiting[i] == mid.waiting[i] && f.waiting[j] == mid.waiting[j]);
                } else {
                    assert(f.waiting[i] == mid.waiting[i]);
                    let k = choose|k: int| 0 <= k < front.len() && front[k] == mid.waiting[i];
                    assert(items[k] == f.waiting[i]);
                    assert(items[items.len() - 1] == f.waiting[j]);
                }
            }
        }
    }
}

/// A tick answers every queued step once: with an action, or by leaving it in
/// the queue.
pub proof fn law_tick_loses_nothing(s: SchedulerView, now: u64)
    ensures
        s.filled(now).actions.len() + s.filled(now).waiting.len() == s.ready.len(),
        forall|i: int|
            0 <= i < s.filled(now).waiting.len() ==> s.ready.contains(
                #[trigger] s.filled(now).waiting[i],
            ),
{
    law_by_priority(s.ready);
    lemma_tick(s, now);
    assert forall|i: int| 0 <= i < s.filled(now).waiting.len() implies s.ready.contains(
        #[trigger] s.filled(now).waiting[i],
    ) by {
        broadcast use vstd::seq_lib::group_to_multiset_ensures;

        let x = s.filled(now).waiting[i];
        assert(by_priority(s.ready).contains(x));
        assert(by_priority(s.ready).to_multiset().count(x) > 0);
    }
}

proof fn lemma_tick(s: SchedulerView, now: u64)
    ensures
        ({
            let f = s.filled(now);
            let items = by_priority(s.ready);
            let knobs = s.knobs(now);
            &&& f.actions.len() + f.waiting.len() == items.len()
            &&& tokens_of(f.actions) + f.tokens_left == s.budget.tokens.capacity
            &&& s.budget.tools.in_flight + tools_of(f.actions) == f.in_flight
            &&& f.pins.len() == tools_of(f.actions)
            &&& s.budget.tools.in_flight <= knobs.tool_capacity ==> f.in_flight
                <= knobs.tool_capacity
            &&& forall|i: int|
                0 <= i < f.waiting.len() ==> held_up(#[trigger] f.waiting[i], f, knobs)
            &&& in_order(items) ==> in_order(f.waiting)
            &&& forall|i: int|
                0 <= i < f.waiting.len() ==> items.contains(#[trigger] f.waiting[i])
        }),
{
    lemma_fill(
        Fill {
            tokens_left: s.budget.tokens.capacity,
            in_flight: s.budget.tools.in_flight,
            actions: Seq::empty(),
            pins: Seq::empty(),
            waiting: Seq::empty(),
        },
        by_priority(s.ready),
        s.knobs(now),
    );
}

/// A tick never hands out more tokens than the budget holds, and what it did
/// not hand out remains.
pub proof fn law_token_budget_kept(s: SchedulerView, now: u64)
    ensures
        tokens_of(s.filled(now).actions) + s.ticked(now).budget.tokens.remaining
            == s.budget.tokens.capacity,
        tokens_of(s.filled(now).actions) <= s.budget.tokens.capacity,
{
    lemma_tick(s, now);
}

/// A tick never starts more tools than may run at once, counts each one it
/// starts, and advises a pin for each.
pub proof fn law_tool_budget_kept(s: SchedulerView, now: u64)
    requires
        s.budget.tools.in_flight <= s.budget.tools.capacity,
    ensures
        s.ticked(now).budget.tools.in_flight <= s.budget.tools.capacity,
        s.ticked(now).budget.tools.in_flight == s.budget.tools.in_flight + tools_of(
            s.filled(now).actions,
        ),
        s.filled(now).pins.len() == tools_of(s.filled(now).actions),
{
    lemma_tick(s, now);
}

/// A step is left waiting only where the budget that it needs is used up:
/// its chunk does not fit in the tokens that remain, or no tool is free. A
/// control step never waits.
pub proof fn law_waiting_has_a_reason(s: SchedulerView, now: u64)
    ensures
        forall|i: int|
            0 <= i < s.ticked(now).ready.len() ==> held_up(
                #[trigger] s.ticked(now).ready[i],
                s.filled(now),
                s.knobs(now),
            ),
{
    lemma_tick(s, now);
}

/// What a tick leaves in the queue stands in the order of priority.
pub proof fn law_queue_left_in_order(s: SchedulerView, now: u64)
    ensures
        in_order(s.ticked(now).ready),
{
    law_by_priority(s.ready);
    lemma_tick(s, now);
}

proof fn lemma_first_action(start: Fill, items: Seq<ReadyStepView>, knobs: Knobs)
    requires
        items.len() > 0,
        start.actions.len() == 0,
        start.with(items[0], knobs).actions.len() == 1,
    ensures
        start.with_all(items, knobs).actions.len() > 0,
        start.with_all(items, knobs).actions[0] == start.with(items[0], knobs).actions[0],
    decreases items.len(),
{
    let front = items.drop_last();
    if front.len() > 0 {
        assert(front[0] == items[0]);
        lemma_first_action(start, front, knobs);
    } else {
        assert(start.with_all(front, knobs) == start);
    }
}

/// The most urgent step comes first: where it is a generate step whose chunk
/// fits in the token budget, it is the first action of the tick.
pub proof fn law_most_urgent_first(s: SchedulerView, now: u64)
    requires
        s.ready.len() > 0,
        by_priority(s.ready)[0].step is Generate,
        chunk_for(
            s.config.chunk_tokens,
            by_priority(s.ready)[0].step->max_tokens,
            by_priority(s.ready)[0].decoded_so_far,
        ) <= s.budget.tokens.capacity,
    ensures
        ({
            let first = by_priority(s.ready)[0];
            &&& s.filled(now).actions.len() > 0
            &&& s.filled(now).actions[0] == (TickAction::RunGenerateChunk {
                trajectory_id: first.trajectory_id,
                step_id: first.step.id(),
                chunk_tokens: chunk_for(
                    s.config.chunk_tokens,
                    first.step->max_tokens,
                    first.decoded_so_far,
                ),
            })
            &&& forall|i: int|
                0 <= i < s.ready.len() ==> !(#[trigger] s.ready[i]).priority.before(first.priority)
        }),
{
    law_by_priority(s.ready);
    let start = Fill {
        tokens_left: s.budget.tokens.capacity,
        in_flight: s.budget.tools.in_flight,
        actions: Seq::empty(),
        pins: Seq::empty(),
        waiting: Seq::empty(),
    };
    lemma_first_action(start, by_priority(s.ready), s.knobs(now));
    assert forall|i: int| 0 <= i < s.ready.len() implies !(#[trigger] s.ready[i]).priority.before(
        by_priority(s.ready)[0].priority,
    ) by {
        broadcast use vstd::seq_lib::group_to_multiset_ensures;

        let x = s.ready[i];
        assert(s.ready.contains(x));
        assert(s.ready.to_multiset().count(x) > 0);
        assert(by_priority(s.ready).contains(x));
        let k = choose|k: int| 0 <= k < by_priority(s.ready).len() && by_priority(s.ready)[k] == x;
        if k == 0 {
            crate::scheduler::priority::law_priority_total(x.priority, x.priority);
        } else {
            assert(!by_priority(s.ready)[k].priority.before(by_priority(s.ready)[0].priority));
        }
    }
}

/// A chunk is never empty, never longer than the configured size (or one
/// token), and never runs over a limit that is not reached yet.
pub proof fn law_chunk_bounds(chunk_tokens: u32, max_tokens: u32, decoded: u32)
    ensures
        chunk_for(chunk_tokens, max_tokens, decoded) >= 1,
        chunk_tokens >= 1 ==> chunk_for(chunk_tokens, max_tokens, decoded) <= chunk_tokens,
        decoded < max_tokens ==> decoded + chunk_for(chunk_tokens, max_tokens, decoded)
            <= max_tokens,
{
}

/// A tool that finishes frees the place that its start took.
pub proof fn law_tool_place_returned(s: SchedulerView, trajectory_id: TrajectoryId, step_id: StepId)
    requires
        0 < s.budget.tools.in_flight,
    ensures
        s.heard(SchedEvent::ToolFinished { trajectory_id, step_id }).budget.tools.in_flight
            == s.budget.tools.in_flight - 1,
{
}

} // verus!
