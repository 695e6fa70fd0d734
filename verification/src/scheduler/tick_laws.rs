//! What a tick owes to the steps that wait for it.
use vstd::prelude::*;

use crate::ids::{StepId, TrajectoryId};
use crate::pin::PinReason;
use crate::scheduler::priority::{SchedPriority, SchedulableKind};
use crate::scheduler::scheduler;
use crate::scheduler::scheduler::{
    Fill, Knobs, ReadyStepView, SchedEvent, SchedulerConfig, SchedulerView, TickAction,
};
use crate::step::Step;

verus! {

/// A generate step gets the whole configured chunk where its limit leaves room
/// for it, else all that is left of its limit, and one token where nothing is
/// left or configured.
pub proof fn law_chunk_is_full(chunk_tokens: u32, max_tokens: u32, decoded: u32)
    ensures
        decoded + chunk_tokens <= max_tokens && chunk_tokens >= 1 ==> scheduler::chunk_for(
            chunk_tokens,
            max_tokens,
            decoded,
        ) == chunk_tokens,
        decoded < max_tokens < decoded + chunk_tokens ==> scheduler::chunk_for(
            chunk_tokens,
            max_tokens,
            decoded,
        ) == max_tokens - decoded,
        decoded >= max_tokens || chunk_tokens == 0 ==> scheduler::chunk_for(
            chunk_tokens,
            max_tokens,
            decoded,
        ) == 1,
{
}

/// An action runs what an item asks for: the item's own step, for its own
/// trajectory, and a generate step for as many tokens as the chunk size and the
/// step's limit allow.
pub open spec fn runs(action: TickAction, item: ReadyStepView, chunk_tokens: u32) -> bool {
    match action {
        TickAction::RunGenerateChunk { trajectory_id, step_id, chunk_tokens: n } => {
            &&& item.step is Generate
            &&& trajectory_id == item.trajectory_id
            &&& step_id == item.step.id()
            &&& n >= 1
            &&& item.decoded_so_far + chunk_tokens <= item.step->max_tokens && chunk_tokens >= 1
                ==> n == chunk_tokens
            &&& item.decoded_so_far < item.step->max_tokens < item.decoded_so_far + chunk_tokens
                ==> n == item.step->max_tokens - item.decoded_so_far
        },
        TickAction::RunTool { trajectory_id, step_id } => {
            &&& item.step is Tool
            &&& trajectory_id == item.trajectory_id
            &&& step_id == item.step.id()
        },
        TickAction::RunControl { trajectory_id, step_id } => {
            &&& item.step is Control
            &&& trajectory_id == item.trajectory_id
            &&& step_id == item.step.id()
        },
    }
}

/// An action that a scheduler owes: it runs a step that is queued there.
pub open spec fn owed(s: SchedulerView, action: TickAction) -> bool {
    exists|item: ReadyStepView| #[trigger]
        s.ready.contains(item) && runs(action, item, s.config.chunk_tokens)
}

/// The places in the queue of the items that a fill has acted on, in order.
pub open spec fn places_fit(
    at: Seq<int>,
    actions: Seq<TickAction>,
    items: Seq<ReadyStepView>,
    chunk_tokens: u32,
) -> bool {
    &&& at.len() == actions.len()
    &&& forall|i: int| 0 <= i < at.len() ==> 0 <= #[trigger] at[i] < items.len()
    &&& forall|i: int, j: int| 0 <= i < j < at.len() ==> #[trigger] at[i] < #[trigger] at[j]
    &&& forall|i: int|
        0 <= i < at.len() ==> runs(#[trigger] actions[i], items[at[i]], chunk_tokens)
}

/// Every item is acted on or waits.
pub open spec fn all_answered(at: Seq<int>, waiting: Seq<ReadyStepView>, items: Seq<ReadyStepView>) -> bool {
    forall|k: int| 0 <= k < items.len() ==> #[trigger] at.contains(k) || waiting.contains(items[k])
}

proof fn lemma_places(start: Fill, items: Seq<ReadyStepView>, knobs: Knobs) -> (at: Seq<int>)
    requires
        start.actions.len() == 0,
        start.waiting.len() == 0,
    ensures
        places_fit(at, start.with_all(items, knobs).actions, items, knobs.chunk_tokens),
        all_answered(at, start.with_all(items, knobs).waiting, items),
    decreases items.len(),
{
    if items.len() == 0 {
        Seq::empty()
    } else {
        let front = items.drop_last();
        let item = items.last();
        let n = front.len() as int;
        let before = lemma_places(start, front, knobs);
        let mid = start.with_all(front, knobs);
        let f = start.with_all(items, knobs);
        assert(f == mid.with(item, knobs));
        if item.step is Generate {
            law_chunk_is_full(knobs.chunk_tokens, item.step->max_tokens, item.decoded_so_far);
            scheduler::law_chunk_bounds(
                knobs.chunk_tokens,
                item.step->max_tokens,
                item.decoded_so_far,
            );
        }
        let at = if f.actions.len() > mid.actions.len() {
            before.push(n)
        } else {
            before
        };
        assert forall|i: int| 0 <= i < at.len() implies 0 <= #[trigger] at[i] < items.len() by {
            if i < before.len() {
                assert(at[i] == before[i]);
            }
        }
        assert forall|i: int, j: int| 0 <= i < j < at.len() implies #[trigger] at[i]
            < #[trigger] at[j] by {
            assert(at[i] == before[i]);
            if j < before.len() {
                assert(at[j] == before[j]);
            }
        }
        assert forall|i: int| 0 <= i < at.len() implies runs(
            #[trigger] f.actions[i],
            items[at[i]],
            knobs.chunk_tokens,
        ) by {
            if i < before.len() {
                assert(f.actions[i] == mid.actions[i]);
                assert(at[i] == before[i]);
                assert(runs(mid.actions[i], front[before[i]], knobs.chunk_tokens));
                assert(front[before[i]] == items[at[i]]);
            }
        }
        assert forall|k: int| 0 <= k < items.len() implies #[trigger] at.contains(k)
            || f.waiting.contains(items[k]) by {
            if k < n {
                assert(front[k] == items[k]);
                assert(before.contains(k) || mid.waiting.contains(front[k]));
                if before.contains(k) {
                    let i = choose|i: int| 0 <= i < before.len() && before[i] == k;
                    assert(at[i] == k);
                } else {
                    let i = choose|i: int| 0 <= i < mid.waiting.len() && mid.waiting[i] == front[k];
                    assert(f.waiting[i] == front[k]);
                }
            } else if f.actions.len() > mid.actions.len() {
                assert(at[before.len() as int] == k);
            } else {
                assert(f.waiting[mid.waiting.len() as int] == item);
            }
        }
        at
    }
}

proof fn lemma_from_queue(s: SchedulerView, k: int)
    requires
        0 <= k < scheduler::by_priority(s.ready).len(),
    ensures
        s.ready.contains(scheduler::by_priority(s.ready)[k]),
{
    broadcast use vstd::seq_lib::group_to_multiset_ensures;

    scheduler::law_by_priority(s.ready);
    let x = scheduler::by_priority(s.ready)[k];
    assert(scheduler::by_priority(s.ready).contains(x));
    assert(scheduler::by_priority(s.ready).to_multiset().count(x) > 0);
}

/// The start of a tick: all tokens of the budget, and nothing decided.
pub open spec fn first_fill(s: SchedulerView) -> Fill {
    Fill {
        tokens_left: s.budget.tokens.capacity,
        in_flight: s.budget.tools.in_flight,
        actions: Seq::empty(),
        pins: Seq::empty(),
        waiting: Seq::empty(),
    }
}

/// Every action of a tick runs a step that was queued: that step, for its
/// trajectory, a generate step for the full chunk that it is owed.
pub proof fn law_actions_run_queued_steps(s: SchedulerView, now: u64, i: int)
    requires
        0 <= i < s.filled(now).actions.len(),
    ensures
        exists|item: ReadyStepView| #[trigger]
            s.ready.contains(item) && runs(
                s.filled(now).actions[i],
                item,
                s.config.chunk_tokens,
            ),
{
    let items = scheduler::by_priority(s.ready);
    let at = lemma_places(first_fill(s), items, s.knobs(now));
    assert(runs(s.filled(now).actions[i], items[at[i]], s.config.chunk_tokens));
    assert(0 <= at[i] < items.len());
    lemma_from_queue(s, at[i]);
}

/// Every queued step is run or stays queued.
pub proof fn law_queued_step_is_answered(s: SchedulerView, now: u64, item: ReadyStepView)
    requires
        s.ready.contains(item),
    ensures
        s.ticked(now).ready.contains(item) || exists|i: int|
            0 <= i < s.filled(now).actions.len() && runs(
                #[trigger] s.filled(now).actions[i],
                item,
                s.config.chunk_tokens,
            ),
{
    broadcast use vstd::seq_lib::group_to_multiset_ensures;

    scheduler::law_by_priority(s.ready);
    let items = scheduler::by_priority(s.ready);
    assert(s.ready.to_multiset().count(item) > 0);
    assert(items.contains(item));
    let k = choose|k: int| 0 <= k < items.len() && items[k] == item;
    let at = lemma_places(first_fill(s), items, s.knobs(now));
    assert(at.contains(k) || s.filled(now).waiting.contains(items[k]));
    if at.contains(k) {
        let i = choose|i: int| 0 <= i < at.len() && at[i] == k;
        assert(runs(s.filled(now).actions[i], items[at[i]], s.config.chunk_tokens));
    }
}

/// Actions come in the order of priority: an earlier action runs a step that no
/// later action's step goes before.
pub proof fn law_actions_in_order(s: SchedulerView, now: u64, i: int, j: int)
    requires
        0 <= i < j < s.filled(now).actions.len(),
    ensures
        exists|x: ReadyStepView, y: ReadyStepView|
            {
                &&& #[trigger] s.ready.contains(x)
                &&& #[trigger] s.ready.contains(y)
                &&& runs(s.filled(now).actions[i], x, s.config.chunk_tokens)
                &&& runs(s.filled(now).actions[j], y, s.config.chunk_tokens)
                &&& !y.priority.before(x.priority)
            },
{
    scheduler::law_by_priority(s.ready);
    let items = scheduler::by_priority(s.ready);
    let at = lemma_places(first_fill(s), items, s.knobs(now));
    assert(at[i] < at[j]);
    assert(0 <= at[i] < items.len() && 0 <= at[j] < items.len());
    let x = items[at[i]];
    let y = items[at[j]];
    lemma_from_queue(s, at[i]);
    lemma_from_queue(s, at[j]);
    assert(!y.priority.before(x.priority));
    assert(runs(s.filled(now).actions[i], items[at[i]], s.config.chunk_tokens));
    assert(runs(s.filled(now).actions[j], items[at[j]], s.config.chunk_tokens));
}

/// A control step always runs.
pub proof fn law_control_always_runs(s: SchedulerView, now: u64, item: ReadyStepView)
    requires
        s.ready.contains(item),
        item.step is Control,
    ensures
        exists|i: int|
            0 <= i < s.filled(now).actions.len() && #[trigger] s.filled(now).actions[i] == (
            TickAction::RunControl {
                trajectory_id: item.trajectory_id,
                step_id: item.step.id(),
            }),
{
    law_queued_step_is_answered(s, now, item);
    if s.ticked(now).ready.contains(item) {
        scheduler::law_waiting_has_a_reason(s, now);
        let k = choose|k: int| 0 <= k < s.ticked(now).ready.len() && s.ticked(now).ready[k] == item;
        assert(scheduler::held_up(s.ticked(now).ready[k], s.filled(now), s.knobs(now)));
    }
}

/// A step waits only for want of what it needs: fewer tokens remain than its
/// chunk, which is no longer than the configured one and its own limit, or all
/// tools are taken.
pub proof fn law_waits_only_for_want(s: SchedulerView, now: u64, item: ReadyStepView)
    requires
        s.ticked(now).ready.contains(item),
    ensures
        !(item.step is Control),
        item.step is Tool ==> s.ticked(now).budget.tools.in_flight >= s.budget.tools.capacity,
        item.step is Generate && s.config.chunk_tokens >= 1 ==> s.ticked(
            now,
        ).budget.tokens.remaining < s.config.chunk_tokens,
        item.step is Generate && item.decoded_so_far < item.step->max_tokens ==> s.ticked(
            now,
        ).budget.tokens.remaining < item.step->max_tokens - item.decoded_so_far,
{
    scheduler::law_waiting_has_a_reason(s, now);
    let k = choose|k: int| 0 <= k < s.ticked(now).ready.len() && s.ticked(now).ready[k] == item;
    assert(scheduler::held_up(s.ticked(now).ready[k], s.filled(now), s.knobs(now)));
    if item.step is Generate {
        scheduler::law_chunk_bounds(
            s.config.chunk_tokens,
            item.step->max_tokens,
            item.decoded_so_far,
        );
        law_chunk_is_full(s.config.chunk_tokens, item.step->max_tokens, item.decoded_so_far);
    }
}

proof fn lemma_pins(start: Fill, items: Seq<ReadyStepView>, knobs: Knobs, i: int)
    requires
        start.pins.len() == 0,
        start.actions.len() == 0,
        0 <= i < start.with_all(items, knobs).pins.len(),
    ensures
        ({
            let f = start.with_all(items, knobs);
            let p = f.pins[i];
            &&& p.action is Pin
            &&& p.action->reason == PinReason::WaitingTool
            &&& p.action->strength == 2
            &&& p.action->until_ms == if knobs.now + knobs.base_ttl_ms > u64::MAX {
                u64::MAX as int
            } else {
                knobs.now + knobs.base_ttl_ms
            }
            &&& exists|k: int|
                0 <= k < f.actions.len() && (#[trigger] f.actions[k]) is RunTool
                    && f.actions[k]->RunTool_trajectory_id == p.trajectory_id
        }),
    decreases items.len(),
{
    if items.len() > 0 {
        let front = items.drop_last();
        let mid = start.with_all(front, knobs);
        let f = start.with_all(items, knobs);
        assert(f == mid.with(items.last(), knobs));
        if i < mid.pins.len() {
            lemma_pins(start, front, knobs, i);
            assert(f.pins[i] == mid.pins[i]);
            let k = choose|k: int|
                0 <= k < mid.actions.len() && (#[trigger] mid.actions[k]) is RunTool
                    && mid.actions[k]->RunTool_trajectory_id == mid.pins[i].trajectory_id;
            assert(f.actions[k] == mid.actions[k]);
        } else {
            let k = mid.actions.len() as int;
            assert(f.actions[k] is RunTool);
        }
    }
}

/// The pins that a tick advises are for trajectories whose tools it starts, last
/// for the base time from now on, and do not give way to pressure.
pub proof fn law_tick_pins(s: SchedulerView, now: u64, i: int)
    requires
        0 <= i < s.filled(now).pins.len(),
    ensures
        ({
            let p = s.filled(now).pins[i];
            &&& p.action is Pin
            &&& p.action->reason == PinReason::WaitingTool
            &&& p.action->strength == 2
            &&& now + s.config.pin_policy.base_ttl_ms <= u64::MAX ==> p.action->until_ms == now
                + s.config.pin_policy.base_ttl_ms
            &&& now + s.config.pin_policy.base_ttl_ms > u64::MAX ==> p.action->until_ms == u64::MAX
            &&& exists|k: int|
                0 <= k < s.filled(now).actions.len() && (#[trigger] s.filled(
                    now,
                ).actions[k]) is RunTool && s.filled(now).actions[k]->RunTool_trajectory_id
                    == p.trajectory_id
        }),
{
    lemma_pins(first_fill(s), scheduler::by_priority(s.ready), s.knobs(now), i);
}

/// A tick begins with the whole token budget, whatever was left of it, and
/// changes neither the configuration nor the capacities.
pub proof fn law_tick_refills(s: SchedulerView, other: SchedulerView, now: u64)
    requires
        other.config == s.config,
        other.ready == s.ready,
        other.budget.tools == s.budget.tools,
        other.budget.tokens.capacity == s.budget.tokens.capacity,
    ensures
        s.filled(now) == other.filled(now),
        s.ticked(now).config == s.config,
        s.ticked(now).budget.tokens.capacity == s.budget.tokens.capacity,
        s.ticked(now).budget.tools.capacity == s.budget.tools.capacity,
        s.ticked(now).memory_pressure_high == s.memory_pressure_high,
        s.ready.len() == 0 ==> s.filled(now).actions.len() == 0 && s.ticked(
            now,
        ).budget.tokens.remaining == s.budget.tokens.capacity,
{
}

/// A step that is submitted stands in the queue with its own priority and
/// nothing decoded, behind those that were there, and nothing else changes.
pub proof fn law_submitted_is_queued(
    s: SchedulerView,
    trajectory_id: TrajectoryId,
    step: Step,
    kind: SchedulableKind,
    priority: SchedPriority,
)
    ensures
        ({
            let after = s.heard(SchedEvent::StepSubmitted { trajectory_id, step, kind, priority });
            &&& after.queued(trajectory_id, step@.id())
            &&& after.ready.len() == s.ready.len() + 1
            &&& after.ready.drop_last() == s.ready
            &&& after.ready.last().trajectory_id == trajectory_id
            &&& after.ready.last().step == step@
            &&& after.ready.last().priority == priority
            &&& after.ready.last().decoded_so_far == 0
            &&& after.budget == s.budget
            &&& after.config == s.config
        }),
{
    let after = s.heard(SchedEvent::StepSubmitted { trajectory_id, step, kind, priority });
    assert(after.ready.drop_last() =~= s.ready);
    assert(after.ready[s.ready.len() as int].step == step@);
}

/// Other events leave the queue as it is: the end of a chunk and the start of a
/// tool change nothing, and the memory's pressure is noted as it is told.
pub proof fn law_other_events(
    s: SchedulerView,
    trajectory_id: TrajectoryId,
    step_id: StepId,
    tokens_produced: u32,
    finished: bool,
    high: bool,
)
    ensures
        s.heard(
            SchedEvent::GenerateChunkDone { trajectory_id, step_id, tokens_produced, finished },
        ) == s,
        s.heard(SchedEvent::ToolStarted { trajectory_id, step_id }) == s,
        s.heard(SchedEvent::ToolFinished { trajectory_id, step_id }).ready == s.ready,
        s.heard(SchedEvent::ToolFinished { trajectory_id, step_id }).budget.tokens
            == s.budget.tokens,
        s.heard(SchedEvent::MemoryPressure { high }).memory_pressure_high == high,
        s.heard(SchedEvent::MemoryPressure { high }).ready == s.ready,
{
}

/// A new scheduler has its configured budget and an empty queue, and one whose
/// token capacity is changed keeps to the new one from then on.
pub proof fn law_fresh_and_resized(s: SchedulerView, config: SchedulerConfig, capacity: u32)
    ensures
        SchedulerView::fresh(config).ready.len() == 0,
        SchedulerView::fresh(config).budget == config.budget,
        SchedulerView::fresh(config).config == config,
        s.resized(capacity).budget.tokens.capacity == capacity,
        s.resized(capacity).config.budget.tokens.capacity == capacity,
        s.resized(capacity).config.chunk_tokens == s.config.chunk_tokens,
        s.resized(capacity).budget.tools == s.budget.tools,
        s.resized(capacity).ready == s.ready,
{
}

} // verus!
