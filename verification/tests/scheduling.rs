//! Budgets, priorities, pins and ticks.

use traject::ids::{StepId, TrajectoryId};
use traject::pin::{PinInfo, PinReason};
use traject::ratio::Milli;
use traject::scheduler::budget::{
    BudgetSnapshot, SchedulerBudget, TokenBudget, ToolConcurrencyBudget,
};
use traject::scheduler::latency::{LatencyHistogram, ToolLatencyTracker};
use traject::scheduler::pinning::{
    apply_pin, pin_for_prefetch, pin_for_tool_wait, should_force_unpin,
};
use traject::scheduler::priority::{PinAction, PinPolicy, SchedPriority, SchedulableKind};
use traject::scheduler::scheduler::{
    ReadyStep, SchedEvent, Scheduler, SchedulerConfig, TickAction,
};
use traject::step::{Constraints, GenerateDelta, Step, ToolCall};
use traject::trajectory::{Trajectory, TrajectoryConfig, TrajectoryPriority};

fn gen_ready(kind: SchedulableKind) -> ReadyStep {
    ReadyStep {
        trajectory_id: TrajectoryId::new(),
        step: Step::generate(GenerateDelta::from_text("x"), Constraints::default(), 128),
        priority: SchedPriority::new(kind, TrajectoryPriority(0), 0),
        decoded_so_far: 0,
    }
}

fn tool_ready() -> ReadyStep {
    ReadyStep {
        trajectory_id: TrajectoryId::new(),
        step: Step::tool(
            ToolCall { name: "x".to_string(), arguments: "{}".to_string(), call_id: None },
            1000,
        ),
        priority: SchedPriority::new(SchedulableKind::Tool, TrajectoryPriority(0), 0),
        decoded_so_far: 0,
    }
}

fn with_budget(tokens: u32, tools: u32) -> Scheduler {
    Scheduler::new(SchedulerConfig {
        budget: SchedulerBudget {
            tokens: TokenBudget::new(tokens),
            tools: ToolConcurrencyBudget::new(tools),
        },
        ..SchedulerConfig::default()
    })
}

#[test]
fn decode_preferred_over_new() {
    let mut sched = with_budget(64, 8);
    let normal = gen_ready(SchedulableKind::NormalNew);
    let decode = gen_ready(SchedulableKind::ActiveDecode);
    let normal_id = normal.trajectory_id;
    let decode_id = decode.trajectory_id;
    sched.push_ready(normal);
    sched.push_ready(decode);

    let tick = sched.tick();
    assert!(!tick.actions.is_empty());
    match &tick.actions[0] {
        TickAction::RunGenerateChunk { trajectory_id, .. } => {
            assert_eq!(*trajectory_id, decode_id);
            assert_ne!(*trajectory_id, normal_id);
        }
        _ => panic!("expected generate chunk"),
    }
}

#[test]
fn tool_respects_concurrency_budget() {
    let mut sched = with_budget(0, 1);
    for _ in 0..3 {
        sched.push_ready(tool_ready());
    }
    let tick = sched.tick();
    assert_eq!(tick.actions.len(), 1);
    assert_eq!(sched.ready_len(), 2);
}

#[test]
fn p95_from_samples() {
    let mut h = LatencyHistogram::new(32);
    for i in 1..=20 {
        h.record(i * 10);
    }
    let p95 = h.p95().unwrap();
    assert!(p95 >= 180, "p95={p95}");
    assert!(p95 <= 200, "p95={p95}");
}

#[test]
fn tracker_prefers_tool() {
    let mut t = ToolLatencyTracker::new();
    for _ in 0..20 {
        t.record("Glob", 100);
        t.record("Bash", 5_000);
    }
    assert!(t.p95_for(Some("Glob")).unwrap() < 500);
    assert!(t.p95_for(Some("Bash")).unwrap() > 4_000);
}

#[test]
fn percentiles_are_samples() {
    let mut h = LatencyHistogram::new(8);
    assert!(h.is_empty());
    assert_eq!(h.p95(), None);
    h.record(30);
    h.record(10);
    h.record(20);
    assert_eq!(h.percentile(0), Some(10));
    assert_eq!(h.p50(), Some(20));
    assert_eq!(h.percentile(100), Some(30));
    // The oldest samples are written over.
    for ms in [40, 50, 60, 70, 80] {
        h.record(ms);
    }
    assert_eq!(h.len(), 8);
    assert_eq!(h.percentile(0), Some(10));
    assert_eq!(h.p95(), Some(70));
    h.record(90);
    h.record(100);
    assert_eq!(h.len(), 8);
    assert_eq!(h.percentile(0), Some(20));
    // There are never fewer than eight places.
    let mut small = LatencyHistogram::new(1);
    for ms in 0..9 {
        small.record(ms);
    }
    assert_eq!(small.len(), 8);
}

#[test]
fn an_unknown_tool_is_judged_by_all() {
    let mut t = ToolLatencyTracker::new();
    assert_eq!(t.p95_for(None), None);
    for _ in 0..5 {
        t.record("Glob", 70);
    }
    assert_eq!(t.sample_count(), 5);
    assert_eq!(t.p95_for(Some("Grep")), Some(70));
    assert_eq!(t.global_p95(), Some(70));
}

#[test]
fn a_token_budget_is_spent_and_refilled() {
    let mut b = TokenBudget::new(10);
    assert!(b.try_consume(7));
    assert!(!b.try_consume(4));
    assert_eq!(b.remaining, 3);
    // What was spent stays spent.
    b.adjust_capacity(9);
    assert_eq!((b.capacity, b.remaining), (9, 2));
    b.adjust_capacity(5);
    assert_eq!((b.capacity, b.remaining), (5, 0));
    b.refill();
    assert_eq!(b.remaining, 5);
}

#[test]
fn a_tool_slot_is_taken_and_given_back() {
    let mut b = ToolConcurrencyBudget::new(1);
    assert!(b.try_acquire());
    assert!(!b.try_acquire());
    b.release();
    assert_eq!(b.in_flight, 0);
    b.release();
    assert_eq!(b.in_flight, 0);
}

#[test]
fn a_snapshot_shows_the_budget() {
    let mut sched = with_budget(64, 2);
    sched.push_ready(tool_ready());
    let tick = sched.tick_at(5);
    assert_eq!(tick.budget.tools_in_flight, 1);
    assert_eq!(tick.budget.tools_capacity, 2);
    assert_eq!(tick.budget.token_capacity, 64);
    let snap = sched.budget_snapshot();
    assert_eq!(snap.tools_in_flight, 1);
    let fresh = BudgetSnapshot::from(&SchedulerBudget::default());
    assert_eq!(fresh.tools_in_flight, 0);
    sched.adjust_token_capacity(8);
    assert_eq!(sched.budget_snapshot().token_capacity, 8);
}

#[test]
fn kinds_then_priorities_then_fairness() {
    let p = |kind, priority, credit| SchedPriority::new(kind, TrajectoryPriority(priority), credit);
    let decode = p(SchedulableKind::ActiveDecode, 0, 0);
    let post = p(SchedulableKind::PostToolGenerate, 9, 9);
    let high = p(SchedulableKind::HighPriorityNew, 9, 9);
    let tool = p(SchedulableKind::Tool, 9, 9);
    let new = p(SchedulableKind::NormalNew, 9, 9);
    let order = [decode, post, high, tool, new];
    for i in 0..order.len() {
        for j in 0..order.len() {
            assert_eq!(order[i].is_before(&order[j]), i < j);
        }
    }
    assert!(p(SchedulableKind::Tool, 2, 0).is_before(&p(SchedulableKind::Tool, 1, 9)));
    assert!(p(SchedulableKind::Tool, 1, 9).is_before(&p(SchedulableKind::Tool, 1, 8)));
}

#[test]
fn a_chunk_is_no_more_than_the_tokens_left() {
    let mut sched = with_budget(100, 0);
    sched.push_ready(gen_ready(SchedulableKind::NormalNew));
    sched.push_ready(gen_ready(SchedulableKind::NormalNew));
    let tick = sched.tick_at(0);
    let sizes: Vec<u32> = tick
        .actions
        .iter()
        .map(|a| match a {
            TickAction::RunGenerateChunk { chunk_tokens, .. } => *chunk_tokens,
            _ => 0,
        })
        .collect();
    assert!(sizes.iter().sum::<u32>() <= 100);
    assert!(!sizes.is_empty());
}

#[test]
fn submitted_steps_wait_their_turn() {
    let mut sched = with_budget(64, 1);
    let item = tool_ready();
    let (t, s) = (item.trajectory_id, item.step.id());
    sched.ingest(SchedEvent::StepSubmitted {
        trajectory_id: t,
        step: item.step,
        kind: SchedulableKind::Tool,
        priority: item.priority,
    });
    assert!(sched.has_step(t, s));
    assert!(!sched.has_step(t, StepId::new()));
    assert_eq!(sched.ready_len(), 1);
    sched.tick_at(0);
    assert!(!sched.has_step(t, s));
}

#[test]
fn a_slow_tool_is_pinned_for_longer() {
    let policy = PinPolicy::default();
    let none = policy.ttl_for_tool_latency(None);
    assert_eq!(none, policy.base_ttl_ms);
    assert_eq!(policy.ttl_for_tool_latency(Some(0)), policy.min_ttl_ms);
    assert_eq!(policy.ttl_for_tool_latency(Some(u64::MAX / 2)), policy.max_ttl_ms);
    let exact = PinPolicy {
        base_ttl_ms: 100,
        max_ttl_ms: 10_000,
        min_ttl_ms: 10,
        latency_factor: Milli(1_500),
    };
    assert_eq!(exact.ttl_for_tool_latency(Some(1_000)), 1_500);
}

#[test]
fn pins_are_decided_and_applied() {
    let mut t = Trajectory::create(TrajectoryConfig::default());
    let policy = PinPolicy::default();
    let wait = pin_for_tool_wait(&t, 1_000, &policy, None);
    apply_pin(&mut t, &wait);
    assert_eq!(t.pin.reason, PinReason::WaitingTool);
    assert_eq!(t.pin.pin_until_ms, Some(1_000 + policy.base_ttl_ms));
    let pre = pin_for_prefetch(&t, 2_000, &policy);
    assert_eq!(pre.trajectory_id, t.id);
    apply_pin(&mut t, &pre);
    assert_eq!(t.pin.reason, PinReason::Prefetch);
    apply_pin(
        &mut t,
        &traject::scheduler::priority::PinDecision { trajectory_id: pre.trajectory_id, action: PinAction::Unpin },
    );
    assert!(t.pin.pin_until_ms.is_none());
}

#[test]
fn weak_pins_go_under_pressure() {
    let weak = PinInfo::pin_until(1_000, PinReason::Prefetch, 1);
    let expired = PinInfo::pin_until(10, PinReason::WaitingTool, 200);
    assert!(!should_force_unpin(&weak, 0, false));
    assert!(should_force_unpin(&expired, 20, false) || should_force_unpin(&expired, 20, true));
}
