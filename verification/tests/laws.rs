//! What holds of the library as a whole, on chosen values.

use traject::agent_memory::AgentMemory;
use traject::ids::{StepId, TrajectoryId};
use traject::inference::backend::sglang_lite::LineBuffer;
use traject::inference::engine::StubBackend;
use traject::inference::kv_select::{build_sparse_kv_indices, expand_kv_mqa};
use traject::inference::rank::{best_first, order_keys};
use traject::inference::weights::expert_lru::ExpertLru;
use traject::memory::block_pool::BlockPool;
use traject::memory::manager::MemoryManager;
use traject::memory::prefix_tree::PrefixTree;
use traject::pin::{PinInfo, PinReason};
use traject::policy::plan_execute::PlanExecutePolicy;
use traject::policy::react::ReActPolicy;
use traject::policy::traits::{Policy, PolicyDecision};
use traject::ratio::{Milli, Ratio};
use traject::runtime::driver::Driver;
use traject::runtime::driver_model::DriverConfig;
use traject::scheduler::budget::{SchedulerBudget, TokenBudget, ToolConcurrencyBudget};
use traject::scheduler::latency::{LatencyHistogram, ToolLatencyTracker};
use traject::scheduler::pinning::{pin_for_tool_wait, should_force_unpin};
use traject::scheduler::priority::{PinAction, PinPolicy, SchedPriority, SchedulableKind};
use traject::scheduler::scheduler::{
    ReadyStep, SchedEvent, Scheduler, SchedulerConfig, TickAction,
};
use traject::step::{
    Constraints, FinishReason, GenerateDelta, Step, StepOutcome, ToolCall, ToolResult,
};
use traject::trajectory::{Trajectory, TrajectoryConfig, TrajectoryPriority, TrajectoryState};

fn call(name: &str) -> ToolCall {
    ToolCall { name: name.to_string(), arguments: "{}".to_string(), call_id: None }
}

fn done(step_id: StepId, name: &str) -> StepOutcome {
    StepOutcome::ToolDone {
        step_id,
        result: ToolResult {
            call_id: None,
            name: name.to_string(),
            output: "ok".to_string(),
            is_error: false,
        },
    }
}

fn said(step_id: StepId) -> StepOutcome {
    StepOutcome::Generated {
        step_id,
        text: "x".to_string(),
        token_ids: vec![],
        finish_reason: FinishReason::Stop,
        tool_call: None,
    }
}

fn generate() -> Step {
    Step::generate(GenerateDelta::from_text("x"), Constraints::default(), 64)
}

#[test]
fn a_higher_threshold_is_reached_less_often() {
    let r = Ratio { num: 7, den: 10 };
    assert!(r.at_least(Milli(700)) && r.at_least(Milli(100)));
    assert!(!r.at_least(Milli(701)));
}

#[test]
fn a_slot_leaves_the_others() {
    let mut m = AgentMemory::default();
    m.set_slot("a", "1");
    m.set_slot("b", "2");
    m.set_slot("a", "3");
    assert_eq!(m.get_slot("b"), Some("2"));
}

#[test]
fn history_only_grows() {
    let mut t = Trajectory::create(TrajectoryConfig::default());
    let id = t.id;
    for n in 1..4 {
        t.submit_step(generate()).unwrap();
        let sid = t.active_step_id().unwrap();
        t.complete_step(said(sid)).unwrap();
        assert_eq!(t.history.len(), n);
        assert_eq!(t.id, id);
    }
    let first = t.history[0].step.id();
    t.finish().unwrap();
    assert_eq!(t.history[0].step.id(), first);
    assert_eq!(t.history.len(), 3);
}

#[test]
fn a_tool_wait_ends_with_the_tool() {
    let mut t = Trajectory::create(TrajectoryConfig::default());
    t.submit_step(Step::tool(call("x"), 9)).unwrap();
    assert_eq!(t.state, TrajectoryState::WaitingTool);
    let sid = t.active_step_id().unwrap();
    t.complete_step(done(sid, "x")).unwrap();
    assert_eq!(t.state, TrajectoryState::Running);
}

#[test]
fn a_policy_stops_at_its_limit() {
    let mut p = ReActPolicy::new("s");
    p.max_steps = 2;
    let mut t = Trajectory::create(TrajectoryConfig::default());
    for _ in 0..2 {
        t.submit_step(generate()).unwrap();
        let sid = t.active_step_id().unwrap();
        t.complete_step(said(sid)).unwrap();
    }
    let last = t.last_outcome().unwrap().clone();
    let d = p.on_outcome(&t, &last).unwrap();
    assert!(!matches!(d, PolicyDecision::NextStep(_)));
}

#[test]
fn a_plan_is_made_once() {
    let mut p = PlanExecutePolicy::new("goal");
    let t = Trajectory::create(TrajectoryConfig::default());
    assert!(matches!(p.decide(&t).unwrap(), PolicyDecision::NextStep(Step::Control { .. })));
    assert!(!matches!(p.decide(&t).unwrap(), PolicyDecision::NextStep(Step::Control { .. })));
}

#[test]
fn a_higher_percentile_is_no_less() {
    let mut h = LatencyHistogram::new(8);
    for ms in [5, 1, 9, 3] {
        h.record(ms);
    }
    let mut last = 0;
    for pct in 0..=100 {
        let p = h.percentile(pct).unwrap();
        assert!(p >= last);
        assert!([5, 1, 9, 3].contains(&p));
        last = p;
    }
}

#[test]
fn tools_are_measured_apart() {
    let mut t = ToolLatencyTracker::new();
    t.record("a", 10);
    t.record("b", 1_000);
    assert_eq!(t.p95_for(Some("a")), Some(10));
    assert_eq!(t.p95_for(Some("b")), Some(1_000));
}

#[test]
fn a_time_to_live_keeps_to_its_bounds() {
    let p = PinPolicy::default();
    let mut last = 0;
    for ms in [0, 10, 1_000, 100_000, 10_000_000] {
        let ttl = p.ttl_for_tool_latency(Some(ms));
        assert!(p.min_ttl_ms <= ttl && ttl <= p.max_ttl_ms);
        assert!(ttl >= last);
        last = ttl;
    }
}

#[test]
fn a_resize_can_be_undone() {
    let mut b = TokenBudget::new(100);
    b.try_consume(30);
    b.adjust_capacity(200);
    assert_eq!(b.remaining, 170);
    b.adjust_capacity(100);
    assert_eq!((b.capacity, b.remaining), (100, 70));
}

#[test]
fn a_fresh_tool_pin_survives_pressure() {
    let t = Trajectory::create(TrajectoryConfig::default());
    let d = pin_for_tool_wait(&t, 1_000, &PinPolicy::default(), None);
    match d.action {
        PinAction::Pin { until_ms, reason, strength } => {
            let pin = PinInfo::pin_until(until_ms, reason, strength);
            assert!(!should_force_unpin(&pin, 1_000, true));
        }
        _ => panic!("expected a pin"),
    }
}

fn ready(kind: SchedulableKind, step: Step) -> ReadyStep {
    ReadyStep {
        trajectory_id: TrajectoryId::new(),
        step,
        priority: SchedPriority::new(kind, TrajectoryPriority(0), 0),
        decoded_so_far: 0,
    }
}

fn scheduler(tokens: u32, tools: u32) -> Scheduler {
    Scheduler::new(SchedulerConfig {
        budget: SchedulerBudget {
            tokens: TokenBudget::new(tokens),
            tools: ToolConcurrencyBudget::new(tools),
        },
        ..SchedulerConfig::default()
    })
}

#[test]
fn a_tick_loses_nothing_and_keeps_to_its_budgets() {
    let mut s = scheduler(100, 2);
    for _ in 0..4 {
        s.push_ready(ready(SchedulableKind::NormalNew, generate()));
        s.push_ready(ready(SchedulableKind::Tool, Step::tool(call("x"), 1)));
    }
    let tick = s.tick_at(0);
    assert_eq!(tick.actions.len() + s.ready_len(), 8);
    let tools =
        tick.actions.iter().filter(|a| matches!(a, TickAction::RunTool { .. })).count();
    let tokens: u32 = tick
        .actions
        .iter()
        .map(|a| match a {
            TickAction::RunGenerateChunk { chunk_tokens, .. } => *chunk_tokens,
            _ => 0,
        })
        .sum();
    assert!(tools <= 2 && tokens <= 100);
    // What waits has a reason: a budget is used up.
    assert!(s.ready_len() == 0 || tools == 2 || tokens == 100);
}

#[test]
fn a_finished_tool_gives_its_place_back() {
    let mut s = scheduler(0, 1);
    let a = ready(SchedulableKind::Tool, Step::tool(call("x"), 1));
    let b = ready(SchedulableKind::Tool, Step::tool(call("y"), 1));
    let (t, step) = (a.trajectory_id, a.step.id());
    s.push_ready(a);
    s.push_ready(b);
    assert_eq!(s.tick_at(0).actions.len(), 1);
    assert_eq!(s.tick_at(1).actions.len(), 0);
    s.ingest(SchedEvent::ToolFinished { trajectory_id: t, step_id: step });
    assert_eq!(s.tick_at(2).actions.len(), 1);
}

#[test]
fn rows_are_repeated_for_every_head() {
    let kv = [1, 2, 3, 4];
    let out = expand_kv_mqa(&kv, 2, 2, 2, 0);
    for token in 0..2 {
        for head in 0..2 {
            let at = (token * 2 + head) * 2;
            assert_eq!(&out[at..at + 2], &kv[token * 2..token * 2 + 2]);
        }
    }
}

#[test]
fn sparse_indices_rise_and_stay_inside() {
    for n in 0..30 {
        let idx = build_sparse_kv_indices(n, 4, 3, 2);
        assert!(idx.windows(2).all(|w| w[0] < w[1]));
        assert!(idx.iter().all(|i| *i < n));
    }
}

#[test]
fn a_stub_runs_out_of_tools() {
    let mut b = StubBackend::tool_then_stop(2);
    let mut d = Driver::new(DriverConfig::default());
    let id = d.create_external_trajectory(TrajectoryConfig::default());
    let mut tools = 0;
    for _ in 0..5 {
        let step = d
            .submit_generate_step(id, GenerateDelta::from_text("x"), Constraints::default(), 4)
            .unwrap();
        let req = d.begin_generate(id, step, 4, 0).unwrap().unwrap();
        if b.generate_chunk(&req).tool_call.is_some() {
            tools += 1;
        }
    }
    assert_eq!(tools, 2);
}

#[test]
fn the_top_is_the_same_however_it_is_asked() {
    let keys = order_keys(&[3.0f32, -1.0, 3.0, 0.5].map(|x| x.to_bits()));
    assert_eq!(best_first(&keys, 2), vec![0, 2]);
    assert_eq!(best_first(&keys, 4)[..2], best_first(&keys, 2)[..]);
}

#[test]
fn pieces_of_a_stream_do_not_matter() {
    let stream = "{\"a\":1}\n{\"b\":2}\n";
    let mut whole = LineBuffer::new();
    let want = whole.push(stream);
    let mut by_one = LineBuffer::new();
    let mut got = vec![];
    for c in stream.chars() {
        got.extend(by_one.push(&c.to_string()));
    }
    assert_eq!(got, want);
}

#[test]
fn a_cache_keeps_what_was_used_last() {
    let mut c = ExpertLru::new(3);
    for i in 0..3 {
        c.put(i, i * 10);
    }
    c.get(0);
    c.put(3, 30);
    assert_eq!(c.peek(0), Some(&0));
    assert_eq!(c.peek(1), None);
    assert_eq!(c.peek(2), Some(&20));
}

#[test]
fn a_block_is_lent_once() {
    let mut p = BlockPool::new(3);
    let lent: Vec<_> = (0..3).map(|_| p.alloc_block().unwrap()).collect();
    assert!(lent[0] != lent[1] && lent[1] != lent[2] && lent[0] != lent[2]);
    assert!(p.alloc_block().is_none());
    p.free(lent[1]);
    assert_eq!(p.alloc_block(), Some(lent[1]));
    assert!(p.allocated() <= p.capacity());
}

#[test]
fn a_second_insert_shares_the_first() {
    let mut tree = PrefixTree::new();
    let root = tree.root_id();
    let a = tree.insert_tokens(root, &[1, 2, 3], TrajectoryId::new()).unwrap();
    let n = tree.len();
    let b = tree.insert_tokens(root, &[1, 2, 3], TrajectoryId::new()).unwrap();
    assert_eq!((a, n), (b, tree.len()));
    // The root is never removed.
    assert!(tree.get(root).is_some());
}

#[test]
fn a_bound_leaf_is_not_evicted() {
    let mut mem = MemoryManager::new(2);
    let root = mem.root_id();
    let t = TrajectoryId::new();
    mem.bind_trajectory(t, root).unwrap();
    let leaf = mem.append_tokens_at(t, vec![1], 5).unwrap();
    let (freed, _) = mem.maybe_evict(10, Milli(0));
    assert_eq!(freed, 0);
    assert!(mem.tree.get(leaf).is_some());
    // A release frees it.
    mem.release_trajectory(t);
    let (freed, _) = mem.maybe_evict(10, Milli(0));
    assert_eq!(freed, 1);
    assert!(mem.tree.get(leaf).is_none());
    assert_eq!(mem.stats().blocks_allocated, 0);
}

#[test]
fn cleaning_up_forgets_one_and_spares_the_other() {
    let mut d = Driver::new(DriverConfig::default());
    let a = d.create_external_trajectory(TrajectoryConfig::default());
    let b = d.create_external_trajectory(TrajectoryConfig::default());
    for id in [a, b] {
        d.manager.start(id).unwrap();
        d.memory.append_tokens_at(id, vec![1, 2], 1).unwrap();
    }
    d.finish_trajectory(a).unwrap();
    assert!(!d.live.contains(a) && !d.is_external(a));
    assert!(d.memory.binding(a).is_none());
    assert!(d.live.contains(b) && d.is_external(b));
    assert!(d.memory.binding(b).is_some());
}

#[test]
fn a_step_is_queued_once() {
    let mut d = Driver::new(DriverConfig::default());
    let id = d.create_external_trajectory(TrajectoryConfig::default());
    let step = d
        .submit_generate_step(id, GenerateDelta::from_text("x"), Constraints::default(), 4)
        .unwrap();
    d.enqueue_active(id).unwrap();
    d.enqueue_active(id).unwrap();
    assert_eq!(d.scheduler.ready_len(), 1);
    assert!(d.scheduler.has_step(id, step));
}

#[test]
fn a_tool_is_launched_once() {
    let mut d = Driver::new(DriverConfig::default());
    let id = d.create_trajectory(TrajectoryConfig::default());
    let step = Step::tool(call("echo"), 7);
    let sid = step.id();
    d.manager.submit_step(id, step).unwrap();
    let (c, ms) = d.begin_tool(id, sid).unwrap().unwrap();
    assert_eq!((c.name.as_str(), ms), ("echo", 7));
    assert!(d.begin_tool(id, sid).unwrap().is_none());
    // While it runs, it is not queued.
    d.enqueue_active(id).unwrap();
    assert_eq!(d.scheduler.ready_len(), 0);
}

#[test]
fn a_pin_reaches_the_leaf() {
    let mut d = Driver::new(DriverConfig::default());
    let id = d.create_external_trajectory(TrajectoryConfig::default());
    let leaf = d.memory.append_tokens_at(id, vec![1], 5).unwrap();
    d.pin_gap_at(id, 10).unwrap();
    let node = d.memory.tree.get(leaf).unwrap();
    assert!(node.pin.is_pinned(11));
    assert_eq!(node.pin.reason, PinReason::WaitingTool);
}
