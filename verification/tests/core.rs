//! Trajectories, their steps, and what they carry.

use traject::agent_memory::{AgentMemory, Scratchpad};
use traject::error::TrajectError;
use traject::ids::{PrefixNodeId, StepId, TrajectoryId};
use traject::pin::{PinInfo, PinReason};
use traject::ratio::{Milli, Ratio};
use traject::runtime::state_machine::{apply_transition, Transition};
use traject::step::{
    Constraints, ControlKind, FinishReason, GenerateDelta, Step, StepOutcome, ToolCall, ToolResult,
};
use traject::trajectory::{
    TenantId, Trajectory, TrajectoryConfig, TrajectoryPriority, TrajectoryState,
};

fn search() -> ToolCall {
    ToolCall { name: "search".to_string(), arguments: "{}".to_string(), call_id: None }
}

fn hello() -> Step {
    Step::generate(GenerateDelta::from_text("hi"), Constraints::default(), 64)
}

fn generated(step_id: StepId, text: &str) -> StepOutcome {
    StepOutcome::Generated {
        step_id,
        text: text.to_string(),
        token_ids: vec![],
        finish_reason: FinishReason::Stop,
        tool_call: None,
    }
}

#[test]
fn lifecycle_happy_path() {
    let mut t = Trajectory::create(TrajectoryConfig::default());
    assert_eq!(t.state, TrajectoryState::Created);

    t.submit_step(hello()).unwrap();
    assert_eq!(t.state, TrajectoryState::Running);

    let sid = t.active_step_id().unwrap();
    t.complete_step(StepOutcome::Generated {
        step_id: sid,
        text: "call tool".to_string(),
        token_ids: vec![],
        finish_reason: FinishReason::ToolCall,
        tool_call: Some(search()),
    })
    .unwrap();

    t.submit_step(Step::tool(search(), 5_000)).unwrap();
    assert_eq!(t.state, TrajectoryState::WaitingTool);

    let sid = t.active_step_id().unwrap();
    t.complete_step(StepOutcome::ToolDone {
        step_id: sid,
        result: ToolResult {
            call_id: None,
            name: "search".to_string(),
            output: "ok".to_string(),
            is_error: false,
        },
    })
    .unwrap();
    assert_eq!(t.state, TrajectoryState::Running);

    t.finish().unwrap();
    assert!(t.is_finished());
}

#[test]
fn illegal_transition_rejected() {
    let mut t = Trajectory::create(TrajectoryConfig::default());
    let err = t.transition(TrajectoryState::Finished).unwrap_err();
    assert!(matches!(err, TrajectError::InvalidTransition { .. }));
}

#[test]
fn control_step_keeps_running() {
    let mut t = Trajectory::create(TrajectoryConfig::default());
    t.submit_step(Step::control(ControlKind::Reflect, None)).unwrap();
    assert_eq!(t.state, TrajectoryState::Running);
}

#[test]
fn start_and_finish() {
    let mut t = Trajectory::create(TrajectoryConfig::default());
    apply_transition(&mut t, Transition::Start).unwrap();
    apply_transition(&mut t, Transition::Finish).unwrap();
    assert!(t.is_finished());
}

#[test]
fn tool_wait_goes_and_comes_back() {
    let mut t = Trajectory::create(TrajectoryConfig::default());
    apply_transition(&mut t, Transition::Start).unwrap();
    apply_transition(&mut t, Transition::BeginToolWait).unwrap();
    assert_eq!(t.state, TrajectoryState::WaitingTool);
    apply_transition(&mut t, Transition::ToolReturned).unwrap();
    assert_eq!(t.state, TrajectoryState::Running);
    apply_transition(&mut t, Transition::Suspend).unwrap();
    assert_eq!(t.state, TrajectoryState::Suspended);
    apply_transition(&mut t, Transition::Resume).unwrap();
    assert_eq!(t.state, TrajectoryState::Running);
    apply_transition(&mut t, Transition::Fail).unwrap();
    assert_eq!(t.state, TrajectoryState::Failed);
}

#[test]
fn nothing_leaves_an_end() {
    for end in [TrajectoryState::Finished, TrajectoryState::Failed] {
        for to in [
            TrajectoryState::Created,
            TrajectoryState::Running,
            TrajectoryState::WaitingTool,
            TrajectoryState::Suspended,
        ] {
            let mut t = Trajectory::create(TrajectoryConfig::default());
            t.state = end;
            assert!(t.transition(to).is_err());
            assert_eq!(t.state, end);
        }
        assert!(end.is_terminal());
    }
}

#[test]
fn a_second_step_takes_the_place_of_the_first() {
    let mut t = Trajectory::create(TrajectoryConfig::default());
    t.submit_step(hello()).unwrap();
    let second = hello();
    let id = second.id();
    t.submit_step(second).unwrap();
    assert_eq!(t.active_step_id(), Some(id));
    assert_eq!(t.history.len(), 0);
}

#[test]
fn an_outcome_must_be_of_the_active_step() {
    let mut t = Trajectory::create(TrajectoryConfig::default());
    let err = t.complete_step(generated(StepId::new(), "x")).unwrap_err();
    assert_eq!(err.message(), "no active step to complete");
    t.submit_step(hello()).unwrap();
    let other = StepId::new();
    let err = t.complete_step(generated(other, "x")).unwrap_err();
    assert!(matches!(err, TrajectError::StepNotFound(s) if s == other));
    // The step is given up.
    assert_eq!(t.active_step_id(), None);
    t.submit_step(hello()).unwrap();
    let sid = t.active_step_id().unwrap();
    t.complete_step(generated(sid, "x")).unwrap();
    assert_eq!(t.history.len(), 1);
    assert_eq!(t.active_step_id(), None);
    assert!(matches!(t.last_outcome(), Some(StepOutcome::Generated { text, .. }) if text == "x"));
}

#[test]
fn a_failure_keeps_its_reason() {
    let mut t = Trajectory::create(TrajectoryConfig::default());
    t.submit_step(hello()).unwrap();
    t.pin = PinInfo::pin_until(9, PinReason::Manual, 1);
    t.fail("no more tape").unwrap();
    assert_eq!(t.state, TrajectoryState::Failed);
    assert_eq!(t.error, Some("no more tape".to_string()));
    assert!(t.active_step_id().is_none());
    assert!(!t.pin.is_pinned(0));
}

#[test]
fn no_step_for_an_ended_trajectory() {
    let mut t = Trajectory::create(TrajectoryConfig::default());
    t.start().unwrap();
    t.finish().unwrap();
    let err = t.submit_step(hello()).unwrap_err();
    assert!(matches!(
        err,
        TrajectError::InvalidTransition {
            from: TrajectoryState::Finished,
            to: TrajectoryState::Running
        }
    ));
}

#[test]
fn suspended_work_can_be_resumed() {
    let mut t = Trajectory::create(TrajectoryConfig::default());
    t.start().unwrap();
    assert!(t.state.can_schedule());
    t.suspend().unwrap();
    assert!(!t.state.is_terminal());
    t.resume().unwrap();
    assert_eq!(t.state, TrajectoryState::Running);
}

#[test]
fn new_ids_differ_and_read_as_uuids() {
    let a = TrajectoryId::new();
    let b = TrajectoryId::new();
    assert_ne!(a, b);
    let text = a.to_text();
    assert_eq!(text.len(), 36);
    assert_eq!(text.chars().filter(|c| *c == '-').count(), 4);
    assert_eq!(StepId(0).to_text(), "00000000-0000-0000-0000-000000000000");
    assert_eq!(
        PrefixNodeId(0x0123_4567_89ab_cdef_0123_4567_89ab_cdef).to_text(),
        "01234567-89ab-cdef-0123-456789abcdef"
    );
}

#[test]
fn a_pin_holds_until_its_deadline() {
    let mut pin = PinInfo::pin_until(1_000, PinReason::Prefetch, 3);
    assert!(pin.is_pinned(999));
    assert!(!pin.is_pinned(1_000));
    assert_eq!(pin.strength, 3);
    pin.unpin();
    assert!(!pin.is_pinned(0));
    assert_eq!(pin.reason, PinReason::Unset);
    assert!(!PinInfo::default().is_pinned(0));
    assert_eq!(PinReason::WaitingTool.name(), "WaitingTool");
}

#[test]
fn slots_are_replaced_not_doubled() {
    let mut m = AgentMemory::default();
    m.set_slot("goal", "a");
    m.set_slot("plan", "b");
    m.set_slot("goal", "c");
    assert_eq!(m.get_slot("goal"), Some("c"));
    assert_eq!(m.get_slot("plan"), Some("b"));
    assert_eq!(m.get_slot("none"), None);
    assert_eq!(m.slots.len(), 2);
    let mut pad = Scratchpad::default();
    pad.push("x");
    pad.push("y");
    assert_eq!(pad.notes, vec!["x".to_string(), "y".to_string()]);
}

#[test]
fn errors_say_what_is_wrong() {
    let t = TrajectoryId(1);
    let s = StepId(2);
    assert_eq!(
        TrajectError::InvalidTransition {
            from: TrajectoryState::Created,
            to: TrajectoryState::Finished
        }
        .message(),
        "invalid trajectory state transition: Created → Finished"
    );
    assert_eq!(
        TrajectError::TrajectoryNotFound(t).message(),
        "trajectory not found: 00000000-0000-0000-0000-000000000001"
    );
    assert_eq!(
        TrajectError::StepNotFound(s).message(),
        "step not found: 00000000-0000-0000-0000-000000000002"
    );
    assert_eq!(
        TrajectError::PrefixNotFound(PrefixNodeId(3)).message(),
        "prefix node not found: 00000000-0000-0000-0000-000000000003"
    );
    assert_eq!(
        TrajectError::ToolTimeout { tool: "Bash".to_string() }.message(),
        "tool timed out: Bash"
    );
    assert_eq!(
        TrajectError::ToolFailed { tool: "Bash".to_string(), reason: "no shell".to_string() }
            .message(),
        "tool failed: Bash: no shell"
    );
    assert_eq!(
        TrajectError::BudgetExhausted { kind: "tokens" }.message(),
        "budget exhausted: tokens"
    );
    assert_eq!(
        TrajectError::Inference("down".to_string()).message(),
        "inference backend error: down"
    );
    assert_eq!(
        TrajectError::MemoryPressure("full".to_string()).message(),
        "memory pressure: full"
    );
    assert_eq!(TrajectError::Other("plain".to_string()).message(), "plain");
}

#[test]
fn a_ratio_is_compared_exactly() {
    assert!(Ratio { num: 9, den: 10 }.at_least(Milli(900)));
    assert!(!Ratio { num: 899, den: 1000 }.at_least(Milli(900)));
    assert!(Ratio { num: 0, den: 4 }.at_least(Milli(0)));
}

#[test]
fn a_trajectory_takes_over_its_configuration() {
    let mut memory = AgentMemory::default();
    memory.set_slot("k", "v");
    let t = Trajectory::create(TrajectoryConfig {
        tenant: TenantId::new("acme"),
        priority: TrajectoryPriority(7),
        stable_prefix: Some(PrefixNodeId(5)),
        initial_memory: memory,
    });
    assert_eq!(t.tenant_id.to_text(), "acme");
    assert_eq!(t.priority, TrajectoryPriority(7));
    assert_eq!(t.current_prefix, Some(PrefixNodeId(5)));
    assert_eq!(t.memory.get_slot("k"), Some("v"));
    assert!(t.active_step_id().is_none());
}

#[test]
fn steps_tell_their_kind() {
    let g = hello();
    let t = Step::tool(search(), 1);
    assert!(g.is_generate() && !g.is_tool());
    assert!(t.is_tool() && !t.is_generate());
    assert_ne!(g.id(), t.id());
    assert_eq!(GenerateDelta::from_tokens(vec![1, 2]).token_ids, vec![1, 2]);
    assert_eq!(ControlKind::EarlyStop.name(), "EarlyStop");
}

#[test]
fn a_time_stamp_keeps_the_low_bits() {
    assert_eq!(traject::clock::stamp(Some(1_700_000_000_123)), 1_700_000_000_123);
    assert_eq!(traject::clock::stamp(Some((1 << 64) + 5)), 5);
    assert_eq!(traject::clock::stamp(None), 0);
    assert!(traject::clock::now_ms() > 1_500_000_000_000);
}
