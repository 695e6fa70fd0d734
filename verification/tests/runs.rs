//! Trajectories driven to their ends.

use traject::error::TrajectError;
use traject::ids::TrajectoryId;
use traject::inference::engine::StubBackend;
use traject::pin::PinReason;
use traject::policy::plan_execute::PlanExecutePolicy;
use traject::policy::react::ReActPolicy;
use traject::policy::traits::{Policy, PolicyDecision};
use traject::runtime::driver::Driver;
use traject::runtime::driver::EngineCommand;
use traject::runtime::driver_model::DriverConfig;
use traject::runtime::driver_runs::Begun;
use traject::runtime::manager::{Question, TrajectoryManager};
use traject::runtime::run::{Ask, Run};
use traject::step::{
    Constraints, GenerateDelta, Step, StepOutcome, ToolCall, ToolResult,
};
use traject::tool::registry::{EchoTool, ToolRegistry};
use traject::tool::runtime::{
    Launch, ToolEnd, ToolFinishedEvent, ToolRuntime, ToolRuntimeConfig,
};
use traject::trajectory::{Trajectory, TrajectoryConfig, TrajectoryPriority, TrajectoryState};

/// A driver with what it drives, all of it at hand.
struct Bench<P: Policy> {
    driver: Driver,
    policy: P,
    backend: StubBackend,
    tools: ToolRegistry<EchoTool>,
    ended: Vec<ToolFinishedEvent>,
    now: u64,
}

fn bench<P: Policy>(config: DriverConfig, policy: P, backend: StubBackend) -> Bench<P> {
    let mut tools = ToolRegistry::new();
    tools.register(EchoTool);
    Bench { driver: Driver::new(config), policy, backend, tools, ended: vec![], now: 1_000 }
}

impl<P: Policy> Bench<P> {
    fn consult(&mut self, id: TrajectoryId, tidy: bool) -> Result<(), TrajectError> {
        let (t, question) = self.driver.manager.consult(id)?;
        let decision = match question {
            Question::Pending(_) => return Ok(()),
            Question::After(outcome) => self.policy.on_outcome(&t, &outcome)?,
            Question::Begin => self.policy.decide(&t)?,
        };
        self.driver.settle(id, decision, tidy)?;
        Ok(())
    }

    fn run(&mut self, mut run: Run) -> Result<Option<StepOutcome>, TrajectError> {
        loop {
            self.now += 1;
            match run.next(&mut self.driver, self.now) {
                Ask::Nothing | Ask::Rest => {}
                Ask::TakeEvents => {
                    for ev in std::mem::take(&mut self.ended) {
                        let id = ev.trajectory_id;
                        if self.driver.tool_finished(ev, self.now)? {
                            self.consult(id, true)?;
                        }
                    }
                }
                Ask::Consult(id) => self.consult(id, false)?,
                Ask::Begin(action) => match self.driver.execute_action(action, self.now)? {
                    Begun::Nothing => {}
                    Begun::Generate(req) => {
                        let chunk = self.backend.generate_chunk(&req);
                        let asks = self.driver.finish_generate(
                            req.trajectory_id,
                            req.step_id,
                            req.decoded_so_far,
                            chunk,
                            self.now,
                            self.now,
                        )?;
                        if asks {
                            self.consult(req.trajectory_id, true)?;
                        }
                    }
                    Begun::Tool { trajectory_id, step_id, call, timeout_ms } => {
                        let runtime = ToolRuntime::new(ToolRuntimeConfig::default());
                        let end = match runtime.launch(&call, Some(timeout_ms)) {
                            Launch::Run { .. } => ToolEnd::Returned(self.tools.invoke(&call)),
                            Launch::Refuse(e) => ToolEnd::Returned(Err(e)),
                        };
                        self.ended.push(ToolRuntime::finished(trajectory_id, step_id, &call, end));
                    }
                    Begun::AskPolicy(id) => self.consult(id, false)?,
                },
                Ask::Arrived => return Ok(None),
                Ask::Completed(outcome) => return Ok(Some(outcome)),
                Ask::Failed(e) => return Err(e),
                Ask::Over => panic!("asked once more after the end"),
            }
        }
    }

    fn run_until_finished(&mut self, id: TrajectoryId) -> Result<(), TrajectError> {
        let run = Run::to_finish(&mut self.driver, id);
        self.run(run).map(|_| ())
    }

    fn run_all_until_idle(&mut self) -> Result<(), TrajectError> {
        let run = Run::to_idle(&self.driver);
        self.run(run).map(|_| ())
    }

    fn run_generate_step(
        &mut self,
        id: TrajectoryId,
        text: &str,
        max_tokens: u32,
    ) -> Result<StepOutcome, TrajectError> {
        let step = self.driver.submit_generate_step(
            id,
            GenerateDelta::from_text(text),
            Constraints::default(),
            max_tokens,
        )?;
        Ok(self.run(Run::to_outcome(id, step))?.unwrap())
    }
}

fn glob(call_id: &str, output: &str) -> (ToolCall, ToolResult) {
    (
        ToolCall {
            name: "Glob".to_string(),
            arguments: "{}".to_string(),
            call_id: Some(call_id.to_string()),
        },
        ToolResult {
            call_id: Some(call_id.to_string()),
            name: "Glob".to_string(),
            output: output.to_string(),
            is_error: false,
        },
    )
}

#[test]
fn simple_stop() {
    let mut b = bench(DriverConfig::default(), ReActPolicy::new("hi"), StubBackend::always_stop());
    let id = b.driver.create_trajectory(TrajectoryConfig::default());
    b.run_until_finished(id).unwrap();
    let traj = b.driver.manager.get(id).unwrap();
    assert_eq!(traj.state, TrajectoryState::Finished);
    assert!(!traj.history.is_empty());
}

#[test]
fn tool_then_stop() {
    let mut b = bench(
        DriverConfig::default(),
        ReActPolicy::new("use a tool"),
        StubBackend::tool_then_stop(1),
    );
    let id = b.driver.create_trajectory(TrajectoryConfig::default());
    b.run_until_finished(id).unwrap();
    let traj = b.driver.manager.get(id).unwrap();
    assert_eq!(traj.state, TrajectoryState::Finished);
    let has_tool =
        traj.history.iter().any(|r| matches!(r.outcome, Some(StepOutcome::ToolDone { .. })));
    assert!(has_tool, "expected a tool step in history: {:?}", traj.history.len());
    assert!(traj.history.len() >= 3);
}

#[test]
fn multi_trajectory_concurrent() {
    let mut b = bench(
        DriverConfig { max_ticks: 2048, ..DriverConfig::default() },
        ReActPolicy::new("batch"),
        StubBackend::tool_then_stop(1),
    );
    let mut ids = Vec::new();
    for i in 0..4 {
        let cfg =
            TrajectoryConfig { priority: TrajectoryPriority(i), ..TrajectoryConfig::default() };
        ids.push(b.driver.create_trajectory(cfg));
    }
    b.run_all_until_idle().unwrap();
    for id in ids {
        let traj = b.driver.manager.get(id).unwrap();
        assert!(
            traj.state.is_terminal(),
            "traj {} not terminal: {:?}",
            id.to_text(),
            traj.state
        );
    }
    // What the prompts share is held once.
    assert!(b.driver.memory.stats().nodes >= 1);
}

#[test]
fn prefix_shared_across_trajs() {
    let mut b = bench(
        DriverConfig::default(),
        ReActPolicy::new("shared-prefix-hello"),
        StubBackend::always_stop(),
    );
    let a = b.driver.create_trajectory(TrajectoryConfig::default());
    let c = b.driver.create_trajectory(TrajectoryConfig::default());
    b.run_all_until_idle().unwrap();
    let _ = (a, c);
    // Both finished; the memory retained some shared structure.
    assert!(b.driver.memory.stats().nodes >= 2);
}

#[test]
fn multi_chunk_decode() {
    let mut b = bench(
        DriverConfig::default(),
        ReActPolicy::new("chunky"),
        StubBackend::multi_chunk(3),
    );
    let id = b.driver.create_trajectory(TrajectoryConfig::default());
    b.run_until_finished(id).unwrap();
    let traj = b.driver.manager.get(id).unwrap();
    assert_eq!(traj.state, TrajectoryState::Finished);
}

#[test]
fn external_generate_and_tool_via_driver() {
    let mut b = bench(DriverConfig::default(), ReActPolicy::default(), StubBackend::always_stop());
    let id = b.driver.create_external_trajectory(TrajectoryConfig::default());
    assert!(b.driver.is_external(id));

    let outcome = b.run_generate_step(id, "hello agent", 32).unwrap();
    assert!(matches!(outcome, StepOutcome::Generated { .. }));

    let (call, result) = glob("c1", "a.txt");
    b.driver.run_external_tool_step(id, call, result, 5_000).unwrap();

    let traj = b.driver.manager.get(id).unwrap();
    assert_eq!(traj.history.len(), 2);
    assert!(b.driver.memory.binding(id).is_some());
    assert!(b.driver.memory.engine_prefix_hint(id).is_some());

    b.driver.finish_trajectory(id).unwrap();
}

#[test]
fn tool_latency_influences_pin_and_prefetch() {
    let mut b = bench(DriverConfig::default(), ReActPolicy::default(), StubBackend::always_stop());
    let id = b.driver.create_external_trajectory(TrajectoryConfig::default());

    // A pin for the gap, then a tool that takes its time.
    b.driver.pin_for_tool_gap(id).unwrap();
    let (call, result) = glob("c1", "a.txt");
    b.driver.run_external_tool_step(id, call, result, 5_000).unwrap();

    // The prefetch pin is active after the tool.
    let traj = b.driver.manager.get(id).unwrap();
    assert_eq!(traj.pin.reason, PinReason::Prefetch);
    assert!(traj.pin.pin_until_ms.is_some());

    // A second sample builds the histogram.
    b.driver.pin_for_tool_gap(id).unwrap();
    let (call, result) = glob("c2", "b.txt");
    b.driver.run_external_tool_step(id, call, result, 5_000).unwrap();
    assert_eq!(b.driver.tool_latency.sample_count(), 2);

    let _ = b.run_generate_step(id, "after tools", 16).unwrap();
    b.driver.finish_trajectory(id).unwrap();
}

#[test]
fn a_gap_is_measured_between_its_ends() {
    let mut d = Driver::new(DriverConfig::default());
    let id = d.create_external_trajectory(TrajectoryConfig::default());
    d.pin_gap_at(id, 1_000).unwrap();
    assert_eq!(d.manager.get(id).unwrap().pin.reason, PinReason::WaitingTool);
    let (call, result) = glob("c", "x");
    let step = traject::ids::StepId(9);
    let out = d.record_tool_step(id, step, call, result, 5_000, 1_030, 1_040).unwrap();
    assert_eq!(out.step_id(), step);
    assert_eq!(d.tool_latency.p95_for(Some("Glob")), Some(30));
}

#[test]
fn a_run_that_takes_too_long_fails() {
    let mut b = bench(
        DriverConfig { max_ticks: 0, ..DriverConfig::default() },
        ReActPolicy::new("hi"),
        StubBackend::always_stop(),
    );
    let id = b.driver.create_trajectory(TrajectoryConfig::default());
    assert_eq!(
        b.run_until_finished(id).unwrap_err().message(),
        format!("driver exceeded max_ticks=0 (focus=Some(TrajectoryId({})))", id.to_text())
    );
    assert_eq!(
        b.run_all_until_idle().unwrap_err().message(),
        "driver exceeded max_ticks=0 (focus=None)"
    );
    let step = b
        .driver
        .submit_generate_step(id, GenerateDelta::from_text("x"), Constraints::default(), 4)
        .unwrap();
    assert_eq!(
        b.run(Run::to_outcome(id, step)).unwrap_err().message(),
        format!("driver exceeded max_ticks=0 waiting for step {}", step.to_text())
    );
}

#[test]
fn a_step_nobody_submitted_stalls() {
    let mut b = bench(DriverConfig::default(), ReActPolicy::default(), StubBackend::always_stop());
    let id = b.driver.create_external_trajectory(TrajectoryConfig::default());
    let step = traject::ids::StepId(3);
    assert_eq!(
        b.run(Run::to_outcome(id, step)).unwrap_err().message(),
        format!("step {} stalled with empty scheduler queue", step.to_text())
    );
    let unknown = TrajectoryId(77);
    assert!(matches!(
        b.run(Run::to_outcome(unknown, step)).unwrap_err(),
        TrajectError::TrajectoryNotFound(t) if t == unknown
    ));
}

#[test]
fn a_failed_tool_fails_its_trajectory() {
    let mut d = Driver::new(DriverConfig::default());
    let id = d.create_trajectory(TrajectoryConfig::default());
    d.manager.start(id).unwrap();
    let ev = ToolFinishedEvent {
        trajectory_id: id,
        step_id: traject::ids::StepId(1),
        result: Err(TrajectError::ToolTimeout { tool: "Bash".to_string() }),
    };
    assert!(!d.tool_finished(ev, 5).unwrap());
    let t = d.manager.get(id).unwrap();
    assert_eq!(t.state, TrajectoryState::Failed);
    assert_eq!(t.error, Some("tool timed out: Bash".to_string()));
    assert!(d.memory.binding(id).is_none());
}

#[test]
fn the_engine_is_told_of_pins_and_frees() {
    let mut d = Driver::new(DriverConfig::default());
    d.set_engine_prefix_client();
    let id = d.create_external_trajectory(TrajectoryConfig::default());
    d.memory.append_tokens_at(id, vec![1, 2], 10).unwrap();
    d.memory.set_engine_handle(id, "h-1").unwrap();
    d.pin_gap_at(id, 20).unwrap();
    d.finish_trajectory(id).unwrap_err();
    let (call, result) = glob("c", "x");
    d.record_tool_step(id, traject::ids::StepId(4), call, result, 10, 30, 40).unwrap();
    d.finish_trajectory(id).unwrap();
    let sent = d.take_outbox();
    assert!(sent.iter().any(|c| matches!(c, EngineCommand::Pin { prefix, .. } if prefix == "h-1")));
    assert!(sent
        .iter()
        .any(|c| matches!(c, EngineCommand::Free { prefix, .. } if prefix == "h-1")));
    assert!(d.take_outbox().is_empty());
}

#[test]
fn the_react_policy_asks_and_stops() {
    let mut p = ReActPolicy::new("sys");
    assert_eq!(p.name(), "react");
    let t = Trajectory::create(TrajectoryConfig::default());
    match p.decide(&t).unwrap() {
        PolicyDecision::NextStep(Step::Generate { delta, .. }) => {
            assert!(delta.text.unwrap().contains("sys"));
        }
        _ => panic!("expected a generate step"),
    }
}

#[test]
fn the_plan_policy_plans_first() {
    let mut p = PlanExecutePolicy::new("build it");
    let t = Trajectory::create(TrajectoryConfig::default());
    assert!(matches!(p.decide(&t).unwrap(), PolicyDecision::NextStep(Step::Control { .. })));
}

#[test]
fn the_manager_keeps_trajectories_apart() {
    let mut m = TrajectoryManager::new();
    let a = m.create(TrajectoryConfig::default());
    let b = m.create(TrajectoryConfig::default());
    m.start(a).unwrap();
    assert_eq!(m.get(a).unwrap().state, TrajectoryState::Running);
    assert_eq!(m.get(b).unwrap().state, TrajectoryState::Created);
    let got = m.with_mut(b, |t: &mut Trajectory| {
        t.fairness_credit = 4;
        t.id
    });
    assert_eq!(got.unwrap(), b);
    assert_eq!(m.get(b).unwrap().fairness_credit, 4);
    assert!(matches!(
        m.get(TrajectoryId(1)).unwrap_err(),
        TrajectError::TrajectoryNotFound(TrajectoryId(1))
    ));
}

#[test]
fn tools_are_found_by_name() {
    let mut r: ToolRegistry<EchoTool> = ToolRegistry::new();
    assert!(r.get("echo").is_none());
    r.register(EchoTool);
    assert!(r.get("echo").is_some());
    let call = ToolCall {
        name: "nope".to_string(),
        arguments: "{}".to_string(),
        call_id: None,
    };
    assert!(matches!(r.invoke(&call).unwrap_err(), TrajectError::ToolFailed { .. }));
}

#[test]
fn a_tool_that_ran_out_of_time_has_timed_out() {
    let call = ToolCall { name: "slow".to_string(), arguments: "{}".to_string(), call_id: None };
    let ev = ToolRuntime::finished(
        TrajectoryId(1),
        traject::ids::StepId(2),
        &call,
        ToolEnd::TimedOut,
    );
    assert!(matches!(ev.result.unwrap_err(), TrajectError::ToolTimeout { tool } if tool == "slow"));
}

/// Answers what it was told to, and counts what it was asked.
struct Told {
    first: PolicyDecision,
    then: PolicyDecision,
    asked: (u32, u32),
}

impl Policy for Told {
    fn name(&self) -> String {
        "told".to_string()
    }

    fn decide(&mut self, _traj: &Trajectory) -> Result<PolicyDecision, TrajectError> {
        self.asked.0 += 1;
        Ok(self.first.clone())
    }

    fn on_outcome(
        &mut self,
        _traj: &Trajectory,
        _outcome: &StepOutcome,
    ) -> Result<PolicyDecision, TrajectError> {
        self.asked.1 += 1;
        Ok(self.then.clone())
    }
}

#[test]
fn a_trajectory_does_what_the_policy_decides() {
    let mut m = TrajectoryManager::new();
    let id = m.create(TrajectoryConfig::default());
    m.start(id).unwrap();
    let call = ToolCall {
        name: "echo".to_string(),
        arguments: "{}".to_string(),
        call_id: None,
    };
    let step = Step::tool(call, 9);
    let sid = step.id();
    let mut p = Told {
        first: PolicyDecision::NextStep(step),
        then: PolicyDecision::Fail("enough".to_string()),
        asked: (0, 0),
    };
    let next = m.advance_with_policy(id, &mut p).unwrap().unwrap();
    assert_eq!((next.id(), p.asked), (sid, (1, 0)));
    assert_eq!(m.get(id).unwrap().active_step_id(), Some(sid));
    let result = ToolResult {
        call_id: None,
        name: "echo".to_string(),
        output: "{}".to_string(),
        is_error: false,
    };
    m.complete_step(id, StepOutcome::ToolDone { step_id: sid, result }).unwrap();
    assert!(m.advance_with_policy(id, &mut p).unwrap().is_none());
    assert_eq!(p.asked, (1, 1));
    assert_eq!(m.get(id).unwrap().state, TrajectoryState::Failed);
    assert!(m.advance_with_policy(TrajectoryId(1), &mut p).is_err());
    assert_eq!(p.asked, (1, 1));
}
