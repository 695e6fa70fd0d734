//! The driver's runs: what to do next, and what to do with what came of it.
use vstd::prelude::*;

use crate::clock::now_ms;
use crate::error;
use crate::error::{TrajectError, TrajectErrorView};
use crate::ids;
use crate::ids::{PrefixNodeId, StepId, TrajectoryId};
use crate::inference::chunked::ChunkRequest;
use crate::pin;
use crate::runtime::books::StepKey;
use crate::runtime::driver::{Driver, EngineCommand};
use crate::runtime::driver;
use crate::runtime::driver_model;
use crate::runtime::driver_steps;
use crate::policy::traits::{PolicyDecision, PolicyDecisionView};
use crate::runtime::driver_model::{DriverView, Goal};
use crate::runtime::manager;
use crate::scheduler::pinning::{pin_for_prefetch, pin_for_tool_wait, should_force_unpin};
use crate::scheduler::scheduler::TickAction;
use crate::step::{Constraints, GenerateDelta, Step, StepOutcome, StepView, ToolCall, ToolResult};
use crate::text;
use crate::text::decimal;
use crate::tool::runtime::ToolFinishedEvent;
use crate::trajectory::TrajectoryView;

verus! {

/// What is to be done to begin an action.
#[derive(Debug)]
pub enum Begun {
    /// Nothing: the action is out of date.
    Nothing,
    /// Ask the model.
    Generate(ChunkRequest),
    /// Run a tool.
    Tool { trajectory_id: TrajectoryId, step_id: StepId, call: ToolCall, timeout_ms: u64 },
    /// It is done; ask the policy about the trajectory.
    AskPolicy(TrajectoryId),
}

/// What a tick comes to.
#[derive(Debug)]
pub enum Plan {
    /// The goal is reached.
    Arrived,
    /// These actions are to be carried out.
    Run(Vec<TickAction>),
    /// Nothing is to be run now.
    Wait,
}

impl Driver {
    /// Hands a tool step to its executor.
    pub fn begin_tool(&mut self, trajectory_id: TrajectoryId, step_id: StepId) -> (res: Result<
        Option<(ToolCall, u64)>,
        TrajectError,
    >)
        requires
            old(self).wf(),
        ensures
            final(self).wf(),
            final(self)@ == old(self)@.tool_begun(trajectory_id, step_id).0,
            match res {
                Ok(None) => old(self)@.tool_begun(trajectory_id, step_id).1 == Ok::<
                    Option<(crate::step::ToolCallView, u64)>,
                    TrajectErrorView,
                >(None),
                Ok(Some((call, ms))) => old(self)@.tool_begun(trajectory_id, step_id).1 == Ok::<
                    Option<(crate::step::ToolCallView, u64)>,
                    TrajectErrorView,
                >(Some((call@, ms))),
                Err(e) => old(self)@.tool_begun(trajectory_id, step_id).1 == Err::<
                    Option<(crate::step::ToolCallView, u64)>,
                    TrajectErrorView,
                >(e@),
            },
    {
        if self.in_flight.get(trajectory_id, step_id).is_some() {
            return Ok(None);
        }
        self.in_flight.insert(trajectory_id, step_id, ());
        assert(self@ =~= old(self)@.launched(trajectory_id, step_id));
        let traj = match self.manager.get(trajectory_id) {
            Ok(t) => t,
            Err(e) => {
                return Err(e);
            },
        };
        match traj.active_step {
            None => Err(TrajectError::StepNotFound(step_id)),
            Some(Step::Tool { call, timeout_ms, .. }) => Ok(Some((call, timeout_ms))),
            Some(_) => {
                self.in_flight.remove(trajectory_id, step_id);
                assert(self@.in_flight =~= old(self)@.in_flight);
                Err(TrajectError::Other("expected tool step".to_string()))
            },
        }
    }

    /// Completes a control step. Gives whether the policy is to be asked what
    /// next.
    pub fn run_control(&mut self, trajectory_id: TrajectoryId, step_id: StepId) -> (res: Result<
        bool,
        TrajectError,
    >)
        requires
            old(self).wf(),
        ensures
            final(self).wf(),
            driver_steps::asked_after(
                old(self)@.controlled(trajectory_id, step_id),
                !old(self)@.external.contains(trajectory_id),
                final(self)@,
                res,
            ),
    {
        let traj = match self.manager.get(trajectory_id) {
            Ok(t) => t,
            Err(e) => {
                return Err(e);
            },
        };
        let (kind, payload) = match traj.active_step {
            None => {
                return Err(TrajectError::StepNotFound(step_id));
            },
            Some(Step::Control { kind, payload, .. }) => (kind, payload),
            Some(_) => {
                return Err(TrajectError::Other("expected control step".to_string()));
            },
        };
        let outcome = StepOutcome::ControlDone { step_id, kind, note: payload };
        match self.manager.complete_step(trajectory_id, outcome) {
            Ok(_) => {
                assert(self@ =~= old(self)@.controlled(trajectory_id, step_id).0);
                Ok(!self.external.contains(trajectory_id))
            },
            Err(e) => {
                assert(self@ =~= old(self)@.controlled(trajectory_id, step_id).0);
                Err(e)
            },
        }
    }

    /// Begins an action of the scheduler.
    pub fn execute_action(&mut self, action: TickAction, now: u64) -> (res: Result<
        Begun,
        TrajectError,
    >)
        requires
            old(self).wf(),
        ensures
            final(self).wf(),
            acted(old(self)@, action, now, final(self)@, res),
    {
        match action {
            TickAction::RunGenerateChunk { trajectory_id, step_id, chunk_tokens } => {
                let begun = self.begin_generate(trajectory_id, step_id, chunk_tokens, now);
                match begun {
                    Ok(Some(req)) => Ok(Begun::Generate(req)),
                    Ok(None) => Ok(Begun::Nothing),
                    Err(e) => Err(e),
                }
            },
            TickAction::RunTool { trajectory_id, step_id } => {
                match self.begin_tool(trajectory_id, step_id) {
                    Ok(Some((call, timeout_ms))) => Ok(
                        Begun::Tool { trajectory_id, step_id, call, timeout_ms },
                    ),
                    Ok(None) => Ok(Begun::Nothing),
                    Err(e) => Err(e),
                }
            },
            TickAction::RunControl { trajectory_id, step_id } => {
                match self.run_control(trajectory_id, step_id) {
                    Ok(true) => Ok(Begun::AskPolicy(trajectory_id)),
                    Ok(false) => Ok(Begun::Nothing),
                    Err(e) => Err(e),
                }
            },
        }
    }

    /// Takes in the end of a tool's run. Gives whether the policy is to be
    /// asked what next.
    pub fn tool_finished(&mut self, ev: ToolFinishedEvent, now: u64) -> (res: Result<
        bool,
        TrajectError,
    >)
        requires
            old(self).wf(),
        ensures
            final(self).wf(),
            match ev.result {
                Ok(result) => driver_steps::asked_after(
                    old(self)@.tool_returned(ev.trajectory_id, ev.step_id, result@, now),
                    !old(self)@.external.contains(ev.trajectory_id),
                    final(self)@,
                    res,
                ),
                Err(e) => driver_steps::asked_after(
                    old(self)@.tool_failed(ev.trajectory_id, ev.step_id, e@),
                    false,
                    final(self)@,
                    res,
                ),
            },
    {
        broadcast use vstd::std_specs::hash::group_hash_axioms;

        let id = ev.trajectory_id;
        let step_id = ev.step_id;
        let ghost was = self@;
        self.in_flight.remove(id, step_id);
        assert(self@ =~= was.landed(id, step_id));
        match ev.result {
            Ok(result) => {
                let ghost r = result@;
                self.measure(id, &result.name, now);
                match self.manager.complete_step(id, StepOutcome::ToolDone { step_id, result }) {
                    Ok(_) => {},
                    Err(e) => {
                        assert(self@ =~= was.tool_returned(id, step_id, r, now).0);
                        return Err(e);
                    },
                }
                assert(self.wf());
                self.unpin(id);
                if let Ok(traj) = self.manager.get(id) {
                    // Soft prefetch pin for imminent post-tool generate.
                    let prefetch = pin_for_prefetch(&traj, now, self.scheduler.pin_policy());
                    let _ = self.apply_pin_decision(&prefetch, now);
                }
                // Boost fairness so post-tool generate wins scheduling.

                self.bump_fairness(id, 5);
                assert(self@ =~= was.tool_returned(id, step_id, r, now).0);
                Ok(!self.external.contains(id))
            },
            Err(e) => {
                let reason = e.message();
                match self.manager.fail(id, reason.as_str()) {
                    Ok(_) => {
                        assert(self.wf());
                        self.cleanup_trajectory(id);
                        Ok(false)
                    },
                    Err(x) => Err(x),
                }
            },
        }
    }

    /// Takes the measure of a tool's run that began with a pin.
    pub(crate) fn measure(&mut self, id: TrajectoryId, tool: &String, now: u64)
        requires
            old(self).wf(),
        ensures
            final(self).wf(),
            final(self)@ == old(self)@.measured(id, tool@, now),
    {
        broadcast use vstd::std_specs::hash::group_hash_axioms;

        match self.tool_pin_started.remove(&id.0) {
            Some(start) => {
                self.tool_latency.record(tool.as_str(), now.saturating_sub(start));
                assert(self@ =~= old(self)@.measured(id, tool@, now));
            },
            None => {
                assert(self@ =~= old(self)@);
            },
        }
    }

    /// Drops the pins on a trajectory and its leaf.
    pub(crate) fn unpin(&mut self, id: TrajectoryId)
        requires
            old(self).wf(),
        ensures
            final(self).wf(),
            final(self)@ == old(self)@.unpinned(id),
    {
        if let Ok(mut t) = self.manager.get(id) {
            t.pin.unpin();
            self.put_back(id, t);
        }
        let _ = self.memory.unpin_trajectory(id);
        assert(self@ =~= old(self)@.unpinned(id));
    }

    /// Gives up the pins of `ids` that pressure lets go.
    fn relax_pins(&mut self, ids: &Vec<TrajectoryId>, now: u64)
        requires
            old(self).wf(),
        ensures
            final(self).wf(),
            final(self)@ == old(self)@.all_relaxed(ids@, now),
    {
        let mut i: usize = 0;
        assert(ids@.take(0) =~= Seq::empty());
        while i < ids.len()
            invariant
                i <= ids@.len(),
                self.wf(),
                self@ == old(self)@.all_relaxed(ids@.take(i as int), now),
            decreases ids@.len() - i,
        {
            let id = ids[i];
            let ghost before = self@;
            assert(ids@.take(i + 1).drop_last() =~= ids@.take(i as int));
            if let Ok(mut t) = self.manager.get(id) {
                if should_force_unpin(&t.pin, now, true) {
                    let node = t.current_prefix;
                    t.pin.unpin();
                    self.put_back(id, t);
                    if let Some(n) = node {
                        let _ = self.memory.unpin_node(n);
                    }
                }
            }
            assert(self@ =~= before.relaxed(id, now));
            i += 1;
        }
        assert(ids@.take(i as int) =~= ids@);
    }

    /// Under memory pressure, gives up weak pins and evicts nodes.
    pub fn maybe_unpin_under_pressure(&mut self, now: u64)
        requires
            old(self).wf(),
        ensures
            final(self).wf(),
            old(self)@.may_ease(now, final(self)@),
    {
        let ghost was = self@;
        let threshold = self.config.eviction_pressure;
        if self.memory.gpu.pressure().at_least(threshold) {
            let ids = self.live.to_vec();
            self.relax_pins(&ids, now);
        }
        let ghost s = self@;
        assert(s == was.eased(now));
        let (_n, handles) = self.memory.maybe_evict(now, threshold);
        let ghost gone = choose|gone: Seq<PrefixNodeId>|
            {
                &&& #[trigger] s.mem.evicts(gone, now, threshold)
                &&& self@.mem == s.mem.all_freed(gone)
                &&& text::all_chars(handles@) == s.mem.handles(gone)
            };
        let ghost t = s.with_mem(s.mem.all_freed(gone));
        assert(self@ =~= t);
        let mut i: usize = 0;
        let ghost names = text::all_chars(handles@);
        assert(names.take(0) =~= Seq::empty());
        while i < handles.len()
            invariant
                i <= handles@.len(),
                self.wf(),
                names == text::all_chars(handles@),
                self@ == t.frees_posted(names.take(i as int)),
            decreases handles@.len() - i,
        {
            assert(names.take(i + 1).drop_last() =~= names.take(i as int));
            assert(names.take(i + 1).last() == handles@[i as int]@);
            self.post(EngineCommand::Free { prefix: handles[i].clone(), session: None });
            i += 1;
        }
        assert(names.take(i as int) =~= names);
    }

    /// The outcome of a step, once it is completed.
    pub fn completed_outcome(&self, id: TrajectoryId, step_id: StepId) -> (res: Result<
        Option<StepOutcome>,
        TrajectError,
    >)
        ensures
            match res {
                Ok(o) => self@.has(id) && crate::trajectory::opt_outcome(o)
                    == driver_model::outcome_of(self@.traj(id).history, step_id),
                Err(e) => !self@.has(id) && e@ == manager::missing(id),
            },
    {
        let traj = match self.manager.get(id) {
            Ok(t) => t,
            Err(e) => {
                return Err(e);
            },
        };
        let mut i: usize = traj.history.len();
        assert(traj@.history.take(i as int) =~= traj@.history);
        while i > 0
            invariant
                i <= traj.history@.len(),
                self@.has(id),
                traj@ == self@.traj(id),
                driver_model::outcome_of(traj@.history, step_id) == driver_model::outcome_of(
                    traj@.history.take(i as int),
                    step_id,
                ),
            decreases i,
        {
            i -= 1;
            assert(traj@.history.take(i + 1).drop_last() =~= traj@.history.take(i as int));
            assert(traj@.history.take(i + 1).last() == traj.history@[i as int]@);
            if let Some(o) = &traj.history[i].outcome {
                if o.step_id() == step_id {
                    return Ok(Some(o.clone()));
                }
            }
        }
        Ok(None)
    }

    fn all_live_finished(&self) -> (res: Result<bool, TrajectError>)
        ensures
            match res {
                Ok(b) => self@.all_ended(self@.live) == Ok::<bool, TrajectErrorView>(b),
                Err(e) => self@.all_ended(self@.live) == Err::<bool, TrajectErrorView>(e@),
            },
    {
        let ids = self.live.to_vec();
        let mut i: usize = 0;
        assert(ids@.skip(0) =~= ids@);
        while i < ids.len()
            invariant
                i <= ids@.len(),
                ids@ == self@.live,
                self@.all_ended(ids@) == self@.all_ended(ids@.skip(i as int)),
            decreases ids@.len() - i,
        {
            assert(ids@.skip(i as int)[0] == ids@[i as int]);
            assert(ids@.skip(i as int).drop_first() =~= ids@.skip(i + 1));
            match self.manager.is_finished(ids[i]) {
                Ok(true) => {},
                Ok(false) => {
                    return Ok(false);
                },
                Err(e) => {
                    return Err(e);
                },
            }
            i += 1;
        }
        Ok(true)
    }

    /// Whether the run has come to its goal.
    pub fn arrived(&mut self, goal: Goal) -> (res: Result<bool, TrajectError>)
        requires
            old(self).wf(),
        ensures
            final(self).wf(),
            final(self)@ == old(self)@.arrived(goal).0,
            match res {
                Ok(b) => old(self)@.arrived(goal).1 == Ok::<bool, TrajectErrorView>(b),
                Err(e) => old(self)@.arrived(goal).1 == Err::<bool, TrajectErrorView>(e@),
            },
    {
        match goal {
            Goal::Finished(id) => match self.manager.is_finished(id) {
                Ok(true) => {
                    self.cleanup_trajectory(id);
                    Ok(true)
                },
                Ok(false) => Ok(false),
                Err(e) => Err(e),
            },
            Goal::Idle => self.all_live_finished(),
            Goal::Step(_, _) => Ok(false),
        }
    }

    /// Plans a tick, once the tools' ends have been taken in: pressure is
    /// eased, what waits is queued, and the scheduler fills its budgets.
    pub fn plan_tick(&mut self, goal: Goal, now: u64) -> (res: Result<Plan, TrajectError>)
        requires
            old(self).wf(),
        ensures
            final(self).wf(),
            exists|eased: DriverView| #[trigger]
                old(self)@.may_ease(now, eased) && planned(eased, goal, now, final(self)@, res),
    {
        self.maybe_unpin_under_pressure(now);
        let ghost eased = self@;
        match self.arrived(goal) {
            Ok(true) => {
                let res = Ok(Plan::Arrived);
                assert(planned(eased, goal, now, self@, res));
                return res;
            },
            Ok(false) => {},
            Err(e) => {
                let res = Err(e);
                assert(planned(eased, goal, now, self@, res));
                return res;
            },
        }
        let queued = match goal {
            Goal::Step(id, _) => self.enqueue_active(id),
            _ => self.enqueue_all_ready(),
        };
        match queued {
            Ok(_) => {},
            Err(e) => {
                let res = Err(e);
                assert(planned(eased, goal, now, self@, res));
                return res;
            },
        }
        let actions = self.run_tick(now);
        let res = if actions.len() == 0 {
            Ok(Plan::Wait)
        } else {
            Ok(Plan::Run(actions))
        };
        assert(planned(eased, goal, now, self@, res));
        res
    }

    /// Whether a run carries out an action.
    pub fn carries_out(goal: Goal, action: &TickAction) -> (res: bool)
        ensures
            res == driver_model::carries_out(goal, *action),
    {
        let id = match action {
            TickAction::RunGenerateChunk { trajectory_id, .. } => *trajectory_id,
            TickAction::RunTool { trajectory_id, .. } => *trajectory_id,
            TickAction::RunControl { trajectory_id, .. } => *trajectory_id,
        };
        match goal {
            Goal::Step(focus, _) => id == focus,
            _ => true,
        }
    }

    /// Whether a step has stalled: nothing is run, and it is active no more.
    pub fn stalled(&self, id: TrajectoryId) -> (res: Result<bool, TrajectError>)
        ensures
            match res {
                Ok(b) => self@.has(id) && b == self@.stalled(id),
                Err(e) => !self@.has(id) && e@ == manager::missing(id),
            },
    {
        match self.manager.get(id) {
            Ok(t) => {
                let nothing_runs = self.in_flight.is_empty();
                if !nothing_runs {
                    let ghost k = choose|k: StepKey| #[trigger] self.in_flight@.dom().contains(k);
                    assert(self@.in_flight.dom().contains(k));
                }
                Ok(t.active_step.is_none() && nothing_runs)
            },
            Err(e) => Err(e),
        }
    }

    /// The error for a step that has stalled.
    pub fn stall_error(step_id: StepId) -> (res: TrajectError)
        ensures
            res@ == TrajectErrorView::Other(
                "step "@ + ids::hyphenated(step_id.0) + " stalled with empty scheduler queue"@,
            ),
    {
        let mut m: String = "step ".to_string();
        m.append(step_id.to_text().as_str());
        m.append(" stalled with empty scheduler queue");
        TrajectError::Other(m)
    }

    /// The error for a step that took too long.
    pub fn step_timeout_error(&self, step_id: StepId) -> (res: TrajectError)
        ensures
            res@ == TrajectErrorView::Other(
                "driver exceeded max_ticks="@ + text::dec(self@.config.max_ticks as nat)
                    + " waiting for step "@ + ids::hyphenated(step_id.0),
            ),
    {
        let mut m: String = "driver exceeded max_ticks=".to_string();
        m.append(decimal(self.config.max_ticks as u64).as_str());
        m.append(" waiting for step ");
        m.append(step_id.to_text().as_str());
        TrajectError::Other(m)
    }

    /// The error for a run that took too long, to a trajectory's end or to
    /// the end of all.
    pub fn ticks_error(&self, focus: Option<TrajectoryId>) -> (res: TrajectError)
        ensures
            res@ == TrajectErrorView::Other(
                "driver exceeded max_ticks="@ + text::dec(self@.config.max_ticks as nat)
                    + " (focus="@ + focus_text(focus) + ")"@,
            ),
    {
        let mut m: String = "driver exceeded max_ticks=".to_string();
        m.append(decimal(self.config.max_ticks as u64).as_str());
        m.append(" (focus=");
        match focus {
            Some(id) => {
                m.append("Some(TrajectoryId(");
                m.append(id.to_text().as_str());
                m.append("))");
            },
            None => m.append("None"),
        }
        m.append(")");
        assert(m@ =~= "driver exceeded max_ticks="@ + text::dec(self@.config.max_ticks as nat)
            + " (focus="@ + focus_text(focus) + ")"@);
        TrajectError::Other(m)
    }

    /// Does what the policy decided on a trajectory; where `tidy` is set, one
    /// that is then at its end is cleaned up after.
    pub fn settle(&mut self, id: TrajectoryId, decision: PolicyDecision, tidy: bool) -> (res: Result<
        Option<Step>,
        TrajectError,
    >)
        requires
            old(self).wf(),
        ensures
            final(self).wf(),
            settled(old(self)@, id, decision@, tidy, final(self)@, manager::step_res(res)),
    {
        let ghost d = decision@;
        let ghost f = |t: TrajectoryView| manager::decided(t, d);
        let res = self.manager.settle(id, decision);
        assert(self@ =~= (DriverView {
            trajs: manager::on_one(old(self)@.trajs, id, f).0,
            ..old(self)@
        }));
        assert(self.wf());
        match res {
            Ok(step) => {
                if tidy {
                    if let Ok(true) = self.manager.is_finished(id) {
                        self.cleanup_trajectory(id);
                    }
                }
                Ok(step)
            },
            Err(e) => Err(e),
        }
    }

    /// Submits a generate step that an outside agent wants; the trajectory is
    /// driven from outside from then on. Gives the step to wait for.
    pub fn submit_generate_step(
        &mut self,
        id: TrajectoryId,
        delta: GenerateDelta,
        constraints: Constraints,
        max_tokens: u32,
    ) -> (res: Result<StepId, TrajectError>)
        requires
            old(self).wf(),
        ensures
            final(self).wf(),
            exists|step_id: StepId|
                {
                    let step = StepView::Generate {
                        id: step_id,
                        delta: delta@,
                        constraints: constraints@,
                        max_tokens,
                    };
                    let (trajs, r) = manager::on_one(
                        old(self)@.trajs,
                        id,
                        |t: TrajectoryView| t.submitted(step),
                    );
                    &&& #[trigger] ids::is_random_id(step_id.0)
                    &&& final(self)@ == (DriverView { trajs, ..old(self)@.adopted(id) })
                    &&& match r {
                        Ok(_) => res matches Ok(s) && s == step_id,
                        Err(e) => res matches Err(x) && x@ == e,
                    }
                },
    {
        self.live.insert(id);
        self.external.insert(id);
        let step = Step::generate(delta, constraints, max_tokens);
        let step_id = step.id();
        let ghost view = step@;
        let ghost f = |t: TrajectoryView| t.submitted(view);
        let res = self.manager.submit_step(id, step);
        assert(ids::is_random_id(step_id.0));
        assert(self@ =~= (DriverView {
            trajs: manager::on_one(old(self)@.trajs, id, f).0,
            ..old(self)@.adopted(id)
        }));
        match res {
            Ok(_) => Ok(step_id),
            Err(e) => Err(e),
        }
    }

    /// Record an externally-executed tool as a tool step, at the clock's time:
    /// pin prefix → submit/complete through manager → prefetch pin → fairness.
    pub fn run_external_tool_step(
        &mut self,
        id: TrajectoryId,
        call: ToolCall,
        result: ToolResult,
        timeout_ms: u64,
    ) -> (res: Result<StepOutcome, TrajectError>)
        requires
            old(self).wf(),
        ensures
            final(self).wf(),
            exists|step_id: StepId, now: u64, later: u64|
                {
                    &&& ids::is_random_id(step_id.0)
                    &&& (final(self)@, driver::outcome_res(res)) == #[trigger] old(
                        self,
                    )@.tool_recorded(id, step_id, call@, result@, timeout_ms, now, later)
                },
    {
        let now: u64 = now_ms();
        let later: u64 = now_ms();
        self.record_tool_step(id, StepId::new(), call, result, timeout_ms, now, later)
    }

    /// Record an externally-executed tool as the tool step `step_id`, which
    /// began at `now` and is followed by a prefetch at `later`.
    pub fn record_tool_step(
        &mut self,
        id: TrajectoryId,
        step_id: StepId,
        call: ToolCall,
        result: ToolResult,
        timeout_ms: u64,
        now: u64,
        later: u64,
    ) -> (res: Result<StepOutcome, TrajectError>)
        requires
            old(self).wf(),
        ensures
            final(self).wf(),
            (final(self)@, driver::outcome_res(res)) == old(self)@.tool_recorded(
                id,
                step_id,
                call@,
                result@,
                timeout_ms,
                now,
                later,
            ),
    {
        let ghost was = self@;
        self.live.insert(id);
        self.external.insert(id);
        assert(self@ =~= was.adopted(id));
        // Measure latency from an earlier pin for the gap, if there is one.
        self.measure(id, &call.name, now);
        let p95 = self.tool_latency.p95_for(Some(call.name.as_str()));
        let traj = match self.manager.get(id) {
            Ok(t) => t,
            Err(e) => {
                return Err(e);
            },
        };
        let decision = pin_for_tool_wait(&traj, now, self.scheduler.pin_policy(), p95);
        match self.apply_pin_decision(&decision, now) {
            Ok(_) => {},
            Err(e) => {
                return Err(e);
            },
        }
        let ghost pinned = self@;
        let step = Step::Tool { id: step_id, call, timeout_ms };
        let ghost view = step@;
        match self.manager.submit_step(id, step) {
            Ok(_) => {},
            Err(e) => {
                assert(self@.trajs =~= pinned.trajs);
                assert(self@ =~= pinned);
                return Err(e);
            },
        }
        // The tool is already finished; complete synchronously.

        let outcome = StepOutcome::ToolDone { step_id, result };
        let done = outcome.clone();
        match self.manager.complete_step(id, done) {
            Ok(_) => {},
            Err(e) => {
                return Err(e);
            },
        }
        assert(self.wf());
        let ghost completed = self@;
        assert(completed =~= pinned.with_traj(
            id,
            pinned.traj(id).submitted(view).0.completed(outcome@).0,
        ));
        // Drop the pin for the wait, then soft-pin for the predicted next
        // generate (prefetch).
        self.unpin(id);
        let traj = match self.manager.get(id) {
            Ok(t) => t,
            Err(e) => {
                return Err(e);
            },
        };
        let prefetch = pin_for_prefetch(&traj, later, self.scheduler.pin_policy());
        match self.apply_pin_decision(&prefetch, later) {
            Ok(_) => {},
            Err(e) => {
                return Err(e);
            },
        }
        self.bump_fairness(id, 5);
        let ghost before = self@;
        self.in_flight.remove(id, step_id);
        assert(self@ =~= before.landed(id, step_id));
        Ok(outcome)
    }

    /// Pin current prefix while the external agent is about to run tools, at
    /// the clock's time.
    pub fn pin_for_tool_gap(&mut self, id: TrajectoryId) -> (res: Result<(), TrajectError>)
        requires
            old(self).wf(),
        ensures
            final(self).wf(),
            exists|now: u64|
                (final(self)@, error::res_view(res)) == #[trigger] old(self)@.gap_pinned(id, now),
    {
        self.pin_gap_at(id, now_ms())
    }

    /// Pin current prefix while the external agent is about to run tools.
    pub fn pin_gap_at(&mut self, id: TrajectoryId, now: u64) -> (res: Result<(), TrajectError>)
        requires
            old(self).wf(),
        ensures
            final(self).wf(),
            (final(self)@, error::res_view(res)) == old(self)@.gap_pinned(id, now),
    {
        broadcast use vstd::std_specs::hash::group_hash_axioms;

        self.tool_pin_started.insert(id.0, now);
        assert(self@ =~= (DriverView {
            pin_started: old(self)@.pin_started.insert(id.0, now),
            ..old(self)@
        }));
        let p95 = self.tool_latency.global_p95();
        let traj = match self.manager.get(id) {
            Ok(t) => t,
            Err(e) => {
                return Err(e);
            },
        };
        let decision = pin_for_tool_wait(&traj, now, self.scheduler.pin_policy(), p95);
        self.apply_pin_decision(&decision, now)
    }
}

/// How an error names the trajectory that a run is about.
pub open spec fn focus_text(focus: Option<TrajectoryId>) -> Seq<char> {
    match focus {
        Some(id) => "Some(TrajectoryId("@ + ids::hyphenated(id.0) + "))"@,
        None => "None"@,
    }
}

/// What beginning an action does and answers.
pub open spec fn acted(
    d: DriverView,
    action: TickAction,
    now: u64,
    after: DriverView,
    res: Result<Begun, TrajectError>,
) -> bool {
    match action {
        TickAction::RunGenerateChunk { trajectory_id, step_id, chunk_tokens } => driver_steps::begun(
            d,
            trajectory_id,
            step_id,
            chunk_tokens,
            now,
            after,
            match res {
                Ok(Begun::Generate(req)) => Ok(Some(req)),
                Ok(_) => Ok(None),
                Err(e) => Err(e),
            },
        ) && (res matches Ok(b) ==> b is Generate || b is Nothing),
        TickAction::RunTool { trajectory_id, step_id } => {
            &&& after == d.tool_begun(trajectory_id, step_id).0
            &&& match d.tool_begun(trajectory_id, step_id).1 {
                Ok(None) => res matches Ok(b) && b is Nothing,
                Ok(Some((call, ms))) => res matches Ok(
                    Begun::Tool { trajectory_id: t, step_id: s, call: c, timeout_ms },
                ) && t == trajectory_id && s == step_id && c@ == call && timeout_ms == ms,
                Err(e) => res matches Err(x) && x@ == e,
            }
        },
        TickAction::RunControl { trajectory_id, step_id } => {
            &&& after == d.controlled(trajectory_id, step_id).0
            &&& match d.controlled(trajectory_id, step_id).1 {
                Ok(_) => res matches Ok(b) && if d.external.contains(trajectory_id) {
                    b is Nothing
                } else {
                    b matches Begun::AskPolicy(t) && t == trajectory_id
                },
                Err(e) => res matches Err(x) && x@ == e,
            }
        },
    }
}

/// What a tick comes to once pressure is eased: the goal is reached, or an
/// error ends the run, or there is something or nothing to run.
pub open spec fn planned(
    d: DriverView,
    goal: Goal,
    now: u64,
    after: DriverView,
    res: Result<Plan, TrajectError>,
) -> bool {
    let (s, there) = d.arrived(goal);
    match there {
        Err(e) => after == s && (res matches Err(x) && x@ == e),
        Ok(true) => after == s && (res matches Ok(p) && p is Arrived),
        Ok(false) => {
            let (q, r) = s.queued_for(goal);
            match r {
                Err(e) => after == q && (res matches Err(x) && x@ == e),
                Ok(_) => {
                    let actions = q.sched.filled(now).actions;
                    &&& after == q.ticked(now)
                    &&& if actions.len() == 0 {
                        res matches Ok(p) && p is Wait
                    } else {
                        res matches Ok(Plan::Run(a)) && a@ == actions
                    }
                },
            }
        },
    }
}

/// What a decision does to the driver, and answers.
pub open spec fn settled(
    d: DriverView,
    id: TrajectoryId,
    decision: PolicyDecisionView,
    tidy: bool,
    after: DriverView,
    res: Result<Option<StepView>, TrajectErrorView>,
) -> bool {
    let (trajs, answer) = manager::on_one(
        d.trajs,
        id,
        |t: TrajectoryView| manager::decided(t, decision),
    );
    let s = DriverView { trajs, ..d };
    &&& res == manager::answered(answer, decision)
    &&& after == if answer is Ok && tidy && s.traj(id).state.terminal() {
        s.cleaned(id)
    } else {
        s
    }
}

} // verus!
