//! A run of the driver, as a machine that says what is to be done next. Who
//! holds the backends, the tools and the policy does it, and asks again.
use vstd::prelude::*;

use crate::error::{TrajectError, TrajectErrorView};
use crate::ids;
use crate::ids::{StepId, TrajectoryId};
use crate::runtime::books;
use crate::runtime::driver::Driver;
use crate::runtime::driver_model;
use crate::runtime::driver_model::{DriverView, Goal};
use crate::runtime::driver_runs;
use crate::runtime::driver_runs::Plan;
use crate::runtime::manager;
use crate::scheduler::scheduler::TickAction;
use crate::step::{StepOutcome, StepOutcomeView};
use crate::text;

verus! {

/// Where a run stands.
#[derive(Debug)]
pub enum Stage {
    /// The policy is asked about those of these trajectories that idle;
    /// `waits` where that is for want of anything else to do.
    Priming { left: Vec<TrajectoryId>, waits: bool },
    /// Between two ticks.
    Between,
    /// In a tick, with the ends of tools taken in.
    Planning,
    /// In a tick, with these actions still to be begun.
    Acting(Vec<TickAction>),
    Over,
}

#[verifier::ext_equal]
pub enum StageView {
    Priming { left: Seq<TrajectoryId>, waits: bool },
    Between,
    Planning,
    Acting(Seq<TickAction>),
    Over,
}

impl View for Stage {
    type V = StageView;

    open spec fn view(&self) -> StageView {
        match *self {
            Stage::Priming { left, waits } => StageView::Priming { left: left@, waits },
            Stage::Between => StageView::Between,
            Stage::Planning => StageView::Planning,
            Stage::Acting(actions) => StageView::Acting(actions@),
            Stage::Over => StageView::Over,
        }
    }
}

/// What is to be done before the run goes on.
#[derive(Debug)]
pub enum Ask {
    /// Nothing.
    Nothing,
    /// Take in the tools that have ended.
    TakeEvents,
    /// Carry this out.
    Begin(TickAction),
    /// Ask the policy about a trajectory, and settle what it decides.
    Consult(TrajectoryId),
    /// Let others run: there is nothing to do now.
    Rest,
    /// The run has come to its goal.
    Arrived,
    /// The step has come to this outcome.
    Completed(StepOutcome),
    /// The run has failed.
    Failed(TrajectError),
    /// The run was over before.
    Over,
}

pub enum AskView {
    Nothing,
    TakeEvents,
    Begin(TickAction),
    Consult(TrajectoryId),
    Rest,
    Arrived,
    Completed(StepOutcomeView),
    Failed(TrajectErrorView),
    Over,
}

impl View for Ask {
    type V = AskView;

    open spec fn view(&self) -> AskView {
        match *self {
            Ask::Nothing => AskView::Nothing,
            Ask::TakeEvents => AskView::TakeEvents,
            Ask::Begin(action) => AskView::Begin(action),
            Ask::Consult(id) => AskView::Consult(id),
            Ask::Rest => AskView::Rest,
            Ask::Arrived => AskView::Arrived,
            Ask::Completed(outcome) => AskView::Completed(outcome@),
            Ask::Failed(e) => AskView::Failed(e@),
            Ask::Over => AskView::Over,
        }
    }
}

/// A run of the driver.
#[derive(Debug)]
pub struct Run {
    pub goal: Goal,
    /// The ticks that were begun.
    pub ticks: usize,
    pub stage: Stage,
}

#[verifier::ext_equal]
pub struct RunView {
    pub goal: Goal,
    pub ticks: nat,
    pub stage: StageView,
}

impl View for Run {
    type V = RunView;

    open spec fn view(&self) -> RunView {
        RunView { goal: self.goal, ticks: self.ticks as nat, stage: self.stage@ }
    }
}

/// The error of a run that has used up its ticks.
pub open spec fn too_late(goal: Goal, max_ticks: nat) -> TrajectErrorView {
    let head = "driver exceeded max_ticks="@ + text::dec(max_ticks);
    TrajectErrorView::Other(
        match goal {
            Goal::Finished(id) => head + " (focus="@ + driver_runs::focus_text(Some(id)) + ")"@,
            Goal::Idle => head + " (focus="@ + driver_runs::focus_text(None) + ")"@,
            Goal::Step(_, step_id) => head + " waiting for step "@ + ids::hyphenated(step_id.0),
        },
    )
}

/// The error of a step that has stalled.
pub open spec fn stall(step_id: StepId) -> TrajectErrorView {
    TrajectErrorView::Other(
        "step "@ + ids::hyphenated(step_id.0) + " stalled with empty scheduler queue"@,
    )
}

/// The outcome of the step that a run waits for.
pub open spec fn awaited(d: DriverView, goal: Goal) -> Option<StepOutcomeView> {
    match goal {
        Goal::Step(id, step_id) => driver_model::outcome_of(d.traj(id).history, step_id),
        _ => None,
    }
}

impl RunView {
    pub open spec fn to(self, stage: StageView) -> RunView {
        RunView { stage, ..self }
    }

    pub open spec fn over(self) -> RunView {
        self.to(StageView::Over)
    }

    /// The next step of the run while the policy is asked about idle
    /// trajectories.
    pub open spec fn primed(
        self,
        d: DriverView,
        left: Seq<TrajectoryId>,
        waits: bool,
    ) -> (RunView, AskView) {
        if left.len() == 0 {
            (
                self.to(StageView::Between),
                if waits {
                    AskView::Rest
                } else {
                    AskView::Nothing
                },
            )
        } else if !d.has(left[0]) {
            (self.over(), AskView::Failed(manager::missing(left[0])))
        } else {
            (
                self.to(StageView::Priming { left: left.skip(1), waits }),
                if d.idles(left[0]) {
                    AskView::Consult(left[0])
                } else {
                    AskView::Nothing
                },
            )
        }
    }

    /// The next step of the run between two ticks.
    pub open spec fn opened(self, d: DriverView) -> (RunView, AskView) {
        if self.ticks >= d.config.max_ticks {
            (self.over(), AskView::Failed(too_late(self.goal, d.config.max_ticks as nat)))
        } else if self.goal is Step && !d.has(self.goal->Step_0) {
            (self.over(), AskView::Failed(manager::missing(self.goal->Step_0)))
        } else if awaited(d, self.goal) is Some {
            (self.over(), AskView::Completed(awaited(d, self.goal)->Some_0))
        } else {
            (
                RunView { ticks: self.ticks + 1, stage: StageView::Planning, ..self },
                AskView::TakeEvents,
            )
        }
    }

    /// The next step of the run where a tick finds nothing to run.
    pub open spec fn waited(self, d: DriverView) -> (RunView, AskView) {
        match self.goal {
            Goal::Step(id, step_id) => if !d.has(id) {
                (self.over(), AskView::Failed(manager::missing(id)))
            } else if !d.stalled(id) {
                (self.to(StageView::Between), AskView::Rest)
            } else if awaited(d, self.goal) is Some {
                (self.over(), AskView::Completed(awaited(d, self.goal)->Some_0))
            } else {
                (self.over(), AskView::Failed(stall(step_id)))
            },
            _ => (
                self.to(StageView::Priming { left: d.live, waits: true }),
                AskView::Nothing,
            ),
        }
    }

    /// The next step of the run in a tick, once pressure is eased.
    pub open spec fn planned(self, d: DriverView, now: u64) -> (RunView, DriverView, AskView) {
        let (s, there) = d.arrived(self.goal);
        match there {
            Err(e) => (self.over(), s, AskView::Failed(e)),
            Ok(true) => (self.over(), s, AskView::Arrived),
            Ok(false) => {
                let (q, r) = s.queued_for(self.goal);
                match r {
                    Err(e) => (self.over(), q, AskView::Failed(e)),
                    Ok(_) => {
                        let actions = q.sched.filled(now).actions;
                        let t = q.ticked(now);
                        if actions.len() == 0 {
                            (self.waited(t).0, t, self.waited(t).1)
                        } else {
                            (self.to(StageView::Acting(actions)), t, AskView::Nothing)
                        }
                    },
                }
            },
        }
    }

    /// The next step of the run with actions to begin. Once all are begun, a
    /// run to the end of a trajectory looks whether it has come there.
    pub open spec fn acted(self, d: DriverView, actions: Seq<TickAction>) -> (
        RunView,
        DriverView,
        AskView,
    ) {
        if actions.len() > 0 {
            (
                self.to(StageView::Acting(actions.skip(1))),
                d,
                if driver_model::carries_out(self.goal, actions[0]) {
                    AskView::Begin(actions[0])
                } else {
                    AskView::Nothing
                },
            )
        } else if self.goal is Finished {
            let (s, there) = d.arrived(self.goal);
            match there {
                Err(e) => (self.over(), s, AskView::Failed(e)),
                Ok(true) => (self.over(), s, AskView::Arrived),
                Ok(false) => (self.to(StageView::Between), s, AskView::Nothing),
            }
        } else {
            (self.to(StageView::Between), d, AskView::Nothing)
        }
    }

    /// Whether this is a next step of the run.
    pub open spec fn goes_on(
        self,
        d: DriverView,
        now: u64,
        after: RunView,
        d_after: DriverView,
        ask: AskView,
    ) -> bool {
        match self.stage {
            StageView::Priming { left, waits } => (after, ask) == self.primed(d, left, waits)
                && d_after == d,
            StageView::Between => (after, ask) == self.opened(d) && d_after == d,
            StageView::Planning => exists|eased: DriverView| #[trigger]
                d.may_ease(now, eased) && (after, d_after, ask) == self.planned(eased, now),
            StageView::Acting(actions) => (after, d_after, ask) == self.acted(d, actions),
            StageView::Over => after == self && d_after == d && ask == AskView::Over,
        }
    }
}

impl Run {
    /// A run of one trajectory to its end; the driver sees to it from now on.
    pub fn to_finish(driver: &mut Driver, id: TrajectoryId) -> (res: Run)
        requires
            old(driver).wf(),
        ensures
            final(driver).wf(),
            final(driver)@ == (DriverView {
                live: books::joined(old(driver)@.live, id),
                ..old(driver)@
            }),
            res@ == (RunView {
                goal: Goal::Finished(id),
                ticks: 0,
                stage: StageView::Priming { left: seq![id], waits: false },
            }),
    {
        driver.live.insert(id);
        let mut left: Vec<TrajectoryId> = Vec::new();
        left.push(id);
        assert(left@ =~= seq![id]);
        assert(driver@ =~= (DriverView {
            live: books::joined(old(driver)@.live, id),
            ..old(driver)@
        }));
        Run { goal: Goal::Finished(id), ticks: 0, stage: Stage::Priming { left, waits: false } }
    }

    /// A run of all live trajectories to their ends.
    pub fn to_idle(driver: &Driver) -> (res: Run)
        ensures
            res@ == (RunView {
                goal: Goal::Idle,
                ticks: 0,
                stage: StageView::Priming { left: driver@.live, waits: false },
            }),
    {
        let left = driver.live.to_vec();
        Run { goal: Goal::Idle, ticks: 0, stage: Stage::Priming { left, waits: false } }
    }

    /// A run of one step, which an outside agent submitted, to its outcome.
    pub fn to_outcome(id: TrajectoryId, step_id: StepId) -> (res: Run)
        ensures
            res@ == (RunView {
                goal: Goal::Step(id, step_id),
                ticks: 0,
                stage: StageView::Between,
            }),
    {
        Run { goal: Goal::Step(id, step_id), ticks: 0, stage: Stage::Between }
    }

    /// Takes the run one step on, at `now`, once what it asked for last is
    /// done.
    pub fn next(&mut self, driver: &mut Driver, now: u64) -> (res: Ask)
        requires
            old(driver).wf(),
        ensures
            final(driver).wf(),
            old(self)@.goes_on(old(driver)@, now, final(self)@, final(driver)@, res@),
    {
        let mut stage = Stage::Over;
        std::mem::swap(&mut stage, &mut self.stage);
        match stage {
            Stage::Priming { left, waits } => self.prime(driver, left, waits),
            Stage::Between => self.open(driver),
            Stage::Planning => self.plan(driver, now),
            Stage::Acting(actions) => self.act(driver, actions),
            Stage::Over => Ask::Over,
        }
    }

    fn prime(&mut self, driver: &Driver, left: Vec<TrajectoryId>, waits: bool) -> (res: Ask)
        requires
            old(self)@.stage is Over,
        ensures
            (final(self)@, res@) == old(self)@.primed(driver@, left@, waits),
    {
        let mut left = left;
        if left.len() == 0 {
            self.stage = Stage::Between;
            return if waits {
                Ask::Rest
            } else {
                Ask::Nothing
            };
        }
        let ghost all = left@;
        let id = left.remove(0);
        assert(left@ =~= all.skip(1));
        match driver.manager.get(id) {
            Err(e) => Ask::Failed(e),
            Ok(t) => {
                self.stage = Stage::Priming { left, waits };
                if !t.is_finished() && t.active_step.is_none() {
                    Ask::Consult(id)
                } else {
                    Ask::Nothing
                }
            },
        }
    }

    fn open(&mut self, driver: &Driver) -> (res: Ask)
        requires
            old(self)@.stage is Over,
        ensures
            (final(self)@, res@) == old(self)@.opened(driver@),
    {
        if self.ticks >= driver.config.max_ticks {
            return Ask::Failed(
                match self.goal {
                    Goal::Finished(id) => driver.ticks_error(Some(id)),
                    Goal::Idle => driver.ticks_error(None),
                    Goal::Step(_, step_id) => driver.step_timeout_error(step_id),
                },
            );
        }
        if let Goal::Step(id, step_id) = self.goal {
            match driver.completed_outcome(id, step_id) {
                Err(e) => {
                    return Ask::Failed(e);
                },
                Ok(Some(outcome)) => {
                    return Ask::Completed(outcome);
                },
                Ok(None) => {},
            }
        }
        self.ticks = self.ticks + 1;
        self.stage = Stage::Planning;
        Ask::TakeEvents
    }

    fn plan(&mut self, driver: &mut Driver, now: u64) -> (res: Ask)
        requires
            old(driver).wf(),
            old(self)@.stage is Over,
        ensures
            final(driver).wf(),
            exists|eased: DriverView| #[trigger]
                old(driver)@.may_ease(now, eased) && (final(self)@, final(driver)@, res@)
                    == old(self)@.planned(eased, now),
    {
        let planned = driver.plan_tick(self.goal, now);
        let ghost eased = choose|eased: DriverView| #[trigger]
            old(driver)@.may_ease(now, eased) && driver_runs::planned(
                eased,
                self.goal,
                now,
                driver@,
                planned,
            );
        let res = match planned {
            Err(e) => Ask::Failed(e),
            Ok(Plan::Arrived) => Ask::Arrived,
            Ok(Plan::Run(actions)) => {
                self.stage = Stage::Acting(actions);
                Ask::Nothing
            },
            Ok(Plan::Wait) => self.wait(driver),
        };
        assert((self@, driver@, res@) == old(self)@.planned(eased, now));
        res
    }

    fn wait(&mut self, driver: &Driver) -> (res: Ask)
        requires
            old(self)@.stage is Over,
        ensures
            (final(self)@, res@) == old(self)@.waited(driver@),
    {
        if let Goal::Step(id, step_id) = self.goal {
            match driver.stalled(id) {
                Err(e) => {
                    return Ask::Failed(e);
                },
                Ok(false) => {
                    self.stage = Stage::Between;
                    return Ask::Rest;
                },
                Ok(true) => {},
            }
            return match driver.completed_outcome(id, step_id) {
                Err(e) => Ask::Failed(e),
                Ok(Some(outcome)) => Ask::Completed(outcome),
                Ok(None) => Ask::Failed(Driver::stall_error(step_id)),
            };
        }
        self.stage = Stage::Priming { left: driver.live.to_vec(), waits: true };
        Ask::Nothing
    }

    fn act(&mut self, driver: &mut Driver, actions: Vec<TickAction>) -> (res: Ask)
        requires
            old(driver).wf(),
            old(self)@.stage is Over,
        ensures
            final(driver).wf(),
            (final(self)@, final(driver)@, res@) == old(self)@.acted(old(driver)@, actions@),
    {
        let mut actions = actions;
        if actions.len() > 0 {
            let ghost all = actions@;
            let action = actions.remove(0);
            assert(actions@ =~= all.skip(1));
            self.stage = Stage::Acting(actions);
            return if Driver::carries_out(self.goal, &action) {
                Ask::Begin(action)
            } else {
                Ask::Nothing
            };
        }
        if let Goal::Finished(_) = self.goal {
            match driver.arrived(self.goal) {
                Err(e) => {
                    return Ask::Failed(e);
                },
                Ok(true) => {
                    return Ask::Arrived;
                },
                Ok(false) => {},
            }
        }
        self.stage = Stage::Between;
        Ask::Nothing
    }
}

/// A run to the end of a trajectory arrives only where the trajectory is at
/// its end, and leaves nothing of it with the driver's live ones.
pub proof fn law_arrived_is_finished(
    run: RunView,
    id: TrajectoryId,
    d: DriverView,
    now: u64,
    after: RunView,
    d_after: DriverView,
    ask: AskView,
)
    requires
        run.goal == Goal::Finished(id),
        run.goes_on(d, now, after, d_after, ask),
        ask is Arrived,
    ensures
        d_after.has(id),
        d_after.traj(id).state.terminal(),
        !d_after.live.contains(id),
        after.stage is Over,
{
    if run.stage is Planning {
        let eased = choose|eased: DriverView| #[trigger]
            d.may_ease(now, eased) && (after, d_after, ask) == run.planned(eased, now);
        books::lemma_left(eased.live, id);
    } else {
        books::lemma_left(d.live, id);
    }
}

proof fn lemma_all_ended(d: DriverView, ids: Seq<TrajectoryId>, i: int)
    requires
        d.all_ended(ids) == Ok::<bool, TrajectErrorView>(true),
        0 <= i < ids.len(),
    ensures
        d.has(ids[i]) && d.traj(ids[i]).state.terminal(),
    decreases ids.len(),
{
    if i > 0 {
        lemma_all_ended(d, ids.drop_first(), i - 1);
    }
}

/// A run of all arrives only where every live trajectory is at its end.
pub proof fn law_arrived_is_idle(
    run: RunView,
    d: DriverView,
    now: u64,
    after: RunView,
    d_after: DriverView,
    ask: AskView,
    id: TrajectoryId,
)
    requires
        run.goal == Goal::Idle,
        run.goes_on(d, now, after, d_after, ask),
        ask is Arrived,
        d_after.live.contains(id),
    ensures
        d_after.has(id),
        d_after.traj(id).state.terminal(),
{
    let i = choose|i: int| 0 <= i < d_after.live.len() && d_after.live[i] == id;
    lemma_all_ended(d_after, d_after.live, i);
}

/// A run for a step gives the outcome that the trajectory's history has for
/// it.
pub proof fn law_completed_is_recorded(
    run: RunView,
    d: DriverView,
    now: u64,
    after: RunView,
    d_after: DriverView,
    ask: AskView,
)
    requires
        run.goes_on(d, now, after, d_after, ask),
        ask is Completed,
    ensures
        run.goal is Step,
        d_after.has(run.goal->Step_0),
        Some(ask->Completed_0) == driver_model::outcome_of(
            d_after.traj(run.goal->Step_0).history,
            run.goal->Step_1,
        ),
{
}

/// A run begins no more ticks than it may, and keeps its goal.
pub proof fn law_ticks_bounded(
    run: RunView,
    d: DriverView,
    now: u64,
    after: RunView,
    d_after: DriverView,
    ask: AskView,
)
    requires
        run.goes_on(d, now, after, d_after, ask),
        run.ticks <= d.config.max_ticks,
    ensures
        after.goal == run.goal,
        run.ticks <= after.ticks <= d.config.max_ticks,
        ask is TakeEvents <==> after.ticks == run.ticks + 1,
{
}

/// A run that takes too long says how many ticks it had and what it was about; a
/// step that stalls is named.
pub proof fn law_run_errors(id: TrajectoryId, step_id: StepId, n: nat)
    ensures
        too_late(Goal::Finished(id), n) == TrajectErrorView::Other(
            "driver exceeded max_ticks="@ + text::dec(n) + " (focus="@ + ("Some(TrajectoryId("@
                + ids::hyphenated(id.0) + "))"@) + ")"@,
        ),
        too_late(Goal::Idle, n) == TrajectErrorView::Other(
            "driver exceeded max_ticks="@ + text::dec(n) + " (focus="@ + "None"@ + ")"@,
        ),
        too_late(Goal::Step(id, step_id), n) == TrajectErrorView::Other(
            "driver exceeded max_ticks="@ + text::dec(n) + " waiting for step "@ + ids::hyphenated(
                step_id.0,
            ),
        ),
        stall(step_id) == TrajectErrorView::Other(
            "step "@ + ids::hyphenated(step_id.0) + " stalled with empty scheduler queue"@,
        ),
{
}

} // verus!
