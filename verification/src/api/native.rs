//! A handle on one trajectory, and the driver behind it.
use vstd::prelude::*;

use crate::error;
use crate::error::{TrajectError, TrajectErrorView};
use crate::ids;
use crate::ids::TrajectoryId;
use crate::runtime::driver::Driver;
use crate::runtime::driver_model::{DriverConfig, DriverView};
use crate::runtime::manager;
use crate::step::{
    Constraints, ConstraintsView, GenerateDelta, GenerateDeltaView, Step, StepOutcome,
    StepOutcomeView, StepView, ToolCall, ToolCallView, ToolResult, ToolResultView,
};
use crate::trajectory::{TrajectoryConfig, TrajectoryState, TrajectoryView};

verus! {

/// Process-wide handle that owns a driver.
pub struct Traject {
    pub driver: Driver,
}

impl Traject {
    /// A driver without trajectories, in the default configuration.
    pub fn new() -> (res: Self)
        ensures
            res.driver.is_default(),
    {
        Traject { driver: Driver::new(DriverConfig::default()) }
    }

    /// A handle on a new trajectory.
    pub fn create_handle(self, config: TrajectoryConfig) -> (res: TrajectoryHandle)
        requires
            self.driver.wf(),
        ensures
            res.driver.wf(),
            ids::is_random_id(res.id.0),
            res.driver@ == self.driver@.with_new(
                res.id,
                TrajectoryView::created(res.id, config@),
            ),
    {
        let mut driver = self.driver;
        let id = driver.create_trajectory(config);
        TrajectoryHandle { id, driver }
    }
}

impl Default for Traject {
    fn default() -> (res: Self)
        ensures
            res.driver.is_default(),
    {
        Self::new()
    }
}

/// Native per-trajectory handle.
pub struct TrajectoryHandle {
    pub id: TrajectoryId,
    pub driver: Driver,
}

/// How long a tool that is called by hand may take.
pub const TOOL_TIMEOUT_MS: u64 = 30_000;

/// What a tool gave, where that is the outcome.
pub open spec fn tool_given(o: StepOutcomeView) -> Option<ToolResultView> {
    match o {
        StepOutcomeView::ToolDone { result, .. } => Some(result),
        _ => None,
    }
}

impl TrajectoryHandle {
    pub fn id(&self) -> (res: TrajectoryId)
        ensures
            res == self.id,
    {
        self.id
    }

    pub fn is_finished(&self) -> (res: Result<bool, TrajectError>)
        ensures
            match res {
                Ok(b) => self.driver@.trajs.dom().contains(self.id.0) && b
                    == self.driver@.trajs[self.id.0].state.terminal(),
                Err(e) => !self.driver@.trajs.dom().contains(self.id.0) && e@ == manager::missing(
                    self.id,
                ),
            },
    {
        self.driver.manager.is_finished(self.id)
    }

    pub fn state(&self) -> (res: Result<TrajectoryState, TrajectError>)
        ensures
            match res {
                Ok(s) => self.driver@.trajs.dom().contains(self.id.0) && s
                    == self.driver@.trajs[self.id.0].state,
                Err(e) => !self.driver@.trajs.dom().contains(self.id.0) && e@ == manager::missing(
                    self.id,
                ),
            },
    {
        match self.driver.manager.get(self.id) {
            Ok(t) => Ok(t.state),
            Err(e) => Err(e),
        }
    }

    /// Submits a generation, to be run to its end.
    pub fn submit_generate(
        &mut self,
        delta: GenerateDelta,
        constraints: Constraints,
        max_tokens: u32,
    ) -> (res: Result<(), TrajectError>)
        requires
            old(self).driver.wf(),
        ensures
            final(self).driver.wf(),
            final(self).id == old(self).id,
            exists|step: StepView| #[trigger]
                is_generate(step, delta@, constraints@, max_tokens) && submits(
                    old(self).driver@,
                    old(self).id,
                    step,
                    final(self).driver@,
                    error::res_view(res),
                ),
    {
        let step = Step::generate(delta, constraints, max_tokens);
        let ghost s = step@;
        let res = self.driver.manager.submit_step(self.id, step);
        assert(is_generate(s, delta@, constraints@, max_tokens));
        assert(submits(old(self).driver@, self.id, s, self.driver@, error::res_view(res)));
        res
    }

    /// Submits a tool call, to be run to its end.
    pub fn submit_tool(&mut self, call: ToolCall) -> (res: Result<(), TrajectError>)
        requires
            old(self).driver.wf(),
        ensures
            final(self).driver.wf(),
            final(self).id == old(self).id,
            exists|step: StepView| #[trigger]
                is_tool(step, call@) && submits(
                    old(self).driver@,
                    old(self).id,
                    step,
                    final(self).driver@,
                    error::res_view(res),
                ),
    {
        let step = Step::tool(call, TOOL_TIMEOUT_MS);
        let ghost s = step@;
        let res = self.driver.manager.submit_step(self.id, step);
        assert(is_tool(s, call@));
        assert(submits(old(self).driver@, self.id, s, self.driver@, error::res_view(res)));
        res
    }

    /// What the tool gave, where that is what came last.
    pub fn tool_result(&self) -> (res: Result<Option<ToolResult>, TrajectError>)
        ensures
            match res {
                Ok(r) => {
                    &&& self.driver@.trajs.dom().contains(self.id.0)
                    &&& (match r {
                        Some(x) => Some(x@),
                        None => None,
                    }) == match self.driver@.trajs[self.id.0].latest_outcome() {
                        Some(o) => tool_given(o),
                        None => None,
                    }
                },
                Err(e) => !self.driver@.trajs.dom().contains(self.id.0) && e@ == manager::missing(
                    self.id,
                ),
            },
    {
        match self.driver.manager.get(self.id) {
            Ok(t) => Ok(
                match t.last_outcome() {
                    Some(StepOutcome::ToolDone { result, .. }) => Some(result.clone()),
                    _ => None,
                },
            ),
            Err(e) => Err(e),
        }
    }
}

/// What submitting a step does: to its trajectory, and to nothing else.
pub open spec fn submits(
    was: DriverView,
    id: TrajectoryId,
    step: StepView,
    now: DriverView,
    answer: Result<(), TrajectErrorView>,
) -> bool {
    if was.trajs.dom().contains(id.0) {
        let (t, r) = was.trajs[id.0].submitted(step);
        now == (DriverView { trajs: was.trajs.insert(id.0, t), ..was }) && answer == r
    } else {
        now == was && answer == Err::<(), TrajectErrorView>(manager::missing(id))
    }
}

/// A generate step with that content, under a fresh id.
pub open spec fn is_generate(
    step: StepView,
    delta: GenerateDeltaView,
    constraints: ConstraintsView,
    max_tokens: u32,
) -> bool {
    step == (StepView::Generate { id: step.id(), delta, constraints, max_tokens })
        && ids::is_random_id(step.id().0)
}

/// A tool step with that call, under a fresh id.
pub open spec fn is_tool(step: StepView, call: ToolCallView) -> bool {
    step == (StepView::Tool { id: step.id(), call, timeout_ms: TOOL_TIMEOUT_MS })
        && ids::is_random_id(step.id().0)
}

/// A tool's outcome gives what the tool gave, and no other outcome gives
/// anything.
pub proof fn law_tool_given(o: StepOutcomeView)
    ensures
        o is ToolDone ==> tool_given(o) == Some(o->result),
        !(o is ToolDone) ==> tool_given(o) is None,
{
}

/// A step that is submitted by hand becomes the trajectory's active one, as it
/// was asked for; a tool may take half a minute. Nothing else changes.
pub proof fn law_submitted_by_hand(
    was: DriverView,
    id: TrajectoryId,
    step: StepView,
    now: DriverView,
    answer: Result<(), TrajectErrorView>,
    delta: GenerateDeltaView,
    constraints: ConstraintsView,
    max_tokens: u32,
    call: ToolCallView,
)
    requires
        was.trajs.dom().contains(id.0),
        was.trajs[id.0].state is Created || was.trajs[id.0].state is Running,
        submits(was, id, step, now, answer),
    ensures
        answer is Ok,
        now.trajs[id.0].active_step == Some(step),
        now.trajs[id.0].history == was.trajs[id.0].history,
        now.trajs.dom() == was.trajs.dom(),
        now.sched == was.sched,
        now.mem == was.mem,
        is_generate(step, delta, constraints, max_tokens) ==> step is Generate && step->delta
            == delta && step->constraints == constraints && step->max_tokens == max_tokens
            && now.trajs[id.0].state is Running,
        is_tool(step, call) ==> step is Tool && step->call == call && step->timeout_ms == 30_000
            && now.trajs[id.0].state is WaitingTool,
{
    assert(now.trajs.dom() =~= was.trajs.dom());
}

} // verus!
