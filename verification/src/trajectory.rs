//! Trajectories: the lifecycle of one agent execution.
use vstd::prelude::*;

use crate::agent_memory::{AgentMemory, AgentMemoryView};
use crate::error;
use crate::error::{TrajectError, TrajectErrorView};
use crate::ids;
use crate::ids::{PrefixNodeId, StepId, TrajectoryId};
use crate::pin;
use crate::pin::PinInfo;
use crate::step::{Step, StepOutcome, StepOutcomeView, StepView};
use crate::text;
use crate::text::clone_opt;

verus! {

#[derive(Debug, PartialEq, Eq, Hash)]
pub struct TenantId(pub String);

impl View for TenantId {
    type V = Seq<char>;

    open spec fn view(&self) -> Seq<char> {
        self.0@
    }
}

impl Clone for TenantId {
    fn clone(&self) -> (res: Self)
        ensures
            res == *self,
    {
        TenantId(self.0.clone())
    }
}

impl TenantId {
    pub fn new(id: &str) -> (res: Self)
        ensures
            res@ == id@,
    {
        TenantId(id.to_string())
    }

    /// The name itself.
    pub fn to_text(&self) -> (res: String)
        ensures
            res@ == self@,
    {
        self.0.clone()
    }
}

/// Lifecycle of a trajectory.
///
/// ```text
/// Created → Running ⇄ WaitingTool → Running → Finished
///                 ↘ Failed
///                 ↘ Suspended ⇄ Running
/// ```
#[derive(Debug, Clone, Copy, PartialEq, Eq, Structural)]
pub enum TrajectoryState {
    Created,
    Running,
    WaitingTool,
    Suspended,
    Finished,
    Failed,
}

impl TrajectoryState {
    pub open spec fn terminal(self) -> bool {
        self is Finished || self is Failed
    }

    /// The name of the variant.
    pub open spec fn label(self) -> Seq<char> {
        match self {
            TrajectoryState::Created => "Created"@,
            TrajectoryState::Running => "Running"@,
            TrajectoryState::WaitingTool => "WaitingTool"@,
            TrajectoryState::Suspended => "Suspended"@,
            TrajectoryState::Finished => "Finished"@,
            TrajectoryState::Failed => "Failed"@,
        }
    }

    /// The name of the variant.
    pub fn name(self) -> (res: String)
        ensures
            res@ == self.label(),
    {
        match self {
            TrajectoryState::Created => "Created".to_string(),
            TrajectoryState::Running => "Running".to_string(),
            TrajectoryState::WaitingTool => "WaitingTool".to_string(),
            TrajectoryState::Suspended => "Suspended".to_string(),
            TrajectoryState::Finished => "Finished".to_string(),
            TrajectoryState::Failed => "Failed".to_string(),
        }
    }

    pub fn is_terminal(self) -> (res: bool)
        ensures
            res == self.terminal(),
    {
        matches!(self, TrajectoryState::Finished | TrajectoryState::Failed)
    }

    pub fn can_schedule(self) -> (res: bool)
        ensures
            res == (self is Running || self is WaitingTool),
    {
        matches!(self, TrajectoryState::Running | TrajectoryState::WaitingTool)
    }
}

/// The edges of the lifecycle: a created trajectory may run or fail; a live
/// one may move between running, waiting and suspended and may end; an ended
/// one stays. No state moves to itself, and none returns to `Created`.
pub open spec fn legal(from: TrajectoryState, to: TrajectoryState) -> bool {
    match from {
        TrajectoryState::Created => to is Running || to is Failed,
        TrajectoryState::Finished | TrajectoryState::Failed => false,
        _ => !(to is Created) && from != to,
    }
}

fn is_legal_transition(from: TrajectoryState, to: TrajectoryState) -> (res: bool)
    ensures
        res == legal(from, to),
{
    match from {
        TrajectoryState::Created => matches!(
            to,
            TrajectoryState::Running | TrajectoryState::Failed
        ),
        TrajectoryState::Running => matches!(
            to,
            TrajectoryState::WaitingTool | TrajectoryState::Suspended | TrajectoryState::Finished | TrajectoryState::Failed
        ),
        TrajectoryState::WaitingTool => matches!(
            to,
            TrajectoryState::Running | TrajectoryState::Suspended | TrajectoryState::Finished | TrajectoryState::Failed
        ),
        TrajectoryState::Suspended => matches!(
            to,
            TrajectoryState::Running | TrajectoryState::WaitingTool | TrajectoryState::Finished | TrajectoryState::Failed
        ),
        TrajectoryState::Finished | TrajectoryState::Failed => false,
    }
}

/// Scheduling priority for a trajectory (higher = preferred).
#[derive(Debug, Clone, Copy, PartialEq, Eq, PartialOrd, Ord, Structural)]
pub struct TrajectoryPriority(pub i32);

impl Default for TrajectoryPriority {
    fn default() -> (res: Self)
        ensures
            res == TrajectoryPriority(0),
    {
        TrajectoryPriority(0)
    }
}

/// Creation parameters for a new trajectory.
#[derive(Debug)]
pub struct TrajectoryConfig {
    pub tenant: TenantId,
    pub priority: TrajectoryPriority,
    /// Optional stable system/tools prefix already resident in the tree.
    pub stable_prefix: Option<PrefixNodeId>,
    pub initial_memory: AgentMemory,
}

pub struct TrajectoryConfigView {
    pub tenant: Seq<char>,
    pub priority: TrajectoryPriority,
    pub stable_prefix: Option<PrefixNodeId>,
    pub initial_memory: AgentMemoryView,
}

impl View for TrajectoryConfig {
    type V = TrajectoryConfigView;

    open spec fn view(&self) -> TrajectoryConfigView {
        TrajectoryConfigView {
            tenant: self.tenant@,
            priority: self.priority,
            stable_prefix: self.stable_prefix,
            initial_memory: self.initial_memory@,
        }
    }
}

impl TrajectoryConfigView {
    /// What is used where nothing is said.
    pub open spec fn standard() -> TrajectoryConfigView {
        TrajectoryConfigView {
            tenant: "default"@,
            priority: TrajectoryPriority(0),
            stable_prefix: None,
            initial_memory: AgentMemoryView::blank(),
        }
    }
}

impl Default for TrajectoryConfig {
    fn default() -> (res: Self)
        ensures
            res@ == TrajectoryConfigView::standard(),
    {
        TrajectoryConfig {
            tenant: TenantId::new("default"),
            priority: TrajectoryPriority::default(),
            stable_prefix: None,
            initial_memory: AgentMemory::default(),
        }
    }
}

impl Clone for TrajectoryConfig {
    fn clone(&self) -> (res: Self)
        ensures
            res@ == self@,
    {
        TrajectoryConfig {
            tenant: self.tenant.clone(),
            priority: self.priority,
            stable_prefix: self.stable_prefix,
            initial_memory: self.initial_memory.clone(),
        }
    }
}

/// Immutable record of a completed (or in-flight) step.
#[derive(Debug)]
pub struct StepRecord {
    pub step: Step,
    pub outcome: Option<StepOutcome>,
}

pub struct StepRecordView {
    pub step: StepView,
    pub outcome: Option<StepOutcomeView>,
}

/// The view of an optional outcome.
pub open spec fn opt_outcome(o: Option<StepOutcome>) -> Option<StepOutcomeView> {
    match o {
        Some(x) => Some(x@),
        None => None,
    }
}

/// The view of an optional step.
pub open spec fn opt_step(o: Option<Step>) -> Option<StepView> {
    match o {
        Some(x) => Some(x@),
        None => None,
    }
}

impl View for StepRecord {
    type V = StepRecordView;

    open spec fn view(&self) -> StepRecordView {
        StepRecordView { step: self.step@, outcome: opt_outcome(self.outcome) }
    }
}

impl Clone for StepRecord {
    fn clone(&self) -> (res: Self)
        ensures
            res@ == self@,
    {
        let outcome = match &self.outcome {
            Some(o) => Some(o.clone()),
            None => None,
        };
        StepRecord { step: self.step.clone(), outcome }
    }
}

/// First-class agent execution process.
#[derive(Debug)]
pub struct Trajectory {
    pub id: TrajectoryId,
    pub tenant_id: TenantId,
    pub state: TrajectoryState,
    pub current_prefix: Option<PrefixNodeId>,
    pub memory: AgentMemory,
    pub priority: TrajectoryPriority,
    /// Accumulated fairness credit for anti-starvation.
    pub fairness_credit: i64,
    pub pin: PinInfo,
    pub history: Vec<StepRecord>,
    pub active_step: Option<Step>,
    pub error: Option<String>,
}

#[verifier::ext_equal]
pub struct TrajectoryView {
    pub id: TrajectoryId,
    pub tenant_id: Seq<char>,
    pub state: TrajectoryState,
    pub current_prefix: Option<PrefixNodeId>,
    pub memory: AgentMemoryView,
    pub priority: TrajectoryPriority,
    pub fairness_credit: i64,
    pub pin: PinInfo,
    pub history: Seq<StepRecordView>,
    pub active_step: Option<StepView>,
    pub error: Option<Seq<char>>,
}

impl View for Trajectory {
    type V = TrajectoryView;

    open spec fn view(&self) -> TrajectoryView {
        TrajectoryView {
            id: self.id,
            tenant_id: self.tenant_id@,
            state: self.state,
            current_prefix: self.current_prefix,
            memory: self.memory@,
            priority: self.priority,
            fairness_credit: self.fairness_credit,
            pin: self.pin,
            history: self.history@.map_values(|r: StepRecord| r@),
            active_step: opt_step(self.active_step),
            error: text::opt_chars(self.error),
        }
    }
}

/// A trajectory after an operation, and what the operation answered.
pub type Moved = (TrajectoryView, Result<(), TrajectErrorView>);

impl TrajectoryView {
    /// A new trajectory under the id `id`.
    pub open spec fn created(id: TrajectoryId, config: TrajectoryConfigView) -> TrajectoryView {
        TrajectoryView {
            id,
            tenant_id: config.tenant,
            state: TrajectoryState::Created,
            current_prefix: config.stable_prefix,
            memory: config.initial_memory,
            priority: config.priority,
            fairness_credit: 0,
            pin: pin::no_pin(),
            history: Seq::empty(),
            active_step: None,
            error: None,
        }
    }

    /// Moves to `to` along a legal edge; an illegal one is refused and
    /// changes nothing.
    pub open spec fn moved(self, to: TrajectoryState) -> Moved {
        if legal(self.state, to) {
            (TrajectoryView { state: to, ..self }, Ok(()))
        } else {
            (self, Err(TrajectErrorView::InvalidTransition { from: self.state, to }))
        }
    }

    /// The state in which a submitted step leaves the trajectory, or the
    /// illegal move that refuses it: an ended trajectory takes no step, and
    /// one that waits for a tool takes no second tool step.
    pub open spec fn state_for(self, step: StepView) -> Result<TrajectoryState, TrajectErrorView> {
        match self.state {
            TrajectoryState::Finished | TrajectoryState::Failed => Err(
                TrajectErrorView::InvalidTransition {
                    from: self.state,
                    to: TrajectoryState::Running,
                },
            ),
            TrajectoryState::WaitingTool => match step {
                StepView::Tool { .. } => Err(
                    TrajectErrorView::InvalidTransition {
                        from: TrajectoryState::WaitingTool,
                        to: TrajectoryState::WaitingTool,
                    },
                ),
                StepView::Generate { .. } => Ok(TrajectoryState::Running),
                StepView::Control { .. } => Ok(TrajectoryState::WaitingTool),
            },
            _ => Ok(
                if step is Tool {
                    TrajectoryState::WaitingTool
                } else {
                    TrajectoryState::Running
                },
            ),
        }
    }

    /// Takes `step` as the active one, or refuses it and changes nothing.
    pub open spec fn submitted(self, step: StepView) -> Moved {
        match self.state_for(step) {
            Ok(state) => (TrajectoryView { state, active_step: Some(step), ..self }, Ok(())),
            Err(e) => (self, Err(e)),
        }
    }

    /// Closes the active step with `outcome`: both go into the history, and a
    /// tool's outcome ends the wait. The active step is given up even where
    /// the outcome belongs to another step.
    pub open spec fn completed(self, outcome: StepOutcomeView) -> Moved {
        match self.active_step {
            None => (self, Err(TrajectErrorView::Other("no active step to complete"@))),
            Some(step) => {
                let idle = TrajectoryView { active_step: None, ..self };
                if step.id() != outcome.step_id() {
                    (idle, Err(TrajectErrorView::StepNotFound(outcome.step_id())))
                } else {
                    (
                        TrajectoryView {
                            state: if outcome is ToolDone && self.state is WaitingTool {
                                TrajectoryState::Running
                            } else {
                                self.state
                            },
                            history: self.history.push(
                                StepRecordView { step, outcome: Some(outcome) },
                            ),
                            ..idle
                        },
                        Ok(()),
                    )
                }
            },
        }
    }

    /// Without active step and pin.
    pub open spec fn released(self) -> TrajectoryView {
        TrajectoryView { active_step: None, pin: pin::no_pin(), ..self }
    }

    /// Ends well. The active step and the pin are given up in any case.
    pub open spec fn finished(self) -> Moved {
        self.released().moved(TrajectoryState::Finished)
    }

    /// Ends with an error. The reason is kept, and the active step and the
    /// pin are given up, in any case.
    pub open spec fn failed(self, reason: Seq<char>) -> Moved {
        TrajectoryView { error: Some(reason), ..self.released() }.moved(TrajectoryState::Failed)
    }

    /// The latest outcome in the history.
    pub open spec fn latest_outcome(self) -> Option<StepOutcomeView>
        decreases self.history.len(),
    {
        if self.history.len() == 0 {
            None
        } else if self.history.last().outcome is Some {
            self.history.last().outcome
        } else {
            TrajectoryView { history: self.history.drop_last(), ..self }.latest_outcome()
        }
    }
}

impl Clone for Trajectory {
    fn clone(&self) -> (res: Self)
        ensures
            res@ == self@,
    {
        let mut history: Vec<StepRecord> = Vec::new();
        let mut i: usize = 0;
        while i < self.history.len()
            invariant
                i <= self.history@.len(),
                history@.len() == i,
                forall|j: int| 0 <= j < i ==> (#[trigger] history@[j])@ == self.history@[j]@,
            decreases self.history@.len() - i,
        {
            history.push(self.history[i].clone());
            i += 1;
        }
        let active_step = match &self.active_step {
            Some(s) => Some(s.clone()),
            None => None,
        };
        let res = Trajectory {
            id: self.id,
            tenant_id: self.tenant_id.clone(),
            state: self.state,
            current_prefix: self.current_prefix,
            memory: self.memory.clone(),
            priority: self.priority,
            fairness_credit: self.fairness_credit,
            pin: self.pin,
            history,
            active_step,
            error: clone_opt(&self.error),
        };
        assert(res@.history =~= self@.history);
        res
    }
}

impl Trajectory {
    /// A new trajectory under a fresh random id.
    pub fn create(config: TrajectoryConfig) -> (res: Self)
        ensures
            ids::is_random_id(res@.id.0),
            res@ == TrajectoryView::created(res@.id, config@),
    {
        let res = Trajectory {
            id: TrajectoryId::new(),
            tenant_id: config.tenant,
            state: TrajectoryState::Created,
            current_prefix: config.stable_prefix,
            memory: config.initial_memory,
            priority: config.priority,
            fairness_credit: 0,
            pin: PinInfo::default(),
            history: Vec::new(),
            active_step: None,
            error: None,
        };
        assert(res@.history =~= Seq::empty());
        res
    }

    pub fn is_finished(&self) -> (res: bool)
        ensures
            res == self@.state.terminal(),
    {
        self.state.is_terminal()
    }

    /// Attempt a legal state transition.
    pub fn transition(&mut self, to: TrajectoryState) -> (res: Result<(), TrajectError>)
        ensures
            (final(self)@, error::res_view(res)) == old(self)@.moved(to),
    {
        if !is_legal_transition(self.state, to) {
            return Err(TrajectError::InvalidTransition { from: self.state, to });
        }
        self.state = to;
        Ok(())
    }

    pub fn start(&mut self) -> (res: Result<(), TrajectError>)
        ensures
            (final(self)@, error::res_view(res)) == old(self)@.moved(TrajectoryState::Running),
    {
        self.transition(TrajectoryState::Running)
    }

    pub fn submit_step(&mut self, step: Step) -> (res: Result<(), TrajectError>)
        ensures
            (final(self)@, error::res_view(res)) == old(self)@.submitted(step@),
    {
        if self.state == TrajectoryState::Created {
            match self.start() {
                Ok(_) => {},
                Err(e) => {
                    return Err(e);
                },
            }
        }
        if !matches!(
            self.state,
            TrajectoryState::Running | TrajectoryState::WaitingTool | TrajectoryState::Suspended
        ) {
            return Err(
                TrajectError::InvalidTransition { from: self.state, to: TrajectoryState::Running },
            );
        }
        if self.state == TrajectoryState::Suspended {
            match self.transition(TrajectoryState::Running) {
                Ok(_) => {},
                Err(e) => {
                    return Err(e);
                },
            }
        }
        if step.is_tool() {
            match self.transition(TrajectoryState::WaitingTool) {
                Ok(_) => {},
                Err(e) => {
                    return Err(e);
                },
            }
        } else if self.state == TrajectoryState::WaitingTool && step.is_generate() {
            match self.transition(TrajectoryState::Running) {
                Ok(_) => {},
                Err(e) => {
                    return Err(e);
                },
            }
        }
        self.active_step = Some(step);
        Ok(())
    }

    pub fn complete_step(&mut self, outcome: StepOutcome) -> (res: Result<(), TrajectError>)
        ensures
            (final(self)@, error::res_view(res)) == old(self)@.completed(outcome@),
    {
        let step = match self.active_step.take() {
            Some(s) => s,
            None => {
                return Err(TrajectError::Other("no active step to complete".to_string()));
            },
        };
        let step_id = outcome.step_id();
        if step.id() != step_id {
            return Err(TrajectError::StepNotFound(step_id));
        }
        if matches!(outcome, StepOutcome::ToolDone { .. }) && self.state
            == TrajectoryState::WaitingTool {
            match self.transition(TrajectoryState::Running) {
                Ok(_) => {},
                Err(e) => {
                    return Err(e);
                },
            }
        }
        let ghost before = self@.history;
        let ghost record = StepRecordView { step: step@, outcome: Some(outcome@) };
        self.history.push(StepRecord { step, outcome: Some(outcome) });
        assert(self@.history =~= before.push(record));
        Ok(())
    }

    pub fn finish(&mut self) -> (res: Result<(), TrajectError>)
        ensures
            (final(self)@, error::res_view(res)) == old(self)@.finished(),
    {
        self.active_step = None;
        self.pin.unpin();
        self.transition(TrajectoryState::Finished)
    }

    pub fn fail(&mut self, reason: &str) -> (res: Result<(), TrajectError>)
        ensures
            (final(self)@, error::res_view(res)) == old(self)@.failed(reason@),
    {
        self.error = Some(reason.to_string());
        self.active_step = None;
        self.pin.unpin();
        self.transition(TrajectoryState::Failed)
    }

    pub fn suspend(&mut self) -> (res: Result<(), TrajectError>)
        ensures
            (final(self)@, error::res_view(res)) == old(self)@.moved(TrajectoryState::Suspended),
    {
        self.transition(TrajectoryState::Suspended)
    }

    pub fn resume(&mut self) -> (res: Result<(), TrajectError>)
        ensures
            (final(self)@, error::res_view(res)) == old(self)@.moved(TrajectoryState::Running),
    {
        self.transition(TrajectoryState::Running)
    }

    pub fn last_outcome(&self) -> (res: Option<&StepOutcome>)
        ensures
            match res {
                Some(o) => self@.latest_outcome() == Some(o@),
                None => self@.latest_outcome() is None,
            },
    {
        let mut i: usize = self.history.len();
        assert(self@.history.take(i as int) =~= self@.history);
        while i > 0
            invariant
                i <= self.history@.len(),
                self@.latest_outcome() == (TrajectoryView {
                    history: self@.history.take(i as int),
                    ..self@
                }).latest_outcome(),
            decreases i,
        {
            i -= 1;
            let ghost part = TrajectoryView { history: self@.history.take(i + 1), ..self@ };
            assert(part.history.drop_last() =~= self@.history.take(i as int));
            assert(part.history.last() == self.history@[i as int]@);
            match &self.history[i].outcome {
                Some(o) => {
                    return Some(o);
                },
                None => {},
            }
        }
        None
    }

    pub fn bind_prefix(&mut self, node: PrefixNodeId)
        ensures
            final(self)@ == (TrajectoryView { current_prefix: Some(node), ..old(self)@ }),
    {
        self.current_prefix = Some(node);
    }

    pub fn active_step_id(&self) -> (res: Option<StepId>)
        ensures
            res == match self@.active_step {
                Some(s) => Some(s.id()),
                None => None::<StepId>,
            },
    {
        match &self.active_step {
            Some(s) => Some(s.id()),
            None => None,
        }
    }
}

/// What a caller can ask of a trajectory.
pub enum Ask {
    Move(TrajectoryState),
    Submit(StepView),
    Complete(StepOutcomeView),
    Finish,
    Fail(Seq<char>),
    Bind(PrefixNodeId),
}

/// The trajectory after `ask`, and the answer.
pub open spec fn asked(t: TrajectoryView, ask: Ask) -> Moved {
    match ask {
        Ask::Move(to) => t.moved(to),
        Ask::Submit(step) => t.submitted(step),
        Ask::Complete(outcome) => t.completed(outcome),
        Ask::Finish => t.finished(),
        Ask::Fail(reason) => t.failed(reason),
        Ask::Bind(node) => (TrajectoryView { current_prefix: Some(node), ..t }, Ok(())),
    }
}

/// An ended trajectory never leaves its state, whatever it is asked.
pub proof fn law_terminal_absorbing(t: TrajectoryView, ask: Ask)
    requires
        t.state.terminal(),
    ensures
        asked(t, ask).0.state == t.state,
{
}

/// An ended trajectory takes no step and is not moved: each such request is
/// answered with an error.
pub proof fn law_terminal_refuses(t: TrajectoryView, step: StepView, to: TrajectoryState)
    requires
        t.state.terminal(),
    ensures
        t.submitted(step).1 is Err,
        t.moved(to).1 is Err,
        t.finished().1 is Err,
        t.submitted(step).0 == t,
        t.moved(to).0 == t,
{
}

/// Every request leaves the trajectory where it is or moves it along a path
/// of legal edges: one edge, or through `Running` in one submission.
pub proof fn law_states_follow_edges(t: TrajectoryView, ask: Ask)
    ensures
        ({
            let to = asked(t, ask).0.state;
            to == t.state || legal(t.state, to) || (legal(t.state, TrajectoryState::Running)
                && legal(TrajectoryState::Running, to))
        }),
{
}

/// A trajectory never returns to `Created`.
pub proof fn law_created_only_once(t: TrajectoryView, ask: Ask)
    requires
        !(t.state is Created),
    ensures
        !(asked(t, ask).0.state is Created),
{
}

/// History is append-only: what was recorded stays as it was.
pub proof fn law_history_append_only(t: TrajectoryView, ask: Ask)
    ensures
        t.history.is_prefix_of(asked(t, ask).0.history),
        asked(t, ask).0.history.len() <= t.history.len() + 1,
{
}

/// Identity, tenant, priority and credit are fixed for life.
pub proof fn law_identity_fixed(t: TrajectoryView, ask: Ask)
    ensures
        asked(t, ask).0.id == t.id,
        asked(t, ask).0.tenant_id == t.tenant_id,
        asked(t, ask).0.priority == t.priority,
        asked(t, ask).0.fairness_credit == t.fairness_credit,
        asked(t, ask).0.memory == t.memory,
{
}

/// A step that was taken and then completed under its own id is the one new
/// entry of the history, and its outcome is the latest one.
pub proof fn law_submit_complete(t: TrajectoryView, step: StepView, outcome: StepOutcomeView)
    requires
        t.submitted(step).1 is Ok,
        outcome.step_id() == step.id(),
    ensures
        ({
            let (after, answer) = t.submitted(step).0.completed(outcome);
            &&& answer is Ok
            &&& after.history == t.history.push(StepRecordView { step, outcome: Some(outcome) })
            &&& after.active_step is None
            &&& after.latest_outcome() == Some(outcome)
        }),
{
}

/// A tool step that was taken makes the trajectory wait, and the tool's
/// outcome makes it run again.
pub proof fn law_tool_wait(t: TrajectoryView, step: StepView, outcome: StepOutcomeView)
    requires
        step is Tool,
        outcome is ToolDone,
        outcome.step_id() == step.id(),
        t.submitted(step).1 is Ok,
    ensures
        t.submitted(step).0.state is WaitingTool,
        t.submitted(step).0.completed(outcome).0.state is Running,
{
}

/// A live trajectory can always be finished or failed, and then holds
/// neither a step nor a pin.
pub proof fn law_live_can_end(t: TrajectoryView, reason: Seq<char>, now: u64)
    requires
        !t.state.terminal(),
    ensures
        t.state !is Created ==> t.finished().1 is Ok && t.finished().0.state is Finished,
        t.failed(reason).1 is Ok,
        t.failed(reason).0.state is Failed,
        t.failed(reason).0.error == Some(reason),
        t.finished().0.active_step is None,
        t.failed(reason).0.active_step is None,
        !t.finished().0.pin.holds(now),
        !t.failed(reason).0.pin.holds(now),
{
}

/// A suspended trajectory resumes to running, with nothing else changed.
pub proof fn law_suspend_resume(t: TrajectoryView)
    requires
        t.state is Running || t.state is WaitingTool,
    ensures
        t.moved(TrajectoryState::Suspended).1 is Ok,
        t.moved(TrajectoryState::Suspended).0.moved(TrajectoryState::Running) == (
            TrajectoryView { state: TrajectoryState::Running, ..t },
            Ok::<(), TrajectErrorView>(()),
        ),
{
}

/// The edges of the lifecycle, one by one.
pub proof fn law_edges(s: TrajectoryState)
    ensures
        legal(TrajectoryState::Created, TrajectoryState::Running),
        legal(TrajectoryState::Created, TrajectoryState::Failed),
        !legal(TrajectoryState::Created, TrajectoryState::Finished),
        !legal(TrajectoryState::Created, TrajectoryState::WaitingTool),
        !legal(TrajectoryState::Created, TrajectoryState::Suspended),
        legal(TrajectoryState::Running, TrajectoryState::WaitingTool),
        legal(TrajectoryState::Running, TrajectoryState::Suspended),
        legal(TrajectoryState::Running, TrajectoryState::Finished),
        legal(TrajectoryState::Running, TrajectoryState::Failed),
        legal(TrajectoryState::WaitingTool, TrajectoryState::Running),
        legal(TrajectoryState::WaitingTool, TrajectoryState::Suspended),
        legal(TrajectoryState::WaitingTool, TrajectoryState::Finished),
        legal(TrajectoryState::WaitingTool, TrajectoryState::Failed),
        legal(TrajectoryState::Suspended, TrajectoryState::Running),
        legal(TrajectoryState::Suspended, TrajectoryState::Finished),
        legal(TrajectoryState::Suspended, TrajectoryState::Failed),
        !legal(TrajectoryState::Finished, s),
        !legal(TrajectoryState::Failed, s),
        !legal(s, s),
        !legal(s, TrajectoryState::Created),
{
}

/// A new trajectory is as it was configured: its tenant, priority, memory and
/// prefix; it has done nothing yet.
pub proof fn law_created_as_configured(id: TrajectoryId, config: TrajectoryConfigView)
    ensures
        TrajectoryView::created(id, config).id == id,
        TrajectoryView::created(id, config).tenant_id == config.tenant,
        TrajectoryView::created(id, config).priority == config.priority,
        TrajectoryView::created(id, config).current_prefix == config.stable_prefix,
        TrajectoryView::created(id, config).memory == config.initial_memory,
        TrajectoryView::created(id, config).state is Created,
        TrajectoryView::created(id, config).history.len() == 0,
        TrajectoryView::created(id, config).active_step is None,
        TrajectoryView::created(id, config).error is None,
        TrajectoryView::created(id, config).fairness_credit == 0,
{
}

/// A step is taken as it stands, and makes its trajectory run, or wait where it
/// is a tool's; a second tool is refused while one is waited for.
pub proof fn law_step_is_taken(t: TrajectoryView, step: StepView)
    ensures
        !(t.state is Finished) && !(t.state is Failed) && !(t.state is WaitingTool) ==> t.submitted(
            step,
        ).1 is Ok && t.submitted(step).0.active_step == Some(step) && (step is Tool ==> t.submitted(
            step,
        ).0.state is WaitingTool) && (!(step is Tool) ==> t.submitted(step).0.state is Running),
        t.state is WaitingTool && step is Tool ==> t.submitted(step).1 is Err && t.submitted(step).0
            == t,
        t.state is WaitingTool && step is Generate ==> t.submitted(step).1 is Ok && t.submitted(
            step,
        ).0.state is Running && t.submitted(step).0.active_step == Some(step),
        t.submitted(step).0.history == t.history,
        t.submitted(step).0.current_prefix == t.current_prefix,
{
}

/// An outcome for another step than the active one, or for none, is refused and
/// not recorded.
pub proof fn law_foreign_outcome_refused(t: TrajectoryView, outcome: StepOutcomeView)
    requires
        t.active_step is None || t.active_step.unwrap().id() != outcome.step_id(),
    ensures
        t.completed(outcome).1 is Err,
        t.completed(outcome).0.history == t.history,
        t.completed(outcome).0.state == t.state,
{
}

/// The latest outcome is the last that the history has, and there is none where
/// it has none.
pub proof fn law_latest_outcome(t: TrajectoryView)
    ensures
        match t.latest_outcome() {
            Some(o) => exists|i: int|
                {
                    &&& 0 <= i < t.history.len()
                    &&& (#[trigger] t.history[i]).outcome == Some(o)
                    &&& forall|j: int|
                        i < j < t.history.len() ==> (#[trigger] t.history[j]).outcome is None
                },
            None => forall|j: int|
                0 <= j < t.history.len() ==> (#[trigger] t.history[j]).outcome is None,
        },
    decreases t.history.len(),
{
    if t.history.len() > 0 {
        let last = t.history.len() - 1;
        if t.history.last().outcome is Some {
            assert(t.history[last].outcome == t.history.last().outcome);
        } else {
            let front = TrajectoryView { history: t.history.drop_last(), ..t };
            law_latest_outcome(front);
            assert(forall|j: int|
                0 <= j < front.history.len() ==> #[trigger] front.history[j] == t.history[j]);
            match front.latest_outcome() {
                Some(o) => {
                    let i = choose|i: int|
                        {
                            &&& 0 <= i < front.history.len()
                            &&& (#[trigger] front.history[i]).outcome == Some(o)
                            &&& forall|j: int|
                                i < j < front.history.len() ==> (
                                #[trigger] front.history[j]).outcome is None
                        };
                    assert(t.history[i].outcome == Some(o));
                    assert forall|j: int| i < j < t.history.len() implies (
                    #[trigger] t.history[j]).outcome is None by {
                        if j < last {
                            assert(front.history[j] == t.history[j]);
                        }
                    }
                },
                None => {
                    assert forall|j: int| 0 <= j < t.history.len() implies (
                    #[trigger] t.history[j]).outcome is None by {
                        if j < last {
                            assert(front.history[j] == t.history[j]);
                        }
                    }
                },
            }
        }
    }
}

/// While a tool is waited for, a generate step ends the wait, a control step
/// does not, and another tool is refused; elsewhere a tool begins a wait.
pub proof fn law_states_of_steps(t: TrajectoryView, step: StepView)
    ensures
        t.state is WaitingTool && step is Generate ==> t.submitted(step).0.state is Running,
        t.state is WaitingTool && step is Control ==> t.submitted(step).0.state is WaitingTool
            && t.submitted(step).1 is Ok,
        t.state is WaitingTool && step is Tool ==> t.submitted(step).1 is Err && t.submitted(step).0
            == t,
        (t.state is Running || t.state is Created || t.state is Suspended) && step is Tool
            ==> t.submitted(step).0.state is WaitingTool,
        (t.state is Running || t.state is Created || t.state is Suspended) && !(step is Tool)
            ==> t.submitted(step).0.state is Running,
{
}

} // verus!
