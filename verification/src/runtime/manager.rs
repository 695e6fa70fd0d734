//! The live trajectories.
use dashmap::DashMap;
use vstd::prelude::*;

use crate::error;
use crate::error::{TrajectError, TrajectErrorView};
use crate::ids;
use crate::ids::TrajectoryId;
use crate::policy::traits::{Policy, PolicyDecision, PolicyDecisionView};
use crate::runtime::state_machine;
use crate::runtime::state_machine::{apply_transition, Transition};
use crate::step::{Step, StepOutcome, StepView};
use crate::trajectory;
use crate::trajectory::{Moved, Trajectory, TrajectoryConfig, TrajectoryView};

verus! {

/// `dashmap::DashMap`, a concurrent hash map.
#[verifier::external_type_specification]
#[verifier::external_body]
#[verifier::reject_recursive_types(K)]
#[verifier::reject_recursive_types(V)]
#[verifier::reject_recursive_types(S)]
pub struct ExDashMap<K, V, S>(dashmap::DashMap<K, V, S>);

/// What a table holds.
pub uninterp spec fn table(m: DashMap<u128, Trajectory>) -> Map<u128, Trajectory>;

/// `DashMap::new`: a table without entries.
#[verifier::external_body]
fn empty_table() -> (res: DashMap<u128, Trajectory>)
    ensures
        table(res) == (Map::<u128, Trajectory>::empty()),
{
    DashMap::new()
}

/// `DashMap::insert`: puts the value under the key, in place of what was there.
#[verifier::external_body]
fn put(m: &mut DashMap<u128, Trajectory>, id: u128, t: Trajectory)
    ensures
        table(*final(m)) == table(*old(m)).insert(id, t),
{
    m.insert(id, t);
}

/// `DashMap::remove`: takes the entry out and gives its value.
#[verifier::external_body]
fn take_out(m: &mut DashMap<u128, Trajectory>, id: u128) -> (res: Option<Trajectory>)
    ensures
        table(*final(m)) == table(*old(m)).remove(id),
        match res {
            Some(t) => table(*old(m)).dom().contains(id) && t == table(*old(m))[id],
            None => !table(*old(m)).dom().contains(id),
        },
{
    m.remove(&id).map(|entry| entry.1)
}

/// `DashMap::get`: a copy of the value under the key.
#[verifier::external_body]
fn copy_of(m: &DashMap<u128, Trajectory>, id: u128) -> (res: Option<Trajectory>)
    ensures
        match res {
            Some(t) => table(*m).dom().contains(id) && t@ == table(*m)[id]@,
            None => !table(*m).dom().contains(id),
        },
{
    m.get(&id).map(|t| t.value().clone())
}

/// `DashMap::len`: the number of entries.
#[verifier::external_body]
fn count(m: &DashMap<u128, Trajectory>) -> (res: usize)
    ensures
        res == table(*m).dom().len(),
{
    m.len()
}

/// The live trajectories, by the number of their id.
pub type Trajectories = Map<u128, TrajectoryView>;

/// The answer where there is no such trajectory.
pub open spec fn missing(id: TrajectoryId) -> TrajectErrorView {
    TrajectErrorView::TrajectoryNotFound(id)
}

/// What an operation `f` on one trajectory does to all of them, and answers.
pub open spec fn on_one(
    all: Trajectories,
    id: TrajectoryId,
    f: spec_fn(TrajectoryView) -> Moved,
) -> (Trajectories, Result<(), TrajectErrorView>) {
    if all.dom().contains(id.0) {
        let (t, r) = f(all[id.0]);
        (all.insert(id.0, t), r)
    } else {
        (all, Err(missing(id)))
    }
}

/// What the policy is to be asked about a trajectory.
#[derive(Debug)]
pub enum Question {
    /// Nothing: this step is still pending.
    Pending(Step),
    /// What to do after this outcome.
    After(StepOutcome),
    /// How to begin.
    Begin,
}

/// What a trajectory calls for: nothing while a step is pending after a first
/// outcome, a follow-up to its latest outcome, or a beginning.
pub open spec fn asks(t: TrajectoryView, q: Question) -> bool {
    match t.latest_outcome() {
        None => q is Begin,
        Some(outcome) => match t.active_step {
            Some(step) => q matches Question::Pending(s) && s@ == step,
            None => q matches Question::After(o) && o@ == outcome,
        },
    }
}

/// What a decision does to a trajectory.
pub open spec fn decided(t: TrajectoryView, d: PolicyDecisionView) -> Moved {
    match d {
        PolicyDecisionView::NextStep(step) => t.submitted(step),
        PolicyDecisionView::Finish => t.finished(),
        PolicyDecisionView::Fail(reason) => t.failed(reason),
    }
}

/// The answer to a decision: the error that refused it, or its step.
pub open spec fn answered(
    answer: Result<(), TrajectErrorView>,
    d: PolicyDecisionView,
) -> Result<Option<StepView>, TrajectErrorView> {
    match answer {
        Err(e) => Err(e),
        Ok(_) => Ok(
            match d {
                PolicyDecisionView::NextStep(step) => Some(step),
                _ => None,
            },
        ),
    }
}

/// What may come of asking a policy about `id`: nothing where a step is
/// pending, else what some decision does, or some error and no change.
pub open spec fn advanced(
    all: Trajectories,
    id: TrajectoryId,
    after: Trajectories,
    res: Result<Option<StepView>, TrajectErrorView>,
) -> bool {
    if !all.dom().contains(id.0) {
        after == all && res == Err::<Option<StepView>, TrajectErrorView>(missing(id))
    } else if all[id.0].latest_outcome() is Some && all[id.0].active_step is Some {
        after == all && res == Ok::<Option<StepView>, TrajectErrorView>(all[id.0].active_step)
    } else {
        ||| after == all && res is Err
        ||| exists|d: PolicyDecisionView|
            {
                let (t, answer) = #[trigger] decided(all[id.0], d);
                after == all.insert(id.0, t) && res == answered(answer, d)
            }
    }
}

/// What comes of a policy's answer about `id`: its decision is settled, or its
/// error changes nothing.
pub open spec fn obeyed(
    all: Trajectories,
    id: TrajectoryId,
    answer: Result<PolicyDecision, TrajectError>,
    after: Trajectories,
    res: Result<Option<StepView>, TrajectErrorView>,
) -> bool {
    match answer {
        Ok(d) => {
            let (t, moved) = decided(all[id.0], d@);
            after == all.insert(id.0, t) && res == answered(moved, d@)
        },
        Err(e) => after == all && res == Err::<Option<StepView>, TrajectErrorView>(e@),
    }
}

/// Owns all live trajectories and coordinates policy → step submission.
pub struct TrajectoryManager {
    trajectories: DashMap<u128, Trajectory>,
}

impl View for TrajectoryManager {
    type V = Trajectories;

    closed spec fn view(&self) -> Trajectories {
        table(self.trajectories).map_values(|t: Trajectory| t@)
    }
}

/// The view of a result that may carry a step.
pub open spec fn step_res(r: Result<Option<Step>, TrajectError>) -> Result<
    Option<StepView>,
    TrajectErrorView,
> {
    match r {
        Ok(s) => Ok(trajectory::opt_step(s)),
        Err(e) => Err(e@),
    }
}

impl TrajectoryManager {
    pub fn new() -> (res: Self)
        ensures
            res@ == Map::<u128, TrajectoryView>::empty(),
    {
        let res = TrajectoryManager { trajectories: empty_table() };
        assert(res@ =~= Map::<u128, TrajectoryView>::empty());
        res
    }

    /// A new trajectory, under a fresh random id.
    pub fn create(&mut self, config: TrajectoryConfig) -> (res: TrajectoryId)
        ensures
            ids::is_random_id(res.0),
            final(self)@ == old(self)@.insert(res.0, TrajectoryView::created(res, config@)),
    {
        let traj = Trajectory::create(config);
        let id = traj.id;
        put(&mut self.trajectories, id.0, traj);
        assert(self@ =~= old(self)@.insert(id.0, TrajectoryView::created(id, config@)));
        id
    }

    pub fn get(&self, id: TrajectoryId) -> (res: Result<Trajectory, TrajectError>)
        ensures
            match res {
                Ok(t) => self@.dom().contains(id.0) && t@ == self@[id.0],
                Err(e) => !self@.dom().contains(id.0) && e@ == missing(id),
            },
    {
        match copy_of(&self.trajectories, id.0) {
            Some(t) => Ok(t),
            None => Err(TrajectError::TrajectoryNotFound(id)),
        }
    }

    /// Hands the trajectory to `f` to change it, and gives what `f` gives.
    pub fn with_mut<R, F: FnOnce(&mut Trajectory) -> R>(&mut self, id: TrajectoryId, f: F) -> (res:
        Result<R, TrajectError>)
        requires
            forall|t: &mut Trajectory| call_requires(f, (t,)),
        ensures
            res is Ok <==> old(self)@.dom().contains(id.0),
            res is Ok ==> final(self)@ == old(self)@.insert(id.0, final(self)@[id.0]),
            res is Ok ==> exists|t: &mut Trajectory| #[trigger]
                call_ensures(f, (t,), res->Ok_0) && (*t)@ == old(self)@[id.0] && (*final(t))@
                    == final(self)@[id.0],
            res matches Err(e) ==> e@ == missing(id) && final(self)@ == old(self)@,
    {
        let mut t = match take_out(&mut self.trajectories, id.0) {
            Some(t) => t,
            None => {
                assert(self@ =~= old(self)@);
                return Err(TrajectError::TrajectoryNotFound(id));
            },
        };
        let r = f(&mut t);
        let ghost now = t@;
        put(&mut self.trajectories, id.0, t);
        assert(self@ =~= old(self)@.insert(id.0, now));
        let res: Result<R, TrajectError> = Ok(r);
        assert(res->Ok_0 == r);
        res
    }

    /// Puts a trajectory in the place of the one under `id`.
    pub fn replace(&mut self, id: TrajectoryId, t: Trajectory)
        ensures
            final(self)@ == old(self)@.insert(id.0, t@),
    {
        let ghost now = t@;
        put(&mut self.trajectories, id.0, t);
        assert(self@ =~= old(self)@.insert(id.0, now));
    }

    pub fn start(&mut self, id: TrajectoryId) -> (res: Result<(), TrajectError>)
        ensures
            (final(self)@, error::res_view(res)) == on_one(
                old(self)@,
                id,
                |t: TrajectoryView| state_machine::followed(t, Transition::Start),
            ),
    {
        let mut t = match take_out(&mut self.trajectories, id.0) {
            Some(t) => t,
            None => {
                assert(self@ =~= old(self)@);
                return Err(TrajectError::TrajectoryNotFound(id));
            },
        };
        let res = apply_transition(&mut t, Transition::Start);
        let ghost now = t@;
        put(&mut self.trajectories, id.0, t);
        assert(self@ =~= old(self)@.insert(id.0, now));
        res
    }

    pub fn submit_step(&mut self, id: TrajectoryId, step: Step) -> (res: Result<(), TrajectError>)
        ensures
            (final(self)@, error::res_view(res)) == on_one(
                old(self)@,
                id,
                |t: TrajectoryView| t.submitted(step@),
            ),
    {
        let mut t = match take_out(&mut self.trajectories, id.0) {
            Some(t) => t,
            None => {
                assert(self@ =~= old(self)@);
                return Err(TrajectError::TrajectoryNotFound(id));
            },
        };
        let res = t.submit_step(step);
        let ghost now = t@;
        put(&mut self.trajectories, id.0, t);
        assert(self@ =~= old(self)@.insert(id.0, now));
        res
    }

    pub fn complete_step(&mut self, id: TrajectoryId, outcome: StepOutcome) -> (res: Result<
        (),
        TrajectError,
    >)
        ensures
            (final(self)@, error::res_view(res)) == on_one(
                old(self)@,
                id,
                |t: TrajectoryView| t.completed(outcome@),
            ),
    {
        let mut t = match take_out(&mut self.trajectories, id.0) {
            Some(t) => t,
            None => {
                assert(self@ =~= old(self)@);
                return Err(TrajectError::TrajectoryNotFound(id));
            },
        };
        let res = t.complete_step(outcome);
        let ghost now = t@;
        put(&mut self.trajectories, id.0, t);
        assert(self@ =~= old(self)@.insert(id.0, now));
        res
    }

    pub fn finish(&mut self, id: TrajectoryId) -> (res: Result<(), TrajectError>)
        ensures
            (final(self)@, error::res_view(res)) == on_one(
                old(self)@,
                id,
                |t: TrajectoryView| t.finished(),
            ),
    {
        let mut t = match take_out(&mut self.trajectories, id.0) {
            Some(t) => t,
            None => {
                assert(self@ =~= old(self)@);
                return Err(TrajectError::TrajectoryNotFound(id));
            },
        };
        let res = t.finish();
        let ghost now = t@;
        put(&mut self.trajectories, id.0, t);
        assert(self@ =~= old(self)@.insert(id.0, now));
        res
    }

    pub fn fail(&mut self, id: TrajectoryId, reason: &str) -> (res: Result<(), TrajectError>)
        ensures
            (final(self)@, error::res_view(res)) == on_one(
                old(self)@,
                id,
                |t: TrajectoryView| t.failed(reason@),
            ),
    {
        let mut t = match take_out(&mut self.trajectories, id.0) {
            Some(t) => t,
            None => {
                assert(self@ =~= old(self)@);
                return Err(TrajectError::TrajectoryNotFound(id));
            },
        };
        let res = t.fail(reason);
        let ghost now = t@;
        put(&mut self.trajectories, id.0, t);
        assert(self@ =~= old(self)@.insert(id.0, now));
        res
    }

    pub fn is_finished(&self, id: TrajectoryId) -> (res: Result<bool, TrajectError>)
        ensures
            match res {
                Ok(b) => self@.dom().contains(id.0) && b == self@[id.0].state.terminal(),
                Err(e) => !self@.dom().contains(id.0) && e@ == missing(id),
            },
    {
        match self.get(id) {
            Ok(t) => Ok(t.is_finished()),
            Err(e) => Err(e),
        }
    }

    pub fn remove(&mut self, id: TrajectoryId) -> (res: Option<Trajectory>)
        ensures
            final(self)@ == old(self)@.remove(id.0),
            match res {
                Some(t) => old(self)@.dom().contains(id.0) && t@ == old(self)@[id.0],
                None => !old(self)@.dom().contains(id.0),
            },
    {
        let res = take_out(&mut self.trajectories, id.0);
        assert(self@ =~= old(self)@.remove(id.0));
        res
    }

    pub fn len(&self) -> (res: usize)
        ensures
            res == self@.dom().len(),
    {
        assert(self@.dom() =~= table(self.trajectories).dom());
        count(&self.trajectories)
    }

    pub fn is_empty(&self) -> (res: bool)
        ensures
            res == (self@.dom().len() == 0),
    {
        self.len() == 0
    }

    /// What to ask the policy about a trajectory.
    pub fn consult(&self, id: TrajectoryId) -> (res: Result<(Trajectory, Question), TrajectError>)
        ensures
            match res {
                Ok((t, q)) => self@.dom().contains(id.0) && t@ == self@[id.0] && asks(t@, q),
                Err(e) => !self@.dom().contains(id.0) && e@ == missing(id),
            },
    {
        let traj = match self.get(id) {
            Ok(t) => t,
            Err(e) => {
                return Err(e);
            },
        };
        let question = match traj.last_outcome() {
            Some(outcome) => match &traj.active_step {
                Some(step) => Question::Pending(step.clone()),
                None => Question::After(outcome.clone()),
            },
            None => Question::Begin,
        };
        Ok((traj, question))
    }

    /// Does what the policy decided: submits its step, or ends the trajectory.
    pub fn settle(&mut self, id: TrajectoryId, decision: PolicyDecision) -> (res: Result<
        Option<Step>,
        TrajectError,
    >)
        ensures
            final(self)@ == on_one(old(self)@, id, |t: TrajectoryView| decided(t, decision@)).0,
            step_res(res) == answered(
                on_one(old(self)@, id, |t: TrajectoryView| decided(t, decision@)).1,
                decision@,
            ),
    {
        match decision {
            PolicyDecision::NextStep(step) => {
                let copy = step.clone();
                match self.submit_step(id, copy) {
                    Ok(_) => Ok(Some(step)),
                    Err(e) => Err(e),
                }
            },
            PolicyDecision::Finish => match self.finish(id) {
                Ok(_) => Ok(None),
                Err(e) => Err(e),
            },
            PolicyDecision::Fail(reason) => match self.fail(id, reason.as_str()) {
                Ok(_) => Ok(None),
                Err(e) => Err(e),
            },
        }
    }

    /// Ask policy for the next action and apply finish/fail immediately. The
    /// answer is the pending step, or what comes of whatever the policy
    /// decides, or the policy's own error, which changes nothing.
    pub fn advance_with_policy<P: Policy>(&mut self, id: TrajectoryId, policy: &mut P) -> (res:
        Result<Option<Step>, TrajectError>)
        ensures
            advanced(old(self)@, id, final(self)@, step_res(res)),
            old(self)@.dom().contains(id.0) && old(self)@[id.0].latest_outcome() is None ==> exists|
                p: &mut P,
                t: Trajectory,
                a: Result<PolicyDecision, TrajectError>,
            |
                {
                    &&& #[trigger] call_ensures(P::decide, (p, &t), a)
                    &&& *p == *old(policy) && *final(p) == *final(policy)
                    &&& t@ == old(self)@[id.0]
                    &&& obeyed(old(self)@, id, a, final(self)@, step_res(res))
                },
            old(self)@.dom().contains(id.0) && old(self)@[id.0].latest_outcome() is Some && old(
                self,
            )@[id.0].active_step is None ==> exists|
                p: &mut P,
                t: Trajectory,
                o: StepOutcome,
                a: Result<PolicyDecision, TrajectError>,
            |
                {
                    &&& #[trigger] call_ensures(P::on_outcome, (p, &t, &o), a)
                    &&& *p == *old(policy) && *final(p) == *final(policy)
                    &&& t@ == old(self)@[id.0]
                    &&& Some(o@) == old(self)@[id.0].latest_outcome()
                    &&& obeyed(old(self)@, id, a, final(self)@, step_res(res))
                },
            old(self)@.dom().contains(id.0) && old(self)@[id.0].latest_outcome() is Some && old(
                self,
            )@[id.0].active_step is Some ==> *final(policy) == *old(policy),
            !old(self)@.dom().contains(id.0) ==> *final(policy) == *old(policy),
    {
        let (traj, question) = match self.consult(id) {
            Ok(x) => x,
            Err(e) => {
                return Err(e);
            },
        };
        let answer = match question {
            Question::Pending(step) => {
                return Ok(Some(step));
            },
            Question::After(outcome) => policy.on_outcome(&traj, &outcome),
            Question::Begin => policy.decide(&traj),
        };
        match answer {
            Ok(decision) => self.settle(id, decision),
            Err(e) => Err(e),
        }
    }
}

impl Default for TrajectoryManager {
    fn default() -> (res: Self)
        ensures
            res@ == Map::<u128, TrajectoryView>::empty(),
    {
        Self::new()
    }
}

/// What is done to one trajectory leaves every other one as it was.
pub proof fn law_trajectories_apart(
    all: Trajectories,
    id: TrajectoryId,
    f: spec_fn(TrajectoryView) -> Moved,
    other: TrajectoryId,
)
    requires
        id != other,
    ensures
        on_one(all, id, f).0.dom() == all.dom(),
        all.dom().contains(other.0) ==> on_one(all, id, f).0[other.0] == all[other.0],
{
    assert(on_one(all, id, f).0.dom() =~= all.dom());
}

/// A policy is asked how to begin where nothing has come out yet, and what to do
/// after the latest outcome where no step is pending; a pending step waits.
pub proof fn law_what_is_asked(t: TrajectoryView, q: Question)
    requires
        asks(t, q),
    ensures
        t.history.len() == 0 ==> q is Begin,
        t.history.len() > 0 && t.history.last().outcome is Some && t.active_step is None ==> (
        q matches Question::After(o) && Some(o@) == t.history.last().outcome),
        t.history.len() > 0 && t.history.last().outcome is Some && t.active_step is Some ==> (
        q matches Question::Pending(s) && Some(s@) == t.active_step),
{
}

/// A policy's decision is settled on its own trajectory and on no other, and its
/// step is the answer; its error changes nothing and is the answer.
pub proof fn law_policy_is_obeyed(
    all: Trajectories,
    id: TrajectoryId,
    answer: Result<PolicyDecision, TrajectError>,
    after: Trajectories,
    res: Result<Option<StepView>, TrajectErrorView>,
    other: u128,
)
    requires
        all.dom().contains(id.0),
        all[id.0].state is Running,
        obeyed(all, id, answer, after, res),
    ensures
        other != id.0 ==> (after.dom().contains(other) <==> all.dom().contains(other)),
        other != id.0 && all.dom().contains(other) ==> after[other] == all[other],
        answer matches Err(e) ==> after == all && res == Err::<Option<StepView>, TrajectErrorView>(
            e@,
        ),
        answer matches Ok(d) ==> match d@ {
            PolicyDecisionView::NextStep(step) => after[id.0].active_step == Some(step) && res
                == Ok::<Option<StepView>, TrajectErrorView>(Some(step)),
            PolicyDecisionView::Finish => after[id.0].state is Finished && res == Ok::<
                Option<StepView>,
                TrajectErrorView,
            >(None),
            PolicyDecisionView::Fail(reason) => after[id.0].state is Failed && after[id.0].error
                == Some(reason) && res == Ok::<Option<StepView>, TrajectErrorView>(None),
        },
{
}

} // verus!
