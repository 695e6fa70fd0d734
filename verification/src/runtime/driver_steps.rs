//! The driver's steps: queueing them, and generating chunk by chunk.
use vstd::prelude::*;

use crate::error;
use crate::error::{TrajectError, TrajectErrorView};
use crate::ids;
use crate::ids::{PrefixNodeId, StepId, TrajectoryId};
use crate::inference::chunked::{ChunkRequest, ChunkResult};
use crate::inference::engine::GenerateRequest;
use crate::memory::manager::ManagerView;
use crate::runtime::driver::Driver;
use crate::runtime::driver_model;
use crate::runtime::driver_model::DriverView;
use crate::runtime::manager;
use crate::runtime::step_laws;
use crate::scheduler::pinning::pin_for_tool_wait;
use crate::scheduler::priority::{SchedPriority, SchedulableKind};
use crate::scheduler::scheduler::{ReadyStep, TickAction};
use crate::step::{FinishReason, GenerateDelta, Step, StepOutcome, StepOutcomeView};
use crate::text;
use crate::text::decimal;
use crate::trajectory::Trajectory;

verus! {

impl Driver {
    /// Queues the trajectory's step, where it waits for that.
    pub fn enqueue_active(&mut self, id: TrajectoryId) -> (res: Result<(), TrajectError>)
        requires
            old(self).wf(),
        ensures
            final(self).wf(),
            (final(self)@, error::res_view(res)) == old(self)@.queued(id),
    {
        let traj = match self.manager.get(id) {
            Ok(t) => t,
            Err(e) => {
                return Err(e);
            },
        };
        if traj.is_finished() {
            return Ok(());
        }
        let step = match &traj.active_step {
            Some(s) => s.clone(),
            None => {
                return Ok(());
            },
        };
        let step_id = step.id();
        if self.in_flight.get(id, step_id).is_some() {
            return Ok(());
        }
        // Don't double-queue the same step while still sitting in ready.

        if self.scheduler.has_step(id, step_id) {
            return Ok(());
        }
        let decoded: u32 = self.decoded_so_far(id, step_id);
        let kind = urgency_of(&traj, &step, decoded);
        self.scheduler.push_ready(
            ReadyStep {
                trajectory_id: id,
                step,
                priority: SchedPriority::new(kind, traj.priority, traj.fairness_credit),
                decoded_so_far: decoded,
            },
        );
        assert(self@ =~= old(self)@.queued(id).0);
        Ok(())
    }

    pub(crate) fn decoded_so_far(&self, id: TrajectoryId, step_id: StepId) -> (res: u32)
        requires
            self.wf(),
        ensures
            res == self@.decoded(id, step_id),
    {
        match self.decode_progress.get(id, step_id) {
            Some(n) => n,
            None => 0,
        }
    }

    /// Queues the steps of all live trajectories.
    pub fn enqueue_all_ready(&mut self) -> (res: Result<(), TrajectError>)
        requires
            old(self).wf(),
        ensures
            final(self).wf(),
            (final(self)@, error::res_view(res)) == old(self)@.all_queued(old(self)@.live),
    {
        let ids = self.live.to_vec();
        let mut i: usize = 0;
        assert(ids@.take(0) =~= Seq::empty());
        while i < ids.len()
            invariant
                i <= ids@.len(),
                self.wf(),
                ids@ == old(self)@.live,
                (self@, Ok::<(), TrajectErrorView>(())) == old(self)@.all_queued(
                    ids@.take(i as int),
                ),
            decreases ids@.len() - i,
        {
            let ghost next = ids@.take(i + 1);
            assert(next.drop_last() =~= ids@.take(i as int));
            match self.enqueue_active(ids[i]) {
                Ok(_) => {},
                Err(e) => {
                    proof {
                        lemma_queue_stops(old(self)@, ids@, i + 1);
                    }
                    return Err(e);
                },
            }
            i += 1;
        }
        assert(ids@.take(i as int) =~= ids@);
        Ok(())
    }

    /// One scheduler tick at `now`: what to run, with the pins that the
    /// scheduler advises applied.
    pub fn run_tick(&mut self, now: u64) -> (res: Vec<TickAction>)
        requires
            old(self).wf(),
        ensures
            final(self).wf(),
            res@ == old(self)@.sched.filled(now).actions,
            final(self)@ == old(self)@.ticked(now),
    {
        let ghost was = self@;
        let tick = self.scheduler.tick_at(now);
        let ghost start = DriverView { sched: was.sched.ticked(now), ..was };
        let pins = tick.pin_decisions;
        let mut i: usize = 0;
        assert(pins@.take(0) =~= Seq::empty());
        assert(self@ =~= start);
        while i < pins.len()
            invariant
                i <= pins@.len(),
                self.wf(),
                self@ == start.pins_applied(pins@.take(i as int), now),
            decreases pins@.len() - i,
        {
            assert(pins@.take(i + 1).drop_last() =~= pins@.take(i as int));
            let _ = self.apply_pin_decision(&pins[i], now);
            i += 1;
        }
        assert(pins@.take(i as int) =~= pins@);
        tick.actions
    }

    /// Stores tokens for a trajectory, which moves to their end.
    pub(crate) fn store_tokens(&mut self, id: TrajectoryId, tokens: Vec<u32>, now: u64)
        requires
            old(self).wf(),
        ensures
            final(self).wf(),
            old(self)@.may_store(id, tokens@, now, final(self)@),
            final(self)@.has(id) == old(self)@.has(id),
    {
        if tokens.len() == 0 {
            return;
        }
        let ghost was = self@;
        let ghost toks = tokens@;
        let stored = self.memory.append_tokens_at(id, tokens, now);
        let ghost mem = self@.mem;
        let ghost r = crate::memory::manager::node_res(stored);
        assert(self@ =~= was.with_mem(mem));
        if let Ok(node) = stored {
            if let Ok(mut t) = self.manager.get(id) {
                t.bind_prefix(node);
                self.put_back(id, t);
            }
        }
        proof {
            let (room, mid, leaf) = choose|
                room: ManagerView,
                mid: PrefixNodeId,
                leaf: PrefixNodeId,
            | #[trigger]
                was.mem.appended(id, toks, now, room, mid, leaf, mem, r);
            assert(was.mem.appended(id, toks, now, room, mid, leaf, mem, r));
            assert(self@ =~= was.with_stored(id, mem, r));
        }
    }

    /// Begins a chunk of a generate step: a step that has not decoded yet has
    /// its prompt stored, for prefixes to be shared, and the engine's request
    /// is made up. There is none for a step that is active no more.
    pub fn begin_generate(
        &mut self,
        trajectory_id: TrajectoryId,
        step_id: StepId,
        chunk_tokens: u32,
        now: u64,
    ) -> (res: Result<Option<ChunkRequest>, TrajectError>)
        requires
            old(self).wf(),
        ensures
            final(self).wf(),
            begun(old(self)@, trajectory_id, step_id, chunk_tokens, now, final(self)@, res),
    {
        let traj = match self.manager.get(trajectory_id) {
            Ok(t) => t,
            Err(e) => {
                return Err(e);
            },
        };
        let (delta, constraints, max_tokens) = match traj.active_step {
            Some(Step::Generate { id, delta, constraints, max_tokens }) => {
                if id != step_id {
                    return Ok(None);
                }
                (delta, constraints, max_tokens)
            },
            // Gone, or stale after the policy has advanced.
            _ => {
                return Ok(None);
            },
        };
        let ghost step = old(self)@.traj(trajectory_id).active_step.unwrap();
        let decoded: u32 = self.decoded_so_far(trajectory_id, step_id);
        if decoded == 0 {
            let tokens = tokens_of_prompt(&delta);
            self.store_tokens(trajectory_id, tokens, now);
        }
        let ghost mid = self@;
        let prefix = match self.manager.get(trajectory_id) {
            Ok(t) => t.current_prefix,
            Err(e) => {
                return Err(e);
            },
        };
        let session_id = match self.session_text(trajectory_id) {
            Some(s) => Some(s),
            None => Some(trajectory_id.to_text()),
        };
        let prefix_hint = self.memory.engine_prefix_hint(trajectory_id);
        let req = GenerateRequest {
            trajectory_id,
            step_id,
            prefix,
            delta,
            constraints,
            max_tokens,
            session_id,
            prefix_hint,
        };
        assert(req@ == mid.request(trajectory_id, step_id, step));
        Ok(Some(self.engine.run_chunk(&req, chunk_tokens, decoded)))
    }

    /// Takes in a chunk of a generate step that had decoded `decoded_so_far`
    /// tokens: progress, cache hits and tokens are noted, and a finished step
    /// is completed. Gives whether the policy is to be asked what next.
    pub fn finish_generate(
        &mut self,
        trajectory_id: TrajectoryId,
        step_id: StepId,
        decoded_so_far: u32,
        chunk: ChunkResult,
        now: u64,
        later: u64,
    ) -> (res: Result<bool, TrajectError>)
        requires
            old(self).wf(),
        ensures
            final(self).wf(),
            exists|stored: DriverView|
                {
                    &&& #[trigger] old(self)@.progressed(
                        trajectory_id,
                        step_id,
                        decoded_so_far,
                        chunk@.tokens_produced,
                    ).hits_noted(trajectory_id, chunk@.cache_hit_tokens, now).may_store(
                        trajectory_id,
                        chunk@.token_ids,
                        now,
                        stored,
                    )
                    &&& asked_after(
                        stored.chunk_done(trajectory_id, step_id, chunk@, later),
                        chunk@.finished && !stored.external.contains(trajectory_id),
                        final(self)@,
                        res,
                    )
                },
            old(self)@.has(trajectory_id) && chunk.finished && (old(self)@.traj(
                trajectory_id,
            ).active_step matches Some(step) && step.id() == step_id) ==> res is Ok && (
            final(self)@.traj(trajectory_id).history.last().outcome matches Some(
                StepOutcomeView::Generated { step_id: s, text: said, token_ids, .. },
            ) && s == step_id && said == chunk.text@ && token_ids == chunk.token_ids@),
    {
        broadcast use vstd::std_specs::hash::group_hash_axioms;

        let ghost was = self@;
        let ghost c = chunk@;
        let next: u32 = decoded_so_far.saturating_add(chunk.tokens_produced);
        self.decode_progress.insert(trajectory_id, step_id, next);
        let ghost s1 = was.progressed(trajectory_id, step_id, decoded_so_far, c.tokens_produced);
        assert(self@ =~= s1);
        let hits: u32 = chunk.cache_hit_tokens;
        if hits > 0 {
            let _ = self.memory.note_cache_hit(trajectory_id, hits, now);
            let before: u32 = match self.cache_hits.get(&trajectory_id.0) {
                Some(n) => *n,
                None => 0,
            };
            let total: u32 = before.saturating_add(hits);
            self.cache_hits.insert(trajectory_id.0, total);
            let last = decimal(hits as u64);
            let sum = decimal(total as u64);
            if let Ok(mut t) = self.manager.get(trajectory_id) {
                t.memory.set_slot("last_cache_hit_tokens", last.as_str());
                t.memory.set_slot("total_cache_hit_tokens", sum.as_str());
                self.put_back(trajectory_id, t);
            }
        }
        let ghost s2 = s1.hits_noted(trajectory_id, hits, now);
        assert(self@ =~= s2);
        let tokens = chunk.token_ids.clone();
        assert(tokens@ =~= c.token_ids);
        self.store_tokens(trajectory_id, tokens, now);
        let ghost stored = self@;
        if !chunk.finished {
            // Still decoding — eligible as an active decode by its progress.
            self.in_flight.remove(trajectory_id, step_id);
            assert(self@ =~= stored.landed(trajectory_id, step_id));
            let res = Ok(false);
            assert(asked_after(
                stored.chunk_done(trajectory_id, step_id, c, later),
                false,
                self@,
                res,
            ));
            return res;
        }
        proof {
            if was.has(trajectory_id) && (was.traj(trajectory_id).active_step matches Some(step)
                && step.id() == step_id) {
                step_laws::law_finished_chunk_is_recorded(
                    was,
                    trajectory_id,
                    step_id,
                    decoded_so_far,
                    c,
                    now,
                    stored,
                    later,
                );
            }
        }
        self.decode_progress.remove(trajectory_id, step_id);
        self.in_flight.remove(trajectory_id, step_id);
        let finish_reason = match chunk.finish_reason {
            Some(r) => r,
            None => FinishReason::Stop,
        };
        let tool_name: Option<String> = match &chunk.tool_call {
            Some(call) => Some(call.name.clone()),
            None => None,
        };
        let ghost s3 = DriverView {
            decode: stored.decode.remove((trajectory_id, step_id)),
            ..stored.landed(trajectory_id, step_id)
        };
        assert(self@ =~= s3);
        let outcome = StepOutcome::Generated {
            step_id,
            text: chunk.text,
            token_ids: chunk.token_ids,
            finish_reason,
            tool_call: chunk.tool_call,
        };
        assert(outcome@ == DriverView::generated(step_id, c));
        match self.manager.complete_step(trajectory_id, outcome) {
            Ok(_) => {},
            Err(e) => {
                let res = Err(e);
                assert(asked_after(
                    stored.chunk_done(trajectory_id, step_id, c, later),
                    !stored.external.contains(trajectory_id),
                    self@,
                    res,
                ));
                return res;
            },
        }
        assert(self.wf());
        self.bump_fairness(trajectory_id, 1);
        if let Some(name) = tool_name {
            self.tool_pin_started.insert(trajectory_id.0, later);
            let p95 = self.tool_latency.p95_for(Some(name.as_str()));
            let traj = match self.manager.get(trajectory_id) {
                Ok(t) => t,
                Err(e) => {
                    return Err(e);
                },
            };
            let decision = pin_for_tool_wait(&traj, later, self.scheduler.pin_policy(), p95);
            match self.apply_pin_decision(&decision, later) {
                Ok(_) => {},
                Err(e) => {
                    return Err(e);
                },
            }
        }
        let ask = !self.external.contains(trajectory_id);
        let res = Ok(ask);
        assert(asked_after(
            stored.chunk_done(trajectory_id, step_id, c, later),
            !stored.external.contains(trajectory_id),
            self@,
            res,
        ));
        res
    }
}

/// How urgent a trajectory's step is.
fn urgency_of(traj: &Trajectory, step: &Step, decoded: u32) -> (res: SchedulableKind)
    ensures
        res == driver_model::urgency(traj@, step@, decoded),
{
    match step {
        Step::Tool { .. } => SchedulableKind::Tool,
        Step::Control { .. } => SchedulableKind::NormalNew,
        Step::Generate { .. } => {
            if decoded > 0 {
                return SchedulableKind::ActiveDecode;
            }
            let n: usize = traj.history.len();
            let mut any = false;
            let mut i: usize = 0;
            while i < n
                invariant
                    i <= n,
                    n == traj.history@.len(),
                    any <==> exists|j: int|
                        0 <= j < i && (#[trigger] traj@.history[j]).outcome matches Some(
                            StepOutcomeView::ToolDone { .. },
                        ),
                decreases n - i,
            {
                assert(traj@.history[i as int] == traj.history@[i as int]@);
                if matches!(traj.history[i].outcome, Some(StepOutcome::ToolDone { .. })) {
                    any = true;
                }
                i += 1;
            }
            assert(any == driver_model::tool_done(traj@.history));
            if n > 0 {
                assert(traj@.history.last() == traj.history@[n - 1]@);
                let last_is_tool = match &traj.history[n - 1].outcome {
                    Some(StepOutcome::ToolDone { .. }) => true,
                    Some(_) => false,
                    None => true,
                };
                if any && last_is_tool {
                    return SchedulableKind::PostToolGenerate;
                }
                SchedulableKind::NormalNew
            } else if traj.priority.0 >= 10 {
                SchedulableKind::HighPriorityNew
            } else {
                SchedulableKind::NormalNew
            }
        },
    }
}

/// The tokens that stand for a prompt.
fn tokens_of_prompt(delta: &GenerateDelta) -> (res: Vec<u32>)
    ensures
        res@ == driver_model::prompt_tokens(delta@),
{
    match &delta.text {
        Some(text) => {
            let bytes = text.as_str().as_bytes();
            let mut res: Vec<u32> = Vec::new();
            let mut i: usize = 0;
            while i < bytes.len()
                invariant
                    i <= bytes@.len(),
                    res@ == bytes@.take(i as int).map_values(|b: u8| b as u32),
                decreases bytes@.len() - i,
            {
                res.push(bytes[i] as u32);
                assert(bytes@.take(i + 1) =~= bytes@.take(i as int).push(bytes@[i as int]));
                i += 1;
            }
            assert(bytes@.take(i as int) =~= bytes@);
            res
        },
        None => {
            let res = delta.token_ids.clone();
            assert(res@ =~= delta.token_ids@);
            res
        },
    }
}

/// Where one of a queue's trajectories is missing, those behind it are not
/// queued.
proof fn lemma_queue_stops(s: DriverView, ids: Seq<TrajectoryId>, i: int)
    requires
        0 <= i <= ids.len(),
        s.all_queued(ids.take(i)).1 is Err,
    ensures
        s.all_queued(ids) == s.all_queued(ids.take(i)),
    decreases ids.len(),
{
    if i == ids.len() {
        assert(ids.take(i) =~= ids);
    } else {
        let front = ids.drop_last();
        assert(front.take(i) =~= ids.take(i));
        lemma_queue_stops(s, front, i);
    }
}

/// What beginning a chunk does and answers.
pub open spec fn begun(
    d: DriverView,
    id: TrajectoryId,
    step_id: StepId,
    chunk_tokens: u32,
    now: u64,
    after: DriverView,
    res: Result<Option<ChunkRequest>, TrajectError>,
) -> bool {
    if !d.has(id) {
        after == d && (res matches Err(e) && e@ == manager::missing(id))
    } else {
        match d.generating(id, step_id) {
            None => after == d && (res matches Ok(r) && r is None),
            Some(step) => {
                &&& if d.decoded(id, step_id) == 0 {
                    d.may_store(id, driver_model::prompt_tokens(step->delta), now, after)
                } else {
                    after == d
                }
                &&& res matches Ok(Some(r)) && r@ == after.request(id, step_id, step).chunk(
                    chunk_tokens,
                    d.decoded(id, step_id),
                )
            },
        }
    }
}

/// An operation that ends with the question whether to ask the policy: `ask`
/// where it succeeds.
pub open spec fn asked_after(
    done: (DriverView, Result<(), TrajectErrorView>),
    ask: bool,
    after: DriverView,
    res: Result<bool, TrajectError>,
) -> bool {
    &&& after == done.0
    &&& match done.1 {
        Ok(_) => res matches Ok(b) && b == ask,
        Err(e) => res matches Err(x) && x@ == e,
    }
}

} // verus!
