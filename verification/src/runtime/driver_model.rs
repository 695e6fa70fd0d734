//! What the driver does, stated over the states of its parts.
use vstd::prelude::*;

use crate::error::TrajectErrorView;
use crate::ids;
use crate::ids::{StepId, TrajectoryId};
use crate::inference::chunked::ChunkResultView;
use crate::inference::engine::GenerateRequestView;
use crate::memory::manager::ManagerView;
use crate::memory::prefix_tree::TreeView;
use crate::pin;
use crate::pin::PinReason;
use crate::ratio::Milli;
use crate::runtime::books;
use crate::runtime::books::StepKey;
use crate::runtime::manager;
use crate::runtime::manager::Trajectories;
use crate::scheduler::latency::TrackerView;
use crate::scheduler::pinning;
use crate::scheduler::priority;
use crate::scheduler::priority::{PinAction, PinDecision, SchedPriority, SchedulableKind};
use crate::scheduler::scheduler::{ReadyStepView, SchedulerConfig, SchedulerView, TickAction};
use crate::step::{
    FinishReason, GenerateDeltaView, StepOutcomeView, StepView, ToolCallView, ToolResultView,
};
use crate::text;
use crate::trajectory::{StepRecordView, TrajectoryView};

verus! {

#[derive(Debug, Clone, Copy, PartialEq, Eq, Structural)]
pub struct DriverConfig {
    pub scheduler: SchedulerConfig,
    pub max_ticks: usize,
    pub block_capacity: usize,
    pub eviction_pressure: Milli,
}

/// What the engine's prefix cache is to be told.
pub enum EngineCommandView {
    Pin {
        prefix: Seq<char>,
        session: Option<Seq<char>>,
        trajectory: Seq<char>,
        ttl_ms: u64,
        reason: Seq<char>,
    },
    Unpin { prefix: Seq<char> },
    Free { prefix: Seq<char>, session: Option<Seq<char>> },
}

/// The driver's state.
#[verifier::ext_equal]
pub struct DriverView {
    pub trajs: Trajectories,
    pub sched: SchedulerView,
    pub mem: ManagerView,
    pub config: DriverConfig,
    pub decode: Map<StepKey, u32>,
    pub in_flight: Map<StepKey, ()>,
    pub live: Seq<TrajectoryId>,
    pub external: Seq<TrajectoryId>,
    pub cache_hits: Map<u128, u32>,
    pub latency: TrackerView,
    pub pin_started: Map<u128, u64>,
    pub engine_prefix: bool,
    pub outbox: Seq<EngineCommandView>,
}

/// A driver after an operation, and the operation's answer.
pub type Driven = (DriverView, Result<(), TrajectErrorView>);

/// The time between two readings of the clock; none where it went back.
pub open spec fn elapsed(start: u64, now: u64) -> u64 {
    if now >= start {
        (now - start) as u64
    } else {
        0
    }
}

/// `credit + delta`, as far as the counter goes.
pub open spec fn credited(credit: i64, delta: i64) -> i64 {
    if credit + delta > i64::MAX {
        i64::MAX
    } else if credit + delta < i64::MIN {
        i64::MIN
    } else {
        (credit + delta) as i64
    }
}

/// A step's outcome is among those of `history`.
pub open spec fn tool_done(history: Seq<StepRecordView>) -> bool {
    exists|i: int| 0 <= i < history.len() && (#[trigger] history[i]).outcome matches Some(
        StepOutcomeView::ToolDone { .. },
    )
}

/// How urgent a trajectory's step is: one that has begun to decode most of
/// all, then a generate step that follows a tool, then one that begins a
/// trajectory of priority 10 or more.
pub open spec fn urgency(t: TrajectoryView, step: StepView, decoded: u32) -> SchedulableKind {
    match step {
        StepView::Tool { .. } => SchedulableKind::Tool,
        StepView::Control { .. } => SchedulableKind::NormalNew,
        StepView::Generate { .. } => {
            let last_is_tool = t.history.len() > 0 && match t.history.last().outcome {
                Some(StepOutcomeView::ToolDone { .. }) => true,
                Some(_) => false,
                None => true,
            };
            if decoded > 0 {
                SchedulableKind::ActiveDecode
            } else if tool_done(t.history) && last_is_tool {
                SchedulableKind::PostToolGenerate
            } else if t.history.len() == 0 && t.priority.0 >= 10 {
                SchedulableKind::HighPriorityNew
            } else {
                SchedulableKind::NormalNew
            }
        },
    }
}

/// The tokens that stand for a prompt: its bytes, or the ids it came with.
pub open spec fn prompt_tokens(delta: GenerateDeltaView) -> Seq<u32> {
    match delta.text {
        Some(t) => vstd::utf8::encode_utf8(t).map_values(|b: u8| b as u32),
        None => delta.token_ids,
    }
}

/// The latest outcome of a step in a history.
pub open spec fn outcome_of(history: Seq<StepRecordView>, step_id: StepId) -> Option<
    StepOutcomeView,
>
    decreases history.len(),
{
    if history.len() == 0 {
        None
    } else {
        match history.last().outcome {
            Some(o) if o.step_id() == step_id => Some(o),
            _ => outcome_of(history.drop_last(), step_id),
        }
    }
}

impl DriverView {
    /// A driver without trajectories, over a tree of prefixes.
    pub open spec fn fresh(config: DriverConfig, tree: TreeView) -> DriverView {
        DriverView {
            trajs: Map::empty(),
            sched: SchedulerView::fresh(config.scheduler),
            mem: crate::memory::manager::fresh(tree, config.block_capacity),
            config,
            decode: Map::empty(),
            in_flight: Map::empty(),
            live: Seq::empty(),
            external: Seq::empty(),
            cache_hits: Map::empty(),
            latency: TrackerView::blank(),
            pin_started: Map::empty(),
            engine_prefix: false,
            outbox: Seq::empty(),
        }
    }

    pub open spec fn has(self, id: TrajectoryId) -> bool {
        self.trajs.dom().contains(id.0)
    }

    pub open spec fn traj(self, id: TrajectoryId) -> TrajectoryView {
        self.trajs[id.0]
    }

    /// Every trajectory stands under its own id, and the parts are in order.
    pub open spec fn wf(self) -> bool {
        &&& self.mem.wf()
        &&& self.sched.config.pin_policy.wf()
        &&& forall|k: u128| #[trigger]
            self.trajs.dom().contains(k) ==> self.trajs[k].id == TrajectoryId(k)
    }

    /// With the trajectory replaced, where it is there.
    pub open spec fn with_traj(self, id: TrajectoryId, t: TrajectoryView) -> DriverView {
        if self.has(id) {
            DriverView { trajs: self.trajs.insert(id.0, t), ..self }
        } else {
            self
        }
    }

    pub open spec fn with_mem(self, mem: ManagerView) -> DriverView {
        DriverView { mem, ..self }
    }

    /// With one more command for the engine, where it takes any.
    pub open spec fn posted(self, command: EngineCommandView) -> DriverView {
        if self.engine_prefix {
            DriverView { outbox: self.outbox.push(command), ..self }
        } else {
            self
        }
    }

    /// Tells the engine to keep the trajectory's prefix until `until_ms`, for
    /// half a second at least.
    pub open spec fn pin_posted(
        self,
        id: TrajectoryId,
        until_ms: u64,
        reason: PinReason,
        now: u64,
    ) -> DriverView {
        match self.mem.hint(id) {
            Some(prefix) => self.posted(
                EngineCommandView::Pin {
                    prefix,
                    session: self.mem.session(id),
                    trajectory: ids::hyphenated(id.0),
                    ttl_ms: if elapsed(now, until_ms) < 500 {
                        500
                    } else {
                        elapsed(now, until_ms)
                    },
                    reason: reason.label(),
                },
            ),
            None => self,
        }
    }

    /// Tells the engine to let the trajectory's prefix go.
    pub open spec fn unpin_posted(self, id: TrajectoryId) -> DriverView {
        match self.mem.hint(id) {
            Some(prefix) => self.posted(EngineCommandView::Unpin { prefix }),
            None => self,
        }
    }

    /// Applies a pin decision: to the trajectory, to its leaf, and to the
    /// engine.
    pub open spec fn pin_applied(self, d: PinDecision, now: u64) -> Driven {
        let id = d.trajectory_id;
        if !self.has(id) {
            (self, Err(manager::missing(id)))
        } else {
            let s = self.with_traj(id, pinning::pinned(self.traj(id), d));
            (
                match d.action {
                    PinAction::Pin { until_ms, reason, strength } => s.with_mem(
                        s.mem.with_leaf_pin(id, pinning::pin_after(d.action)),
                    ).pin_posted(id, until_ms, reason, now),
                    PinAction::Unpin => s.with_mem(
                        s.mem.with_leaf_pin(id, pin::no_pin()),
                    ).unpin_posted(id),
                    PinAction::Keep(info) => s.with_mem(s.mem.with_leaf_pin(id, info)),
                },
                Ok(()),
            )
        }
    }

    /// Applies all the decisions that can be applied, one after the other.
    pub open spec fn pins_applied(self, ds: Seq<PinDecision>, now: u64) -> DriverView
        decreases ds.len(),
    {
        if ds.len() == 0 {
            self
        } else {
            self.pins_applied(ds.drop_last(), now).pin_applied(ds.last(), now).0
        }
    }

    /// The pin for a wait for a tool.
    pub open spec fn tool_pin(self, id: TrajectoryId, now: u64, p95: Option<u64>) -> PinDecision {
        PinDecision {
            trajectory_id: id,
            action: PinAction::Pin {
                until_ms: pinning::later(now, self.sched.config.pin_policy.ttl(p95)),
                reason: PinReason::WaitingTool,
                strength: 2,
            },
        }
    }

    /// The pin for the generate step that follows a tool.
    pub open spec fn prefetch_pin(self, id: TrajectoryId, now: u64) -> PinDecision {
        let policy = self.sched.config.pin_policy;
        PinDecision {
            trajectory_id: id,
            action: PinAction::Pin {
                until_ms: pinning::later(
                    now,
                    priority::within(
                        policy.base_ttl_ms as int / 2,
                        policy.min_ttl_ms as int,
                        policy.max_ttl_ms as int,
                    ),
                ),
                reason: PinReason::Prefetch,
                strength: 1,
            },
        }
    }

    /// With more fairness credit for the trajectory.
    pub open spec fn favoured(self, id: TrajectoryId, delta: i64) -> DriverView {
        self.with_traj(
            id,
            TrajectoryView {
                fairness_credit: credited(self.traj(id).fairness_credit, delta),
                ..self.traj(id)
            },
        )
    }

    /// A new trajectory: bound to the root, with a session of its own name,
    /// and live.
    pub open spec fn with_new(self, id: TrajectoryId, t: TrajectoryView) -> DriverView {
        let root = self.mem.tree.root.unwrap();
        DriverView {
            trajs: self.trajs.insert(
                id.0,
                TrajectoryView { current_prefix: Some(root), ..t },
            ),
            mem: self.mem.with_binding(id, root).with_session(id, ids::hyphenated(id.0)),
            live: books::joined(self.live, id),
            ..self
        }
    }

    /// Driven from outside, and live.
    pub open spec fn adopted(self, id: TrajectoryId) -> DriverView {
        DriverView {
            live: books::joined(self.live, id),
            external: books::joined(self.external, id),
            ..self
        }
    }

    /// Without what was kept for a trajectory that has ended; the engine is
    /// told to free its prefix.
    pub open spec fn cleaned(self, id: TrajectoryId) -> DriverView {
        let s = match self.mem.hint(id) {
            Some(prefix) => self.posted(
                EngineCommandView::Free { prefix, session: self.mem.session(id) },
            ),
            None => self,
        };
        DriverView {
            mem: self.mem.without(id),
            live: books::left(self.live, id),
            external: books::left(self.external, id),
            cache_hits: self.cache_hits.remove(id.0),
            pin_started: self.pin_started.remove(id.0),
            in_flight: books::without(self.in_flight, id),
            decode: books::without(self.decode, id),
            ..s
        }
    }

    /// Ends a trajectory and cleans up after it; one that cannot end is not
    /// cleaned up after.
    pub open spec fn ended(self, id: TrajectoryId) -> Driven {
        let (trajs, r) = manager::on_one(self.trajs, id, |t: TrajectoryView| t.finished());
        let s = DriverView { trajs, ..self };
        match r {
            Ok(_) => (s.cleaned(id), Ok(())),
            Err(e) => (s, Err(e)),
        }
    }

    /// How many tokens of a step have been decoded.
    pub open spec fn decoded(self, id: TrajectoryId, step_id: StepId) -> u32 {
        if self.decode.dom().contains((id, step_id)) {
            self.decode[(id, step_id)]
        } else {
            0
        }
    }

    /// The trajectory's step waits for the scheduler: the trajectory is not at
    /// its end, has a step, and the step is neither being run nor queued.
    pub open spec fn to_queue(self, id: TrajectoryId) -> bool {
        let t = self.traj(id);
        &&& !t.state.terminal()
        &&& t.active_step matches Some(step) && !self.in_flight.dom().contains((id, step.id()))
            && !self.sched.queued(id, step.id())
    }

    /// With the trajectory's step queued, where it waits for that.
    pub open spec fn queued(self, id: TrajectoryId) -> Driven {
        if !self.has(id) {
            (self, Err(manager::missing(id)))
        } else if !self.to_queue(id) {
            (self, Ok(()))
        } else {
            let t = self.traj(id);
            let step = t.active_step.unwrap();
            let decoded = self.decoded(id, step.id());
            (
                DriverView {
                    sched: SchedulerView {
                        ready: self.sched.ready.push(
                            ReadyStepView {
                                trajectory_id: id,
                                step,
                                priority: SchedPriority {
                                    kind: urgency(t, step, decoded),
                                    trajectory_priority: t.priority,
                                    fairness_credit: t.fairness_credit,
                                },
                                decoded_so_far: decoded,
                            },
                        ),
                        ..self.sched
                    },
                    ..self
                },
                Ok(()),
            )
        }
    }

    /// With the steps of all of `ids` queued, up to one that is missing.
    pub open spec fn all_queued(self, ids: Seq<TrajectoryId>) -> Driven
        decreases ids.len(),
    {
        if ids.len() == 0 {
            (self, Ok(()))
        } else {
            let (s, r) = self.all_queued(ids.drop_last());
            match r {
                Ok(_) => s.queued(ids.last()),
                Err(e) => (s, Err(e)),
            }
        }
    }

    /// After a scheduler tick at `now`: the queue is gone through, and the pins
    /// that the scheduler advises are applied.
    pub open spec fn ticked(self, now: u64) -> DriverView {
        DriverView { sched: self.sched.ticked(now), ..self }.pins_applied(
            self.sched.filled(now).pins,
            now,
        )
    }

    /// After an attempt to store tokens that left `mem` and answered `r`: the
    /// trajectory moves to the leaf.
    pub open spec fn with_stored(
        self,
        id: TrajectoryId,
        mem: ManagerView,
        r: Result<ids::PrefixNodeId, TrajectErrorView>,
    ) -> DriverView {
        match r {
            Ok(node) => self.with_mem(mem).with_traj(
                id,
                TrajectoryView { current_prefix: Some(node), ..self.traj(id) },
            ),
            Err(_) => self.with_mem(mem),
        }
    }

    /// `after` may be what storing `tokens` for a trajectory leaves.
    pub open spec fn may_store(
        self,
        id: TrajectoryId,
        tokens: Seq<u32>,
        now: u64,
        after: DriverView,
    ) -> bool {
        if tokens.len() == 0 {
            after == self
        } else {
            exists|
                room: ManagerView,
                mid: ids::PrefixNodeId,
                leaf: ids::PrefixNodeId,
                mem: ManagerView,
                r: Result<ids::PrefixNodeId, TrajectErrorView>,
            |
                {
                    &&& #[trigger] self.mem.appended(id, tokens, now, room, mid, leaf, mem, r)
                    &&& ids::is_random_id(mid.0)
                    &&& ids::is_random_id(leaf.0)
                    &&& after == self.with_stored(id, mem, r)
                }
        }
    }

    /// What the engine is asked for: the step as it stands, in the
    /// trajectory's session, from its present prefix.
    pub open spec fn request(
        self,
        id: TrajectoryId,
        step_id: StepId,
        step: StepView,
    ) -> GenerateRequestView
        recommends
            step is Generate,
    {
        GenerateRequestView {
            trajectory_id: id,
            step_id,
            prefix: self.traj(id).current_prefix,
            delta: step->delta,
            constraints: step->constraints,
            max_tokens: step->max_tokens,
            session_id: Some(
                match self.mem.session(id) {
                    Some(s) => s,
                    None => ids::hyphenated(id.0),
                },
            ),
            prefix_hint: self.mem.hint(id),
        }
    }

    /// The generate step that an action is about, while it is still the
    /// trajectory's active one.
    pub open spec fn generating(self, id: TrajectoryId, step_id: StepId) -> Option<StepView> {
        match self.traj(id).active_step {
            Some(step) if step is Generate && step.id() == step_id => Some(step),
            _ => None,
        }
    }

    /// Notes the tokens of a chunk.
    pub open spec fn progressed(
        self,
        id: TrajectoryId,
        step_id: StepId,
        decoded: u32,
        produced: u32,
    ) -> DriverView {
        DriverView {
            decode: self.decode.insert(
                (id, step_id),
                crate::memory::manager::plus(decoded, produced),
            ),
            ..self
        }
    }

    /// The cache hits of a trajectory so far.
    pub open spec fn hits_of(self, id: TrajectoryId) -> u32 {
        if self.cache_hits.dom().contains(id.0) {
            self.cache_hits[id.0]
        } else {
            0
        }
    }

    /// Notes cache hits: with the memory, with the trajectory's total, and in
    /// its slots.
    pub open spec fn hits_noted(self, id: TrajectoryId, hits: u32, now: u64) -> DriverView {
        if hits == 0 {
            self
        } else {
            let total = crate::memory::manager::plus(self.hits_of(id), hits);
            let t = self.traj(id);
            DriverView { cache_hits: self.cache_hits.insert(id.0, total), ..self }.with_mem(
                self.mem.with_hits(id, hits, now),
            ).with_traj(
                id,
                TrajectoryView {
                    memory: t.memory.with_slot(
                        "last_cache_hit_tokens"@,
                        text::dec(hits as nat),
                    ).with_slot("total_cache_hit_tokens"@, text::dec(total as nat)),
                    ..t
                },
            )
        }
    }

    /// The outcome of a finished generate step.
    pub open spec fn generated(step_id: StepId, chunk: ChunkResultView) -> StepOutcomeView {
        StepOutcomeView::Generated {
            step_id,
            text: chunk.text,
            token_ids: chunk.token_ids,
            finish_reason: match chunk.finish_reason {
                Some(r) => r,
                None => FinishReason::Stop,
            },
            tool_call: chunk.tool_call,
        }
    }

    /// A step is run no more.
    pub open spec fn landed(self, id: TrajectoryId, step_id: StepId) -> DriverView {
        DriverView { in_flight: self.in_flight.remove((id, step_id)), ..self }
    }

    /// After a chunk, once its tokens have been stored. An unfinished step goes
    /// on decoding. A finished one is completed and credited, and where the
    /// model calls a tool the prefix is pinned for the wait.
    pub open spec fn chunk_done(
        self,
        id: TrajectoryId,
        step_id: StepId,
        chunk: ChunkResultView,
        later: u64,
    ) -> Driven {
        if !chunk.finished {
            (self.landed(id, step_id), Ok(()))
        } else {
            let s = DriverView {
                decode: self.decode.remove((id, step_id)),
                ..self.landed(id, step_id)
            };
            let (trajs, r) = manager::on_one(
                s.trajs,
                id,
                |t: TrajectoryView| t.completed(Self::generated(step_id, chunk)),
            );
            let s = DriverView { trajs, ..s };
            match r {
                Err(e) => (s, Err(e)),
                Ok(_) => {
                    let s = s.favoured(id, 1);
                    match chunk.tool_call {
                        None => (s, Ok(())),
                        Some(call) => DriverView {
                            pin_started: s.pin_started.insert(id.0, later),
                            ..s
                        }.pin_applied(s.tool_pin(id, later, s.latency.p95(Some(call.name))), later),
                    }
                },
            }
        }
    }

    /// Marks a tool step as being run.
    pub open spec fn launched(self, id: TrajectoryId, step_id: StepId) -> DriverView {
        DriverView { in_flight: self.in_flight.insert((id, step_id), ()), ..self }
    }

    /// Completes a control step: its payload is its note.
    pub open spec fn controlled(self, id: TrajectoryId, step_id: StepId) -> Driven {
        if !self.has(id) {
            (self, Err(manager::missing(id)))
        } else {
            match self.traj(id).active_step {
                None => (self, Err(TrajectErrorView::StepNotFound(step_id))),
                Some(StepView::Control { kind, payload, .. }) => {
                    let (t, r) = self.traj(id).completed(
                        StepOutcomeView::ControlDone { step_id, kind, note: payload },
                    );
                    (self.with_traj(id, t), r)
                },
                Some(_) => (self, Err(TrajectErrorView::Other("expected control step"@))),
            }
        }
    }

    /// Takes the measure of a tool's run that began with a pin.
    pub open spec fn measured(self, id: TrajectoryId, tool: Seq<char>, now: u64) -> DriverView {
        if self.pin_started.dom().contains(id.0) {
            DriverView {
                pin_started: self.pin_started.remove(id.0),
                latency: self.latency.recorded(tool, elapsed(self.pin_started[id.0], now)),
                ..self
            }
        } else {
            self
        }
    }

    /// Without pins on the trajectory and its leaf.
    pub open spec fn unpinned(self, id: TrajectoryId) -> DriverView {
        self.with_traj(
            id,
            TrajectoryView { pin: pin::no_pin(), ..self.traj(id) },
        ).with_mem(self.mem.with_leaf_pin(id, pin::no_pin()))
    }

    /// After a tool's result: the step is completed, the pin for the wait gives
    /// way to one for the generate step to come, and the trajectory is
    /// credited.
    pub open spec fn tool_returned(
        self,
        id: TrajectoryId,
        step_id: StepId,
        result: ToolResultView,
        now: u64,
    ) -> Driven {
        let s = self.landed(id, step_id).measured(id, result.name, now);
        let (trajs, r) = manager::on_one(
            s.trajs,
            id,
            |t: TrajectoryView| t.completed(StepOutcomeView::ToolDone { step_id, result }),
        );
        let s = DriverView { trajs, ..s };
        match r {
            Err(e) => (s, Err(e)),
            Ok(_) => {
                let s = s.unpinned(id);
                (s.pin_applied(s.prefetch_pin(id, now), now).0.favoured(id, 5), Ok(()))
            },
        }
    }

    /// After a tool's failure: the trajectory fails with its message, and is
    /// cleaned up after; one that cannot fail any more is not.
    pub open spec fn tool_failed(
        self,
        id: TrajectoryId,
        step_id: StepId,
        e: TrajectErrorView,
    ) -> Driven {
        let s = self.landed(id, step_id);
        let (trajs, r) = manager::on_one(
            s.trajs,
            id,
            |t: TrajectoryView| t.failed(e.text()),
        );
        let s = DriverView { trajs, ..s };
        match r {
            Err(x) => (s, Err(x)),
            Ok(_) => (s.cleaned(id), Ok(())),
        }
    }

    /// Gives up the trajectory's pin where pressure allows it: one that has run
    /// out, or a weak one.
    pub open spec fn relaxed(self, id: TrajectoryId, now: u64) -> DriverView {
        if self.has(id) && (!self.traj(id).pin.holds(now) || self.traj(id).pin.strength < 2) {
            let s = self.with_traj(id, TrajectoryView { pin: pin::no_pin(), ..self.traj(id) });
            match self.traj(id).current_prefix {
                Some(node) => s.with_mem(s.mem.with_pin(node, pin::no_pin())),
                None => s,
            }
        } else {
            self
        }
    }

    pub open spec fn all_relaxed(self, ids: Seq<TrajectoryId>, now: u64) -> DriverView
        decreases ids.len(),
    {
        if ids.len() == 0 {
            self
        } else {
            self.all_relaxed(ids.drop_last(), now).relaxed(ids.last(), now)
        }
    }

    /// Under pressure the pins that may go are given up.
    pub open spec fn eased(self, now: u64) -> DriverView {
        if self.mem.gpu.load().reaches(self.config.eviction_pressure) {
            self.all_relaxed(self.live, now)
        } else {
            self
        }
    }

    /// Tells the engine to free all of `handles`.
    pub open spec fn frees_posted(self, handles: Seq<Seq<char>>) -> DriverView
        decreases handles.len(),
    {
        if handles.len() == 0 {
            self
        } else {
            self.frees_posted(handles.drop_last()).posted(
                EngineCommandView::Free { prefix: handles.last(), session: None },
            )
        }
    }

    /// `after` may be what is left after pressure has been eased: pins are
    /// given up, nodes are evicted, and the engine is told.
    pub open spec fn may_ease(self, now: u64, after: DriverView) -> bool {
        let s = self.eased(now);
        exists|gone: Seq<ids::PrefixNodeId>|
            {
                &&& #[trigger] s.mem.evicts(gone, now, self.config.eviction_pressure)
                &&& after == s.with_mem(s.mem.all_freed(gone)).frees_posted(s.mem.handles(gone))
            }
    }

    /// A tool that an outside agent has already run, recorded as a step.
    pub open spec fn tool_recorded(
        self,
        id: TrajectoryId,
        step_id: StepId,
        call: ToolCallView,
        result: ToolResultView,
        timeout_ms: u64,
        now: u64,
        later: u64,
    ) -> (DriverView, Result<StepOutcomeView, TrajectErrorView>) {
        let s = self.adopted(id).measured(id, call.name, now);
        if !s.has(id) {
            (s, Err(manager::missing(id)))
        } else {
            let s = s.pin_applied(s.tool_pin(id, now, s.latency.p95(Some(call.name))), now).0;
            let (t, r) = s.traj(id).submitted(StepView::Tool { id: step_id, call, timeout_ms });
            match r {
                Err(e) => (s, Err(e)),
                Ok(_) => {
                    let outcome = StepOutcomeView::ToolDone { step_id, result };
                    let s = s.with_traj(id, t.completed(outcome).0).unpinned(id);
                    (
                        s.pin_applied(s.prefetch_pin(id, later), later).0.favoured(
                            id,
                            5,
                        ).landed(id, step_id),
                        Ok(outcome),
                    )
                },
            }
        }
    }

    /// Pins the trajectory's prefix for tools that an outside agent runs.
    pub open spec fn gap_pinned(self, id: TrajectoryId, now: u64) -> Driven {
        let s = DriverView { pin_started: self.pin_started.insert(id.0, now), ..self };
        if !s.has(id) {
            (s, Err(manager::missing(id)))
        } else {
            s.pin_applied(
                s.tool_pin(
                    id,
                    now,
                    crate::scheduler::latency::at_percent(s.latency.global, 95),
                ),
                now,
            )
        }
    }
}

/// What a run of the driver is to come to.
#[derive(Debug, Clone, Copy, PartialEq, Eq, Structural)]
pub enum Goal {
    /// The trajectory is at its end.
    Finished(TrajectoryId),
    /// Every live trajectory is at its end.
    Idle,
    /// The step of the trajectory, which an outside agent submitted, is
    /// completed.
    Step(TrajectoryId, StepId),
}

impl DriverView {
    /// After an attempt to hand a tool step to its executor, and what to run:
    /// nothing where it is being run already.
    pub open spec fn tool_begun(self, id: TrajectoryId, step_id: StepId) -> (
        DriverView,
        Result<Option<(ToolCallView, u64)>, TrajectErrorView>,
    ) {
        let s = self.launched(id, step_id);
        if self.in_flight.dom().contains((id, step_id)) {
            (self, Ok(None))
        } else if !self.has(id) {
            (s, Err(manager::missing(id)))
        } else {
            match self.traj(id).active_step {
                None => (s, Err(TrajectErrorView::StepNotFound(step_id))),
                Some(StepView::Tool { call, timeout_ms, .. }) => (s, Ok(Some((call, timeout_ms)))),
                Some(_) => (self, Err(TrajectErrorView::Other("expected tool step"@))),
            }
        }
    }

    /// The first of `ids` that is missing decides; else whether all are at
    /// their end, up to the first that is not.
    pub open spec fn all_ended(self, ids: Seq<TrajectoryId>) -> Result<bool, TrajectErrorView>
        decreases ids.len(),
    {
        if ids.len() == 0 {
            Ok(true)
        } else if !self.has(ids[0]) {
            Err(manager::missing(ids[0]))
        } else if !self.traj(ids[0]).state.terminal() {
            Ok(false)
        } else {
            self.all_ended(ids.drop_first())
        }
    }

    /// A live trajectory without a step, and not at its end.
    pub open spec fn idles(self, id: TrajectoryId) -> bool {
        !self.traj(id).state.terminal() && self.traj(id).active_step is None
    }

    /// Whether a run has come to its goal; a run to the end of a trajectory
    /// then cleans up after it.
    pub open spec fn arrived(self, goal: Goal) -> (DriverView, Result<bool, TrajectErrorView>) {
        match goal {
            Goal::Finished(id) => if !self.has(id) {
                (self, Err(manager::missing(id)))
            } else if self.traj(id).state.terminal() {
                (self.cleaned(id), Ok(true))
            } else {
                (self, Ok(false))
            },
            Goal::Idle => (self, self.all_ended(self.live)),
            Goal::Step(id, step_id) => (self, Ok(false)),
        }
    }

    /// Queues what the goal is about: one trajectory's step, or those of all.
    pub open spec fn queued_for(self, goal: Goal) -> Driven {
        match goal {
            Goal::Step(id, step_id) => self.queued(id),
            _ => self.all_queued(self.live),
        }
    }

    /// Nothing runs and nothing is to come of the step: it has stalled.
    pub open spec fn stalled(self, id: TrajectoryId) -> bool {
        self.traj(id).active_step is None && forall|k: StepKey| !#[trigger]
            self.in_flight.dom().contains(k)
    }
}

/// The trajectory that an action is for.
pub open spec fn whose(action: TickAction) -> TrajectoryId {
    match action {
        TickAction::RunGenerateChunk { trajectory_id, .. } => trajectory_id,
        TickAction::RunTool { trajectory_id, .. } => trajectory_id,
        TickAction::RunControl { trajectory_id, .. } => trajectory_id,
    }
}

/// A run carries out an action unless it is a run for one step and the action
/// is for another trajectory.
pub open spec fn carries_out(goal: Goal, action: TickAction) -> bool {
    match goal {
        Goal::Step(id, step_id) => whose(action) == id,
        _ => true,
    }
}

} // verus!
