//! The driver: many trajectories, one scheduler, one memory.
use std::collections::HashMap;
use vstd::prelude::*;

use crate::error;
use crate::error::{TrajectError, TrajectErrorView};
use crate::ids;
use crate::ids::TrajectoryId;
use crate::inference::engine::InferenceEngine;
use crate::memory::manager::MemoryManager;
use crate::pin;
use crate::pin::{PinInfo, PinReason};
use crate::ratio::Milli;
use crate::runtime::books::{IdSet, StepTable};
use crate::runtime::driver_model;
use crate::runtime::driver_model::{DriverConfig, DriverView, EngineCommandView};
use crate::runtime::manager;
use crate::runtime::manager::TrajectoryManager;
use crate::scheduler::latency::ToolLatencyTracker;
use crate::scheduler::pinning;
use crate::scheduler::pinning::apply_pin;
use crate::scheduler::priority::{PinAction, PinDecision};
use crate::scheduler::scheduler::{Scheduler, SchedulerConfig};
use crate::step::{StepOutcome, StepOutcomeView};
use crate::text;
use crate::trajectory::{Trajectory, TrajectoryConfig, TrajectoryView};

verus! {

impl Default for DriverConfig {
    fn default() -> (res: Self)
        ensures
            res.max_ticks == 1024,
            res.block_capacity == 4096,
            res.eviction_pressure == Milli(900),
            res.scheduler.pin_policy.wf(),
            call_ensures(SchedulerConfig::default, (), res.scheduler),
    {
        DriverConfig {
            scheduler: SchedulerConfig::default(),
            max_ticks: 1024,
            block_capacity: 4096,
            eviction_pressure: Milli(900),
        }
    }
}

/// What the engine's prefix cache is to be told.
#[derive(Debug)]
pub enum EngineCommand {
    Pin {
        prefix: String,
        session: Option<String>,
        trajectory: String,
        ttl_ms: u64,
        reason: String,
    },
    Unpin { prefix: String },
    Free { prefix: String, session: Option<String> },
}

impl View for EngineCommand {
    type V = EngineCommandView;

    open spec fn view(&self) -> EngineCommandView {
        match *self {
            EngineCommand::Pin { prefix, session, trajectory, ttl_ms, reason } =>
                EngineCommandView::Pin {
                prefix: prefix@,
                session: text::opt_chars(session),
                trajectory: trajectory@,
                ttl_ms,
                reason: reason@,
            },
            EngineCommand::Unpin { prefix } => EngineCommandView::Unpin { prefix: prefix@ },
            EngineCommand::Free { prefix, session } => EngineCommandView::Free {
                prefix: prefix@,
                session: text::opt_chars(session),
            },
        }
    }
}

/// `balance + delta`, as far as the counter goes.
fn credit(balance: i64, delta: i64) -> (res: i64)
    ensures
        res == driver_model::credited(balance, delta),
{
    match balance.checked_add(delta) {
        Some(sum) => sum,
        None => if delta > 0 {
            i64::MAX
        } else {
            i64::MIN
        },
    }
}

/// The view of a result that carries an outcome.
pub open spec fn outcome_res(r: Result<StepOutcome, TrajectError>) -> Result<
    StepOutcomeView,
    TrajectErrorView,
> {
    match r {
        Ok(o) => Ok(o@),
        Err(e) => Err(e@),
    }
}

/// Multi-trajectory driver: scheduler + memory + inference + tools.
///
/// It decides; whoever runs it asks the model, runs the tools and sends the
/// engine what stands in the outbox.
///
/// Two drive modes:
/// - **Policy-driven**: a policy submits next steps.
/// - **External**: an outside agent submits each step; the driver still owns
///   scheduling, pin, prefix and inference.
pub struct Driver {
    pub manager: TrajectoryManager,
    pub scheduler: Scheduler,
    pub memory: MemoryManager,
    pub engine: InferenceEngine,
    pub config: DriverConfig,
    pub decode_progress: StepTable<u32>,
    /// Steps already handed to executors (avoid double enqueue / double spawn).
    pub in_flight: StepTable<()>,
    /// Live trajectories the driver is responsible for.
    pub live: IdSet,
    /// Externally-driven trajectories: do not auto-advance via policy.
    pub external: IdSet,
    /// Accumulated engine cache hits per trajectory (mirrors the memory's session).
    pub cache_hits: HashMap<u128, u32>,
    /// Rolling tool latency samples → pin TTL (p95).
    pub tool_latency: ToolLatencyTracker,
    /// When a tool gap pin started (ms), for latency measurement.
    pub tool_pin_started: HashMap<u128, u64>,
    /// Whether the engine takes prefix commands.
    pub engine_prefix: bool,
    /// What the engine is to be told, in this order.
    pub outbox: Vec<EngineCommand>,
}

impl View for Driver {
    type V = DriverView;

    open spec fn view(&self) -> DriverView {
        DriverView {
            trajs: self.manager@,
            sched: self.scheduler@,
            mem: self.memory@,
            config: self.config,
            decode: self.decode_progress@,
            in_flight: self.in_flight@,
            live: self.live@,
            external: self.external@,
            cache_hits: self.cache_hits@,
            latency: self.tool_latency@,
            pin_started: self.tool_pin_started@,
            engine_prefix: self.engine_prefix,
            outbox: self.outbox@.map_values(|c: EngineCommand| c@),
        }
    }
}

impl Driver {
    /// The parts are in order.
    pub open spec fn wf(self) -> bool {
        &&& self@.wf()
        &&& self.decode_progress.wf()
        &&& self.in_flight.wf()
        &&& self.tool_latency.wf()
    }

    /// A driver without trajectories, in the default configuration.
    pub open spec fn is_default(self) -> bool {
        &&& self.wf()
        &&& call_ensures(DriverConfig::default, (), self@.config)
        &&& crate::memory::manager::root_only(self@.mem.tree)
        &&& self.engine == (InferenceEngine {
            default_chunk: self@.config.scheduler.chunk_tokens,
        })
        &&& self@ == DriverView::fresh(self@.config, self@.mem.tree)
    }

    /// A driver without trajectories. The pin policy's bounds have to be in
    /// order, and the blocks countable.
    pub fn new(config: DriverConfig) -> (res: Self)
        requires
            config.scheduler.pin_policy.wf(),
            config.block_capacity < usize::MAX,
        ensures
            res.wf(),
            crate::memory::manager::root_only(res@.mem.tree),
            res.engine == (InferenceEngine { default_chunk: config.scheduler.chunk_tokens }),
            res@ == DriverView::fresh(config, res@.mem.tree),
    {
        let res = Driver {
            manager: TrajectoryManager::new(),
            scheduler: Scheduler::new(config.scheduler),
            memory: MemoryManager::new(config.block_capacity),
            engine: InferenceEngine::new(config.scheduler.chunk_tokens),
            config,
            decode_progress: StepTable::new(),
            in_flight: StepTable::new(),
            live: IdSet::new(),
            external: IdSet::new(),
            cache_hits: HashMap::new(),
            tool_latency: ToolLatencyTracker::new(),
            tool_pin_started: HashMap::new(),
            engine_prefix: false,
            outbox: Vec::new(),
        };
        assert(res@.outbox =~= Seq::empty());
        res
    }

    /// Collect prefix commands for the engine from now on.
    pub fn set_engine_prefix_client(&mut self)
        ensures
            final(self)@ == (DriverView { engine_prefix: true, ..old(self)@ }),
            old(self).wf() ==> final(self).wf(),
    {
        self.engine_prefix = true;
    }

    /// Hands out the commands that were collected.
    pub fn take_outbox(&mut self) -> (res: Vec<EngineCommand>)
        ensures
            res@.map_values(|c: EngineCommand| c@) == old(self)@.outbox,
            final(self)@ == (DriverView { outbox: Seq::empty(), ..old(self)@ }),
            old(self).wf() ==> final(self).wf(),
    {
        let mut res: Vec<EngineCommand> = Vec::new();
        std::mem::swap(&mut res, &mut self.outbox);
        assert(self@ =~= (DriverView { outbox: Seq::empty(), ..old(self)@ }));
        res
    }

    pub(crate) fn post(&mut self, command: EngineCommand)
        ensures
            final(self)@ == old(self)@.posted(command@),
            old(self).wf() ==> final(self).wf(),
    {
        if self.engine_prefix {
            let ghost c = command@;
            self.outbox.push(command);
            assert(self@ =~= old(self)@.posted(c));
        }
    }

    /// Puts a changed trajectory in its place.
    pub(crate) fn put_back(&mut self, id: TrajectoryId, t: Trajectory)
        requires
            old(self)@.has(id),
        ensures
            final(self)@ == old(self)@.with_traj(id, t@),
            old(self).wf() && t@.id == id ==> final(self).wf(),
    {
        let ghost now = t@;
        self.manager.replace(id, t);
        assert(self@ =~= old(self)@.with_traj(id, now));
    }

    /// Session of a trajectory.
    pub(crate) fn session_text(&self, id: TrajectoryId) -> (res: Option<String>)
        ensures
            text::opt_chars(res) == self@.mem.session(id),
    {
        match self.memory.session_id(id) {
            Some(s) => Some(s.to_string()),
            None => None,
        }
    }

    fn spawn_engine_pin(&mut self, id: TrajectoryId, until_ms: u64, reason: PinReason, now: u64)
        ensures
            final(self)@ == old(self)@.pin_posted(id, until_ms, reason, now),
            old(self).wf() ==> final(self).wf(),
    {
        let prefix = match self.memory.engine_prefix_hint(id) {
            Some(p) => p,
            None => {
                return;
            },
        };
        let session = self.session_text(id);
        let ttl: u64 = until_ms.saturating_sub(now);
        let ttl_ms: u64 = if ttl < 500 {
            500
        } else {
            ttl
        };
        let trajectory = id.to_text();
        let reason = reason.name();
        self.post(EngineCommand::Pin { prefix, session, trajectory, ttl_ms, reason });
    }

    fn spawn_engine_unpin(&mut self, id: TrajectoryId)
        ensures
            final(self)@ == old(self)@.unpin_posted(id),
            old(self).wf() ==> final(self).wf(),
    {
        match self.memory.engine_prefix_hint(id) {
            Some(prefix) => {
                self.post(EngineCommand::Unpin { prefix });
            },
            None => {},
        }
    }

    pub(crate) fn apply_pin_decision(&mut self, decision: &PinDecision, now: u64) -> (res: Result<
        (),
        TrajectError,
    >)
        requires
            old(self).wf(),
        ensures
            final(self).wf(),
            (final(self)@, error::res_view(res)) == old(self)@.pin_applied(*decision, now),
    {
        let id = decision.trajectory_id;
        let mut t = match self.manager.get(id) {
            Ok(t) => t,
            Err(e) => {
                return Err(e);
            },
        };
        let ghost was = self@;
        apply_pin(&mut t, decision);
        self.put_back(id, t);
        let ghost s = was.with_traj(id, pinning::pinned(was.traj(id), *decision));
        assert(self@ == s);
        match &decision.action {
            PinAction::Pin { until_ms, reason, strength } => {
                let pin = PinInfo::pin_until(*until_ms, *reason, *strength);
                let _ = self.memory.pin_trajectory(id, pin);
                assert(self@ =~= s.with_mem(s.mem.with_leaf_pin(id, pin)));
                self.spawn_engine_pin(id, *until_ms, *reason, now);
            },
            PinAction::Unpin => {
                let _ = self.memory.unpin_trajectory(id);
                assert(self@ =~= s.with_mem(s.mem.with_leaf_pin(id, pin::no_pin())));
                self.spawn_engine_unpin(id);
            },
            PinAction::Keep(info) => {
                let _ = self.memory.pin_trajectory(id, *info);
                assert(self@ =~= s.with_mem(s.mem.with_leaf_pin(id, *info)));
            },
        }
        Ok(())
    }

    pub(crate) fn bump_fairness(&mut self, id: TrajectoryId, delta: i64)
        requires
            old(self).wf(),
        ensures
            final(self).wf(),
            final(self)@ == old(self)@.favoured(id, delta),
    {
        match self.manager.get(id) {
            Ok(mut t) => {
                t.fairness_credit = credit(t.fairness_credit, delta);
                self.put_back(id, t);
            },
            Err(_) => {},
        }
    }

    /// Every trajectory is driven, live and bound to the root from the start.
    pub fn create_trajectory(&mut self, config: TrajectoryConfig) -> (res: TrajectoryId)
        requires
            old(self).wf(),
        ensures
            final(self).wf(),
            ids::is_random_id(res.0),
            final(self)@ == old(self)@.with_new(res, TrajectoryView::created(res, config@)),
    {
        let ghost was = self@;
        let ghost cfg = config@;
        let id = self.manager.create(config);
        let root = self.memory.root_id();
        let _ = self.memory.bind_trajectory(id, root);
        let name = id.to_text();
        self.memory.bind_session(id, name.as_str());
        if let Ok(mut t) = self.manager.get(id) {
            t.bind_prefix(root);
            self.put_back(id, t);
        }
        self.live.insert(id);
        assert(self@.trajs =~= was.with_new(id, TrajectoryView::created(id, cfg)).trajs);
        assert(self@ =~= was.with_new(id, TrajectoryView::created(id, cfg)));
        id
    }

    /// Create a trajectory owned by an external agent. Policy will not
    /// auto-advance.
    pub fn create_external_trajectory(&mut self, config: TrajectoryConfig) -> (res: TrajectoryId)
        requires
            old(self).wf(),
        ensures
            final(self).wf(),
            ids::is_random_id(res.0),
            final(self)@ == old(self)@.with_new(
                res,
                TrajectoryView::created(res, config@),
            ).adopted(res),
    {
        let id = self.create_trajectory(config);
        let ghost mid = self@;
        self.external.insert(id);
        assert(mid.live.contains(id)) by {
            let before = old(self)@.live;
            if !before.contains(id) {
                assert(before.push(id)[before.len() as int] == id);
            }
        }
        assert(self@ =~= mid.adopted(id));
        id
    }

    pub fn is_external(&self, id: TrajectoryId) -> (res: bool)
        ensures
            res == self@.external.contains(id),
    {
        self.external.contains(id)
    }

    pub fn cache_hit_tokens(&self, id: TrajectoryId) -> (res: u32)
        ensures
            res == (if self@.cache_hits.dom().contains(id.0) {
                self@.cache_hits[id.0]
            } else if self@.mem.sessions.dom().contains(id.0) {
                self@.mem.sessions[id.0].total_cache_hit_tokens
            } else {
                0
            }),
    {
        broadcast use vstd::std_specs::hash::group_hash_axioms;

        match self.cache_hits.get(&id.0) {
            Some(n) => *n,
            None => self.memory.total_cache_hits(id),
        }
    }

    pub(crate) fn cleanup_trajectory(&mut self, id: TrajectoryId)
        requires
            old(self).wf(),
        ensures
            final(self).wf(),
            final(self)@ == old(self)@.cleaned(id),
    {
        broadcast use vstd::std_specs::hash::group_hash_axioms;

        // Best-effort free of the leaf engine handle when the trajectory ends.
        if let Some(prefix) = self.memory.engine_prefix_hint(id) {
            let session = self.session_text(id);
            self.post(EngineCommand::Free { prefix, session });
        }
        self.memory.release_trajectory(id);
        self.live.remove(id);
        self.external.remove(id);
        self.cache_hits.remove(&id.0);
        self.tool_pin_started.remove(&id.0);
        self.in_flight.forget(id);
        self.decode_progress.forget(id);
        assert(self@ =~= old(self)@.cleaned(id));
    }

    pub fn finish_trajectory(&mut self, id: TrajectoryId) -> (res: Result<(), TrajectError>)
        requires
            old(self).wf(),
        ensures
            final(self).wf(),
            (final(self)@, error::res_view(res)) == old(self)@.ended(id),
    {
        match self.manager.finish(id) {
            Ok(_) => {
                self.cleanup_trajectory(id);
                Ok(())
            },
            Err(e) => Err(e),
        }
    }
}

} // verus!
