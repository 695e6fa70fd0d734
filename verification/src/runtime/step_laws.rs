//! What becomes of steps: what the engine, the tools and the history are told.
use vstd::prelude::*;

use crate::agent_memory;
use crate::error::{TrajectError, TrajectErrorView};
use crate::ids;
use crate::ids::{StepId, TrajectoryId};
use crate::inference::chunked::{ChunkRequest, ChunkResultView};
use crate::pin::PinReason;
use crate::policy::traits::PolicyDecisionView;
use crate::runtime::books;
use crate::runtime::driver_model;
use crate::runtime::driver_model::{DriverView, EngineCommandView, Goal};
use crate::runtime::driver_runs;
use crate::runtime::driver_steps;
use crate::runtime::run::{AskView, RunView, StageView};
use crate::scheduler::pinning;
use crate::scheduler::scheduler::TickAction;
use crate::step::{
    ControlKind, FinishReason, StepOutcomeView, StepView, ToolCallView, ToolResultView,
};
use crate::text;
use crate::trajectory::{StepRecordView, TrajectoryView};

verus! {

/// `stored` is what noting a chunk's progress, hits and tokens may leave.
pub open spec fn taken_in(
    d: DriverView,
    id: TrajectoryId,
    step_id: StepId,
    decoded: u32,
    chunk: ChunkResultView,
    now: u64,
    stored: DriverView,
) -> bool {
    d.progressed(id, step_id, decoded, chunk.tokens_produced).hits_noted(
        id,
        chunk.cache_hit_tokens,
        now,
    ).may_store(id, chunk.token_ids, now, stored)
}

/// Taking a chunk in leaves the trajectory's steps as they are, and its
/// progress noted.
pub(crate) proof fn lemma_taken_in(
    d: DriverView,
    id: TrajectoryId,
    step_id: StepId,
    decoded: u32,
    chunk: ChunkResultView,
    now: u64,
    stored: DriverView,
)
    requires
        d.has(id),
        taken_in(d, id, step_id, decoded, chunk, now, stored),
    ensures
        stored.has(id),
        stored.traj(id).id == d.traj(id).id,
        stored.traj(id).history == d.traj(id).history,
        stored.traj(id).active_step == d.traj(id).active_step,
        stored.traj(id).state == d.traj(id).state,
        stored.traj(id).fairness_credit == d.traj(id).fairness_credit,
        stored.traj(id).priority == d.traj(id).priority,
        stored.decode == d.decode.insert(
            (id, step_id),
            if decoded + chunk.tokens_produced > u32::MAX {
                u32::MAX
            } else {
                (decoded + chunk.tokens_produced) as u32
            },
        ),
        stored.in_flight == d.in_flight,
        stored.external == d.external,
        stored.sched == d.sched,
        stored.latency == d.latency,
{
}

/// A finished chunk completes its step: the one new entry of the history is the
/// step with what the model said, in its words and its tokens, why it ended and
/// what tool it calls. The step is then neither active nor being run nor
/// decoding, and the trajectory is credited.
pub proof fn law_finished_chunk_is_recorded(
    d: DriverView,
    id: TrajectoryId,
    step_id: StepId,
    decoded: u32,
    chunk: ChunkResultView,
    now: u64,
    stored: DriverView,
    later: u64,
)
    requires
        d.has(id),
        d.traj(id).id == id,
        d.traj(id).active_step matches Some(step) && step.id() == step_id,
        chunk.finished,
        taken_in(d, id, step_id, decoded, chunk, now, stored),
    ensures
        ({
            let (after, r) = stored.chunk_done(id, step_id, chunk, later);
            let t = after.traj(id);
            let was = d.traj(id);
            &&& r is Ok
            &&& t.history.len() == was.history.len() + 1
            &&& t.history.drop_last() == was.history
            &&& Some(t.history.last().step) == was.active_step
            &&& t.history.last().outcome matches Some(
                StepOutcomeView::Generated {
                    step_id: s,
                    text: said,
                    token_ids,
                    finish_reason,
                    tool_call,
                },
            ) && {
                &&& s == step_id
                &&& said == chunk.text
                &&& token_ids == chunk.token_ids
                &&& tool_call == chunk.tool_call
                &&& chunk.finish_reason matches Some(why) ==> finish_reason == why
                &&& chunk.finish_reason is None ==> finish_reason == FinishReason::Stop
            }
            &&& t.active_step is None
            &&& t.state == was.state
            &&& !after.in_flight.dom().contains((id, step_id))
            &&& !after.decode.dom().contains((id, step_id))
            &&& was.fairness_credit < i64::MAX ==> t.fairness_credit == was.fairness_credit + 1
        }),
{
    lemma_taken_in(d, id, step_id, decoded, chunk, now, stored);
    let s = DriverView {
        decode: stored.decode.remove((id, step_id)),
        ..stored.landed(id, step_id)
    };
    let t1 = stored.traj(id).completed(DriverView::generated(step_id, chunk)).0;
    let s1 = DriverView { trajs: s.trajs.insert(id.0, t1), ..s };
    let s2 = s1.favoured(id, 1);
    assert(s2.traj(id).history.drop_last() =~= d.traj(id).history);
    assert(s2.traj(id).id == id);
    match chunk.tool_call {
        None => {
            assert(stored.chunk_done(id, step_id, chunk, later).0 == s2);
        },
        Some(call) => {
            let p = s2.tool_pin(id, later, s2.latency.p95(Some(call.name)));
            let s3 = DriverView { pin_started: s2.pin_started.insert(id.0, later), ..s2 };
            assert(stored.chunk_done(id, step_id, chunk, later) == s3.pin_applied(p, later));
            assert(s3.pin_applied(p, later).0.traj(id) == pinning::pinned(s3.traj(id), p));
        },
    }
}

/// A model that calls a tool has its prefix pinned for the wait, for as long as
/// that tool has been seen to take, and the wait is timed from then on.
pub proof fn law_tool_call_pins(
    d: DriverView,
    id: TrajectoryId,
    step_id: StepId,
    decoded: u32,
    chunk: ChunkResultView,
    now: u64,
    stored: DriverView,
    later: u64,
)
    requires
        d.has(id),
        d.traj(id).id == id,
        d.traj(id).active_step matches Some(step) && step.id() == step_id,
        chunk.finished,
        chunk.tool_call is Some,
        taken_in(d, id, step_id, decoded, chunk, now, stored),
    ensures
        ({
            let after = stored.chunk_done(id, step_id, chunk, later).0;
            let ttl = d.sched.config.pin_policy.ttl(d.latency.p95(Some(chunk.tool_call.unwrap().name)));
            &&& after.traj(id).pin.reason == PinReason::WaitingTool
            &&& after.traj(id).pin.strength == 2
            &&& after.traj(id).pin.pin_until_ms == Some(
                if later + ttl > u64::MAX {
                    u64::MAX
                } else {
                    (later + ttl) as u64
                },
            )
            &&& after.pin_started.dom().contains(id.0)
            &&& after.pin_started[id.0] == later
        }),
{
    lemma_taken_in(d, id, step_id, decoded, chunk, now, stored);
    let s = DriverView {
        decode: stored.decode.remove((id, step_id)),
        ..stored.landed(id, step_id)
    };
    let t1 = stored.traj(id).completed(DriverView::generated(step_id, chunk)).0;
    let s1 = DriverView { trajs: s.trajs.insert(id.0, t1), ..s };
    let s2 = s1.favoured(id, 1);
    let call = chunk.tool_call.unwrap();
    let p = s2.tool_pin(id, later, s2.latency.p95(Some(call.name)));
    let s3 = DriverView { pin_started: s2.pin_started.insert(id.0, later), ..s2 };
    assert(stored.chunk_done(id, step_id, chunk, later) == s3.pin_applied(p, later));
    assert(s3.traj(id).id == id);
    assert(s3.pin_applied(p, later).0.traj(id) == pinning::pinned(s3.traj(id), p));
}

/// An unfinished chunk leaves its step active and unrecorded, with its tokens
/// added to those decoded, and free to be queued again.
pub proof fn law_unfinished_chunk_goes_on(
    d: DriverView,
    id: TrajectoryId,
    step_id: StepId,
    decoded: u32,
    chunk: ChunkResultView,
    now: u64,
    stored: DriverView,
    later: u64,
)
    requires
        d.has(id),
        !chunk.finished,
        decoded + chunk.tokens_produced <= u32::MAX,
        taken_in(d, id, step_id, decoded, chunk, now, stored),
    ensures
        ({
            let (after, r) = stored.chunk_done(id, step_id, chunk, later);
            &&& r is Ok
            &&& after.traj(id).history == d.traj(id).history
            &&& after.traj(id).active_step == d.traj(id).active_step
            &&& after.decoded(id, step_id) == decoded + chunk.tokens_produced
            &&& !after.in_flight.dom().contains((id, step_id))
        }),
{
    lemma_taken_in(d, id, step_id, decoded, chunk, now, stored);
}

/// Cache hits are added to the trajectory's total, and its slots tell the
/// latest ones and the total.
pub proof fn law_hits_are_counted(d: DriverView, id: TrajectoryId, hits: u32, now: u64)
    requires
        d.has(id),
        hits > 0,
        d.hits_of(id) + hits <= u32::MAX,
    ensures
        ({
            let after = d.hits_noted(id, hits, now);
            &&& after.hits_of(id) == d.hits_of(id) + hits
            &&& after.traj(id).memory.slot("last_cache_hit_tokens"@) == Some(
                text::dec(hits as nat),
            )
            &&& after.traj(id).memory.slot("total_cache_hit_tokens"@) == Some(
                text::dec((d.hits_of(id) + hits) as nat),
            )
            &&& after.traj(id).history == d.traj(id).history
        }),
        d.hits_noted(id, 0, now) == d,
{
    reveal_strlit("last_cache_hit_tokens");
    reveal_strlit("total_cache_hit_tokens");
    assert("last_cache_hit_tokens"@.len() == 21 && "total_cache_hit_tokens"@.len() == 22);
    let m = d.traj(id).memory;
    let last = text::dec(hits as nat);
    let m1 = m.with_slot("last_cache_hit_tokens"@, last);
    let sum = text::dec((d.hits_of(id) + hits) as nat);
    agent_memory::law_slot_read_back(m, "last_cache_hit_tokens"@, last);
    agent_memory::law_slot_read_back(m1, "total_cache_hit_tokens"@, sum);
    agent_memory::law_slot_frame(
        m1,
        "total_cache_hit_tokens"@,
        sum,
        "last_cache_hit_tokens"@,
    );
}

/// The engine is asked for the active generate step as it stands: its prompt,
/// its constraints and its limit, for the chunk that was scheduled, from what
/// was decoded before, in the trajectory's session and from its prefix.
pub proof fn law_engine_is_asked(
    d: DriverView,
    id: TrajectoryId,
    step_id: StepId,
    chunk_tokens: u32,
    now: u64,
    after: DriverView,
    res: Result<Option<ChunkRequest>, TrajectError>,
)
    requires
        d.has(id),
        d.traj(id).active_step matches Some(step) && step is Generate && step.id() == step_id,
        driver_steps::begun(d, id, step_id, chunk_tokens, now, after, res),
    ensures
        res is Ok,
        res->Ok_0 is Some,
        ({
            let r = res->Ok_0->Some_0@;
            let step = d.traj(id).active_step.unwrap();
            &&& r.trajectory_id == id
            &&& r.step_id == step_id
            &&& r.delta == step->delta
            &&& r.constraints == step->constraints
            &&& r.max_tokens == step->max_tokens
            &&& r.chunk_tokens == chunk_tokens
            &&& r.decoded_so_far == d.decoded(id, step_id)
            &&& r.prefix == after.traj(id).current_prefix
            &&& after.mem.session(id) is Some ==> r.session_id == after.mem.session(id)
            &&& after.mem.session(id) is None ==> r.session_id == Some(ids::hyphenated(id.0))
            &&& after.mem.hint(id) is Some ==> r.prefix_hint == after.mem.hint(id)
            &&& after.mem.hint(id) is None && r.prefix is Some ==> r.prefix_hint == Some(
                ids::hyphenated(r.prefix.unwrap().0),
            )
        }),
{
}

/// A step that is active no more is not asked for, and nothing changes.
pub proof fn law_stale_step_not_asked(
    d: DriverView,
    id: TrajectoryId,
    step_id: StepId,
    chunk_tokens: u32,
    now: u64,
    after: DriverView,
    res: Result<Option<ChunkRequest>, TrajectError>,
)
    requires
        d.has(id),
        d.traj(id).active_step matches Some(step) ==> !(step is Generate) || step.id() != step_id,
        driver_steps::begun(d, id, step_id, chunk_tokens, now, after, res),
    ensures
        after == d,
        res matches Ok(r) && r is None,
{
}

/// A prompt is stored before its first chunk, and only then: its text byte by
/// byte, or the tokens that it came with.
pub proof fn law_prompt_is_stored(
    d: DriverView,
    id: TrajectoryId,
    step_id: StepId,
    chunk_tokens: u32,
    now: u64,
    after: DriverView,
    res: Result<Option<ChunkRequest>, TrajectError>,
)
    requires
        d.has(id),
        d.traj(id).active_step matches Some(step) && step is Generate && step.id() == step_id,
        driver_steps::begun(d, id, step_id, chunk_tokens, now, after, res),
    ensures
        d.decoded(id, step_id) > 0 ==> after == d,
        ({
            let delta = d.traj(id).active_step.unwrap()->delta;
            &&& d.decoded(id, step_id) == 0 && delta.text is None ==> d.may_store(
                id,
                delta.token_ids,
                now,
                after,
            )
            &&& d.decoded(id, step_id) == 0 && delta.text is Some ==> d.may_store(
                id,
                Seq::new(
                    vstd::utf8::encode_utf8(delta.text.unwrap()).len(),
                    |i: int| vstd::utf8::encode_utf8(delta.text.unwrap())[i] as u32,
                ),
                now,
                after,
            )
        }),
{
    let delta = d.traj(id).active_step.unwrap()->delta;
    if delta.text is Some {
        assert(driver_model::prompt_tokens(delta) =~= Seq::new(
            vstd::utf8::encode_utf8(delta.text.unwrap()).len(),
            |i: int| vstd::utf8::encode_utf8(delta.text.unwrap())[i] as u32,
        ));
    }
}

/// A tool step is handed over as it stands: the call with its name and
/// arguments, and the time that it may take; and it is being run from then on.
pub proof fn law_tool_handed_over(d: DriverView, id: TrajectoryId, step_id: StepId)
    requires
        d.has(id),
        d.traj(id).active_step matches Some(step) && step is Tool,
        !d.in_flight.dom().contains((id, step_id)),
    ensures
        d.tool_begun(id, step_id).1 matches Ok(Some((call, ms))) && call
            == d.traj(id).active_step.unwrap()->call && ms
            == d.traj(id).active_step.unwrap()->timeout_ms,
        d.tool_begun(id, step_id).0.in_flight.dom().contains((id, step_id)),
        d.tool_begun(id, step_id).0.trajs == d.trajs,
{
}

/// A control step is recorded with what it carried, and no step is active then.
pub proof fn law_control_is_recorded(
    d: DriverView,
    id: TrajectoryId,
    step_id: StepId,
    kind: ControlKind,
    payload: Option<Seq<char>>,
)
    requires
        d.has(id),
        d.traj(id).active_step == Some(StepView::Control { id: step_id, kind, payload }),
    ensures
        ({
            let (after, r) = d.controlled(id, step_id);
            let t = after.traj(id);
            &&& r is Ok
            &&& t.history.len() == d.traj(id).history.len() + 1
            &&& t.history.last().outcome == Some(
                StepOutcomeView::ControlDone { step_id, kind, note: payload },
            )
            &&& t.active_step is None
        }),
{
}

/// A tool that fails ends its trajectory with the tool's message, and nothing of
/// it is live then.
pub proof fn law_tool_failure_ends(
    d: DriverView,
    id: TrajectoryId,
    step_id: StepId,
    e: TrajectErrorView,
)
    requires
        d.has(id),
        !(d.traj(id).state is Finished),
        !(d.traj(id).state is Failed),
    ensures
        ({
            let (after, r) = d.tool_failed(id, step_id, e);
            &&& r is Ok
            &&& after.traj(id).state is Failed
            &&& after.traj(id).error == Some(e.text())
            &&& after.traj(id).active_step is None
            &&& !after.live.contains(id)
            &&& !after.in_flight.dom().contains((id, step_id))
        }),
{
    books::lemma_left(d.live, id);
}

/// What an error says names what went wrong: the tool and its reason, the
/// backend's words, or the message itself.
pub proof fn law_error_texts(tool: Seq<char>, reason: Seq<char>)
    ensures
        (TrajectErrorView::ToolFailed { tool, reason }).text() == "tool failed: "@ + tool + ": "@
            + reason,
        (TrajectErrorView::ToolTimeout { tool }).text() == "tool timed out: "@ + tool,
        TrajectErrorView::Inference(reason).text() == "inference backend error: "@ + reason,
        TrajectErrorView::MemoryPressure(reason).text() == "memory pressure: "@ + reason,
        TrajectErrorView::Other(reason).text() == reason,
        text::ends((TrajectErrorView::ToolFailed { tool, reason }).text(), reason),
{
    let s = "tool failed: "@ + tool + ": "@ + reason;
    assert(s.skip(s.len() - reason.len()) =~= reason);
}

/// A step that waits joins the queue as it stands, with what it has decoded and
/// the priority and credit of its trajectory, behind those that are there.
pub proof fn law_queued_as_it_stands(d: DriverView, id: TrajectoryId)
    requires
        d.has(id),
        !(d.traj(id).state is Finished),
        !(d.traj(id).state is Failed),
        d.traj(id).active_step is Some,
        !d.in_flight.dom().contains((id, d.traj(id).active_step.unwrap().id())),
        !d.sched.queued(id, d.traj(id).active_step.unwrap().id()),
    ensures
        ({
            let (after, r) = d.queued(id);
            let step = d.traj(id).active_step.unwrap();
            let item = after.sched.ready.last();
            &&& r is Ok
            &&& after.sched.ready.drop_last() == d.sched.ready
            &&& item.trajectory_id == id
            &&& item.step == step
            &&& item.decoded_so_far == d.decoded(id, step.id())
            &&& item.priority.trajectory_priority == d.traj(id).priority
            &&& item.priority.fairness_credit == d.traj(id).fairness_credit
            &&& step is Generate && d.decoded(id, step.id()) > 0 ==> item.priority.kind
                is ActiveDecode
            &&& step is Tool ==> item.priority.kind is Tool
            &&& after.trajs == d.trajs
        }),
{
    let after = d.queued(id).0;
    assert(after.sched.ready.drop_last() =~= d.sched.ready);
}

/// A first step of a trajectory of priority ten or more goes before those of
/// other new trajectories; one that nothing makes urgent is ordinary.
pub proof fn law_new_urgency(t: TrajectoryView, step: StepView)
    requires
        step is Generate,
    ensures
        t.history.len() == 0 && t.priority.0 >= 10 ==> driver_model::urgency(t, step, 0)
            is HighPriorityNew,
        t.history.len() == 0 && t.priority.0 < 10 ==> driver_model::urgency(t, step, 0)
            is NormalNew,
        t.history.len() > 0 && (t.history.last().outcome matches Some(o) && !(o is ToolDone))
            ==> driver_model::urgency(t, step, 0) is NormalNew,
{
}

/// A new trajectory is live, at the root of the prefixes, in a session of its
/// own name, and otherwise as it was made; the others stay as they were.
pub proof fn law_new_trajectory(
    d: DriverView,
    id: TrajectoryId,
    t: TrajectoryView,
    other: TrajectoryId,
)
    requires
        d.wf(),
        other != id,
    ensures
        ({
            let after = d.with_new(id, t);
            &&& after.has(id)
            &&& after.live.contains(id)
            &&& after.traj(id).current_prefix == d.mem.tree.root
            &&& after.mem.bound(id) == d.mem.tree.root
            &&& after.mem.session(id) == Some(ids::hyphenated(id.0))
            &&& after.traj(id).state == t.state
            &&& after.traj(id).history == t.history
            &&& after.traj(id).memory == t.memory
            &&& after.has(other) == d.has(other)
            &&& d.has(other) ==> after.traj(other) == d.traj(other)
            &&& after.live.contains(other) == d.live.contains(other)
        }),
{
    law_joined(d.live, id, other);
}

/// One that joins is there from then on, and the others as before.
pub proof fn law_joined(s: Seq<TrajectoryId>, id: TrajectoryId, other: TrajectoryId)
    requires
        other != id,
    ensures
        books::joined(s, id).contains(id),
        books::joined(s, id).contains(other) == s.contains(other),
        s.contains(id) ==> books::joined(s, id) == s,
{
    let j = books::joined(s, id);
    if !s.contains(id) {
        assert(j[s.len() as int] == id);
        if s.contains(other) {
            let i = choose|i: int| 0 <= i < s.len() && s[i] == other;
            assert(j[i] == other);
        }
        if j.contains(other) {
            let i = choose|i: int| 0 <= i < j.len() && j[i] == other;
            assert(s[i] == other);
        }
    }
}

/// An engine that takes commands is told of a pin on a trajectory's prefix: the
/// key that it knows, in the trajectory's session, for the time that is left,
/// half a second at least, and why.
pub proof fn law_engine_told_of_pin(
    d: DriverView,
    id: TrajectoryId,
    until_ms: u64,
    reason: PinReason,
    now: u64,
)
    ensures
        d.engine_prefix && d.mem.hint(id) is Some ==> ({
            let after = d.pin_posted(id, until_ms, reason, now);
            &&& after.outbox.drop_last() == d.outbox
            &&& after.outbox.last() matches EngineCommandView::Pin {
                prefix,
                session,
                trajectory,
                ttl_ms,
                reason: why,
            } && {
                &&& Some(prefix) == d.mem.hint(id)
                &&& session == d.mem.session(id)
                &&& trajectory == ids::hyphenated(id.0)
                &&& until_ms - now >= 500 ==> ttl_ms == until_ms - now
                &&& until_ms - now < 500 ==> ttl_ms == 500
                &&& why == reason.label()
            }
            &&& after.trajs == d.trajs
        }),
        d.engine_prefix && d.mem.hint(id) is Some ==> d.unpin_posted(id).outbox == d.outbox.push(
            EngineCommandView::Unpin { prefix: d.mem.hint(id).unwrap() },
        ),
        !d.engine_prefix ==> d.pin_posted(id, until_ms, reason, now) == d && d.unpin_posted(id)
            == d,
        d.mem.hint(id) is None ==> d.pin_posted(id, until_ms, reason, now) == d && d.unpin_posted(
            id,
        ) == d,
{
    let after = d.pin_posted(id, until_ms, reason, now);
    if d.engine_prefix && d.mem.hint(id) is Some {
        assert(after.outbox.drop_last() =~= d.outbox);
    }
}

/// An engine that takes commands is told to free the prefix of a trajectory that
/// is cleaned up after.
pub proof fn law_engine_told_to_free(d: DriverView, id: TrajectoryId)
    requires
        d.engine_prefix,
        d.mem.hint(id) is Some,
    ensures
        d.cleaned(id).outbox == d.outbox.push(
            EngineCommandView::Free {
                prefix: d.mem.hint(id).unwrap(),
                session: d.mem.session(id),
            },
        ),
{
}

/// Pressure takes the pins that ran out or are weak, and leaves the strong ones
/// that hold.
pub proof fn law_pressure_takes_weak_pins(d: DriverView, id: TrajectoryId, now: u64)
    requires
        d.has(id),
    ensures
        d.traj(id).pin.holds(now) && d.traj(id).pin.strength >= 2 ==> d.relaxed(id, now) == d,
        !d.traj(id).pin.holds(now) || d.traj(id).pin.strength < 2 ==> d.relaxed(id, now).traj(
            id,
        ).pin.pin_until_ms is None && !d.relaxed(id, now).traj(id).pin.holds(now),
        d.relaxed(id, now).traj(id).history == d.traj(id).history,
        d.relaxed(id, now).traj(id).active_step == d.traj(id).active_step,
{
}

/// A tool that an outside agent ran is recorded as a step of its own, with its
/// call and what it gave; the trajectory is then driven from outside, runs, and
/// keeps its prefix warm.
pub proof fn law_outside_tool_recorded(
    d: DriverView,
    id: TrajectoryId,
    step_id: StepId,
    call: ToolCallView,
    result: ToolResultView,
    timeout_ms: u64,
    now: u64,
    later: u64,
)
    requires
        d.has(id),
        d.traj(id).id == id,
        d.traj(id).state is Running || d.traj(id).state is Created,
    ensures
        ({
            let (after, r) = d.tool_recorded(id, step_id, call, result, timeout_ms, now, later);
            let t = after.traj(id);
            &&& r == Ok::<StepOutcomeView, TrajectErrorView>(
                StepOutcomeView::ToolDone { step_id, result },
            )
            &&& t.history == d.traj(id).history.push(
                StepRecordView {
                    step: StepView::Tool { id: step_id, call, timeout_ms },
                    outcome: Some(StepOutcomeView::ToolDone { step_id, result }),
                },
            )
            &&& t.state is Running
            &&& t.active_step is None
            &&& t.pin.reason == PinReason::Prefetch
            &&& t.pin.strength == 1
            &&& after.external.contains(id)
            &&& after.live.contains(id)
            &&& !after.in_flight.dom().contains((id, step_id))
            &&& d.traj(id).fairness_credit + 5 <= i64::MAX ==> t.fairness_credit == d.traj(
                id,
            ).fairness_credit + 5
        }),
{
    let other = TrajectoryId(if id.0 == 0 {
        1
    } else {
        0
    });
    law_joined(d.live, id, other);
    law_joined(d.external, id, other);
    let s0 = d.adopted(id).measured(id, call.name, now);
    assert(s0.traj(id) == d.traj(id));
    let p = s0.tool_pin(id, now, s0.latency.p95(Some(call.name)));
    let s1 = s0.pin_applied(p, now).0;
    assert(s1.traj(id) == pinning::pinned(d.traj(id), p));
    let step = StepView::Tool { id: step_id, call, timeout_ms };
    let t = s1.traj(id).submitted(step).0;
    let outcome = StepOutcomeView::ToolDone { step_id, result };
    let s2 = s1.with_traj(id, t.completed(outcome).0);
    let s3 = s2.unpinned(id);
    assert(s3.traj(id).id == id);
    let q = s3.prefetch_pin(id, later);
    let s4 = s3.pin_applied(q, later).0;
    assert(s4.traj(id) == pinning::pinned(s3.traj(id), q));
    assert(d.tool_recorded(id, step_id, call, result, timeout_ms, now, later).0 == s4.favoured(
        id,
        5,
    ).landed(id, step_id));
    assert(s4.live == s0.live && s4.external == s0.external);
}

/// A gap that an outside agent announces is pinned firmly, for as long as tools
/// have been seen to take, and timed from then on.
pub proof fn law_gap_is_pinned(d: DriverView, id: TrajectoryId, now: u64)
    requires
        d.has(id),
        d.traj(id).id == id,
    ensures
        ({
            let (after, r) = d.gap_pinned(id, now);
            let ttl = d.sched.config.pin_policy.ttl(
                crate::scheduler::latency::at_percent(d.latency.global, 95),
            );
            &&& r is Ok
            &&& after.traj(id).pin.reason == PinReason::WaitingTool
            &&& after.traj(id).pin.strength == 2
            &&& after.traj(id).pin.pin_until_ms == Some(
                if now + ttl > u64::MAX {
                    u64::MAX
                } else {
                    (now + ttl) as u64
                },
            )
            &&& after.pin_started.dom().contains(id.0)
            &&& after.pin_started[id.0] == now
            &&& after.traj(id).history == d.traj(id).history
        }),
{
}

/// A tool's time is measured from its pin to its end, under its own name, and
/// once only.
pub proof fn law_tool_time_measured(d: DriverView, id: TrajectoryId, tool: Seq<char>, now: u64)
    requires
        d.pin_started.dom().contains(id.0),
        d.pin_started[id.0] <= now,
    ensures
        d.measured(id, tool, now).latency == d.latency.recorded(
            tool,
            (now - d.pin_started[id.0]) as u64,
        ),
        !d.measured(id, tool, now).pin_started.dom().contains(id.0),
        d.measured(id, tool, now).measured(id, tool, now) == d.measured(id, tool, now),
{
}

/// What a policy decides is done: the next step becomes the active one, an end
/// ends the trajectory, a failure fails it with its reason; and where that is
/// asked for, one at its end is live no more.
pub proof fn law_decision_is_done(
    d: DriverView,
    id: TrajectoryId,
    decision: PolicyDecisionView,
    tidy: bool,
    after: DriverView,
    res: Result<Option<StepView>, TrajectErrorView>,
)
    requires
        d.has(id),
        d.traj(id).state is Running,
        driver_runs::settled(d, id, decision, tidy, after, res),
    ensures
        res is Ok,
        decision matches PolicyDecisionView::NextStep(step) ==> after.traj(id).active_step == Some(
            step,
        ) && res == Ok::<Option<StepView>, TrajectErrorView>(Some(step)) && (step is Tool
            ==> after.traj(id).state is WaitingTool) && (!(step is Tool) ==> after.traj(id).state
            is Running),
        decision is Finish ==> after.traj(id).state is Finished && after.traj(id).active_step
            is None && res == Ok::<Option<StepView>, TrajectErrorView>(None),
        decision matches PolicyDecisionView::Fail(reason) ==> after.traj(id).state is Failed
            && after.traj(id).error == Some(reason),
        !(decision is NextStep) && tidy ==> !after.live.contains(id),
        !tidy ==> after.live == d.live,
        after.traj(id).history == d.traj(id).history,
{
    books::lemma_left(d.live, id);
}

/// The outcome that is given for a step is one that the history has for it, the
/// latest; and where it has one, one is given.
pub proof fn law_outcome_of(history: Seq<StepRecordView>, step_id: StepId)
    ensures
        match driver_model::outcome_of(history, step_id) {
            Some(o) => o.step_id() == step_id && exists|i: int|
                {
                    &&& 0 <= i < history.len()
                    &&& (#[trigger] history[i]).outcome == Some(o)
                    &&& forall|j: int|
                        i < j < history.len() ==> (#[trigger] history[j].outcome matches Some(x)
                            ==> x.step_id() != step_id)
                },
            None => forall|j: int|
                0 <= j < history.len() ==> (#[trigger] history[j].outcome matches Some(x)
                    ==> x.step_id() != step_id),
        },
    decreases history.len(),
{
    if history.len() > 0 {
        let front = history.drop_last();
        let last = history.len() - 1;
        law_outcome_of(front, step_id);
        assert(forall|j: int| 0 <= j < front.len() ==> #[trigger] front[j] == history[j]);
        if history.last().outcome matches Some(o) && o.step_id() == step_id {
            assert(history[last].outcome == history.last().outcome);
        } else {
            match driver_model::outcome_of(front, step_id) {
                Some(o) => {
                    let i = choose|i: int|
                        {
                            &&& 0 <= i < front.len()
                            &&& (#[trigger] front[i]).outcome == Some(o)
                            &&& forall|j: int|
                                i < j < front.len() ==> (#[trigger] front[j].outcome matches Some(
                                    x,
                                ) ==> x.step_id() != step_id)
                        };
                    assert(history[i].outcome == Some(o));
                    assert forall|j: int| i < j < history.len() implies (
                    #[trigger] history[j].outcome matches Some(x) ==> x.step_id() != step_id) by {
                        if j < front.len() {
                            assert(front[j] == history[j]);
                        }
                    }
                },
                None => {
                    assert forall|j: int| 0 <= j < history.len() implies (
                    #[trigger] history[j].outcome matches Some(x) ==> x.step_id() != step_id) by {
                        if j < front.len() {
                            assert(front[j] == history[j]);
                        }
                    }
                },
            }
        }
    }
}

/// The time between two readings is their difference, and a credit grows by what
/// is given, as far as the counters go.
pub proof fn law_elapsed_and_credited(start: u64, now: u64, credit: i64, delta: i64)
    ensures
        start <= now ==> driver_model::elapsed(start, now) == now - start,
        now < start ==> driver_model::elapsed(start, now) == 0,
        i64::MIN <= credit + delta <= i64::MAX ==> driver_model::credited(credit, delta) == credit
            + delta,
        credit + delta > i64::MAX ==> driver_model::credited(credit, delta) == i64::MAX,
        credit + delta < i64::MIN ==> driver_model::credited(credit, delta) == i64::MIN,
{
}

/// A run carries its actions out one after the other; one for a step leaves out
/// those of other trajectories.
pub proof fn law_actions_carried_out(run: RunView, d: DriverView, actions: Seq<TickAction>)
    requires
        actions.len() > 0,
    ensures
        run.acted(d, actions).0.stage == StageView::Acting(actions.drop_first()),
        run.acted(d, actions).1 == d,
        !(run.goal is Step) ==> run.acted(d, actions).2 == AskView::Begin(actions[0]),
        run.goal matches Goal::Step(id, step_id) ==> {
            &&& (actions[0] matches TickAction::RunGenerateChunk { trajectory_id, .. } ==> (
            run.acted(d, actions).2 == AskView::Begin(actions[0]) <==> trajectory_id == id))
            &&& (actions[0] matches TickAction::RunTool { trajectory_id, .. } ==> (run.acted(
                d,
                actions,
            ).2 == AskView::Begin(actions[0]) <==> trajectory_id == id))
            &&& (actions[0] matches TickAction::RunControl { trajectory_id, .. } ==> (run.acted(
                d,
                actions,
            ).2 == AskView::Begin(actions[0]) <==> trajectory_id == id))
        },
{
    assert(actions.skip(1) =~= actions.drop_first());
}

/// The policy is asked about a live trajectory without a step, and about no
/// other; each is looked at once.
pub proof fn law_idle_ones_consulted(
    run: RunView,
    d: DriverView,
    left: Seq<TrajectoryId>,
    waits: bool,
)
    requires
        left.len() > 0,
        d.has(left[0]),
    ensures
        run.primed(d, left, waits).0.stage == (StageView::Priming {
            left: left.drop_first(),
            waits,
        }),
        run.primed(d, left, waits).1 == AskView::Consult(left[0]) <==> (d.traj(
            left[0],
        ).active_step is None && !(d.traj(left[0]).state is Finished) && !(d.traj(left[0]).state
            is Failed)),
        run.primed(d, left, waits).1 is Consult || run.primed(d, left, waits).1 is Nothing,
{
    assert(left.skip(1) =~= left.drop_first());
}

/// A run without ticks left fails; one for a step that is recorded gives its
/// outcome; any other begins a tick.
pub proof fn law_between_ticks(run: RunView, d: DriverView)
    ensures
        run.ticks >= d.config.max_ticks ==> run.opened(d).1 is Failed && run.opened(d).0.stage
            is Over,
        run.ticks < d.config.max_ticks && !(run.goal is Step) ==> run.opened(d).1 is TakeEvents
            && run.opened(d).0.stage is Planning,
        run.ticks < d.config.max_ticks ==> (run.goal matches Goal::Step(id, step_id) ==> d.has(id)
            ==> match driver_model::outcome_of(d.traj(id).history, step_id) {
            Some(o) => run.opened(d).1 == AskView::Completed(o) && run.opened(d).0.stage is Over,
            None => run.opened(d).1 is TakeEvents && run.opened(d).0.stage is Planning,
        }),
{
}

/// A run that finds nothing to do for its step fails only where nothing runs and
/// the step has no outcome; else it waits, or gives the outcome.
pub proof fn law_stalls_only_when_idle(
    run: RunView,
    d: DriverView,
    id: TrajectoryId,
    step_id: StepId,
)
    requires
        run.goal == Goal::Step(id, step_id),
        d.has(id),
    ensures
        d.traj(id).active_step is Some ==> run.waited(d).1 is Rest,
        run.waited(d).1 is Failed ==> d.traj(id).active_step is None && driver_model::outcome_of(
            d.traj(id).history,
            step_id,
        ) is None,
        run.waited(d).1 matches AskView::Completed(o) ==> driver_model::outcome_of(
            d.traj(id).history,
            step_id,
        ) == Some(o),
{
}

/// Ending a trajectory finishes it and forgets what was kept for it: it is live
/// no more, and none of its steps is being run or decoded; the others are left
/// as they are.
pub proof fn law_ended(d: DriverView, id: TrajectoryId, step_id: StepId, other: TrajectoryId)
    requires
        d.has(id),
        d.traj(id).state is Running || d.traj(id).state is WaitingTool || d.traj(id).state
            is Suspended,
        other != id,
        other.0 != id.0,
    ensures
        d.ended(id).1 is Ok,
        d.ended(id).0.traj(id).state is Finished,
        d.ended(id).0.traj(id).active_step is None,
        d.ended(id).0.traj(id).history == d.traj(id).history,
        !d.ended(id).0.live.contains(id),
        !d.ended(id).0.external.contains(id),
        !d.ended(id).0.in_flight.dom().contains((id, step_id)),
        !d.ended(id).0.decode.dom().contains((id, step_id)),
        d.live.contains(other) ==> d.ended(id).0.live.contains(other),
        d.has(other) ==> d.ended(id).0.traj(other) == d.traj(other),
        d.in_flight.dom().contains((other, step_id)) ==> d.ended(id).0.in_flight.dom().contains(
            (other, step_id),
        ),
{
    books::lemma_left(d.live, id);
    books::lemma_left(d.external, id);
}

/// A trajectory that is over cannot be ended again, and one that is not there
/// cannot be ended; nothing is forgotten then.
pub proof fn law_not_ended(d: DriverView, id: TrajectoryId)
    requires
        !d.has(id) || d.traj(id).state.terminal(),
    ensures
        d.ended(id).1 is Err,
        d.ended(id).0.live == d.live,
        d.ended(id).0.in_flight == d.in_flight,
        !d.has(id) ==> d.ended(id) == (d, Err::<(), TrajectErrorView>(
            TrajectErrorView::TrajectoryNotFound(id),
        )),
{
}

/// What an operation does is kept, and its answer is whether to ask the policy,
/// or its error.
pub proof fn law_asked_after(
    done: (DriverView, Result<(), TrajectErrorView>),
    ask: bool,
    after: DriverView,
    res: Result<bool, TrajectError>,
)
    requires
        driver_steps::asked_after(done, ask, after, res),
    ensures
        after == done.0,
        done.1 is Ok ==> (res matches Ok(b) && b == ask),
        done.1 matches Err(e) ==> (res matches Err(x) && x@ == e),
{
}

/// A run of all trajectories is at its goal exactly where each one that is live
/// is at its end.
pub proof fn law_all_at_their_end(d: DriverView, ids: Seq<TrajectoryId>)
    requires
        forall|i: int| 0 <= i < ids.len() ==> d.has(#[trigger] ids[i]),
    ensures
        d.all_ended(ids) is Ok,
        d.all_ended(ids) == Ok::<bool, TrajectErrorView>(true) <==> forall|i: int|
            0 <= i < ids.len() ==> (d.traj(#[trigger] ids[i]).state is Finished || d.traj(
                ids[i],
            ).state is Failed),
    decreases ids.len(),
{
    if ids.len() > 0 {
        let rest = ids.drop_first();
        assert forall|i: int| 0 <= i < rest.len() implies d.has(#[trigger] rest[i]) by {
            assert(rest[i] == ids[i + 1]);
        }
        law_all_at_their_end(d, rest);
        assert(d.has(ids[0]));
        if d.traj(ids[0]).state.terminal() {
            if d.all_ended(rest) == Ok::<bool, TrajectErrorView>(true) {
                assert forall|i: int| 0 <= i < ids.len() implies (d.traj(#[trigger] ids[i]).state
                    is Finished || d.traj(ids[i]).state is Failed) by {
                    if i > 0 {
                        assert(rest[i - 1] == ids[i]);
                    }
                }
            } else {
                let i = choose|i: int|
                    0 <= i < rest.len() && !(d.traj(#[trigger] rest[i]).state is Finished || d.traj(
                        rest[i],
                    ).state is Failed);
                assert(rest[i] == ids[i + 1]);
            }
        }
    }
}

/// A run for one trajectory is at its goal exactly where that one is at its end,
/// and cleans up after it then.
pub proof fn law_goal_of_one(d: DriverView, id: TrajectoryId, step_id: StepId)
    requires
        d.has(id),
    ensures
        d.arrived(Goal::Finished(id)).1 == Ok::<bool, TrajectErrorView>(
            d.traj(id).state is Finished || d.traj(id).state is Failed,
        ),
        d.traj(id).state is Finished || d.traj(id).state is Failed ==> !d.arrived(
            Goal::Finished(id),
        ).0.live.contains(id),
        !(d.traj(id).state is Finished || d.traj(id).state is Failed) ==> d.arrived(
            Goal::Finished(id),
        ).0 == d,
        d.arrived(Goal::Step(id, step_id)) == (d, Ok::<bool, TrajectErrorView>(false)),
        d.arrived(Goal::Idle).0 == d,
{
    books::lemma_left(d.live, id);
}

/// What is queued for a run for a step is its trajectory's own step, and for any
/// other the steps of all that are live, one after the other.
pub proof fn law_queued_for_goal(d: DriverView, id: TrajectoryId, step_id: StepId)
    ensures
        d.queued_for(Goal::Step(id, step_id)) == d.queued(id),
        d.queued_for(Goal::Idle) == d.all_queued(d.live),
        d.queued_for(Goal::Finished(id)) == d.all_queued(d.live),
        d.all_queued(Seq::empty()) == (d, Ok::<(), TrajectErrorView>(())),
        forall|ids: Seq<TrajectoryId>, x: TrajectoryId| #[trigger]
            d.all_queued(ids.push(x)) == if d.all_queued(ids).1 is Ok {
                d.all_queued(ids).0.queued(x)
            } else {
                d.all_queued(ids)
            },
{
    assert forall|ids: Seq<TrajectoryId>, x: TrajectoryId| #[trigger]
        d.all_queued(ids.push(x)) == if d.all_queued(ids).1 is Ok {
            d.all_queued(ids).0.queued(x)
        } else {
            d.all_queued(ids)
        } by {
        assert(ids.push(x).drop_last() =~= ids);
    }
}

/// Without pressure no pin is given up; under it those of all that are live are
/// looked at, one after the other.
pub proof fn law_pins_eased(d: DriverView, now: u64, ids: Seq<TrajectoryId>, x: TrajectoryId)
    ensures
        !d.mem.gpu.load().reaches(d.config.eviction_pressure) ==> d.eased(now) == d,
        d.mem.gpu.load().reaches(d.config.eviction_pressure) ==> d.eased(now) == d.all_relaxed(
            d.live,
            now,
        ),
        d.all_relaxed(Seq::empty(), now) == d,
        d.all_relaxed(ids.push(x), now) == d.all_relaxed(ids, now).relaxed(x, now),
{
    assert(ids.push(x).drop_last() =~= ids);
}

/// The engine is told to free each handle, in their order, where it takes
/// commands.
pub proof fn law_engine_told_of_the_gone(d: DriverView, handles: Seq<Seq<char>>, i: int)
    requires
        d.engine_prefix,
        0 <= i < handles.len(),
    ensures
        d.frees_posted(handles).engine_prefix,
        d.frees_posted(handles).outbox.len() == d.outbox.len() + handles.len(),
        d.frees_posted(handles).outbox[d.outbox.len() + i] == (EngineCommandView::Free {
            prefix: handles[i],
            session: None,
        }),
        d.frees_posted(handles).trajs == d.trajs,
    decreases handles.len(),
{
    let front = handles.drop_last();
    reveal_with_fuel(DriverView::frees_posted, 2);
    if front.len() > 0 {
        if i < front.len() {
            law_engine_told_of_the_gone(d, front, i);
        } else {
            law_engine_told_of_the_gone(d, front, 0);
        }
    }
}

/// A trajectory driven from outside is live; its pin, and that of its leaf, can
/// be taken off.
pub proof fn law_adopted_and_unpinned(d: DriverView, id: TrajectoryId, now: u64)
    requires
        d.has(id),
    ensures
        d.adopted(id).live.contains(id),
        d.adopted(id).external.contains(id),
        d.adopted(id).trajs == d.trajs,
        !d.unpinned(id).traj(id).pin.holds(now),
        d.unpinned(id).traj(id).history == d.traj(id).history,
        d.unpinned(id).traj(id).active_step == d.traj(id).active_step,
        d.unpinned(id).live == d.live,
{
    assert(d.live.push(id)[d.live.len() as int] == id);
    assert(d.external.push(id)[d.external.len() as int] == id);
}

/// The engine is asked for the step as it stands, under the trajectory's prefix,
/// session and handle.
pub proof fn law_request_in_full(d: DriverView, id: TrajectoryId, step_id: StepId, step: StepView)
    requires
        step is Generate,
    ensures
        d.request(id, step_id, step).trajectory_id == id,
        d.request(id, step_id, step).step_id == step_id,
        d.request(id, step_id, step).prefix == d.traj(id).current_prefix,
        d.request(id, step_id, step).delta == step->delta,
        d.request(id, step_id, step).constraints == step->constraints,
        d.request(id, step_id, step).max_tokens == step->max_tokens,
        d.request(id, step_id, step).prefix_hint == d.mem.hint(id),
        d.mem.session(id) is Some ==> d.request(id, step_id, step).session_id == d.mem.session(id),
        d.mem.session(id) is None ==> d.request(id, step_id, step).session_id == Some(
            ids::hyphenated(id.0),
        ),
        d.traj(id).active_step == Some(step) && step.id() == step_id ==> d.generating(id, step_id)
            == Some(step),
        d.traj(id).active_step is None ==> d.generating(id, step_id) is None,
        d.traj(id).active_step matches Some(s) ==> (s.id() != step_id ==> d.generating(
            id,
            step_id,
        ) is None),
{
}

} // verus!
