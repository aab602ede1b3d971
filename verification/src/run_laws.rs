//! What holds of every run, whatever the planner, the readers and the host do.
use vstd::prelude::*;

use crate::chunk;
use crate::context;
use crate::engine;
use crate::engine::STATUS_BUDGET;
use crate::engine::STATUS_ERROR;
use crate::engine::STATUS_OK;
use crate::fold;
use crate::host;
use crate::json;
use crate::observe;
use crate::ops;
use crate::prompts;
use crate::text;
use crate::trace;
use crate::working;

verus! {

/// A run as every event finds it: its slots within their ceilings, its turns
/// within its budget, its trace a tree, and its status one of three.
pub open spec fn sound(s: engine::State) -> bool {
    &&& s.work.bounded()
    &&& s.step <= s.rec.budget.max_steps
    &&& trace::is_tree(s.rec.trace, s.depth)
    &&& s.rec.status == STATUS_OK@ || s.rec.status == STATUS_BUDGET@ || s.rec.status
        == STATUS_ERROR@
}

/// An event as the outside may hand it over: a nested run comes back with a
/// trace that is a tree one level down.
pub open spec fn comes_in_order(s: engine::State, event: engine::EventView) -> bool {
    &&& s.awaits(event)
    &&& event matches engine::EventView::Nested(nested) ==> trace::is_tree(
        nested.trace,
        s.depth + 1,
    )
}

proof fn lemma_turned_sound(
    s: engine::State,
    ctx: context::ContextView,
    q: host::QuotaView,
    now: u64,
)
    requires
        sound(s),
    ensures
        sound(s.turned(ctx, q, now).0),
        sound(s.wound_up(ctx, q, now).0),
        sound(s.over(q, now)),
{
}

proof fn lemma_moved_sound(s: engine::State, m: trace::MoveView, q: host::QuotaView, now: u64)
    requires
        sound(s),
    ensures
        sound(s.moved(m, q, now)),
{
    trace::law_a_move_keeps_the_tree(
        s.rec.trace,
        s.depth,
        m,
        engine::since(q.calls, s.asked_calls),
        engine::since(now as nat, s.asked_ms as nat) as u64,
    );
}

proof fn lemma_observed_sound(
    s: engine::State,
    op: ops::OpView,
    o: observe::ObservationView,
    q: host::QuotaView,
    now: u64,
)
    requires
        sound(s),
    ensures
        sound(s.observed(op, o, q, now)),
{
    let told = engine::State { work: s.work.stepped(op.label(), o.text), ..s };
    lemma_moved_sound(
        told,
        trace::MoveView {
            op: op.label(),
            args: ops::op_json(op),
            observation: o.text,
            truncated: o.truncated,
            error: None,
        },
        q,
        now,
    );
}

proof fn lemma_chose_sound(
    s: engine::State,
    ctx: context::ContextView,
    op: ops::OpView,
    id: Seq<char>,
    at: Seq<char>,
    q: host::QuotaView,
    now: u64,
)
    requires
        sound(s),
    ensures
        sound(s.chose(ctx, op, id, at, q, now).0),
{
    match op {
        ops::OpView::Outline { source } => {
            let o = observe::observed(observe::outline_text(ctx.chunks, source));
            lemma_observed_sound(s, op, o, q, now);
            lemma_turned_sound(s.observed(op, o, q, now), ctx, q, now);
        },
        ops::OpView::Peek { chunk, start, len } => {
            let o = observe::observed(
                observe::peek_text(ctx.chunks, chunk as nat, start as nat, len),
            );
            lemma_observed_sound(s, op, o, q, now);
            lemma_turned_sound(s.observed(op, o, q, now), ctx, q, now);
        },
        ops::OpView::Grep { pattern, max, context } => {
            let o = observe::observed(observe::grep_outcome(ctx.chunks, pattern, max, context));
            lemma_observed_sound(s, op, o, q, now);
            lemma_turned_sound(s.observed(op, o, q, now), ctx, q, now);
        },
        ops::OpView::Note { text } => {
            let noted = engine::State { work: s.work.noted(text), ..s };
            working::law_the_slots_stay_bounded(s.work, text, seq![], seq![], seq![]);
            let o = observe::observed(
                engine::note_told(s.work.notes.len() < working::MAX_NOTES),
            );
            lemma_observed_sound(noted, op, o, q, now);
            lemma_turned_sound(noted.observed(op, o, q, now), ctx, q, now);
        },
        ops::OpView::MapOver { .. } => {},
        ops::OpView::Recurse { query, chunks } => {
            let docs = engine::excerpts(ctx.chunks, chunks);
            let deep = observe::observed(
                engine::too_deep(s.depth, s.rec.budget.max_depth as nat),
            );
            let none = observe::observed("no readable chunks in that selection"@);
            let why = observe::observed(
                "could not build the sub-context: "@ + context::ephemeral_refusal(docs)->0,
            );
            lemma_observed_sound(s, op, deep, q, now);
            lemma_turned_sound(s.observed(op, deep, q, now), ctx, q, now);
            lemma_observed_sound(s, op, none, q, now);
            lemma_turned_sound(s.observed(op, none, q, now), ctx, q, now);
            lemma_observed_sound(s, op, why, q, now);
            lemma_turned_sound(s.observed(op, why, q, now), ctx, q, now);
        },
        ops::OpView::Final { answer, cites } => {
            let said = engine::State {
                rec: trace::RunView {
                    status: STATUS_OK@,
                    answer,
                    cites: trace::resolved(ctx.chunks, cites),
                    ..s.rec
                },
                ..s
            };
            lemma_moved_sound(
                said,
                trace::MoveView {
                    op: op.label(),
                    args: ops::op_json(op),
                    observation: trace::cut_to(answer, engine::KEPT_OF_AN_ANSWER as int),
                    truncated: false,
                    error: None,
                },
                q,
                now,
            );
            lemma_turned_sound(s.answered(ctx, answer, cites, q, now), ctx, q, now);
        },
    }
}

proof fn lemma_heard_plan_sound(
    s: engine::State,
    ctx: context::ContextView,
    reply: Result<Seq<char>, host::ErrorView>,
    id: Seq<char>,
    at: Seq<char>,
    q: host::QuotaView,
    now: u64,
)
    requires
        sound(s),
    ensures
        sound(s.heard_plan(ctx, reply, id, at, q, now).0),
{
    match reply {
        Err(e) => {
            trace::law_a_move_keeps_the_tree(
                s.rec.trace,
                s.depth,
                trace::MoveView {
                    op: "plan"@,
                    args: crate::json::JsonView::Null,
                    observation: ""@,
                    truncated: false,
                    error: Some(e.message()),
                },
                engine::since(q.calls, s.asked_calls),
                engine::since(now as nat, s.asked_ms as nat) as u64,
            );
            lemma_turned_sound(s.unasked(e, q, now), ctx, q, now);
        },
        Ok(reply) => match engine::planned(reply, ctx.chunks.len()) {
            Err(why) => {
                let kept = trace::cut_to(reply, engine::KEPT_OF_A_REPLY as int);
                trace::law_a_move_keeps_the_tree(
                    s.rec.trace,
                    s.depth,
                    trace::MoveView {
                        op: "invalid"@,
                        args: crate::json::JsonView::Object(
                            seq![("reply"@, crate::json::JsonView::Str(kept))],
                        ),
                        observation: why,
                        truncated: false,
                        error: Some(why),
                    },
                    engine::since(q.calls, s.asked_calls),
                    engine::since(now as nat, s.asked_ms as nat) as u64,
                );
                lemma_turned_sound(s.refused(reply, why, q, now), ctx, q, now);
            },
            Ok(op) => {
                lemma_chose_sound(s, ctx, op, id, at, q, now);
            },
        },
    }
}

proof fn lemma_forced_sound(
    s: engine::State,
    ctx: context::ContextView,
    said: Option<(Seq<char>, Seq<usize>)>,
    q: host::QuotaView,
    now: u64,
)
    requires
        sound(s),
    ensures
        sound(s.heard_last_word(ctx, said, q, now)),
{
    match said {
        Some((answer, cites)) => {
            trace::law_a_move_keeps_the_tree(
                s.rec.trace,
                s.depth,
                trace::MoveView {
                    op: "final(forced)"@,
                    args: crate::json::JsonView::Object(
                        seq![
                            (
                                "reason"@,
                                crate::json::JsonView::Str("step budget exhausted"@),
                            ),
                        ],
                    ),
                    observation: trace::cut_to(answer, engine::KEPT_OF_AN_ANSWER as int),
                    truncated: false,
                    error: None,
                },
                engine::since(q.calls, s.asked_calls),
                engine::since(now as nat, s.asked_ms as nat) as u64,
            );
            lemma_turned_sound(s.forced(ctx, answer, cites, q, now), ctx, q, now);
        },
        None => {
            lemma_turned_sound(s, ctx, q, now);
        },
    }
}

/// Every event leaves a sound run sound: no slot outgrows its ceiling, no turn
/// is taken past the budget, and the steps of nested runs hang under the steps
/// that spawned them.
pub proof fn law_a_run_stays_sound(
    s: engine::State,
    ctx: context::ContextView,
    event: engine::EventView,
    id: Seq<char>,
    at: Seq<char>,
    q: host::QuotaView,
    now: u64,
)
    requires
        sound(s),
        comes_in_order(s, event),
    ensures
        sound(s.advanced(ctx, event, id, at, q, now).0),
{
    match (s.phase, event) {
        (engine::PhaseView::Ready, engine::EventView::Start) => {
            lemma_turned_sound(s, ctx, q, now);
        },
        (engine::PhaseView::Planning, engine::EventView::Planned(reply)) => {
            lemma_heard_plan_sound(s, ctx, reply, id, at, q, now);
        },
        (engine::PhaseView::Answering, engine::EventView::Planned(reply)) => {
            let said = match reply {
                Ok(reply) => engine::last_word(reply),
                Err(_) => None,
            };
            lemma_forced_sound(s, ctx, said, q, now);
        },
        (engine::PhaseView::Waiting(op), engine::EventView::Leaves(outcomes)) => {
            let ids = op->MapOver_chunks;
            let lines = fold::map_findings(ctx.chunks, ids, outcomes);
            let found = engine::State { work: s.work.found(lines), ..s };
            working::law_the_slots_stay_bounded(s.work, seq![], lines, seq![], seq![]);
            let o = fold::map_observation(ctx.chunks, ids, outcomes);
            lemma_observed_sound(found, op, o, q, now);
            lemma_turned_sound(found.observed(op, o, q, now), ctx, q, now);
        },
        (engine::PhaseView::Waiting(op), engine::EventView::Nested(nested)) => {
            let ids = op->Recurse_chunks;
            let o = observe::observed(engine::nested_told(ids.len(), nested));
            let joined = engine::State {
                rec: trace::RunView {
                    trace: trace::spliced(s.rec.trace, nested.trace),
                    ..s.rec
                },
                ..s
            };
            trace::law_a_nested_trace_hangs_under_its_step(
                s.rec.trace,
                nested.trace,
                s.depth,
                trace::MoveView {
                    op: op.label(),
                    args: ops::op_json(op),
                    observation: o.text,
                    truncated: o.truncated,
                    error: None,
                },
                engine::since(q.calls, s.asked_calls),
                engine::since(now as nat, s.asked_ms as nat) as u64,
            );
            assert(sound(joined.observed(op, o, q, now)));
            lemma_turned_sound(joined.observed(op, o, q, now), ctx, q, now);
        },
        _ => {},
    }
}

/// A run that has not begun is sound.
pub proof fn law_a_new_run_is_sound(s: engine::State)
    requires
        s.work.notes.len() == 0,
        s.work.findings.len() == 0,
        s.step == 0,
        s.rec.trace.len() == 0,
        s.rec.status == STATUS_BUDGET@,
    ensures
        sound(s),
{
}

// ---------------------------------------------------------------------- bounds
/// The planner is asked only while there is a call left to claim and time left
/// to wait.
pub proof fn law_nothing_is_asked_past_the_bounds(
    s: engine::State,
    ctx: context::ContextView,
    event: engine::EventView,
    id: Seq<char>,
    at: Seq<char>,
    q: host::QuotaView,
    now: u64,
)
    requires
        s.awaits(event),
        s.advanced(ctx, event, id, at, q, now).1 is Ask,
    ensures
        q.remaining > 0,
        !q.elapsed(now),
{
}

/// How many more events a run can take.
pub open spec fn fuel(s: engine::State) -> int {
    2 * (s.rec.budget.max_steps - s.step) + match s.phase {
        engine::PhaseView::Ready => 4int,
        engine::PhaseView::Planning => 3,
        engine::PhaseView::Waiting(_) => 2,
        engine::PhaseView::Answering => 1,
        engine::PhaseView::Over => 0,
    }
}

/// Every run ends: each event leaves room for fewer, and what is done outside
/// is nothing if and only if the run is over.
pub proof fn law_every_run_ends(
    s: engine::State,
    ctx: context::ContextView,
    event: engine::EventView,
    id: Seq<char>,
    at: Seq<char>,
    q: host::QuotaView,
    now: u64,
)
    requires
        s.awaits(event),
        s.step <= s.rec.budget.max_steps,
    ensures
        fuel(s.advanced(ctx, event, id, at, q, now).0) < fuel(s),
        fuel(s.advanced(ctx, event, id, at, q, now).0) >= 0,
        s.advanced(ctx, event, id, at, q, now).0.rec.budget == s.rec.budget,
        s.advanced(ctx, event, id, at, q, now).1 is Done <==> s.advanced(
            ctx,
            event,
            id,
            at,
            q,
            now,
        ).0.phase is Over,
{
}

/// A nested run is one level deeper, within the bound on depth, and gets no
/// more turns than its share.
pub proof fn law_recursion_is_bounded(
    s: engine::State,
    ctx: context::ContextView,
    event: engine::EventView,
    id: Seq<char>,
    at: Seq<char>,
    q: host::QuotaView,
    now: u64,
)
    requires
        s.awaits(event),
    ensures
        match s.advanced(ctx, event, id, at, q, now).1 {
            engine::ActionView::Recurse { sub, budget, depth, .. } => {
                &&& depth == s.depth + 1
                &&& depth < s.rec.budget.max_depth
                &&& budget == engine::nested_budget(s.rec.budget)
                &&& budget.max_steps <= engine::MAX_NESTED_STEPS
                &&& sub.chunks.len() > 0
            },
            _ => true,
        },
{
}

// ---------------------------------------------------------------------- status
/// A run is labelled `ok` by one thing alone: an answer that the planner chose
/// to give, in a turn of its own, and that cites no chunk which is not there.
/// Whatever a bound cut short keeps the label that says so.
pub proof fn law_only_a_valid_answer_is_ok(
    s: engine::State,
    ctx: context::ContextView,
    event: engine::EventView,
    id: Seq<char>,
    at: Seq<char>,
    q: host::QuotaView,
    now: u64,
)
    requires
        s.awaits(event),
        s.rec.status != STATUS_OK@,
        s.advanced(ctx, event, id, at, q, now).0.rec.status == STATUS_OK@,
    ensures
        s.phase is Planning,
        event matches engine::EventView::Planned(Ok(reply)) && (engine::planned(
            reply,
            ctx.chunks.len(),
        ) matches Ok(ops::OpView::Final { answer, cites }) && {
            &&& !text::is_blank(answer)
            &&& s.advanced(ctx, event, id, at, q, now).0.rec.answer == answer
            &&& s.advanced(ctx, event, id, at, q, now).0.rec.cites == trace::resolved(
                ctx.chunks,
                cites,
            )
            &&& trace::resolved(ctx.chunks, cites).len() == cites.len()
        }),
{
    reveal_strlit("ok");
    reveal_strlit("error");
    assert("ok"@.len() != "error"@.len());
    match (s.phase, event) {
        (engine::PhaseView::Planning, engine::EventView::Planned(Ok(reply))) => {
            match engine::planned(reply, ctx.chunks.len()) {
                Ok(ops::OpView::Final { answer, cites }) => {
                    lemma_all_cited(ctx, cites);
                    text::lemma_trim_blank(answer);
                },
                _ => {},
            }
        },
        _ => {},
    }
}

proof fn lemma_all_cited(ctx: context::ContextView, cites: Seq<usize>)
    requires
        ops::first_beyond(cites, ctx.chunks.len()) is None,
    ensures
        trace::resolved(ctx.chunks, cites).len() == cites.len(),
{
    lemma_none_beyond(cites, ctx.chunks.len());
    lemma_resolved_len(ctx, cites);
}

proof fn lemma_none_beyond(ids: Seq<usize>, n: nat)
    requires
        ops::first_beyond(ids, n) is None,
    ensures
        forall|k: int| 0 <= k < ids.len() ==> #[trigger] ids[k] < n,
    decreases ids.len(),
{
    if ids.len() > 0 {
        let rest = ids.skip(1);
        lemma_none_beyond(rest, n);
        assert forall|k: int| 0 <= k < ids.len() implies #[trigger] ids[k] < n by {
            if k > 0 {
                assert(rest[k - 1] == ids[k]);
            }
        }
    }
}

proof fn lemma_resolved_len(ctx: context::ContextView, ids: Seq<usize>)
    requires
        forall|k: int| 0 <= k < ids.len() ==> #[trigger] ids[k] < ctx.chunks.len(),
    ensures
        trace::resolved(ctx.chunks, ids).len() == ids.len(),
    decreases ids.len(),
{
    if ids.len() > 0 {
        let front = ids.drop_last();
        assert forall|k: int| 0 <= k < front.len() implies #[trigger] front[k]
            < ctx.chunks.len() by {
            assert(front[k] == ids[k]);
        }
        assert(ids[ids.len() - 1] < ctx.chunks.len());
        lemma_resolved_len(ctx, front);
    }
}

/// What a budget refused is no error: the status is left as it was, and only
/// what the host could not do makes it one.
pub proof fn law_a_budget_is_no_error(
    s: engine::State,
    ctx: context::ContextView,
    e: host::ErrorView,
    id: Seq<char>,
    at: Seq<char>,
    q: host::QuotaView,
    now: u64,
)
    requires
        s.phase is Planning,
    ensures
        ({
            let next = s.advanced(
                ctx,
                engine::EventView::Planned(Err(e)),
                id,
                at,
                q,
                now,
            ).0;
            next.rec.status == (if e is Host {
                STATUS_ERROR@
            } else {
                s.rec.status
            })
        }),
{
}

/// A run that is over says something, whatever ended it.
pub proof fn law_a_run_that_is_over_has_an_answer(
    s: engine::State,
    ctx: context::ContextView,
    event: engine::EventView,
    id: Seq<char>,
    at: Seq<char>,
    q: host::QuotaView,
    now: u64,
)
    requires
        s.awaits(event),
        s.advanced(ctx, event, id, at, q, now).0.phase is Over,
    ensures
        s.advanced(ctx, event, id, at, q, now).0.rec.answer.len() > 0,
{
    reveal_strlit("No answer: the run ended before anything was read from the corpus.");
    reveal_strlit("No answer was reached within the budget. What had been found:\n");
}

// ---------------------------------------------------------------------- memory
/// Nothing that the one holds is lost or changed in the other.
pub open spec fn grew(s: engine::State, t: engine::State) -> bool {
    &&& s.work.notes.is_prefix_of(t.work.notes)
    &&& s.work.findings.is_prefix_of(t.work.findings)
    &&& s.rec.trace.is_prefix_of(t.rec.trace)
    &&& s.rec.query == t.rec.query
    &&& s.rec.id == t.rec.id
}

proof fn lemma_turned_grew(
    s: engine::State,
    t: engine::State,
    ctx: context::ContextView,
    q: host::QuotaView,
    now: u64,
)
    requires
        grew(s, t),
    ensures
        grew(s, t.turned(ctx, q, now).0),
        grew(s, t.wound_up(ctx, q, now).0),
        grew(s, t.over(q, now)),
{
}

proof fn lemma_moved_grew(
    s: engine::State,
    t: engine::State,
    m: trace::MoveView,
    q: host::QuotaView,
    now: u64,
)
    requires
        grew(s, t),
    ensures
        grew(s, t.moved(m, q, now)),
{
    let all = t.moved(m, q, now).rec.trace;
    assert(all.drop_last() =~= t.rec.trace);
}

proof fn lemma_observed_grew(
    s: engine::State,
    t: engine::State,
    op: ops::OpView,
    o: observe::ObservationView,
    ctx: context::ContextView,
    q: host::QuotaView,
    now: u64,
)
    requires
        grew(s, t),
    ensures
        grew(s, t.observed(op, o, q, now).turned(ctx, q, now).0),
{
    lemma_moved_grew(
        s,
        engine::State { work: t.work.stepped(op.label(), o.text), ..t },
        trace::MoveView {
            op: op.label(),
            args: ops::op_json(op),
            observation: o.text,
            truncated: o.truncated,
            error: None,
        },
        q,
        now,
    );
    lemma_turned_grew(s, t.observed(op, o, q, now), ctx, q, now);
}

proof fn lemma_chose_grew(
    s: engine::State,
    ctx: context::ContextView,
    op: ops::OpView,
    id: Seq<char>,
    at: Seq<char>,
    q: host::QuotaView,
    now: u64,
)
    ensures
        grew(s, s.chose(ctx, op, id, at, q, now).0),
{
    match op {
        ops::OpView::Outline { source } => {
            let o = observe::observed(observe::outline_text(ctx.chunks, source));
            lemma_observed_grew(s, s, op, o, ctx, q, now);
        },
        ops::OpView::Peek { chunk, start, len } => {
            let o = observe::observed(
                observe::peek_text(ctx.chunks, chunk as nat, start as nat, len),
            );
            lemma_observed_grew(s, s, op, o, ctx, q, now);
        },
        ops::OpView::Grep { pattern, max, context } => {
            let o = observe::observed(observe::grep_outcome(ctx.chunks, pattern, max, context));
            lemma_observed_grew(s, s, op, o, ctx, q, now);
        },
        ops::OpView::Note { text } => {
            let noted = engine::State { work: s.work.noted(text), ..s };
            let o = observe::observed(
                engine::note_told(s.work.notes.len() < working::MAX_NOTES),
            );
            lemma_observed_grew(s, noted, op, o, ctx, q, now);
        },
        ops::OpView::MapOver { .. } => {},
        ops::OpView::Recurse { query, chunks } => {
            let docs = engine::excerpts(ctx.chunks, chunks);
            let deep = observe::observed(
                engine::too_deep(s.depth, s.rec.budget.max_depth as nat),
            );
            let none = observe::observed("no readable chunks in that selection"@);
            let why = observe::observed(
                "could not build the sub-context: "@ + context::ephemeral_refusal(docs)->0,
            );
            lemma_observed_grew(s, s, op, deep, ctx, q, now);
            lemma_observed_grew(s, s, op, none, ctx, q, now);
            lemma_observed_grew(s, s, op, why, ctx, q, now);
        },
        ops::OpView::Final { answer, cites } => {
            let t = s.answered(ctx, answer, cites, q, now);
            assert(t.rec.trace.drop_last() =~= s.rec.trace);
            lemma_turned_grew(s, t, ctx, q, now);
        },
    }
}

/// What was written down is never lost, and no recorded step is ever changed:
/// notes, findings and trace only grow, at their ends.
pub proof fn law_nothing_written_is_lost(
    s: engine::State,
    ctx: context::ContextView,
    event: engine::EventView,
    id: Seq<char>,
    at: Seq<char>,
    q: host::QuotaView,
    now: u64,
)
    requires
        s.awaits(event),
    ensures
        grew(s, s.advanced(ctx, event, id, at, q, now).0),
{
    match (s.phase, event) {
        (engine::PhaseView::Planning, engine::EventView::Planned(reply)) => {
            match reply {
                Err(e) => {
                    let t = s.unasked(e, q, now);
                    assert(t.rec.trace.drop_last() =~= s.rec.trace);
                    lemma_turned_grew(s, t, ctx, q, now);
                },
                Ok(reply) => match engine::planned(reply, ctx.chunks.len()) {
                    Err(why) => {
                        let t = s.refused(reply, why, q, now);
                        assert(t.rec.trace.drop_last() =~= s.rec.trace);
                        lemma_turned_grew(s, t, ctx, q, now);
                    },
                    Ok(op) => {
                        lemma_chose_grew(s, ctx, op, id, at, q, now);
                    },
                },
            }
        },
        (engine::PhaseView::Answering, engine::EventView::Planned(reply)) => {
            let said = match reply {
                Ok(reply) => engine::last_word(reply),
                Err(_) => None,
            };
            match said {
                Some((answer, cites)) => {
                    let t = s.forced(ctx, answer, cites, q, now);
                    assert(t.rec.trace.drop_last() =~= s.rec.trace);
                    lemma_turned_grew(s, t, ctx, q, now);
                },
                None => {},
            }
        },
        (engine::PhaseView::Waiting(op), engine::EventView::Leaves(outcomes)) => {
            let ids = op->MapOver_chunks;
            let lines = fold::map_findings(ctx.chunks, ids, outcomes);
            working::law_findings_are_kept(s.work, lines);
            let found = engine::State { work: s.work.found(lines), ..s };
            let o = fold::map_observation(ctx.chunks, ids, outcomes);
            lemma_observed_grew(s, found, op, o, ctx, q, now);
        },
        (engine::PhaseView::Waiting(op), engine::EventView::Nested(nested)) => {
            let ids = op->Recurse_chunks;
            let o = observe::observed(engine::nested_told(ids.len(), nested));
            let joined = engine::State {
                rec: trace::RunView {
                    trace: trace::spliced(s.rec.trace, nested.trace),
                    ..s.rec
                },
                ..s
            };
            lemma_observed_grew(s, joined, op, o, ctx, q, now);
        },
        _ => {
            lemma_turned_grew(s, s, ctx, q, now);
        },
    }
}

/// Looking costs nothing: `outline`, `peek`, `grep` and `note` are carried out
/// at once, without a model.
pub proof fn law_looking_takes_no_model(
    s: engine::State,
    ctx: context::ContextView,
    op: ops::OpView,
    id: Seq<char>,
    at: Seq<char>,
    q: host::QuotaView,
    now: u64,
)
    requires
        op is Outline || op is Peek || op is Grep || op is Note,
    ensures
        s.chose(ctx, op, id, at, q, now).0.rec.trace.len() == s.rec.trace.len() + 1,
        s.chose(ctx, op, id, at, q, now).0.rec.trace.last().model_calls == engine::since(
            q.calls,
            s.asked_calls,
        ),
        !(s.chose(ctx, op, id, at, q, now).1 is AskLeaves),
        !(s.chose(ctx, op, id, at, q, now).1 is Recurse),
{
}

/// A step that was carried out can be read back from the trace: its label and
/// its arguments are those of the operator, whole.
pub proof fn law_a_recorded_step_can_be_replayed(
    s: engine::State,
    op: ops::OpView,
    o: observe::ObservationView,
    q: host::QuotaView,
    now: u64,
)
    ensures
        s.observed(op, o, q, now).rec.trace.last().op == op.label(),
        ops::op_of(s.observed(op, o, q, now).rec.trace.last().args) == Ok::<
            ops::OpView,
            Seq<char>,
        >(op),
        s.observed(op, o, q, now).rec.trace.last().observation == o.text,
        s.observed(op, o, q, now).rec.trace.last().error is None,
{
    ops::law_every_operator_round_trips(op);
}

// --------------------------------------------------------------------- history
/// An event, with what is at hand when it comes.
pub struct Input {
    pub event: engine::EventView,
    pub id: Seq<char>,
    pub at: Seq<char>,
    pub quota: host::QuotaView,
    pub now: u64,
}

/// A run after a history.
pub open spec fn after(
    s: engine::State,
    ctx: context::ContextView,
    history: Seq<Input>,
) -> engine::State
    decreases history.len(),
{
    if history.len() == 0 {
        s
    } else {
        let i = history.last();
        after(s, ctx, history.drop_last()).advanced(ctx, i.event, i.id, i.at, i.quota, i.now).0
    }
}

/// Each event of a history is one that the run waits for when it comes.
pub open spec fn in_order(
    s: engine::State,
    ctx: context::ContextView,
    history: Seq<Input>,
) -> bool
    decreases history.len(),
{
    history.len() == 0 || {
        &&& in_order(s, ctx, history.drop_last())
        &&& comes_in_order(after(s, ctx, history.drop_last()), history.last().event)
    }
}

/// Whatever happens to a run, it stays sound, loses nothing, and takes no more
/// events than its budget has room for.
pub proof fn law_every_history_is_sound_and_bounded(
    s: engine::State,
    ctx: context::ContextView,
    history: Seq<Input>,
)
    requires
        sound(s),
        in_order(s, ctx, history),
    ensures
        sound(after(s, ctx, history)),
        grew(s, after(s, ctx, history)),
        after(s, ctx, history).rec.budget == s.rec.budget,
        0 <= fuel(after(s, ctx, history)),
        fuel(after(s, ctx, history)) + history.len() <= fuel(s),
        history.len() <= 2 * s.rec.budget.max_steps + 4,
    decreases history.len(),
{
    if history.len() > 0 {
        let front = history.drop_last();
        let i = history.last();
        law_every_history_is_sound_and_bounded(s, ctx, front);
        let t = after(s, ctx, front);
        law_a_run_stays_sound(t, ctx, i.event, i.id, i.at, i.quota, i.now);
        law_nothing_written_is_lost(t, ctx, i.event, i.id, i.at, i.quota, i.now);
        law_every_run_ends(t, ctx, i.event, i.id, i.at, i.quota, i.now);
        lemma_grew_on(s, t, after(s, ctx, history));
    }
}

proof fn lemma_grew_on(a: engine::State, b: engine::State, c: engine::State)
    requires
        grew(a, b),
        grew(b, c),
    ensures
        grew(a, c),
{
    assert(a.work.notes =~= c.work.notes.subrange(0, a.work.notes.len() as int)) by {
        assert(a.work.notes =~= b.work.notes.subrange(0, a.work.notes.len() as int));
        assert(b.work.notes =~= c.work.notes.subrange(0, b.work.notes.len() as int));
    }
    assert(a.work.findings =~= c.work.findings.subrange(0, a.work.findings.len() as int)) by {
        assert(a.work.findings =~= b.work.findings.subrange(0, a.work.findings.len() as int));
        assert(b.work.findings =~= c.work.findings.subrange(0, b.work.findings.len() as int));
    }
    assert(a.rec.trace =~= c.rec.trace.subrange(0, a.rec.trace.len() as int)) by {
        assert(a.rec.trace =~= b.rec.trace.subrange(0, a.rec.trace.len() as int));
        assert(b.rec.trace =~= c.rec.trace.subrange(0, b.rec.trace.len() as int));
    }
}

// ----------------------------------------------------------------------- turns
/// A chunk has a line that is not blank.
pub open spec fn says_a_line(c: chunk::ChunkView) -> bool {
    exists|line: int|
        0 <= line < text::lines(c.text).len() && !text::is_blank(
            #[trigger] text::lines(c.text)[line],
        )
}

/// One of the ids names a chunk in which something is said.
pub open spec fn names_something(ctx: context::ContextView, ids: Seq<usize>) -> bool {
    exists|k: int|
        0 <= k < ids.len() && #[trigger] ids[k] < ctx.chunks.len() && says_a_line(
            ctx.chunks[ids[k] as int],
        )
}

/// The reply holds an operator that addresses the corpus, and this is it.
pub open spec fn asks_for(reply: Seq<char>, ctx: context::ContextView, op: ops::OpView) -> bool {
    &&& host::first_value(reply, 0) is Some
    &&& ops::op_of(host::first_value(reply, 0)->0) == Ok::<ops::OpView, Seq<char>>(op)
    &&& op.refusal(ctx.chunks.len()) is None
}

/// The event leaves the run with nothing to wait for and no answer: it was
/// started, an operator was carried out or refused, or what was waited for came.
pub open spec fn turn_is_due(
    s: engine::State,
    ctx: context::ContextView,
    event: engine::EventView,
) -> bool {
    match event {
        engine::EventView::Start => s.phase is Ready,
        engine::EventView::Leaves(_) | engine::EventView::Nested(_) => s.phase is Waiting,
        engine::EventView::Planned(Err(_)) => false,
        engine::EventView::Planned(Ok(reply)) => s.phase is Planning && forall|op: ops::OpView|
         #[trigger]
            asks_for(reply, ctx, op) ==> match op {
                ops::OpView::Final { .. } => false,
                ops::OpView::MapOver { .. } => false,
                ops::OpView::Recurse { chunks, .. } => !(s.depth + 1 < s.rec.budget.max_depth
                    && names_something(ctx, chunks)),
                _ => true,
            },
    }
}

/// There is a model call left, and time.
pub open spec fn can_pay(q: host::QuotaView, now: u64) -> bool {
    q.remaining > 0 && now < q.deadline_ms
}

proof fn lemma_asks_for(reply: Seq<char>, ctx: context::ContextView, op: ops::OpView)
    ensures
        asks_for(reply, ctx, op) <==> engine::planned(reply, ctx.chunks.len()) == Ok::<
            ops::OpView,
            Seq<char>,
        >(op),
{
}

/// The documents of a nested run are the chunks that are named, every one that
/// is there, in order: each with the source, the text and the first line of its
/// chunk.
pub proof fn law_a_nested_corpus_is_the_chunks_named(
    chunks: Seq<chunk::ChunkView>,
    ids: Seq<usize>,
)
    ensures
        engine::excerpts(chunks, ids) == ids.filter(|id: usize| id < chunks.len()).map_values(
            |id: usize|
                chunk::DocumentView {
                    source: chunks[id as int].source,
                    text: chunks[id as int].text,
                    first_line: if chunks[id as int].start_line == 0 {
                        1
                    } else {
                        chunks[id as int].start_line
                    },
                },
        ),
        (forall|k: int| 0 <= k < ids.len() ==> #[trigger] ids[k] < chunks.len()) ==> {
            &&& engine::excerpts(chunks, ids).len() == ids.len()
            &&& forall|k: int|
                0 <= k < ids.len() ==> {
                    let d = #[trigger] engine::excerpts(chunks, ids)[k];
                    let c = chunks[ids[k] as int];
                    &&& d.source == c.source
                    &&& d.text == c.text
                    &&& c.start_line > 0 ==> d.first_line == c.start_line
                }
        },
{
    fold::law_every_chunk_that_is_there_is_read(chunks, ids);
    fold::lemma_readable(chunks, ids);
    let g = |id: usize|
        chunk::DocumentView {
            source: chunks[id as int].source,
            text: chunks[id as int].text,
            first_line: if chunks[id as int].start_line == 0 {
                1
            } else {
                chunks[id as int].start_line
            },
        };
    assert(engine::excerpts(chunks, ids) =~= ids.filter(
        |id: usize| id < chunks.len(),
    ).map_values(g));
}

/// A nested run has something to read if and only if something is said in a
/// chunk that is named.
proof fn lemma_nested_refusal(ctx: context::ContextView, ids: Seq<usize>)
    ensures
        context::ephemeral_refusal(engine::excerpts(ctx.chunks, ids)) is None <==> names_something(
            ctx,
            ids,
        ),
{
    let docs = engine::excerpts(ctx.chunks, ids);
    let kept = fold::readable(ctx.chunks, ids);
    context::law_documents_make_a_context_unless(docs, 0);
    fold::lemma_readable(ctx.chunks, ids);
    if names_something(ctx, ids) {
        let k = choose|k: int|
            0 <= k < ids.len() && #[trigger] ids[k] < ctx.chunks.len() && says_a_line(
                ctx.chunks[ids[k] as int],
            );
        lemma_readable_has(ctx.chunks, ids, k);
        let i = choose|i: int| 0 <= i < kept.len() && kept[i] == ids[k];
        let c = ctx.chunks[ids[k] as int];
        let line = choose|line: int|
            0 <= line < text::lines(c.text).len() && !text::is_blank(
                #[trigger] text::lines(c.text)[line],
            );
        assert(docs[i].text == c.text);
        assert(!text::is_blank(text::lines(docs[i].text)[line]));
        assert(context::something_is_said(docs));
    }
    if context::something_is_said(docs) {
        let (d, line) = choose|d: int, line: int|
            0 <= d < docs.len() && 0 <= line < text::lines(docs[d].text).len() && !text::is_blank(
                #[trigger] text::lines(docs[d].text)[line],
            );
        let c = ctx.chunks[kept[d] as int];
        assert(docs[d].text == c.text);
        assert(!text::is_blank(text::lines(c.text)[line]));
        assert(says_a_line(c));
        let k = lemma_readable_from(ctx.chunks, ids, d);
        assert(ids[k] == kept[d]);
    }
}

proof fn lemma_readable_has(chunks: Seq<chunk::ChunkView>, ids: Seq<usize>, k: int)
    requires
        0 <= k < ids.len(),
        ids[k] < chunks.len(),
    ensures
        fold::readable(chunks, ids).contains(ids[k]),
    decreases ids.len(),
{
    let all = fold::readable(chunks, ids);
    let front = ids.drop_last();
    if k == ids.len() - 1 {
        assert(all[all.len() - 1] == ids[k]);
    } else {
        lemma_readable_has(chunks, front, k);
        let before = fold::readable(chunks, front);
        let i = choose|i: int| 0 <= i < before.len() && before[i] == front[k];
        assert(all[i] == ids[k]);
    }
}

proof fn lemma_readable_from(chunks: Seq<chunk::ChunkView>, ids: Seq<usize>, i: int) -> (k: int)
    requires
        0 <= i < fold::readable(chunks, ids).len(),
    ensures
        0 <= k < ids.len(),
        ids[k] == fold::readable(chunks, ids)[i],
    decreases ids.len(),
{
    let before = fold::readable(chunks, ids.drop_last());
    if i < before.len() {
        let k = lemma_readable_from(chunks, ids.drop_last(), i);
        k
    } else {
        ids.len() - 1
    }
}

/// A run gets every turn that its budget pays for, and no other. Whenever a turn
/// is due, the planner is asked for its next operator if and only if turns are
/// left, a model call is left and time is left. Its last word is asked for only
/// where a turn is due and all turns are taken, or where it could not be asked;
/// and a run that asks nothing is over.
pub proof fn law_a_run_gets_every_turn_it_can_pay_for(
    s: engine::State,
    ctx: context::ContextView,
    event: engine::EventView,
    id: Seq<char>,
    at: Seq<char>,
    q: host::QuotaView,
    now: u64,
)
    requires
        s.awaits(event),
        s.rec.status == "budget_exhausted"@,
    ensures
        ({
            let (t, action) = s.advanced(ctx, event, id, at, q, now);
            let due = turn_is_due(s, ctx, event);
            let left = s.step < s.rec.budget.max_steps;
            let unasked = s.phase is Planning && match event {
                engine::EventView::Planned(Err(e)) => !(e is Host),
                _ => false,
            };
            &&& t.phase is Planning <==> due && left && can_pay(q, now)
            &&& t.phase is Planning ==> {
                &&& t.step == s.step + 1
                &&& t.rec.status == "budget_exhausted"@
                &&& action == engine::ActionView::Ask {
                    system: prompts::root_text(s.depth, s.rec.budget),
                    prompt: prompts::turn_text(s.rec.query, ctx, t.work),
                }
            }
            &&& t.phase is Answering <==> (due && !left || unasked) && can_pay(q, now)
            &&& t.phase is Answering ==> {
                &&& t.step == s.step
                &&& t.rec.status == "budget_exhausted"@
                &&& action == engine::ActionView::Ask {
                    system: prompts::root_text(s.depth, s.rec.budget),
                    prompt: prompts::forced_text(s.rec.query, ctx, t.work),
                }
            }
            &&& due && !can_pay(q, now) ==> {
                &&& t.phase is Over
                &&& t.rec.status == "budget_exhausted"@
                &&& action is Done
            }
            &&& t.phase is Waiting ==> t.step == s.step && t.rec.status == "budget_exhausted"@
        }),
{
    reveal_strlit("budget_exhausted");
    reveal_strlit("ok");
    reveal_strlit("error");
    assert("budget_exhausted"@.len() != "ok"@.len());
    assert("budget_exhausted"@.len() != "error"@.len());
    match event {
        engine::EventView::Planned(Ok(reply)) => {
            assert forall|op: ops::OpView| #[trigger] asks_for(reply, ctx, op) implies engine::planned(
                reply,
                ctx.chunks.len(),
            ) == Ok::<ops::OpView, Seq<char>>(op) by {
                lemma_asks_for(reply, ctx, op);
            }
            match engine::planned(reply, ctx.chunks.len()) {
                Ok(op) => {
                    lemma_asks_for(reply, ctx, op);
                    assert(asks_for(reply, ctx, op));
                    if let ops::OpView::Recurse { chunks, .. } = op {
                        lemma_nested_refusal(ctx, chunks);
                    }
                },
                Err(_) => {
                    assert forall|op: ops::OpView| !#[trigger] asks_for(reply, ctx, op) by {
                        lemma_asks_for(reply, ctx, op);
                    }
                },
            }
        },
        _ => {},
    }
}

/// Every event of a history leaves a turn due, at a time when one can be paid
/// for.
pub open spec fn goes_on(
    s: engine::State,
    ctx: context::ContextView,
    history: Seq<Input>,
) -> bool
    decreases history.len(),
{
    history.len() == 0 || {
        let t = after(s, ctx, history.drop_last());
        let i = history.last();
        &&& goes_on(s, ctx, history.drop_last())
        &&& t.awaits(i.event)
        &&& turn_is_due(t, ctx, i.event)
        &&& can_pay(i.quota, i.now)
    }
}

/// A run whose planner goes on working has all the turns of its budget: after
/// each of its events, as long as turns are left, the planner is at its next
/// one, and only after the last of them is it asked for its last word.
pub proof fn law_a_planner_that_goes_on_has_all_its_turns(
    s: engine::State,
    ctx: context::ContextView,
    history: Seq<Input>,
)
    requires
        s.phase is Ready,
        s.step == 0,
        s.rec.status == "budget_exhausted"@,
        0 < history.len(),
        goes_on(s, ctx, history),
    ensures
        history.len() <= s.rec.budget.max_steps + 1,
        history.len() <= s.rec.budget.max_steps ==> {
            &&& after(s, ctx, history).phase is Planning
            &&& after(s, ctx, history).step == history.len()
        },
        history.len() == s.rec.budget.max_steps + 1 ==> after(s, ctx, history).phase is Answering,
        after(s, ctx, history).rec.status == "budget_exhausted"@,
        after(s, ctx, history).rec.budget == s.rec.budget,
    decreases history.len(),
{
    let front = history.drop_last();
    let t = after(s, ctx, front);
    let i = history.last();
    if front.len() > 0 {
        law_a_planner_that_goes_on_has_all_its_turns(s, ctx, front);
    }
    law_a_run_gets_every_turn_it_can_pay_for(t, ctx, i.event, i.id, i.at, i.quota, i.now);
    law_every_run_ends(t, ctx, i.event, i.id, i.at, i.quota, i.now);
}

// ------------------------------------------------------------------- recursion
/// A planner that recurses, not too deep and over chunks in which something is
/// said, gets a nested run: of its question, one level deeper, over a corpus that
/// has every told line of every chunk it named, cut from that chunk and under the
/// chunk's source.
pub proof fn law_a_nested_run_reads_every_chunk_named(
    s: engine::State,
    ctx: context::ContextView,
    reply: Seq<char>,
    query: Seq<char>,
    ids: Seq<usize>,
    id: Seq<char>,
    at: Seq<char>,
    q: host::QuotaView,
    now: u64,
    k: int,
    line: int,
)
    requires
        s.phase is Planning,
        asks_for(reply, ctx, ops::OpView::Recurse { query, chunks: ids }),
        s.depth + 1 < s.rec.budget.max_depth,
        0 <= k < ids.len(),
        0 <= line < text::lines(ctx.chunks[ids[k] as int].text).len(),
        !text::is_blank(text::lines(ctx.chunks[ids[k] as int].text)[line]),
    ensures
        ids[k] < ctx.chunks.len(),
        ({
            let action = s.advanced(
                ctx,
                engine::EventView::Planned(Ok(reply)),
                id,
                at,
                q,
                now,
            ).1;
            let named = ctx.chunks[ids[k] as int];
            &&& action is Recurse
            &&& action->Recurse_query == query
            &&& action->depth == s.depth + 1
            &&& action->sub.sources.contains(named.source)
            &&& action->sub.name == ctx.name + " ▸ recursion"@
            &&& exists|i: int|
                0 <= i < action->sub.chunks.len() && {
                    let c = #[trigger] action->sub.chunks[i];
                    &&& chunk::cut_from(c, chunk::excerpt_of(named))
                    &&& c.source == named.source
                    &&& named.start_line > 0 ==> c.start_line <= named.start_line + line
                        <= c.end_line
                }
        }),
{
    let op = ops::OpView::Recurse { query, chunks: ids };
    lemma_asks_for(reply, ctx, op);
    ops::law_a_valid_operator_names_real_chunks(op, ctx.chunks.len());
    assert(ids[k] < ctx.chunks.len());
    let named = ctx.chunks[ids[k] as int];
    assert(says_a_line(named));
    assert(names_something(ctx, ids));
    lemma_nested_refusal(ctx, ids);
    fold::lemma_readable(ctx.chunks, ids);
    let docs = engine::excerpts(ctx.chunks, ids);
    assert(docs[k] == chunk::excerpt_of(named));
    let sub = engine::sub_context(ctx, ids, id, at);
    context::law_a_context_holds_its_documents(
        sub.id,
        sub.name,
        None,
        at,
        docs,
        context::EPHEMERAL_TARGET_CHARS as nat,
        k,
        line,
    );
}

/// A nested run gets no more turns than eight, and no more than the run that
/// asked for it; all its other bounds are that run's own.
pub proof fn law_a_nested_budget_is_the_outer_one_but_for_turns(b: engine::Budget)
    ensures
        engine::nested_budget(b).max_steps == (if b.max_steps <= 8 {
            b.max_steps
        } else {
            8
        }),
        engine::nested_budget(b).max_model_calls == b.max_model_calls,
        engine::nested_budget(b).max_depth == b.max_depth,
        engine::nested_budget(b).wall_secs == b.wall_secs,
{
}

// --------------------------------------------------------------------- answers
/// An answer that the planner gives, and that cites only chunks which are there,
/// ends the run at once: with the status `ok`, that answer, and a citation of
/// each chunk that it names, in order, with the place it has in its source.
pub proof fn law_a_valid_answer_ends_the_run(
    s: engine::State,
    ctx: context::ContextView,
    reply: Seq<char>,
    answer: Seq<char>,
    cites: Seq<usize>,
    id: Seq<char>,
    at: Seq<char>,
    q: host::QuotaView,
    now: u64,
)
    requires
        s.phase is Planning,
        asks_for(reply, ctx, ops::OpView::Final { answer, cites }),
    ensures
        ({
            let (t, action) = s.advanced(
                ctx,
                engine::EventView::Planned(Ok(reply)),
                id,
                at,
                q,
                now,
            );
            &&& action is Done
            &&& t.phase is Over
            &&& t.rec.status == "ok"@
            &&& t.rec.answer == answer
            &&& t.rec.cites.len() == cites.len()
            &&& forall|k: int|
                0 <= k < cites.len() ==> {
                    let c = ctx.chunks[cites[k] as int];
                    &&& cites[k] < ctx.chunks.len()
                    &&& (#[trigger] t.rec.cites[k]) == trace::CitationView {
                        chunk: c.id,
                        source: c.source,
                        start_line: c.start_line,
                        end_line: c.end_line,
                        label: c.label,
                    }
                }
            &&& t.rec.trace.len() == s.rec.trace.len() + 1
            &&& t.rec.trace.last().op == "final"@
        }),
{
    reveal_strlit("budget_exhausted");
    reveal_strlit("ok");
    assert("budget_exhausted"@.len() != "ok"@.len());
    let op = ops::OpView::Final { answer, cites };
    lemma_asks_for(reply, ctx, op);
    ops::law_a_valid_operator_names_real_chunks(op, ctx.chunks.len());
    lemma_cited_in_order(ctx.chunks, cites);
    text::lemma_trim_blank(answer);
    if answer.len() == 0 {
        assert(text::is_blank(answer));
    }
}

proof fn lemma_cited_in_order(chunks: Seq<chunk::ChunkView>, ids: Seq<usize>)
    requires
        forall|k: int| 0 <= k < ids.len() ==> #[trigger] ids[k] < chunks.len(),
    ensures
        trace::resolved(chunks, ids).len() == ids.len(),
        forall|k: int|
            0 <= k < ids.len() ==> #[trigger] trace::resolved(chunks, ids)[k] == trace::cited(
                chunks[ids[k] as int],
            ),
    decreases ids.len(),
{
    if ids.len() > 0 {
        let front = ids.drop_last();
        assert forall|k: int| 0 <= k < front.len() implies #[trigger] front[k] < chunks.len() by {
            assert(front[k] == ids[k]);
        }
        assert(ids[ids.len() - 1] < chunks.len());
        lemma_cited_in_order(chunks, front);
        let before = trace::resolved(chunks, front);
        let all = trace::resolved(chunks, ids);
        assert forall|k: int| 0 <= k < ids.len() implies #[trigger] all[k] == trace::cited(
            chunks[ids[k] as int],
        ) by {
            if k < front.len() {
                assert(all[k] == before[k]);
                assert(front[k] == ids[k]);
            }
        }
    }
}

/// The last word of a planner is its answer, with the citations it makes of
/// chunks that are there; the label of the run stays that of a budget, and
/// whatever it says instead, the run is over.
pub proof fn law_a_last_word_is_taken_and_labelled(
    s: engine::State,
    ctx: context::ContextView,
    reply: Seq<char>,
    answer: Seq<char>,
    cites: Seq<usize>,
    id: Seq<char>,
    at: Seq<char>,
    q: host::QuotaView,
    now: u64,
)
    requires
        s.phase is Answering,
        host::first_value(reply, 0) is Some,
        ops::op_of(host::first_value(reply, 0)->0) == Ok::<ops::OpView, Seq<char>>(
            ops::OpView::Final { answer, cites },
        ),
        answer.len() > 0,
    ensures
        ({
            let (t, action) = s.advanced(
                ctx,
                engine::EventView::Planned(Ok(reply)),
                id,
                at,
                q,
                now,
            );
            &&& action is Done
            &&& t.phase is Over
            &&& t.rec.status == s.rec.status
            &&& t.rec.answer == answer
            &&& t.rec.cites == cites.filter(|c: usize| c < ctx.chunks.len()).map_values(
                |c: usize| trace::cited(ctx.chunks[c as int]),
            )
            &&& t.rec.trace.last().op == "final(forced)"@
        }),
{
    law_every_cite_that_is_there_is_resolved(ctx.chunks, cites);
}

/// An answer's citations are of the chunks it names that are there, all of them,
/// in order.
pub proof fn law_every_cite_that_is_there_is_resolved(
    chunks: Seq<chunk::ChunkView>,
    ids: Seq<usize>,
)
    ensures
        trace::resolved(chunks, ids) == ids.filter(|id: usize| id < chunks.len()).map_values(
            |id: usize| trace::cited(chunks[id as int]),
        ),
    decreases ids.len(),
{
    reveal(Seq::filter);
    let f = |id: usize| id < chunks.len();
    let g = |id: usize| trace::cited(chunks[id as int]);
    if ids.len() == 0 {
        assert(ids.filter(f).map_values(g) =~= seq![]);
        assert(trace::resolved(chunks, ids) =~= seq![]);
    } else {
        let front = ids.drop_last();
        law_every_cite_that_is_there_is_resolved(chunks, front);
        if f(ids.last()) {
            assert(ids.filter(f) == front.filter(f).push(ids.last()));
            assert(ids.filter(f).map_values(g) =~= front.filter(f).map_values(g).push(
                g(ids.last()),
            ));
        } else {
            assert(ids.filter(f) == front.filter(f));
        }
    }
}

/// A run that is over tells what it cost: the time since it was started, and the
/// calls and characters that its quota counted since.
pub proof fn law_a_run_that_is_over_tells_its_cost(
    s: engine::State,
    ctx: context::ContextView,
    event: engine::EventView,
    id: Seq<char>,
    at: Seq<char>,
    q: host::QuotaView,
    now: u64,
)
    requires
        s.awaits(event),
        s.advanced(ctx, event, id, at, q, now).0.phase is Over,
        s.started_ms <= now,
        s.started_calls <= q.calls,
        s.started_chars <= q.prompt_chars,
    ensures
        ({
            let rec = s.advanced(ctx, event, id, at, q, now).0.rec;
            &&& rec.elapsed_ms == now - s.started_ms
            &&& rec.model_calls == q.calls - s.started_calls
            &&& rec.prompt_chars == q.prompt_chars - s.started_chars
        }),
{
}

/// A run that is over without an answer of its own says so, and tells what was
/// found.
pub proof fn law_what_was_found_is_told_in_place_of_an_answer(findings: Seq<Seq<char>>, k: int)
    requires
        0 <= k < findings.len(),
    ensures
        text::begins(engine::no_answer(findings), "No answer was reached within the budget."@),
        text::has(engine::no_answer(findings), findings[k]),
{
    reveal_strlit("No answer was reached within the budget. What had been found:\n");
    reveal_strlit("No answer was reached within the budget.");
    let said = "No answer was reached within the budget."@;
    let head = "No answer was reached within the budget. What had been found:\n"@;
    let all = engine::no_answer(findings);
    assert(all.subrange(0, said.len() as int) =~= said);
    let at = lemma_joined_has(findings, "\n"@, k);
    assert(all.subrange(head.len() + at, head.len() + at + findings[k].len()) =~= findings[k]);
    assert(text::stands_at(all, findings[k], head.len() + at));
}

proof fn lemma_joined_has(parts: Seq<Seq<char>>, sep: Seq<char>, k: int) -> (at: int)
    requires
        0 <= k < parts.len(),
    ensures
        0 <= at,
        at + parts[k].len() <= text::joined(parts, sep).len(),
        text::joined(parts, sep).subrange(at, at + parts[k].len()) == parts[k],
    decreases parts.len(),
{
    let all = text::joined(parts, sep);
    if parts.len() == 1 {
        assert(all.subrange(0, parts[0].len() as int) =~= parts[0]);
        0
    } else {
        let front = text::joined(parts.drop_last(), sep);
        if k == parts.len() - 1 {
            let at = (front + sep).len() as int;
            assert(all.subrange(at, at + parts[k].len()) =~= parts[k]);
            at
        } else {
            let at = lemma_joined_has(parts.drop_last(), sep, k);
            assert(all.subrange(at, at + parts[k].len()) =~= front.subrange(
                at,
                at + parts[k].len(),
            ));
            at
        }
    }
}

// ------------------------------------------------------------------- operators
/// The next turn, or the end, leaves what was told as it was.
proof fn lemma_turned_keeps(
    s: engine::State,
    ctx: context::ContextView,
    q: host::QuotaView,
    now: u64,
)
    ensures
        s.turned(ctx, q, now).0.work == s.work,
        s.turned(ctx, q, now).0.rec.trace == s.rec.trace,
        s.turned(ctx, q, now).0.rec.query == s.rec.query,
        s.turned(ctx, q, now).0.rec.cites == s.rec.cites,
{
}

/// What came of a step: the planner is told it under the operator's name, and the
/// trace has it at its end.
pub open spec fn was_told(
    s: engine::State,
    t: engine::State,
    op: ops::OpView,
    o: observe::ObservationView,
) -> bool {
    &&& t.work.recent == s.work.recent.push((op.label(), o.text))
    &&& t.rec.trace.len() > 0
    &&& t.rec.trace.last().op == op.label()
    &&& t.rec.trace.last().observation == o.text
    &&& t.rec.trace.last().truncated == o.truncated
    &&& t.rec.trace.last().depth == s.depth
}

/// An operator that only looks shows what it was asked for, and does nothing
/// else: a peek shows that chunk from that offset, a grep searches for that
/// pattern, an outline is of that source.
pub proof fn law_looking_shows_what_was_asked_for(
    s: engine::State,
    ctx: context::ContextView,
    reply: Seq<char>,
    op: ops::OpView,
    id: Seq<char>,
    at: Seq<char>,
    q: host::QuotaView,
    now: u64,
)
    requires
        s.phase is Planning,
        asks_for(reply, ctx, op),
        op is Outline || op is Peek || op is Grep,
    ensures
        ({
            let t = s.advanced(ctx, engine::EventView::Planned(Ok(reply)), id, at, q, now).0;
            let shown = match op {
                ops::OpView::Outline { source } => observe::outline_text(ctx.chunks, source),
                ops::OpView::Peek { chunk, start, len } => observe::peek_text(
                    ctx.chunks,
                    chunk as nat,
                    start as nat,
                    len,
                ),
                ops::OpView::Grep { pattern, max, context } => observe::grep_outcome(
                    ctx.chunks,
                    pattern,
                    max,
                    context,
                ),
                _ => seq![],
            };
            &&& was_told(s, t, op, observe::observed(shown))
            &&& t.rec.trace.drop_last() == s.rec.trace
            &&& t.work.notes == s.work.notes
            &&& t.work.findings == s.work.findings
        }),
{
    lemma_asks_for(reply, ctx, op);
    let shown = match op {
        ops::OpView::Outline { source } => observe::outline_text(ctx.chunks, source),
        ops::OpView::Peek { chunk, start, len } => observe::peek_text(
            ctx.chunks,
            chunk as nat,
            start as nat,
            len,
        ),
        ops::OpView::Grep { pattern, max, context } => observe::grep_outcome(
            ctx.chunks,
            pattern,
            max,
            context,
        ),
        _ => seq![],
    };
    let o = observe::observed(shown);
    let u = s.observed(op, o, q, now);
    lemma_turned_keeps(u, ctx, q, now);
    assert(u.rec.trace.drop_last() =~= s.rec.trace);
}

/// A note is taken as long as there is room for one, behind those that were
/// taken, and the planner is told whether it was.
pub proof fn law_a_note_is_taken(
    s: engine::State,
    ctx: context::ContextView,
    reply: Seq<char>,
    note: Seq<char>,
    id: Seq<char>,
    at: Seq<char>,
    q: host::QuotaView,
    now: u64,
)
    requires
        s.phase is Planning,
        asks_for(reply, ctx, ops::OpView::Note { text: note }),
    ensures
        ({
            let t = s.advanced(ctx, engine::EventView::Planned(Ok(reply)), id, at, q, now).0;
            &&& s.work.notes.len() < 24 ==> t.work.notes == s.work.notes.push(note) && was_told(
                s,
                t,
                ops::OpView::Note { text: note },
                observe::observed("noted"@),
            )
            &&& s.work.notes.len() >= 24 ==> t.work.notes == s.work.notes && text::begins(
                t.work.recent.last().1,
                "note dropped"@,
            )
            &&& t.work.findings == s.work.findings
        }),
{
    let op = ops::OpView::Note { text: note };
    lemma_asks_for(reply, ctx, op);
    let noted = engine::State { work: s.work.noted(note), ..s };
    let told = engine::note_told(s.work.notes.len() < working::MAX_NOTES);
    let o = observe::observed(told);
    lemma_turned_keeps(noted.observed(op, o, q, now), ctx, q, now);
    reveal_strlit("note dropped: already holding ");
    reveal_strlit("note dropped");
    reveal_strlit(" notes. Answer, or consolidate.");
    if s.work.notes.len() >= 24 {
        let said = "note dropped"@;
        text::lemma_word_len(24);
        assert(told.len() <= 4_000);
        assert(o.text.subrange(0, said.len() as int) =~= said);
    }
}

/// A `map` asks one reader for each chunk that it names, in order, each with the
/// planner's question and the text of its chunk and nothing else of the corpus.
pub proof fn law_a_map_asks_a_reader_per_chunk(
    s: engine::State,
    ctx: context::ContextView,
    reply: Seq<char>,
    question: Seq<char>,
    ids: Seq<usize>,
    id: Seq<char>,
    at: Seq<char>,
    q: host::QuotaView,
    now: u64,
)
    requires
        s.phase is Planning,
        asks_for(reply, ctx, ops::OpView::MapOver { prompt: question, chunks: ids }),
    ensures
        ({
            let (t, action) = s.advanced(
                ctx,
                engine::EventView::Planned(Ok(reply)),
                id,
                at,
                q,
                now,
            );
            &&& action is AskLeaves
            &&& action->AskLeaves_system == prompts::LEAF_SYSTEM@
            &&& action->prompts.len() == ids.len()
            &&& forall|k: int|
                0 <= k < ids.len() ==> ids[k] < ctx.chunks.len() && (#[trigger] action->prompts[k])
                    == "# Question\n"@ + question + "\n\n# Excerpt\n"@ + ctx.chunks[ids[k] as int].text
            &&& t == (engine::State {
                phase: engine::PhaseView::Waiting(
                    ops::OpView::MapOver { prompt: question, chunks: ids },
                ),
                ..s
            })
        }),
{
    let op = ops::OpView::MapOver { prompt: question, chunks: ids };
    lemma_asks_for(reply, ctx, op);
    ops::law_a_valid_operator_names_real_chunks(op, ctx.chunks.len());
    fold::law_a_map_asks_once_per_chunk(ctx.chunks, ids, question, seq![]);
}

/// What the readers of a `map` told is found, all of it as far as there is room,
/// behind what was found before, and the planner is told.
pub proof fn law_what_readers_told_is_found(
    s: engine::State,
    ctx: context::ContextView,
    question: Seq<char>,
    ids: Seq<usize>,
    outcomes: Seq<fold::LeafView>,
    id: Seq<char>,
    at: Seq<char>,
    q: host::QuotaView,
    now: u64,
    k: int,
)
    requires
        s.phase == engine::PhaseView::Waiting(
            ops::OpView::MapOver { prompt: question, chunks: ids },
        ),
        forall|k: int| 0 <= k < ids.len() ==> #[trigger] ids[k] < ctx.chunks.len(),
        0 <= k < ids.len(),
        fold::told(outcomes, k),
        s.work.findings.len() + ids.len() <= 60,
    ensures
        ({
            let t = s.advanced(ctx, engine::EventView::Leaves(outcomes), id, at, q, now).0;
            let c = ctx.chunks[ids[k] as int];
            &&& s.work.findings.is_prefix_of(t.work.findings)
            &&& t.work.findings == s.work.findings + fold::map_findings(ctx.chunks, ids, outcomes)
            &&& t.work.findings.contains(
                "["@ + text::decimal(ids[k] as nat) + "] "@ + c.source + ":"@ + text::decimal(
                    c.start_line,
                ) + "-"@ + text::decimal(c.end_line) + " — "@ + text::trim(
                    outcomes[k]->Answered_0,
                ),
            )
            &&& was_told(
                s,
                t,
                ops::OpView::MapOver { prompt: question, chunks: ids },
                fold::map_observation(ctx.chunks, ids, outcomes),
            )
        }),
{
    let op = ops::OpView::MapOver { prompt: question, chunks: ids };
    let lines = fold::map_findings(ctx.chunks, ids, outcomes);
    fold::law_a_map_tells_what_was_found(ctx.chunks, ids, outcomes);
    fold::law_nothing_that_was_told_is_lost(ctx.chunks, ids, outcomes, ids.len());
    fold::law_only_what_was_said_is_folded(ctx.chunks, ids, outcomes, ids.len());
    working::law_findings_are_kept(s.work, lines);
    let found = engine::State { work: s.work.found(lines), ..s };
    let o = fold::map_observation(ctx.chunks, ids, outcomes);
    lemma_turned_keeps(found.observed(op, o, q, now), ctx, q, now);
    let c = ctx.chunks[ids[k] as int];
    let line = "["@ + text::decimal(ids[k] as nat) + "] "@ + c.source + ":"@ + text::decimal(
        c.start_line,
    ) + "-"@ + text::decimal(c.end_line) + " — "@ + text::trim(outcomes[k]->Answered_0);
    let i = choose|i: int| 0 <= i < lines.len() && lines[i] == line;
    assert((s.work.findings + lines)[s.work.findings.len() + i] == line);
}

/// The answer of a nested run is told to the planner that asked for it, with how
/// many chunks it was over and how it ended, and its steps join the trace.
pub proof fn law_a_nested_answer_is_told(
    s: engine::State,
    ctx: context::ContextView,
    query: Seq<char>,
    ids: Seq<usize>,
    nested: trace::RunView,
    id: Seq<char>,
    at: Seq<char>,
    q: host::QuotaView,
    now: u64,
)
    requires
        s.phase == engine::PhaseView::Waiting(ops::OpView::Recurse { query, chunks: ids }),
    ensures
        ({
            let t = s.advanced(ctx, engine::EventView::Nested(nested), id, at, q, now).0;
            &&& was_told(
                s,
                t,
                ops::OpView::Recurse { query, chunks: ids },
                observe::observed(
                    "recursion over "@ + text::decimal(ids.len()) + " chunk(s) ("@ + nested.status
                        + "): "@ + nested.answer,
                ),
            )
            &&& t.rec.trace.len() == s.rec.trace.len() + nested.trace.len() + 1
            &&& forall|k: int|
                0 <= k < nested.trace.len() ==> {
                    let step = #[trigger] t.rec.trace[s.rec.trace.len() + k];
                    &&& step.op == nested.trace[k].op
                    &&& step.args == nested.trace[k].args
                    &&& step.observation == nested.trace[k].observation
                    &&& step.error == nested.trace[k].error
                    &&& step.depth == nested.trace[k].depth
                }
        }),
{
    let op = ops::OpView::Recurse { query, chunks: ids };
    let joined = engine::State {
        rec: trace::RunView { trace: trace::spliced(s.rec.trace, nested.trace), ..s.rec },
        ..s
    };
    let o = observe::observed(engine::nested_told(ids.len(), nested));
    lemma_turned_keeps(joined.observed(op, o, q, now), ctx, q, now);
}

/// A reply without an operator that addresses the corpus is told to the planner
/// as `invalid`, with the reason, and costs it no more than the turn.
pub proof fn law_a_reply_without_an_operator_is_told(
    s: engine::State,
    ctx: context::ContextView,
    reply: Seq<char>,
    id: Seq<char>,
    at: Seq<char>,
    q: host::QuotaView,
    now: u64,
)
    requires
        s.phase is Planning,
        forall|op: ops::OpView| !#[trigger] asks_for(reply, ctx, op),
    ensures
        ({
            let t = s.advanced(ctx, engine::EventView::Planned(Ok(reply)), id, at, q, now).0;
            let why = match host::first_value(reply, 0) {
                None => "no JSON operator in the reply. Reply with one JSON object."@,
                Some(j) => match ops::op_of(j) {
                    Err(why) => ops::not_an_operator(why),
                    Ok(op) => op.refusal(ctx.chunks.len())->0,
                },
            };
            &&& t.work.recent == s.work.recent.push(("invalid"@, why))
            &&& t.rec.trace.len() == s.rec.trace.len() + 1
            &&& t.rec.trace.last().op == "invalid"@
            &&& t.rec.trace.last().error == Some(why)
            &&& t.work.notes == s.work.notes
            &&& t.work.findings == s.work.findings
        }),
{
    match engine::planned(reply, ctx.chunks.len()) {
        Ok(op) => {
            lemma_asks_for(reply, ctx, op);
            assert(asks_for(reply, ctx, op));
        },
        Err(why) => {
            lemma_turned_keeps(s.refused(reply, why, q, now), ctx, q, now);
        },
    }
}

/// The same run, at the same depth, begun at the same time.
pub open spec fn same_run(s: engine::State, t: engine::State) -> bool {
    &&& t.started_ms == s.started_ms
    &&& t.started_calls == s.started_calls
    &&& t.started_chars == s.started_chars
    &&& t.depth == s.depth
    &&& t.rec.id == s.rec.id
    &&& t.rec.query == s.rec.query
    &&& t.rec.budget == s.rec.budget
    &&& t.rec.context_id == s.rec.context_id
    &&& t.rec.started_at == s.rec.started_at
}

/// A turn that was asked for has the clock and the count of that moment.
pub open spec fn asked_now(t: engine::State, q: host::QuotaView, now: u64) -> bool {
    t.phase is Planning || t.phase is Answering ==> t.asked_ms == now && t.asked_calls == q.calls
}

/// The last step of a trace cost what was spent since the turn was asked for.
pub open spec fn step_is_costed(
    s: engine::State,
    t: engine::State,
    q: host::QuotaView,
    now: u64,
) -> bool {
    t.rec.trace.len() > s.rec.trace.len() ==> {
        &&& t.rec.trace.last().model_calls == q.calls - s.asked_calls
        &&& t.rec.trace.last().elapsed_ms == now - s.asked_ms
        &&& t.rec.trace.last().depth == s.depth
        &&& t.rec.trace.last().index == t.rec.trace.len() - 1
    }
}

proof fn lemma_next_is_clocked(
    u: engine::State,
    ctx: context::ContextView,
    q: host::QuotaView,
    now: u64,
)
    ensures
        asked_now(u.turned(ctx, q, now).0, q, now),
        same_run(u, u.turned(ctx, q, now).0),
        u.turned(ctx, q, now).0.rec.trace == u.rec.trace,
        asked_now(u.wound_up(ctx, q, now).0, q, now),
        same_run(u, u.wound_up(ctx, q, now).0),
        u.wound_up(ctx, q, now).0.rec.trace == u.rec.trace,
{
}

proof fn lemma_move_is_costed(
    u: engine::State,
    m: trace::MoveView,
    q: host::QuotaView,
    now: u64,
)
    requires
        u.asked_ms <= now,
        u.asked_calls <= q.calls,
    ensures
        step_is_costed(u, u.moved(m, q, now), q, now),
        same_run(u, u.moved(m, q, now)),
{
}

proof fn lemma_told_is_clocked(
    s: engine::State,
    u: engine::State,
    ctx: context::ContextView,
    op: ops::OpView,
    o: observe::ObservationView,
    q: host::QuotaView,
    now: u64,
)
    requires
        s.asked_ms <= now,
        s.asked_calls <= q.calls,
        u.asked_ms == s.asked_ms,
        u.asked_calls == s.asked_calls,
        u.rec.trace.len() >= s.rec.trace.len(),
        same_run(s, u),
    ensures
        ({
            let t = u.observed(op, o, q, now).turned(ctx, q, now).0;
            asked_now(t, q, now) && step_is_costed(s, t, q, now) && same_run(s, t)
        }),
{
    let v = engine::State { work: u.work.stepped(op.label(), o.text), ..u };
    let m = trace::MoveView {
        op: op.label(),
        args: ops::op_json(op),
        observation: o.text,
        truncated: o.truncated,
        error: None,
    };
    lemma_move_is_costed(v, m, q, now);
    assert(v.moved(m, q, now) == u.observed(op, o, q, now));
    lemma_next_is_clocked(u.observed(op, o, q, now), ctx, q, now);
}

proof fn lemma_chosen_is_clocked(
    s: engine::State,
    ctx: context::ContextView,
    op: ops::OpView,
    id: Seq<char>,
    at: Seq<char>,
    q: host::QuotaView,
    now: u64,
)
    requires
        s.asked_ms <= now,
        s.asked_calls <= q.calls,
    ensures
        ({
            let t = s.chose(ctx, op, id, at, q, now).0;
            asked_now(t, q, now) && step_is_costed(s, t, q, now) && same_run(s, t)
        }),
{
    match op {
        ops::OpView::Outline { source } => {
            let told = observe::outline_text(ctx.chunks, source);
            lemma_told_is_clocked(s, s, ctx, op, observe::observed(told), q, now);
        },
        ops::OpView::Peek { chunk, start, len } => {
            let told = observe::peek_text(ctx.chunks, chunk as nat, start as nat, len);
            lemma_told_is_clocked(s, s, ctx, op, observe::observed(told), q, now);
        },
        ops::OpView::Grep { pattern, max, context } => {
            let told = observe::grep_outcome(ctx.chunks, pattern, max, context);
            lemma_told_is_clocked(s, s, ctx, op, observe::observed(told), q, now);
        },
        ops::OpView::Note { text } => {
            let u = engine::State { work: s.work.noted(text), ..s };
            let told = engine::note_told(s.work.notes.len() < working::MAX_NOTES);
            lemma_told_is_clocked(s, u, ctx, op, observe::observed(told), q, now);
        },
        ops::OpView::MapOver { prompt, chunks } => {},
        ops::OpView::Recurse { query, chunks } => {
            let deep = engine::too_deep(s.depth, s.rec.budget.max_depth as nat);
            lemma_told_is_clocked(s, s, ctx, op, observe::observed(deep), q, now);
            let none = "no readable chunks in that selection"@;
            lemma_told_is_clocked(s, s, ctx, op, observe::observed(none), q, now);
            match context::ephemeral_refusal(engine::excerpts(ctx.chunks, chunks)) {
                Some(why) => {
                    let told = "could not build the sub-context: "@ + why;
                    lemma_told_is_clocked(s, s, ctx, op, observe::observed(told), q, now);
                },
                None => {},
            }
        },
        ops::OpView::Final { answer, cites } => {
            let u = s.answered(ctx, answer, cites, q, now);
            assert(step_is_costed(s, u, q, now));
            lemma_next_is_clocked(u, ctx, q, now);
        },
    }
}

/// A turn is clocked: what a step of it cost is what the quota counted, and the
/// time that passed, since the planner was asked.
pub proof fn law_a_turn_is_clocked(
    s: engine::State,
    ctx: context::ContextView,
    event: engine::EventView,
    id: Seq<char>,
    at: Seq<char>,
    q: host::QuotaView,
    now: u64,
)
    requires
        s.awaits(event),
        s.asked_ms <= now,
        s.asked_calls <= q.calls,
    ensures
        asked_now(s.advanced(ctx, event, id, at, q, now).0, q, now),
        step_is_costed(s, s.advanced(ctx, event, id, at, q, now).0, q, now),
        same_run(s, s.advanced(ctx, event, id, at, q, now).0),
{
    match event {
        engine::EventView::Start => {
            lemma_next_is_clocked(s, ctx, q, now);
        },
        engine::EventView::Planned(reply) => {
            if s.phase is Planning {
                match reply {
                    Err(e) => {
                        let u = s.unasked(e, q, now);
                        assert(step_is_costed(s, u, q, now));
                        lemma_next_is_clocked(u, ctx, q, now);
                    },
                    Ok(reply) => match engine::planned(reply, ctx.chunks.len()) {
                        Err(why) => {
                            let u = s.refused(reply, why, q, now);
                            assert(step_is_costed(s, u, q, now));
                            lemma_next_is_clocked(u, ctx, q, now);
                        },
                        Ok(op) => {
                            lemma_chosen_is_clocked(s, ctx, op, id, at, q, now);
                        },
                    },
                }
            } else {
                let said = match reply {
                    Ok(reply) => engine::last_word(reply),
                    Err(_) => None,
                };
                if let Some((answer, cites)) = said {
                    assert(step_is_costed(s, s.forced(ctx, answer, cites, q, now), q, now));
                }
            }
        },
        engine::EventView::Leaves(outcomes) => {
            let op = s.phase->Waiting_0;
            let ids = op->MapOver_chunks;
            let u = engine::State {
                work: s.work.found(fold::map_findings(ctx.chunks, ids, outcomes)),
                ..s
            };
            let o = fold::map_observation(ctx.chunks, ids, outcomes);
            lemma_told_is_clocked(s, u, ctx, op, o, q, now);
        },
        engine::EventView::Nested(nested) => {
            let op = s.phase->Waiting_0;
            let ids = op->Recurse_chunks;
            let u = engine::State {
                rec: trace::RunView {
                    trace: trace::spliced(s.rec.trace, nested.trace),
                    ..s.rec
                },
                ..s
            };
            let o = observe::observed(engine::nested_told(ids.len(), nested));
            lemma_told_is_clocked(s, u, ctx, op, o, q, now);
        },
    }
}

/// How much of a reply that made no operator is kept, and how much of an answer a
/// trace shows.
pub proof fn law_a_trace_keeps_this_much()
    ensures
        engine::KEPT_OF_A_REPLY == 400,
        engine::KEPT_OF_AN_ANSWER == 800,
        engine::MAX_NESTED_STEPS == 8,
{
}

/// A planner that may not recurse is told so, and goes on.
pub proof fn law_too_deep_is_told(
    s: engine::State,
    ctx: context::ContextView,
    reply: Seq<char>,
    query: Seq<char>,
    ids: Seq<usize>,
    id: Seq<char>,
    at: Seq<char>,
    q: host::QuotaView,
    now: u64,
)
    requires
        s.phase is Planning,
        asks_for(reply, ctx, ops::OpView::Recurse { query, chunks: ids }),
        s.depth + 1 >= s.rec.budget.max_depth,
    ensures
        was_told(
            s,
            s.advanced(ctx, engine::EventView::Planned(Ok(reply)), id, at, q, now).0,
            ops::OpView::Recurse { query, chunks: ids },
            observe::observed(
                "recursion refused: already at depth "@ + text::decimal(s.depth) + " of "@
                    + text::decimal(s.rec.budget.max_depth as nat) + ". Use map instead."@,
            ),
        ),
{
    let op = ops::OpView::Recurse { query, chunks: ids };
    lemma_asks_for(reply, ctx, op);
    let o = observe::observed(engine::too_deep(s.depth, s.rec.budget.max_depth as nat));
    lemma_turned_keeps(s.observed(op, o, q, now), ctx, q, now);
}

/// The planner's tier is asked for plans, the readers' for chunks, and none where
/// no model is asked.
pub proof fn law_each_tier_has_its_work(a: engine::ActionView)
    ensures
        a is Ask <==> a.tier() == Some(host::Tier::Root),
        a is AskLeaves <==> a.tier() == Some(host::Tier::Leaf),
        a is Done || a is Recurse <==> a.tier() is None,
{
}

/// A run whose planner cannot be reached ends in error and says why; one whose
/// budget refuses a turn keeps its status. The trace has it either way.
pub proof fn law_a_planner_that_is_not_reached_is_told(
    s: engine::State,
    ctx: context::ContextView,
    why: Seq<char>,
    id: Seq<char>,
    at: Seq<char>,
    q: host::QuotaView,
    now: u64,
)
    requires
        s.phase is Planning,
    ensures
        ({
            let e = engine::EventView::Planned(Err(host::ErrorView::Host(why)));
            let t = s.advanced(ctx, e, id, at, q, now).0;
            &&& t.phase is Over
            &&& t.rec.status == STATUS_ERROR@
            &&& t.rec.answer == "The planner could not reach a model: "@ + why
            &&& t.rec.trace.len() == s.rec.trace.len() + 1
            &&& t.rec.trace.last().op == "plan"@
            &&& t.rec.trace.last().error == Some(why)
        }),
        ({
            let e = engine::EventView::Planned(Err(host::ErrorView::CallBudget));
            let t = s.advanced(ctx, e, id, at, q, now).0;
            &&& t.rec.status == s.rec.status
            &&& t.rec.trace.last().error == Some("root model-call budget exhausted"@)
        }),
        ({
            let e = engine::EventView::Planned(Err(host::ErrorView::Deadline));
            let t = s.advanced(ctx, e, id, at, q, now).0;
            &&& t.rec.status == s.rec.status
            &&& t.rec.trace.last().error == Some("root wall-clock deadline exhausted"@)
        }),
{
    reveal_strlit("error");
    reveal_strlit("budget_exhausted");
    reveal_strlit("The planner could not reach a model: ");
    assert(STATUS_ERROR@.len() == 5 && STATUS_BUDGET@.len() == 16);
    let u = s.unasked(host::ErrorView::Host(why), q, now);
    assert(u.rec.answer.len() > 0);
}

/// The step of an answer shows the operator and the answer as far as a trace
/// keeps it, and is no error.
pub proof fn law_the_step_of_an_answer_shows_it(
    s: engine::State,
    ctx: context::ContextView,
    reply: Seq<char>,
    answer: Seq<char>,
    cites: Seq<usize>,
    id: Seq<char>,
    at: Seq<char>,
    q: host::QuotaView,
    now: u64,
)
    requires
        s.phase is Planning,
        asks_for(reply, ctx, ops::OpView::Final { answer, cites }),
    ensures
        ({
            let t = s.advanced(ctx, engine::EventView::Planned(Ok(reply)), id, at, q, now).0;
            let step = t.rec.trace.last();
            &&& t.rec.trace.drop_last() == s.rec.trace
            &&& step.op == "final"@
            &&& step.args == ops::op_json(ops::OpView::Final { answer, cites })
            &&& answer.len() <= 800 ==> step.observation == answer
            &&& answer.len() > 800 ==> step.observation == answer.take(800) + "…"@
            &&& !step.truncated
            &&& step.error is None
            &&& step.parent is None
            &&& t.work == s.work
        }),
{
    lemma_asks_for(reply, ctx, ops::OpView::Final { answer, cites });
    let u = s.answered(ctx, answer, cites, q, now);
    lemma_next_is_clocked(u, ctx, q, now);
    assert(u.rec.trace.drop_last() =~= s.rec.trace);
}

/// The step of a reply that made no operator shows the reply as far as a trace
/// keeps it, and why it made none.
pub proof fn law_the_step_of_a_refused_reply_shows_it(
    s: engine::State,
    ctx: context::ContextView,
    reply: Seq<char>,
    id: Seq<char>,
    at: Seq<char>,
    q: host::QuotaView,
    now: u64,
)
    requires
        s.phase is Planning,
        engine::planned(reply, ctx.chunks.len()) is Err,
    ensures
        ({
            let why = engine::planned(reply, ctx.chunks.len())->Err_0;
            let t = s.advanced(ctx, engine::EventView::Planned(Ok(reply)), id, at, q, now).0;
            let step = t.rec.trace.last();
            let kept = if reply.len() <= 400 {
                reply
            } else {
                reply.take(400) + "…"@
            };
            &&& t.rec.trace.drop_last() == s.rec.trace
            &&& step.op == "invalid"@
            &&& step.args.field("reply"@) == Some(json::JsonView::Str(kept))
            &&& step.observation == why
            &&& step.error == Some(why)
            &&& !step.truncated
            &&& t.work.recent == s.work.recent.push(("invalid"@, why))
            &&& t.work.notes == s.work.notes
            &&& t.work.findings == s.work.findings
        }),
{
    let why = engine::planned(reply, ctx.chunks.len())->Err_0;
    let u = s.refused(reply, why, q, now);
    lemma_next_is_clocked(u, ctx, q, now);
    lemma_turned_keeps(u, ctx, q, now);
    assert(u.rec.trace.drop_last() =~= s.rec.trace);
    json::law_the_first_field_of_a_name_counts(
        u.rec.trace.last().args->Object_0,
        "reply"@,
        0,
    );
}

/// The step of a last word says that it was one, and shows it as far as a trace
/// keeps it.
pub proof fn law_the_step_of_a_last_word_shows_it(
    s: engine::State,
    ctx: context::ContextView,
    reply: Seq<char>,
    answer: Seq<char>,
    cites: Seq<usize>,
    id: Seq<char>,
    at: Seq<char>,
    q: host::QuotaView,
    now: u64,
)
    requires
        s.phase is Answering,
        engine::last_word(reply) == Some((answer, cites)),
    ensures
        ({
            let t = s.advanced(ctx, engine::EventView::Planned(Ok(reply)), id, at, q, now).0;
            let step = t.rec.trace.last();
            &&& t.rec.trace.drop_last() == s.rec.trace
            &&& step.op == "final(forced)"@
            &&& step.args.field("reason"@) == Some(json::JsonView::Str("step budget exhausted"@))
            &&& answer.len() <= 800 ==> step.observation == answer
            &&& answer.len() > 800 ==> step.observation == answer.take(800) + "…"@
            &&& !step.truncated
            &&& step.error is None
        }),
{
    let u = s.forced(ctx, answer, cites, q, now);
    assert(u.rec.trace.drop_last() =~= s.rec.trace);
    json::law_the_first_field_of_a_name_counts(
        u.rec.trace.last().args->Object_0,
        "reason"@,
        0,
    );
}

/// The step of an operator shows the operator, what it was told, and whether
/// that was cut; it is no error.
pub proof fn law_the_step_of_an_operator_shows_it(
    s: engine::State,
    op: ops::OpView,
    o: observe::ObservationView,
    q: host::QuotaView,
    now: u64,
)
    ensures
        ({
            let t = s.observed(op, o, q, now);
            let step = t.rec.trace.last();
            &&& t.rec.trace.drop_last() == s.rec.trace
            &&& t.rec.trace.len() == s.rec.trace.len() + 1
            &&& step.op == op.label()
            &&& step.args == ops::op_json(op)
            &&& step.observation == o.text
            &&& step.truncated == o.truncated
            &&& step.error is None
            &&& step.parent is None
        }),
{
    assert(s.observed(op, o, q, now).rec.trace.drop_last() =~= s.rec.trace);
}

/// What passed between two readings of a clock or a counter is the difference,
/// and nothing where it ran back.
pub proof fn law_what_passed_is_the_difference(now: nat, before: nat)
    ensures
        before <= now ==> engine::since(now, before) == now - before,
        now < before ==> engine::since(now, before) == 0,
{
}

/// A planner that recurses over chunks in which nothing is said is told so, and
/// goes on.
pub proof fn law_a_corpus_that_cannot_be_built_is_told(
    s: engine::State,
    ctx: context::ContextView,
    reply: Seq<char>,
    query: Seq<char>,
    ids: Seq<usize>,
    id: Seq<char>,
    at: Seq<char>,
    q: host::QuotaView,
    now: u64,
)
    requires
        s.phase is Planning,
        asks_for(reply, ctx, ops::OpView::Recurse { query, chunks: ids }),
        s.depth + 1 < s.rec.budget.max_depth,
        engine::excerpts(ctx.chunks, ids).len() > 0,
        chunk::corpus_chunks(engine::excerpts(ctx.chunks, ids), 2_000).len() == 0,
    ensures
        was_told(
            s,
            s.advanced(ctx, engine::EventView::Planned(Ok(reply)), id, at, q, now).0,
            ops::OpView::Recurse { query, chunks: ids },
            observe::observed(
                "could not build the sub-context: "@ + "the selected chunks were empty"@,
            ),
        ),
{
    let op = ops::OpView::Recurse { query, chunks: ids };
    lemma_asks_for(reply, ctx, op);
    let o = observe::observed(
        "could not build the sub-context: "@ + "the selected chunks were empty"@,
    );
    lemma_turned_keeps(s.observed(op, o, q, now), ctx, q, now);
}

/// A run waits for what it asked for: one that has not begun for its start, one
/// that asked the planner for its reply, one that asked readers for theirs, and
/// one that nests for the nested run. One that is over waits for nothing.
pub proof fn law_a_run_waits_for_what_it_asked_for(
    s: engine::State,
    reply: Result<Seq<char>, host::ErrorView>,
    outcomes: Seq<fold::LeafView>,
    nested: trace::RunView,
)
    ensures
        s.awaits(engine::EventView::Start) <==> s.phase is Ready,
        s.awaits(engine::EventView::Planned(reply)) <==> s.phase is Planning
            || s.phase is Answering,
        s.awaits(engine::EventView::Leaves(outcomes)) <==> s.phase is Waiting
            && s.phase->Waiting_0 is MapOver,
        s.awaits(engine::EventView::Nested(nested)) <==> s.phase is Waiting
            && s.phase->Waiting_0 is Recurse,
{
}

} // verus!
