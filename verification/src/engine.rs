//! The planning loop: a planner that works over a corpus it never reads.
//!
//! A run is a state and a function from state and event to next state and
//! action. An action asks for what only the outside can do: a completion, a
//! batch of readers, a nested run. Every bound ends a run with a status that
//! says so, never with a quietly shortened answer.
use vstd::prelude::*;
use vstd::string::*;

use crate::chunk;
use crate::chunk::Document;
use crate::context;
use crate::context::ContextRecord;
use crate::fold;
use crate::fold::LeafOutcome;
use crate::host;
use crate::host::{CompleteError, RunQuota, Tier};
use crate::json;
use crate::json::Json;
use crate::observe;
use crate::ops;
use crate::ops::{Observation, Op};
use crate::prompts;
use crate::stamp::Stamp;
use crate::text;
use crate::trace;
use crate::trace::Move;
use crate::working;
use crate::working::Working;

pub use crate::budget::Budget;
pub use crate::trace::{Citation, RunRecord, TraceStep, STATUS_BUDGET, STATUS_ERROR, STATUS_OK};

verus! {

/// The most planning turns of a nested run.
pub const MAX_NESTED_STEPS: usize = 8;

/// How much of a reply that made no operator is kept.
pub const KEPT_OF_A_REPLY: usize = 400;

/// How much of an answer a trace shows.
pub const KEPT_OF_AN_ANSWER: usize = 800;

/// What a run waits for.
#[derive(Debug)]
pub enum Phase {
    /// To be started.
    Ready,
    /// The planner's next operator.
    Planning,
    /// The outcome of an operator that reads.
    Waiting(Op),
    /// The planner's last word.
    Answering,
    /// Nothing.
    Over,
}

/// What a phase holds.
pub enum PhaseView {
    Ready,
    Planning,
    Waiting(ops::OpView),
    Answering,
    Over,
}

impl View for Phase {
    type V = PhaseView;

    open spec fn view(&self) -> PhaseView {
        match *self {
            Phase::Ready => PhaseView::Ready,
            Phase::Planning => PhaseView::Planning,
            Phase::Waiting(op) => PhaseView::Waiting(op@),
            Phase::Answering => PhaseView::Answering,
            Phase::Over => PhaseView::Over,
        }
    }
}

/// What happened outside.
pub enum Event {
    /// The run was started.
    Start,
    /// The planner replied, or could not be asked.
    Planned(Result<String, CompleteError>),
    /// The readers are done.
    Leaves(Vec<LeafOutcome>),
    /// The nested run is over.
    Nested(RunRecord),
}

/// What an event holds.
pub enum EventView {
    Start,
    Planned(Result<Seq<char>, host::ErrorView>),
    Leaves(Seq<fold::LeafView>),
    Nested(trace::RunView),
}

impl View for Event {
    type V = EventView;

    open spec fn view(&self) -> EventView {
        match *self {
            Event::Start => EventView::Start,
            Event::Planned(r) => EventView::Planned(host::reply_view(r)),
            Event::Leaves(v) => EventView::Leaves(fold::leaf_views(v@)),
            Event::Nested(r) => EventView::Nested(r@),
        }
    }
}

/// What is to be done outside.
pub enum Action {
    /// Ask the planner's model.
    Ask { system: String, prompt: String },
    /// Ask the reader's model, once per prompt, all at the same time.
    AskLeaves { system: String, prompts: Vec<String> },
    /// Run the question over the sub-corpus, one level deeper, on the same
    /// quota.
    Recurse { query: String, sub: ContextRecord, budget: Budget, depth: usize },
    /// Nothing: the run is over.
    Done,
}

/// What an action holds.
pub enum ActionView {
    Ask { system: Seq<char>, prompt: Seq<char> },
    AskLeaves { system: Seq<char>, prompts: Seq<Seq<char>> },
    Recurse { query: Seq<char>, sub: context::ContextView, budget: Budget, depth: nat },
    Done,
}

impl View for Action {
    type V = ActionView;

    open spec fn view(&self) -> ActionView {
        match *self {
            Action::Ask { system, prompt } => ActionView::Ask { system: system@, prompt: prompt@ },
            Action::AskLeaves { system, prompts } => ActionView::AskLeaves {
                system: system@,
                prompts: text::views(prompts@),
            },
            Action::Recurse { query, sub, budget, depth } => ActionView::Recurse {
                query: query@,
                sub: sub@,
                budget,
                depth: depth as nat,
            },
            Action::Done => ActionView::Done,
        }
    }
}

impl ActionView {
    /// The tier of the model that an action asks, where it asks one.
    pub open spec fn tier(self) -> Option<Tier> {
        match self {
            ActionView::Ask { .. } => Some(Tier::Root),
            ActionView::AskLeaves { .. } => Some(Tier::Leaf),
            _ => None,
        }
    }
}

impl Action {
    /// The tier of the model that the action asks: the planner's for a plan,
    /// the reader's for chunks, and none where no model is asked.
    pub fn tier(&self) -> (t: Option<Tier>)
        ensures
            t == self@.tier(),
    {
        match self {
            Action::Ask { .. } => Some(Tier::Root),
            Action::AskLeaves { .. } => Some(Tier::Leaf),
            _ => None,
        }
    }
}

/// One run of one query over one context.
#[derive(Debug)]
pub struct Run {
    pub rec: RunRecord,
    pub work: Working,
    pub depth: usize,
    /// Planning turns taken.
    pub step: usize,
    pub phase: Phase,
    pub started_ms: u64,
    pub started_calls: usize,
    pub started_chars: u64,
    pub asked_ms: u64,
    pub asked_calls: usize,
}

/// What a run's state holds.
#[verifier::ext_equal]
pub struct State {
    pub rec: trace::RunView,
    pub work: working::WorkingView,
    pub depth: nat,
    pub step: nat,
    pub phase: PhaseView,
    /// When the run was started, and what the quota had counted.
    pub started_ms: u64,
    pub started_calls: nat,
    pub started_chars: u64,
    /// When the present turn was begun, and what the quota had counted.
    pub asked_ms: u64,
    pub asked_calls: nat,
}

impl View for Run {
    type V = State;

    open spec fn view(&self) -> State {
        State {
            rec: self.rec@,
            work: self.work@,
            depth: self.depth as nat,
            step: self.step as nat,
            phase: self.phase@,
            started_ms: self.started_ms,
            started_calls: self.started_calls as nat,
            started_chars: self.started_chars,
            asked_ms: self.asked_ms,
            asked_calls: self.asked_calls as nat,
        }
    }
}

/// How much was added, of what only grows.
pub open spec fn since(now: nat, before: nat) -> nat {
    if now >= before {
        (now - before) as nat
    } else {
        0
    }
}

/// The operator in a JSON value, for a context of `n` chunks, or what the
/// planner is told of a reply without one.
pub open spec fn planned_in(found: Option<json::JsonView>, n: nat) -> Result<
    ops::OpView,
    Seq<char>,
> {
    match found {
        None => Err("no JSON operator in the reply. Reply with one JSON object."@),
        Some(j) => match ops::op_of(j) {
            Err(why) => Err(ops::not_an_operator(why)),
            Ok(op) => match op.refusal(n) {
                Some(why) => Err(why),
                None => Ok(op),
            },
        },
    }
}

/// The operator in a planner's reply.
pub open spec fn planned(reply: Seq<char>, n: nat) -> Result<ops::OpView, Seq<char>> {
    planned_in(host::first_value(reply, 0), n)
}

/// The last word in a JSON value: an answer and what it cites.
pub open spec fn last_word_in(found: Option<json::JsonView>) -> Option<(Seq<char>, Seq<usize>)> {
    match found {
        None => None,
        Some(j) => match ops::op_of(j) {
            Ok(ops::OpView::Final { answer, cites }) => Some((answer, cites)),
            _ => None,
        },
    }
}

/// The last word in a planner's reply.
pub open spec fn last_word(reply: Seq<char>) -> Option<(Seq<char>, Seq<usize>)> {
    last_word_in(host::first_value(reply, 0))
}

/// The documents that chunks make when they become a corpus of their own.
pub open spec fn excerpts(chunks: Seq<chunk::ChunkView>, ids: Seq<usize>) -> Seq<
    chunk::DocumentView,
> {
    let kept = fold::readable(chunks, ids);
    Seq::new(kept.len(), |k: int| chunk::excerpt_of(chunks[kept[k] as int]))
}

/// The answer of a run that reached none.
pub open spec fn no_answer(findings: Seq<Seq<char>>) -> Seq<char> {
    if findings.len() == 0 {
        "No answer: the run ended before anything was read from the corpus."@
    } else {
        "No answer was reached within the budget. What had been found:\n"@ + text::joined(
            findings,
            "\n"@,
        )
    }
}

/// The budget of a nested run.
pub open spec fn nested_budget(b: Budget) -> Budget {
    Budget {
        max_steps: if b.max_steps < MAX_NESTED_STEPS {
            b.max_steps
        } else {
            MAX_NESTED_STEPS
        },
        ..b
    }
}

impl State {
    /// A move was made in the present turn.
    pub open spec fn moved(self, m: trace::MoveView, q: host::QuotaView, now: u64) -> State {
        State {
            rec: trace::RunView {
                trace: trace::placed(
                    self.rec.trace,
                    self.depth,
                    m,
                    since(q.calls, self.asked_calls),
                    since(now as nat, self.asked_ms as nat) as u64,
                ),
                ..self.rec
            },
            ..self
        }
    }

    /// The run is over: it has an answer, and its cost is known.
    pub open spec fn over(self, q: host::QuotaView, now: u64) -> State {
        State {
            rec: trace::RunView {
                answer: if self.rec.answer.len() == 0 {
                    no_answer(self.work.findings)
                } else {
                    self.rec.answer
                },
                elapsed_ms: since(now as nat, self.started_ms as nat) as u64,
                model_calls: since(q.calls, self.started_calls),
                prompt_chars: q.prompt_chars.wrapping_sub(self.started_chars),
                ..self.rec
            },
            phase: PhaseView::Over,
            ..self
        }
    }

    /// Something may still be asked.
    pub open spec fn can_ask(q: host::QuotaView, now: u64) -> bool {
        q.remaining > 0 && !q.elapsed(now)
    }

    /// No further operator: one last word where a bound on steps was met and
    /// something may still be asked, else the end.
    pub open spec fn wound_up(self, ctx: context::ContextView, q: host::QuotaView, now: u64) -> (
        State,
        ActionView,
    ) {
        if self.rec.status == STATUS_BUDGET@ && State::can_ask(q, now) {
            (
                State {
                    phase: PhaseView::Answering,
                    asked_ms: now,
                    asked_calls: q.calls,
                    ..self
                },
                ActionView::Ask {
                    system: prompts::root_text(self.depth, self.rec.budget),
                    prompt: prompts::forced_text(self.rec.query, ctx, self.work),
                },
            )
        } else {
            (self.over(q, now), ActionView::Done)
        }
    }

    /// The next turn, as far as the bounds allow one.
    pub open spec fn turned(self, ctx: context::ContextView, q: host::QuotaView, now: u64) -> (
        State,
        ActionView,
    ) {
        if self.step < self.rec.budget.max_steps && State::can_ask(q, now) {
            (
                State {
                    phase: PhaseView::Planning,
                    step: self.step + 1,
                    asked_ms: now,
                    asked_calls: q.calls,
                    ..self
                },
                ActionView::Ask {
                    system: prompts::root_text(self.depth, self.rec.budget),
                    prompt: prompts::turn_text(self.rec.query, ctx, self.work),
                },
            )
        } else {
            self.wound_up(ctx, q, now)
        }
    }

    /// An operator was carried out: the planner is told, and the trace says so.
    pub open spec fn observed(
        self,
        op: ops::OpView,
        o: observe::ObservationView,
        q: host::QuotaView,
        now: u64,
    ) -> State {
        State { work: self.work.stepped(op.label(), o.text), ..self }.moved(
            trace::MoveView {
                op: op.label(),
                args: ops::op_json(op),
                observation: o.text,
                truncated: o.truncated,
                error: None,
            },
            q,
            now,
        )
    }

    /// The planner could not be asked. What a budget refused leaves the status
    /// at that; what the host could not do is an error.
    pub open spec fn unasked(self, e: host::ErrorView, q: host::QuotaView, now: u64) -> State {
        let told = State {
            rec: match e {
                host::ErrorView::Host(_) => trace::RunView {
                    status: STATUS_ERROR@,
                    answer: "The planner could not reach a model: "@ + e.message(),
                    ..self.rec
                },
                _ => self.rec,
            },
            ..self
        };
        told.moved(
            trace::MoveView {
                op: "plan"@,
                args: json::JsonView::Null,
                observation: ""@,
                truncated: false,
                error: Some(e.message()),
            },
            q,
            now,
        )
    }

    /// A reply made no operator that addresses the corpus: the planner is told
    /// why, and may mend it in the next turn.
    pub open spec fn refused(
        self,
        reply: Seq<char>,
        why: Seq<char>,
        q: host::QuotaView,
        now: u64,
    ) -> State {
        State { work: self.work.stepped("invalid"@, why), ..self }.moved(
            trace::MoveView {
                op: "invalid"@,
                args: json::JsonView::Object(
                    seq![
                        (
                            "reply"@,
                            json::JsonView::Str(trace::cut_to(reply, KEPT_OF_A_REPLY as int)),
                        ),
                    ],
                ),
                observation: why,
                truncated: false,
                error: Some(why),
            },
            q,
            now,
        )
    }

    /// The planner answered.
    pub open spec fn answered(
        self,
        ctx: context::ContextView,
        answer: Seq<char>,
        cites: Seq<usize>,
        q: host::QuotaView,
        now: u64,
    ) -> State {
        let op = ops::OpView::Final { answer, cites };
        State {
            rec: trace::RunView {
                status: STATUS_OK@,
                answer,
                cites: trace::resolved(ctx.chunks, cites),
                ..self.rec
            },
            ..self
        }.moved(
            trace::MoveView {
                op: op.label(),
                args: ops::op_json(op),
                observation: trace::cut_to(answer, KEPT_OF_AN_ANSWER as int),
                truncated: false,
                error: None,
            },
            q,
            now,
        )
    }

    /// The planner gave its last word, when it had no more steps. The status
    /// stays what it was.
    pub open spec fn forced(
        self,
        ctx: context::ContextView,
        answer: Seq<char>,
        cites: Seq<usize>,
        q: host::QuotaView,
        now: u64,
    ) -> State {
        State {
            rec: trace::RunView {
                answer,
                cites: trace::resolved(ctx.chunks, cites),
                ..self.rec
            },
            ..self
        }.moved(
            trace::MoveView {
                op: "final(forced)"@,
                args: json::JsonView::Object(
                    seq![("reason"@, json::JsonView::Str("step budget exhausted"@))],
                ),
                observation: trace::cut_to(answer, KEPT_OF_AN_ANSWER as int),
                truncated: false,
                error: None,
            },
            q,
            now,
        )
    }
}

/// What the planner is told when it recurses too deep.
pub open spec fn too_deep(depth: nat, max_depth: nat) -> Seq<char> {
    "recursion refused: already at depth "@ + text::decimal(depth) + " of "@ + text::decimal(
        max_depth,
    ) + ". Use map instead."@
}

/// What the planner is told of a note.
pub open spec fn note_told(taken: bool) -> Seq<char> {
    if taken {
        "noted"@
    } else {
        "note dropped: already holding "@ + text::decimal(working::MAX_NOTES as nat)
            + " notes. Answer, or consolidate."@
    }
}

/// What the planner is told of a nested run.
pub open spec fn nested_told(chunks: nat, nested: trace::RunView) -> Seq<char> {
    "recursion over "@ + text::decimal(chunks) + " chunk(s) ("@ + nested.status + "): "@
        + nested.answer
}

/// The corpus of a nested run.
pub open spec fn sub_context(
    ctx: context::ContextView,
    ids: Seq<usize>,
    id: Seq<char>,
    at: Seq<char>,
) -> context::ContextView {
    context::context_of(
        "ephemeral:"@ + id,
        ctx.name + " ▸ recursion"@,
        None,
        at,
        excerpts(ctx.chunks, ids),
        context::EPHEMERAL_TARGET_CHARS as nat,
    )
}

impl State {
    /// An operator was carried out at once, and the next turn comes.
    pub open spec fn went_on(
        self,
        ctx: context::ContextView,
        op: ops::OpView,
        told: Seq<char>,
        q: host::QuotaView,
        now: u64,
    ) -> (State, ActionView) {
        self.observed(op, observe::observed(told), q, now).turned(ctx, q, now)
    }

    /// The planner wants a nested run.
    pub open spec fn nesting(
        self,
        ctx: context::ContextView,
        query: Seq<char>,
        ids: Seq<usize>,
        id: Seq<char>,
        at: Seq<char>,
        q: host::QuotaView,
        now: u64,
    ) -> (State, ActionView) {
        let op = ops::OpView::Recurse { query, chunks: ids };
        let docs = excerpts(ctx.chunks, ids);
        if self.depth + 1 >= self.rec.budget.max_depth {
            self.went_on(
                ctx,
                op,
                too_deep(self.depth, self.rec.budget.max_depth as nat),
                q,
                now,
            )
        } else if docs.len() == 0 {
            self.went_on(ctx, op, "no readable chunks in that selection"@, q, now)
        } else {
            match context::ephemeral_refusal(docs) {
                Some(why) => self.went_on(
                    ctx,
                    op,
                    "could not build the sub-context: "@ + why,
                    q,
                    now,
                ),
                None => (
                    State { phase: PhaseView::Waiting(op), ..self },
                    ActionView::Recurse {
                        query,
                        sub: sub_context(ctx, ids, id, at),
                        budget: nested_budget(self.rec.budget),
                        depth: self.depth + 1,
                    },
                ),
            }
        }
    }

    /// The planner chose an operator.
    pub open spec fn chose(
        self,
        ctx: context::ContextView,
        op: ops::OpView,
        id: Seq<char>,
        at: Seq<char>,
        q: host::QuotaView,
        now: u64,
    ) -> (State, ActionView) {
        match op {
            ops::OpView::Outline { source } => self.went_on(
                ctx,
                op,
                observe::outline_text(ctx.chunks, source),
                q,
                now,
            ),
            ops::OpView::Peek { chunk, start, len } => self.went_on(
                ctx,
                op,
                observe::peek_text(ctx.chunks, chunk as nat, start as nat, len),
                q,
                now,
            ),
            ops::OpView::Grep { pattern, max, context } => self.went_on(
                ctx,
                op,
                observe::grep_outcome(ctx.chunks, pattern, max, context),
                q,
                now,
            ),
            ops::OpView::Note { text } => State { work: self.work.noted(text), ..self }.went_on(
                ctx,
                op,
                note_told(self.work.notes.len() < working::MAX_NOTES),
                q,
                now,
            ),
            ops::OpView::MapOver { prompt, chunks } => (
                State { phase: PhaseView::Waiting(op), ..self },
                ActionView::AskLeaves {
                    system: prompts::LEAF_SYSTEM@,
                    prompts: fold::leaf_prompts(ctx.chunks, chunks, prompt),
                },
            ),
            ops::OpView::Recurse { query, chunks } => self.nesting(
                ctx,
                query,
                chunks,
                id,
                at,
                q,
                now,
            ),
            ops::OpView::Final { answer, cites } => self.answered(
                ctx,
                answer,
                cites,
                q,
                now,
            ).wound_up(ctx, q, now),
        }
    }

    /// The planner replied in a turn of its own.
    pub open spec fn heard_plan(
        self,
        ctx: context::ContextView,
        reply: Result<Seq<char>, host::ErrorView>,
        id: Seq<char>,
        at: Seq<char>,
        q: host::QuotaView,
        now: u64,
    ) -> (State, ActionView) {
        match reply {
            Err(e) => self.unasked(e, q, now).wound_up(ctx, q, now),
            Ok(reply) => match planned(reply, ctx.chunks.len()) {
                Err(why) => self.refused(reply, why, q, now).turned(ctx, q, now),
                Ok(op) => self.chose(ctx, op, id, at, q, now),
            },
        }
    }

    /// The planner used the turn that was left to it, or did not.
    pub open spec fn heard_last_word(
        self,
        ctx: context::ContextView,
        said: Option<(Seq<char>, Seq<usize>)>,
        q: host::QuotaView,
        now: u64,
    ) -> State {
        match said {
            Some((answer, cites)) => self.forced(ctx, answer, cites, q, now).over(q, now),
            None => self.over(q, now),
        }
    }

    /// The readers of a `map` are done.
    pub open spec fn heard_leaves(
        self,
        ctx: context::ContextView,
        op: ops::OpView,
        ids: Seq<usize>,
        outcomes: Seq<fold::LeafView>,
        q: host::QuotaView,
        now: u64,
    ) -> (State, ActionView) {
        State {
            work: self.work.found(fold::map_findings(ctx.chunks, ids, outcomes)),
            ..self
        }.observed(op, fold::map_observation(ctx.chunks, ids, outcomes), q, now).turned(
            ctx,
            q,
            now,
        )
    }

    /// A nested run is over: its trace becomes part of this one, under the
    /// step that spawned it.
    pub open spec fn heard_nested(
        self,
        ctx: context::ContextView,
        op: ops::OpView,
        ids: Seq<usize>,
        nested: trace::RunView,
        q: host::QuotaView,
        now: u64,
    ) -> (State, ActionView) {
        State {
            rec: trace::RunView {
                trace: trace::spliced(self.rec.trace, nested.trace),
                ..self.rec
            },
            ..self
        }.observed(op, observe::observed(nested_told(ids.len(), nested)), q, now).turned(
            ctx,
            q,
            now,
        )
    }

    /// Is the event one that the run waits for?
    pub open spec fn awaits(self, event: EventView) -> bool {
        match (self.phase, event) {
            (PhaseView::Ready, EventView::Start) => true,
            (PhaseView::Planning, EventView::Planned(_)) => true,
            (PhaseView::Answering, EventView::Planned(_)) => true,
            (
                PhaseView::Waiting(ops::OpView::MapOver { .. }),
                EventView::Leaves(_),
            ) => true,
            (
                PhaseView::Waiting(ops::OpView::Recurse { .. }),
                EventView::Nested(_),
            ) => true,
            _ => false,
        }
    }

    /// What an event makes of the run, and what is to be done next. The id and
    /// the time are those of a sub-corpus, where one is built.
    pub open spec fn advanced(
        self,
        ctx: context::ContextView,
        event: EventView,
        id: Seq<char>,
        at: Seq<char>,
        q: host::QuotaView,
        now: u64,
    ) -> (State, ActionView) {
        match (self.phase, event) {
            (PhaseView::Ready, EventView::Start) => self.turned(ctx, q, now),
            (PhaseView::Planning, EventView::Planned(reply)) => self.heard_plan(
                ctx,
                reply,
                id,
                at,
                q,
                now,
            ),
            (PhaseView::Answering, EventView::Planned(reply)) => (
                self.heard_last_word(
                    ctx,
                    match reply {
                        Ok(reply) => last_word(reply),
                        Err(_) => None,
                    },
                    q,
                    now,
                ),
                ActionView::Done,
            ),
            (PhaseView::Waiting(op), EventView::Leaves(outcomes)) => self.heard_leaves(
                ctx,
                op,
                op->MapOver_chunks,
                outcomes,
                q,
                now,
            ),
            (PhaseView::Waiting(op), EventView::Nested(nested)) => self.heard_nested(
                ctx,
                op,
                op->Recurse_chunks,
                nested,
                q,
                now,
            ),
            _ => (self, ActionView::Done),
        }
    }
}

// ------------------------------------------------------------------- running
fn passed(now: u64, before: u64) -> (r: u64)
    ensures
        r == since(now as nat, before as nat),
{
    if now >= before {
        now - before
    } else {
        0
    }
}

fn spent(now: usize, before: usize) -> (r: usize)
    ensures
        r == since(now as nat, before as nat),
{
    if now >= before {
        now - before
    } else {
        0
    }
}

fn may_ask(quota: &RunQuota, now_ms: u64) -> (b: bool)
    ensures
        b == State::can_ask(quota@, now_ms),
{
    quota.calls_remaining() > 0 && !quota.deadline_elapsed(now_ms)
}

/// What an operator read from a reply holds, or what the planner is told.
pub open spec fn plan_view(r: Result<Op, String>) -> Result<ops::OpView, Seq<char>> {
    match r {
        Ok(op) => Ok(op@),
        Err(e) => Err(e@),
    }
}

/// The operator in what was found in a reply.
pub fn plan_of(found: Option<Json>, ctx: &ContextRecord) -> (r: Result<Op, String>)
    requires
    ensures
        plan_view(r) == planned_in(json::tree_view(found), ctx@.chunks.len()),
{
    match found {
        None => Err("no JSON operator in the reply. Reply with one JSON object.".to_owned()),
        Some(j) => match ops::parse_op(&j) {
            Err(e) => Err(e),
            Ok(op) => match op.validate(ctx) {
                Err(e) => Err(e),
                Ok(()) => Ok(op),
            },
        },
    }
}

/// The operator in a planner's reply.
pub fn plan(reply: &str, ctx: &ContextRecord) -> (r: Result<Op, String>)
    requires
    ensures
        plan_view(r) == planned(reply@, ctx@.chunks.len()),
{
    plan_of(host::extract_json(reply), ctx)
}

/// The last word in what was found in a reply.
pub fn last_word_of(found: Option<Json>) -> (r: Option<(String, Vec<usize>)>)
    ensures
        said_view(r) == last_word_in(json::tree_view(found)),
{
    match found {
        None => None,
        Some(j) => match ops::parse_op(&j) {
            Ok(Op::Final { answer, cites }) => Some((answer, cites)),
            _ => None,
        },
    }
}

/// What a last word holds.
pub open spec fn said_view(said: Option<(String, Vec<usize>)>) -> Option<(Seq<char>, Seq<usize>)> {
    match said {
        Some((answer, cites)) => Some((answer@, cites@)),
        None => None,
    }
}

/// The documents that chunks make when they become a corpus of their own.
fn excerpt_docs(ctx: &ContextRecord, ids: &Vec<usize>) -> (r: Vec<Document>)
    requires
        ctx@.numbered(),
    ensures
        chunk::doc_views(r@) == excerpts(ctx@.chunks, ids@),
        forall|i: int| 0 <= i < r@.len() ==> (#[trigger] r@[i])@.fits(),
{
    let kept = fold::keep_readable(ctx, ids);
    proof {
        fold::lemma_readable(ctx@.chunks, ids@);
    }
    let mut out: Vec<Document> = Vec::new();
    let mut i: usize = 0;
    while i < kept.len()
        invariant
            i <= kept@.len(),
            ctx@.numbered(),
            kept@ == fold::readable(ctx@.chunks, ids@),
            forall|k: int| 0 <= k < kept@.len() ==> #[trigger] kept@[k] < ctx@.chunks.len(),
            out@.len() == i,
            forall|k: int|
                0 <= k < i ==> (#[trigger] out@[k])@ == chunk::excerpt_of(
                    ctx@.chunks[kept@[k] as int],
                ) && out@[k]@.fits(),
        decreases kept@.len() - i,
    {
        let c = &ctx.chunks[kept[i]];
        proof {
            assert(c@ == ctx@.chunks[kept@[i as int] as int]);
            assert(context::is_numbered(c@));
        }
        out.push(Document::excerpt(c.source.as_str(), c.text.as_str(), c.start_line));
        i = i + 1;
    }
    assert(chunk::doc_views(out@) =~= excerpts(ctx@.chunks, ids@));
    out
}

fn show_no_answer(findings: &Vec<String>) -> (r: String)
    ensures
        r@ == no_answer(text::views(findings@)),
{
    if findings.len() == 0 {
        "No answer: the run ended before anything was read from the corpus.".to_owned()
    } else {
        let mut out = "No answer was reached within the budget. What had been found:\n".to_owned();
        out.append(text::join(findings, 0, findings.len(), "\n").as_str());
        assert(text::views(findings@).subrange(0, findings@.len() as int) =~= text::views(
            findings@,
        ));
        out
    }
}

impl Run {
    /// A run of the query over the context, at a depth, on a quota.
    pub fn new(
        ctx: &ContextRecord,
        query: &str,
        budget: Budget,
        depth: usize,
        stamp: Stamp,
        quota: &RunQuota,
        now_ms: u64,
    ) -> (r: Run)
        ensures
            r@ == (State {
                rec: trace::RunView {
                    id: stamp.id@,
                    context_id: ctx@.id,
                    query: query@,
                    status: STATUS_BUDGET@,
                    answer: seq![],
                    cites: seq![],
                    trace: seq![],
                    started_at: stamp.at@,
                    elapsed_ms: 0,
                    model_calls: 0,
                    prompt_chars: 0,
                    budget,
                },
                work: working::WorkingView { notes: seq![], findings: seq![], recent: seq![] },
                depth: depth as nat,
                step: 0,
                phase: PhaseView::Ready,
                started_ms: now_ms,
                started_calls: quota@.calls,
                started_chars: quota@.prompt_chars,
                asked_ms: now_ms,
                asked_calls: quota@.calls,
            }),
    {
        let rec = RunRecord {
            id: stamp.id,
            context_id: ctx.id.clone(),
            query: query.to_owned(),
            status: STATUS_BUDGET.to_owned(),
            answer: String::new(),
            cites: Vec::new(),
            trace: Vec::new(),
            started_at: stamp.at,
            elapsed_ms: 0,
            model_calls: 0,
            prompt_chars: 0,
            budget,
        };
        assert(rec@.answer =~= seq![]);
        assert(rec@.cites =~= seq![]);
        assert(rec@.trace =~= seq![]);
        Run {
            rec,
            work: Working::new(),
            depth,
            step: 0,
            phase: Phase::Ready,
            started_ms: now_ms,
            started_calls: quota.calls(),
            started_chars: quota.prompt_chars(),
            asked_ms: now_ms,
            asked_calls: quota.calls(),
        }
    }

    fn after_move(self, m: Move, quota: &RunQuota, now_ms: u64) -> (r: Run)
        ensures
            r@ == self@.moved(m@, quota@, now_ms),
    {
        let mut s = self;
        let depth: usize = s.depth;
        let calls: usize = spent(quota.calls(), s.asked_calls);
        let elapsed: u64 = passed(now_ms, s.asked_ms);
        trace::push_step(&mut s.rec.trace, depth, m, calls, elapsed);
        s
    }

    fn end(self, quota: &RunQuota, now_ms: u64) -> (r: Run)
        ensures
            r@ == self@.over(quota@, now_ms),
    {
        let mut s = self;
        if s.rec.answer.as_str().unicode_len() == 0 {
            s.rec.answer = show_no_answer(&s.work.findings);
        }
        s.rec.elapsed_ms = passed(now_ms, s.started_ms);
        s.rec.model_calls = spent(quota.calls(), s.started_calls);
        s.rec.prompt_chars = quota.prompt_chars().wrapping_sub(s.started_chars);
        s.phase = Phase::Over;
        s
    }

    fn wind_up(self, ctx: &ContextRecord, quota: &RunQuota, now_ms: u64) -> (r: (Run, Action))
        ensures
            (r.0@, r.1@) == self@.wound_up(ctx@, quota@, now_ms),
    {
        if text::same(self.rec.status.as_str(), STATUS_BUDGET) && may_ask(quota, now_ms) {
            let system = prompts::root_system(self.depth, &self.rec.budget);
            let prompt = prompts::forced_prompt(self.rec.query.as_str(), ctx, &self.work);
            let mut s = self;
            s.phase = Phase::Answering;
            s.asked_ms = now_ms;
            s.asked_calls = quota.calls();
            (s, Action::Ask { system, prompt })
        } else {
            (self.end(quota, now_ms), Action::Done)
        }
    }

    fn take_turn(self, ctx: &ContextRecord, quota: &RunQuota, now_ms: u64) -> (r: (Run, Action))
        ensures
            (r.0@, r.1@) == self@.turned(ctx@, quota@, now_ms),
    {
        if self.step < self.rec.budget.max_steps && may_ask(quota, now_ms) {
            let system = prompts::root_system(self.depth, &self.rec.budget);
            let prompt = prompts::turn_prompt(self.rec.query.as_str(), ctx, &self.work);
            let mut s = self;
            s.phase = Phase::Planning;
            s.step = s.step + 1;
            s.asked_ms = now_ms;
            s.asked_calls = quota.calls();
            (s, Action::Ask { system, prompt })
        } else {
            self.wind_up(ctx, quota, now_ms)
        }
    }

    fn observe(self, op: &Op, o: Observation, quota: &RunQuota, now_ms: u64) -> (r: Run)
        ensures
            r@ == self@.observed(op@, o@, quota@, now_ms),
    {
        let mut s = self;
        s.work.push_recent(op.label(), o.text.as_str());
        let m = Move {
            op: op.label().to_owned(),
            args: op.to_json(),
            observation: o.text,
            truncated: o.truncated,
            error: None,
        };
        s.after_move(m, quota, now_ms)
    }

    fn fail(self, e: CompleteError, quota: &RunQuota, now_ms: u64) -> (r: Run)
        ensures
            r@ == self@.unasked(e@, quota@, now_ms),
    {
        let mut s = self;
        let told = e.message();
        match e {
            CompleteError::Host(_) => {
                s.rec.status = STATUS_ERROR.to_owned();
                let mut answer = "The planner could not reach a model: ".to_owned();
                answer.append(told.as_str());
                s.rec.answer = answer;
            },
            _ => {},
        }
        let m = Move {
            op: "plan".to_owned(),
            args: Json::Null,
            observation: "".to_owned(),
            truncated: false,
            error: Some(told),
        };
        s.after_move(m, quota, now_ms)
    }

    fn refuse(self, reply: &str, why: String, quota: &RunQuota, now_ms: u64) -> (r: Run)
        ensures
            r@ == self@.refused(reply@, why@, quota@, now_ms),
    {
        let mut s = self;
        s.work.push_recent("invalid", why.as_str());
        let kept = trace::truncate(reply, KEPT_OF_A_REPLY);
        let mut f: Vec<(String, Json)> = Vec::new();
        json::put(&mut f, "reply", Json::str(kept.as_str()));
        assert(json::field_views(f@) =~= seq![("reply"@, json::JsonView::Str(kept@))]);
        let m = Move {
            op: "invalid".to_owned(),
            args: Json::Object(f),
            observation: why.clone(),
            truncated: false,
            error: Some(why),
        };
        s.after_move(m, quota, now_ms)
    }

    fn answer(
        self,
        ctx: &ContextRecord,
        op: Op,
        answer: &str,
        cites: &Vec<usize>,
        quota: &RunQuota,
        now_ms: u64,
    ) -> (r: Run)
        requires
            op@ == (ops::OpView::Final { answer: answer@, cites: cites@ }),
        ensures
            r@ == self@.answered(ctx@, answer@, cites@, quota@, now_ms),
    {
        let mut s = self;
        s.rec.status = STATUS_OK.to_owned();
        s.rec.answer = answer.to_owned();
        s.rec.cites = trace::resolve_cites(ctx, cites);
        let m = Move {
            op: op.label().to_owned(),
            args: op.to_json(),
            observation: trace::truncate(answer, KEPT_OF_AN_ANSWER),
            truncated: false,
            error: None,
        };
        s.after_move(m, quota, now_ms)
    }

    fn force(
        self,
        ctx: &ContextRecord,
        answer: String,
        cites: &Vec<usize>,
        quota: &RunQuota,
        now_ms: u64,
    ) -> (r: Run)
        ensures
            r@ == self@.forced(ctx@, answer@, cites@, quota@, now_ms),
    {
        let mut s = self;
        let shown = trace::truncate(answer.as_str(), KEPT_OF_AN_ANSWER);
        s.rec.answer = answer;
        s.rec.cites = trace::resolve_cites(ctx, cites);
        let mut f: Vec<(String, Json)> = Vec::new();
        json::put(&mut f, "reason", Json::str("step budget exhausted"));
        assert(json::field_views(f@) =~= seq![
            ("reason"@, json::JsonView::Str("step budget exhausted"@)),
        ]);
        let m = Move {
            op: "final(forced)".to_owned(),
            args: Json::Object(f),
            observation: shown,
            truncated: false,
            error: None,
        };
        s.after_move(m, quota, now_ms)
    }

    fn go_on(
        self,
        ctx: &ContextRecord,
        op: &Op,
        o: Observation,
        quota: &RunQuota,
        now_ms: u64,
    ) -> (r: (Run, Action))
        ensures
            (r.0@, r.1@) == self@.observed(op@, o@, quota@, now_ms).turned(ctx@, quota@, now_ms),
    {
        self.observe(op, o, quota, now_ms).take_turn(ctx, quota, now_ms)
    }

    fn nest(
        self,
        ctx: &ContextRecord,
        op: Op,
        stamp: Stamp,
        quota: &RunQuota,
        now_ms: u64,
    ) -> (r: (Run, Action))
        requires
            op is Recurse,
            ctx@.numbered(),
        ensures
            (r.0@, r.1@) == self@.nesting(
                ctx@,
                op@->query,
                op@->Recurse_chunks,
                stamp.id@,
                stamp.at@,
                quota@,
                now_ms,
            ),
    {
        let max_depth: usize = self.rec.budget.max_depth;
        if max_depth == 0 || self.depth >= max_depth - 1 {
            let mut told = "recursion refused: already at depth ".to_owned();
            told.append(text::show(self.depth).as_str());
            told.append(" of ");
            told.append(text::show(max_depth).as_str());
            told.append(". Use map instead.");
            return self.go_on(ctx, &op, Observation::new(told.as_str()), quota, now_ms);
        }
        let (query, docs) = match &op {
            Op::Recurse { query, chunks } => (query.clone(), excerpt_docs(ctx, chunks)),
            _ => (String::new(), Vec::new()),
        };
        assert(docs@.len() == chunk::doc_views(docs@).len());
        if docs.is_empty() {
            let o = Observation::new("no readable chunks in that selection");
            return self.go_on(ctx, &op, o, quota, now_ms);
        }
        let mut id = "ephemeral:".to_owned();
        id.append(stamp.id.as_str());
        let mut name = ctx.name.clone();
        name.append(" ▸ recursion");
        match ContextRecord::ephemeral_as(id, stamp.at, name.as_str(), docs) {
            Err(why) => {
                let mut told = "could not build the sub-context: ".to_owned();
                told.append(why.as_str());
                self.go_on(ctx, &op, Observation::new(told.as_str()), quota, now_ms)
            },
            Ok(sub) => {
                let b = self.rec.budget;
                let budget = Budget {
                    max_steps: if b.max_steps < MAX_NESTED_STEPS {
                        b.max_steps
                    } else {
                        MAX_NESTED_STEPS
                    },
                    max_model_calls: b.max_model_calls,
                    max_depth: b.max_depth,
                    wall_secs: b.wall_secs,
                };
                let depth: usize = self.depth + 1;
                let mut s = self;
                s.phase = Phase::Waiting(op);
                (s, Action::Recurse { query, sub, budget, depth })
            },
        }
    }

    /// Carries out the operator that the planner chose.
    pub fn choose_op(
        self,
        ctx: &ContextRecord,
        op: Op,
        stamp: Stamp,
        quota: &RunQuota,
        now_ms: u64,
    ) -> (r: (Run, Action))
        requires
            ctx@.numbered(),
        ensures
            (r.0@, r.1@) == self@.chose(ctx@, op@, stamp.id@, stamp.at@, quota@, now_ms),
    {
        match &op {
            Op::Outline { source } => {
                let o = match source {
                    Some(s) => ops::outline(ctx, Some(s.as_str())),
                    None => ops::outline(ctx, None),
                };
                self.go_on(ctx, &op, o, quota, now_ms)
            },
            Op::Peek { chunk, start, len } => {
                proof {
                    if *chunk < ctx.chunks@.len() {
                        assert(context::is_numbered(ctx@.chunks[*chunk as int]));
                    }
                }
                let o = ops::peek(ctx, *chunk, *start, *len);
                self.go_on(ctx, &op, o, quota, now_ms)
            },
            Op::Grep { pattern, max, context } => {
                let o = ops::grep(ctx, pattern.as_str(), *max, *context);
                self.go_on(ctx, &op, o, quota, now_ms)
            },
            Op::Note { text } => {
                let mut s = self;
                let taken = s.work.note(text.as_str());
                let told = if taken {
                    "noted".to_owned()
                } else {
                    let mut t = "note dropped: already holding ".to_owned();
                    t.append(text::show(working::MAX_NOTES).as_str());
                    t.append(" notes. Answer, or consolidate.");
                    t
                };
                s.go_on(ctx, &op, Observation::new(told.as_str()), quota, now_ms)
            },
            Op::MapOver { prompt, chunks } => {
                let prompts = fold::map_requests(ctx, prompt.as_str(), chunks);
                let mut s = self;
                s.phase = Phase::Waiting(op);
                (s, Action::AskLeaves { system: prompts::LEAF_SYSTEM.to_owned(), prompts })
            },
            Op::Recurse { .. } => self.nest(ctx, op, stamp, quota, now_ms),
            Op::Final { answer, cites } => {
                let answer = answer.clone();
                let cites = copy_ids(cites);
                self.answer(ctx, op, answer.as_str(), &cites, quota, now_ms).wind_up(
                    ctx,
                    quota,
                    now_ms,
                )
            },
        }
    }

    /// Ends the run with the planner's last word, where it gave one.
    pub fn hear_last_word(
        self,
        ctx: &ContextRecord,
        said: Option<(String, Vec<usize>)>,
        quota: &RunQuota,
        now_ms: u64,
    ) -> (r: Run)
        ensures
            r@ == self@.heard_last_word(ctx@, said_view(said), quota@, now_ms),
    {
        match said {
            Some((answer, cites)) => self.force(ctx, answer, &cites, quota, now_ms).end(
                quota,
                now_ms,
            ),
            None => self.end(quota, now_ms),
        }
    }

    /// Is the event one that the run waits for?
    pub fn awaits(&self, event: &Event) -> (b: bool)
        ensures
            b == self@.awaits(event@),
    {
        match (&self.phase, event) {
            (Phase::Ready, Event::Start) => true,
            (Phase::Planning, Event::Planned(_)) => true,
            (Phase::Answering, Event::Planned(_)) => true,
            (Phase::Waiting(Op::MapOver { .. }), Event::Leaves(_)) => true,
            (Phase::Waiting(Op::Recurse { .. }), Event::Nested(_)) => true,
            _ => false,
        }
    }

    /// Carries the run on from an event, and says what is to be done next. The
    /// stamp is for a sub-corpus, where one is built.
    pub fn advance(
        self,
        ctx: &ContextRecord,
        event: Event,
        stamp: Stamp,
        quota: &RunQuota,
        now_ms: u64,
    ) -> (r: (Run, Action))
        requires
            self@.awaits(event@),
            ctx@.numbered(),
        ensures
            (r.0@, r.1@) == self@.advanced(
                ctx@,
                event@,
                stamp.id@,
                stamp.at@,
                quota@,
                now_ms,
            ),
    {
        match event {
            Event::Start => self.take_turn(ctx, quota, now_ms),
            Event::Planned(reply) => match &self.phase {
                Phase::Planning => match reply {
                    Err(e) => self.fail(e, quota, now_ms).wind_up(ctx, quota, now_ms),
                    Ok(reply) => match plan(reply.as_str(), ctx) {
                        Err(why) => self.refuse(reply.as_str(), why, quota, now_ms).take_turn(
                            ctx,
                            quota,
                            now_ms,
                        ),
                        Ok(op) => self.choose_op(ctx, op, stamp, quota, now_ms),
                    },
                },
                _ => {
                    let said = match reply {
                        Ok(reply) => last_word_of(host::extract_json(reply.as_str())),
                        Err(_) => None,
                    };
                    (self.hear_last_word(ctx, said, quota, now_ms), Action::Done)
                },
            },
            Event::Leaves(outcomes) => {
                let (s, op) = self.take_op();
                s.read(ctx, op, &outcomes, quota, now_ms)
            },
            Event::Nested(nested) => {
                let (s, op) = self.take_op();
                s.come_back(ctx, op, nested, quota, now_ms)
            },
        }
    }

    fn take_op(self) -> (r: (Run, Op))
        requires
            self.phase is Waiting,
        ensures
            r.0@ == (State { phase: PhaseView::Over, ..self@ }),
            self@.phase == PhaseView::Waiting(r.1@),
    {
        let mut s = self;
        let mut phase = Phase::Over;
        std::mem::swap(&mut s.phase, &mut phase);
        match phase {
            Phase::Waiting(op) => (s, op),
            _ => (s, Op::Note { text: String::new() }),
        }
    }

    fn read(
        self,
        ctx: &ContextRecord,
        op: Op,
        outcomes: &Vec<LeafOutcome>,
        quota: &RunQuota,
        now_ms: u64,
    ) -> (r: (Run, Action))
        requires
            op is MapOver,
        ensures
            (r.0@, r.1@) == self@.heard_leaves(
                ctx@,
                op@,
                op@->MapOver_chunks,
                fold::leaf_views(outcomes@),
                quota@,
                now_ms,
            ),
    {
        let (lines, o) = match &op {
            Op::MapOver { chunks, .. } => fold::fold_map(ctx, chunks, outcomes),
            _ => (Vec::new(), Observation::new("")),
        };
        let mut s = self;
        s.work.find(&lines);
        s.go_on(ctx, &op, o, quota, now_ms)
    }

    fn come_back(
        self,
        ctx: &ContextRecord,
        op: Op,
        nested: RunRecord,
        quota: &RunQuota,
        now_ms: u64,
    ) -> (r: (Run, Action))
        requires
            op is Recurse,
        ensures
            (r.0@, r.1@) == self@.heard_nested(
                ctx@,
                op@,
                op@->Recurse_chunks,
                nested@,
                quota@,
                now_ms,
            ),
    {
        let n: usize = match &op {
            Op::Recurse { chunks, .. } => chunks.len(),
            _ => 0,
        };
        let mut told = "recursion over ".to_owned();
        told.append(text::show(n).as_str());
        told.append(" chunk(s) (");
        told.append(nested.status.as_str());
        told.append("): ");
        told.append(nested.answer.as_str());
        let mut s = self;
        trace::splice(&mut s.rec.trace, nested.trace);
        s.go_on(ctx, &op, Observation::new(told.as_str()), quota, now_ms)
    }
}

fn copy_ids(v: &Vec<usize>) -> (r: Vec<usize>)
    ensures
        r@ == v@,
{
    let mut out: Vec<usize> = Vec::new();
    let mut i: usize = 0;
    while i < v.len()
        invariant
            i <= v@.len(),
            out@ == v@.take(i as int),
        decreases v@.len() - i,
    {
        out.push(v[i]);
        assert(out@ =~= v@.take(i as int + 1));
        i = i + 1;
    }
    assert(out@ =~= v@);
    out
}

} // verus!
