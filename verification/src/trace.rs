//! What a run leaves behind: its steps, one tree of them with those of nested
//! runs, its answer, and where the answer can be checked.
use vstd::prelude::*;
use vstd::string::*;

use crate::budget::Budget;
use crate::chunk;
use crate::chunk::Chunk;
use crate::context;
use crate::context::ContextRecord;
use crate::json;
use crate::json::Json;
use crate::text;

verus! {

/// The run answered.
pub const STATUS_OK: &'static str = "ok";

/// The run met a bound before it answered.
pub const STATUS_BUDGET: &'static str = "budget_exhausted";

/// The run could not go on.
pub const STATUS_ERROR: &'static str = "error";

/// One recorded move, and what it cost.
#[derive(Debug)]
pub struct TraceStep {
    /// Its place in the trace.
    pub index: usize,
    /// How deep the run is nested that made it.
    pub depth: usize,
    /// The place of the step that spawned the run that made it, for nested
    /// runs.
    pub parent: Option<usize>,
    pub op: String,
    /// The operator's arguments, verbatim.
    pub args: Json,
    /// What came back.
    pub observation: String,
    pub truncated: bool,
    pub model_calls: usize,
    pub elapsed_ms: u64,
    /// Set where the step failed. A failed step is recorded, and told to the
    /// planner.
    pub error: Option<String>,
}

/// What a step holds.
#[verifier::ext_equal]
pub struct StepView {
    pub index: nat,
    pub depth: nat,
    pub parent: Option<nat>,
    pub op: Seq<char>,
    pub args: json::JsonView,
    pub observation: Seq<char>,
    pub truncated: bool,
    pub model_calls: nat,
    pub elapsed_ms: u64,
    pub error: Option<Seq<char>>,
}

/// What an optional place holds.
pub open spec fn opt_nat(n: Option<usize>) -> Option<nat> {
    match n {
        Some(n) => Some(n as nat),
        None => None,
    }
}

impl View for TraceStep {
    type V = StepView;

    open spec fn view(&self) -> StepView {
        StepView {
            index: self.index as nat,
            depth: self.depth as nat,
            parent: opt_nat(self.parent),
            op: self.op@,
            args: self.args@,
            observation: self.observation@,
            truncated: self.truncated,
            model_calls: self.model_calls as nat,
            elapsed_ms: self.elapsed_ms,
            error: context::opt_text(self.error),
        }
    }
}

/// What a list of steps holds.
pub open spec fn step_views(v: Seq<TraceStep>) -> Seq<StepView> {
    Seq::new(v.len(), |i: int| v[i]@)
}

impl Clone for TraceStep {
    fn clone(&self) -> (r: TraceStep)
        ensures
            r@ == self@,
    {
        TraceStep {
            index: self.index,
            depth: self.depth,
            parent: self.parent,
            op: self.op.clone(),
            args: self.args.copy(),
            observation: self.observation.clone(),
            truncated: self.truncated,
            model_calls: self.model_calls,
            elapsed_ms: self.elapsed_ms,
            error: match &self.error {
                Some(e) => Some(e.clone()),
                None => None,
            },
        }
    }
}

/// Copies steps.
pub fn copy_steps(v: &Vec<TraceStep>) -> (r: Vec<TraceStep>)
    ensures
        step_views(r@) == step_views(v@),
{
    let mut out: Vec<TraceStep> = Vec::new();
    let mut i: usize = 0;
    while i < v.len()
        invariant
            i <= v@.len(),
            out@.len() == i,
            forall|k: int| 0 <= k < i ==> (#[trigger] out@[k])@ == v@[k]@,
        decreases v@.len() - i,
    {
        out.push(v[i].clone());
        i = i + 1;
    }
    assert(step_views(out@) =~= step_views(v@));
    out
}

// ------------------------------------------------------------------ citations
/// A resolved citation: the chunk, and where it really lives.
#[derive(Debug)]
pub struct Citation {
    pub chunk: usize,
    pub source: String,
    pub start_line: usize,
    pub end_line: usize,
    pub label: String,
}

/// What a citation holds.
#[verifier::ext_equal]
pub struct CitationView {
    pub chunk: nat,
    pub source: Seq<char>,
    pub start_line: nat,
    pub end_line: nat,
    pub label: Seq<char>,
}

impl View for Citation {
    type V = CitationView;

    open spec fn view(&self) -> CitationView {
        CitationView {
            chunk: self.chunk as nat,
            source: self.source@,
            start_line: self.start_line as nat,
            end_line: self.end_line as nat,
            label: self.label@,
        }
    }
}

impl Clone for Citation {
    fn clone(&self) -> (r: Citation)
        ensures
            r == *self,
    {
        Citation {
            chunk: self.chunk,
            source: self.source.clone(),
            start_line: self.start_line,
            end_line: self.end_line,
            label: self.label.clone(),
        }
    }
}

/// What a list of citations holds.
pub open spec fn citation_views(v: Seq<Citation>) -> Seq<CitationView> {
    Seq::new(v.len(), |i: int| v[i]@)
}

/// Copies citations.
pub fn copy_cites(v: &Vec<Citation>) -> (r: Vec<Citation>)
    ensures
        citation_views(r@) == citation_views(v@),
{
    let mut out: Vec<Citation> = Vec::new();
    let mut i: usize = 0;
    while i < v.len()
        invariant
            i <= v@.len(),
            out@.len() == i,
            forall|k: int| 0 <= k < i ==> (#[trigger] out@[k])@ == v@[k]@,
        decreases v@.len() - i,
    {
        out.push(v[i].clone());
        i = i + 1;
    }
    assert(citation_views(out@) =~= citation_views(v@));
    out
}

/// The citation of a chunk.
pub open spec fn cited(c: chunk::ChunkView) -> CitationView {
    CitationView {
        chunk: c.id,
        source: c.source,
        start_line: c.start_line,
        end_line: c.end_line,
        label: c.label,
    }
}

/// The citations of the chunks that the ids name; an id that names none is
/// left out.
pub open spec fn resolved(chunks: Seq<chunk::ChunkView>, ids: Seq<usize>) -> Seq<CitationView>
    decreases ids.len(),
{
    if ids.len() == 0 {
        seq![]
    } else {
        let before = resolved(chunks, ids.drop_last());
        if ids.last() < chunks.len() {
            before.push(cited(chunks[ids.last() as int]))
        } else {
            before
        }
    }
}

fn cite(c: &Chunk) -> (r: Citation)
    ensures
        r@ == cited(c@),
{
    Citation {
        chunk: c.id,
        source: c.source.clone(),
        start_line: c.start_line,
        end_line: c.end_line,
        label: c.label.clone(),
    }
}

/// Resolves the ids that an answer cites to where the chunks live.
pub fn resolve_cites(ctx: &ContextRecord, ids: &Vec<usize>) -> (r: Vec<Citation>)
    ensures
        citation_views(r@) == resolved(ctx@.chunks, ids@),
{
    let mut out: Vec<Citation> = Vec::new();
    let mut i: usize = 0;
    assert(ids@.take(0) =~= seq![]);
    assert(citation_views(out@) =~= seq![]);
    while i < ids.len()
        invariant
            i <= ids@.len(),
            citation_views(out@) == resolved(ctx@.chunks, ids@.take(i as int)),
        decreases ids@.len() - i,
    {
        assert(ids@.take(i as int + 1).drop_last() =~= ids@.take(i as int));
        if let Some(c) = ctx.chunk(ids[i]) {
            let ghost was = out@;
            out.push(cite(c));
            assert(citation_views(out@) =~= citation_views(was).push(cited(c@)));
        }
        i = i + 1;
    }
    assert(ids@.take(i as int) =~= ids@);
    out
}

/// Every citation is of a chunk that is there and that the answer named, and
/// every chunk that is there and that the answer named is cited.
pub proof fn law_citations_are_of_real_chunks(chunks: Seq<chunk::ChunkView>, ids: Seq<usize>)
    ensures
        forall|i: int|
            0 <= i < resolved(chunks, ids).len() ==> exists|k: int|
                0 <= k < ids.len() && ids[k] < chunks.len() && #[trigger] resolved(chunks, ids)[i]
                    == cited(chunks[ids[k] as int]),
        forall|k: int|
            0 <= k < ids.len() && #[trigger] ids[k] < chunks.len() ==> resolved(
                chunks,
                ids,
            ).contains(cited(chunks[ids[k] as int])),
        resolved(chunks, ids).len() <= ids.len(),
    decreases ids.len(),
{
    if ids.len() > 0 {
        let front = ids.drop_last();
        law_citations_are_of_real_chunks(chunks, front);
        let all = resolved(chunks, ids);
        let before = resolved(chunks, front);
        assert forall|i: int| 0 <= i < all.len() implies exists|k: int|
            0 <= k < ids.len() && ids[k] < chunks.len() && #[trigger] all[i] == cited(
                chunks[ids[k] as int],
            ) by {
            if i < before.len() {
                assert(all[i] == before[i]);
                let k = choose|k: int|
                    0 <= k < front.len() && front[k] < chunks.len() && before[i] == cited(
                        chunks[front[k] as int],
                    );
                assert(ids[k] == front[k]);
            } else {
                assert(ids[ids.len() - 1] == ids.last());
            }
        }
        assert forall|k: int|
            0 <= k < ids.len() && #[trigger] ids[k] < chunks.len() implies all.contains(
            cited(chunks[ids[k] as int]),
        ) by {
            if k < front.len() {
                assert(front[k] == ids[k]);
                let c = cited(chunks[ids[k] as int]);
                assert(before.contains(c));
                let i = choose|i: int| 0 <= i < before.len() && before[i] == c;
                assert(all[i] == c);
            } else {
                assert(all[all.len() - 1] == cited(chunks[ids[k] as int]));
            }
        }
    }
}

// -------------------------------------------------------------------- records
/// A run, finished or under way.
#[derive(Debug)]
pub struct RunRecord {
    pub id: String,
    pub context_id: String,
    pub query: String,
    pub status: String,
    pub answer: String,
    /// The chunks that the answer rests on.
    pub cites: Vec<Citation>,
    pub trace: Vec<TraceStep>,
    pub started_at: String,
    pub elapsed_ms: u64,
    pub model_calls: usize,
    /// Characters sent to models across the whole run.
    pub prompt_chars: u64,
    pub budget: Budget,
}

/// What a run holds.
#[verifier::ext_equal]
pub struct RunView {
    pub id: Seq<char>,
    pub context_id: Seq<char>,
    pub query: Seq<char>,
    pub status: Seq<char>,
    pub answer: Seq<char>,
    pub cites: Seq<CitationView>,
    pub trace: Seq<StepView>,
    pub started_at: Seq<char>,
    pub elapsed_ms: u64,
    pub model_calls: nat,
    pub prompt_chars: u64,
    pub budget: Budget,
}

impl View for RunRecord {
    type V = RunView;

    open spec fn view(&self) -> RunView {
        RunView {
            id: self.id@,
            context_id: self.context_id@,
            query: self.query@,
            status: self.status@,
            answer: self.answer@,
            cites: citation_views(self.cites@),
            trace: step_views(self.trace@),
            started_at: self.started_at@,
            elapsed_ms: self.elapsed_ms,
            model_calls: self.model_calls as nat,
            prompt_chars: self.prompt_chars,
            budget: self.budget,
        }
    }
}

impl Clone for RunRecord {
    fn clone(&self) -> (r: RunRecord)
        ensures
            r@ == self@,
    {
        RunRecord {
            id: self.id.clone(),
            context_id: self.context_id.clone(),
            query: self.query.clone(),
            status: self.status.clone(),
            answer: self.answer.clone(),
            cites: copy_cites(&self.cites),
            trace: copy_steps(&self.trace),
            started_at: self.started_at.clone(),
            elapsed_ms: self.elapsed_ms,
            model_calls: self.model_calls,
            prompt_chars: self.prompt_chars,
            budget: self.budget,
        }
    }
}

/// A text cut to `n` characters, with a mark where something is gone.
pub open spec fn cut_to(s: Seq<char>, n: int) -> Seq<char> {
    if s.len() <= n {
        s
    } else {
        s.take(n) + "…"@
    }
}

/// Cuts a text to `n` characters.
pub fn truncate(s: &str, n: usize) -> (r: String)
    ensures
        r@ == cut_to(s@, n as int),
{
    if s.unicode_len() <= n {
        return s.to_owned();
    }
    let mut out = text::first_chars(s, n);
    out.append("…");
    out
}

/// A step as the run that makes it knows it: without its place in the trace.
pub struct Move {
    pub op: String,
    pub args: Json,
    pub observation: String,
    pub truncated: bool,
    pub error: Option<String>,
}

/// What a move holds.
#[verifier::ext_equal]
pub struct MoveView {
    pub op: Seq<char>,
    pub args: json::JsonView,
    pub observation: Seq<char>,
    pub truncated: bool,
    pub error: Option<Seq<char>>,
}

impl View for Move {
    type V = MoveView;

    open spec fn view(&self) -> MoveView {
        MoveView {
            op: self.op@,
            args: self.args@,
            observation: self.observation@,
            truncated: self.truncated,
            error: context::opt_text(self.error),
        }
    }
}

/// A move, put at the end of a trace.
pub open spec fn placed(
    trace: Seq<StepView>,
    depth: nat,
    m: MoveView,
    model_calls: nat,
    elapsed_ms: u64,
) -> Seq<StepView> {
    trace.push(
        StepView {
            index: trace.len(),
            depth,
            parent: None,
            op: m.op,
            args: m.args,
            observation: m.observation,
            truncated: m.truncated,
            model_calls,
            elapsed_ms,
            error: m.error,
        },
    )
}

/// Puts a move at the end of a trace.
pub fn push_step(
    trace: &mut Vec<TraceStep>,
    depth: usize,
    m: Move,
    model_calls: usize,
    elapsed_ms: u64,
)
    ensures
        step_views(final(trace)@) == placed(
            step_views(old(trace)@),
            depth as nat,
            m@,
            model_calls as nat,
            elapsed_ms,
        ),
{
    let ghost was = trace@;
    let index: usize = trace.len();
    trace.push(
        TraceStep {
            index,
            depth,
            parent: None,
            op: m.op,
            args: m.args,
            observation: m.observation,
            truncated: m.truncated,
            model_calls,
            elapsed_ms,
            error: m.error,
        },
    );
    assert(step_views(trace@) =~= placed(
        step_views(was),
        depth as nat,
        m@,
        model_calls as nat,
        elapsed_ms,
    ));
}

// --------------------------------------------------------------------- splice
/// Where the parent of a nested step stands once the nested trace of `n` steps
/// starts at `offset`: a step of the nested run itself hangs under the step
/// that comes right after the nested trace, which is the one that spawned it.
pub open spec fn moved_parent(parent: Option<nat>, offset: nat, n: nat) -> Option<nat> {
    match parent {
        Some(p) => if p < n {
            Some(offset + p)
        } else {
            Some(offset + n)
        },
        None => Some(offset + n),
    }
}

/// A nested step in its new place.
pub open spec fn moved(s: StepView, j: nat, offset: nat, n: nat) -> StepView {
    StepView { index: offset + j, parent: moved_parent(s.parent, offset, n), ..s }
}

/// A trace with a nested one at its end.
pub open spec fn spliced(trace: Seq<StepView>, nested: Seq<StepView>) -> Seq<StepView> {
    trace + Seq::new(
        nested.len(),
        |j: int| moved(nested[j], j as nat, trace.len(), nested.len()),
    )
}

/// Puts a nested trace at the end of a trace, under the step that is pushed
/// next.
pub fn splice(trace: &mut Vec<TraceStep>, nested: Vec<TraceStep>)
    ensures
        step_views(final(trace)@) == spliced(step_views(old(trace)@), step_views(nested@)),
{
    let ghost was = trace@;
    let ghost inner = nested@;
    let mut nested = nested;
    let offset: usize = trace.len();
    let n: usize = nested.len();
    trace.append(&mut nested);
    let end: usize = trace.len();
    let mut j: usize = 0;
    while j < n
        invariant
            j <= n,
            offset == was.len(),
            n == inner.len(),
            end == offset + n,
            trace@.len() == end,
            forall|k: int| 0 <= k < offset ==> #[trigger] trace@[k] == was[k],
            forall|k: int|
                offset <= k < offset + j ==> (#[trigger] trace@[k])@ == moved(
                    inner[k - offset]@,
                    (k - offset) as nat,
                    offset as nat,
                    n as nat,
                ),
            forall|k: int| offset + j <= k < end ==> #[trigger] trace@[k] == inner[k - offset],
        decreases n - j,
    {
        let at: usize = offset + j;
        let parent: usize = match trace[at].parent {
            Some(p) => if p < n {
                offset + p
            } else {
                end
            },
            None => end,
        };
        trace[at].index = at;
        trace[at].parent = Some(parent);
        j = j + 1;
    }
    assert(step_views(trace@) =~= spliced(step_views(was), step_views(inner)));
}

/// Every step knows its place, and hangs where it belongs: a step of the run
/// at `depth` under none, a step of a nested run under the `recurse` of the run
/// one level up that spawned it, which stands after it.
pub open spec fn is_tree(trace: Seq<StepView>, depth: nat) -> bool {
    forall|i: int|
        0 <= i < trace.len() ==> {
            &&& (#[trigger] trace[i]).index == i
            &&& match trace[i].parent {
                None => trace[i].depth == depth,
                Some(p) => {
                    &&& i < p < trace.len()
                    &&& trace[p as int].op == "recurse"@
                    &&& trace[p as int].depth + 1 == trace[i].depth
                    &&& trace[i].depth > depth
                },
            }
        }
}

/// A move at the end of a tree leaves a tree.
pub proof fn law_a_move_keeps_the_tree(
    trace: Seq<StepView>,
    depth: nat,
    m: MoveView,
    model_calls: nat,
    elapsed_ms: u64,
)
    requires
        is_tree(trace, depth),
    ensures
        is_tree(placed(trace, depth, m, model_calls, elapsed_ms), depth),
{
    let all = placed(trace, depth, m, model_calls, elapsed_ms);
    assert forall|i: int| 0 <= i < all.len() implies {
        &&& (#[trigger] all[i]).index == i
        &&& match all[i].parent {
            None => all[i].depth == depth,
            Some(p) => {
                &&& i < p < all.len()
                &&& all[p as int].op == "recurse"@
                &&& all[p as int].depth + 1 == all[i].depth
                &&& all[i].depth > depth
            },
        }
    } by {
        if i < trace.len() {
            assert(all[i] == trace[i]);
            match trace[i].parent {
                Some(p) => {
                    assert(all[p as int] == trace[p as int]);
                },
                None => {},
            }
        }
    }
}

/// A nested trace and the `recurse` that spawned it, put at the end of a tree,
/// leave a tree: every nested step hangs under that `recurse` or under a step
/// of the nested run.
pub proof fn law_a_nested_trace_hangs_under_its_step(
    trace: Seq<StepView>,
    nested: Seq<StepView>,
    depth: nat,
    m: MoveView,
    model_calls: nat,
    elapsed_ms: u64,
)
    requires
        is_tree(trace, depth),
        is_tree(nested, depth + 1),
        m.op == "recurse"@,
    ensures
        is_tree(placed(spliced(trace, nested), depth, m, model_calls, elapsed_ms), depth),
{
    let inner = spliced(trace, nested);
    let all = placed(inner, depth, m, model_calls, elapsed_ms);
    let offset = trace.len();
    let n = nested.len();
    assert(all.len() == offset + n + 1);
    assert forall|i: int| 0 <= i < all.len() implies {
        &&& (#[trigger] all[i]).index == i
        &&& match all[i].parent {
            None => all[i].depth == depth,
            Some(p) => {
                &&& i < p < all.len()
                &&& all[p as int].op == "recurse"@
                &&& all[p as int].depth + 1 == all[i].depth
                &&& all[i].depth > depth
            },
        }
    } by {
        if i < offset {
            assert(all[i] == trace[i]);
            match trace[i].parent {
                Some(p) => {
                    assert(all[p as int] == trace[p as int]);
                },
                None => {},
            }
        } else if i < offset + n {
            let j = i - offset;
            assert(all[i] == moved(nested[j], j as nat, offset, n));
            match nested[j].parent {
                Some(p) => {
                    assert(all[(offset + p) as int] == moved(nested[p as int], p, offset, n));
                },
                None => {
                    assert(all[(offset + n) as int].op == "recurse"@);
                },
            }
        }
    }
}

/// A text that is short enough is shown whole, and of a longer one as much as is
/// kept, with a mark.
pub proof fn law_a_text_is_cut_only_where_it_is_long(s: Seq<char>, n: nat)
    ensures
        s.len() <= n ==> cut_to(s, n as int) == s,
        s.len() > n ==> cut_to(s, n as int) == s.take(n as int) + "…"@,
{
}

/// A citation is of the chunk, where it really is.
pub proof fn law_a_citation_is_where_its_chunk_is(c: chunk::ChunkView)
    ensures
        cited(c).chunk == c.id,
        cited(c).source == c.source,
        cited(c).start_line == c.start_line,
        cited(c).end_line == c.end_line,
        cited(c).label == c.label,
{
}

/// A nested trace is kept as it is behind the trace it joins: what was there
/// stays, and every nested step comes in its order with all that it says, but for
/// its place; its parent is the step that was its parent, and for those that had
/// none it is the step that comes next.
pub proof fn law_a_nested_trace_is_kept_as_it_is(
    trace: Seq<StepView>,
    nested: Seq<StepView>,
    j: int,
)
    requires
        0 <= j < nested.len(),
        nested[j].parent matches Some(p) ==> p < nested.len(),
    ensures
        spliced(trace, nested).len() == trace.len() + nested.len(),
        spliced(trace, nested).take(trace.len() as int) == trace,
        ({
            let s = spliced(trace, nested)[trace.len() + j];
            let was = nested[j];
            &&& s.index == trace.len() + j
            &&& s.parent == (match was.parent {
                Some(p) => Some((trace.len() + p) as nat),
                None => Some((trace.len() + nested.len()) as nat),
            })
            &&& s.depth == was.depth
            &&& s.op == was.op
            &&& s.args == was.args
            &&& s.observation == was.observation
            &&& s.truncated == was.truncated
            &&& s.model_calls == was.model_calls
            &&& s.elapsed_ms == was.elapsed_ms
            &&& s.error == was.error
        }),
{
    assert(spliced(trace, nested).take(trace.len() as int) =~= trace);
}

/// A run ends in one of three ways, and is told by one of three words.
pub proof fn law_a_run_is_told_by_one_of_three_words()
    ensures
        STATUS_OK@ == "ok"@,
        STATUS_BUDGET@ == "budget_exhausted"@,
        STATUS_ERROR@ == "error"@,
{
}

} // verus!
