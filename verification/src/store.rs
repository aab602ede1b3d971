//! The contexts that are held and the runs that were made, by id.
use std::sync::Arc;

use vstd::prelude::*;
use vstd::string::*;

use crate::chunk;
use crate::chunk::Document;
use crate::context;
use crate::json;
use crate::json::Json;
use crate::order;
use crate::shelf;
use crate::shelf::Shelf;
use crate::stamp;
use crate::text;
use crate::trace;
use crate::trace::RunRecord;

pub use crate::context::{ContextRecord, MAX_CONTEXT_CHARS};
pub use crate::roots::{data_dir, Roots, MAX_FILES, MAX_FILE_CHARS};

verus! {

/// Contexts and runs.
pub struct Store {
    pub contexts: Shelf<Arc<ContextRecord>>,
    pub runs: Shelf<RunRecord>,
}

/// What a store holds.
#[verifier::ext_equal]
pub struct StoreView {
    pub contexts: Seq<(Seq<char>, context::ContextView)>,
    pub runs: Seq<(Seq<char>, trace::RunView)>,
}

/// What a shared context holds.
pub open spec fn shared_view(c: Arc<ContextRecord>) -> context::ContextView {
    c@
}

impl View for Store {
    type V = StoreView;

    open spec fn view(&self) -> StoreView {
        StoreView {
            contexts: order::exchanged(
                self.contexts@,
                |c: Arc<ContextRecord>| shared_view(c),
            ),
            runs: order::exchanged(self.runs@, |r: RunRecord| r@),
        }
    }
}

impl StoreView {
    /// Both shelves are in order, with no id twice.
    pub open spec fn ordered(self) -> bool {
        shelf::ordered(self.contexts) && shelf::ordered(self.runs)
    }

    /// The lines of every context can be numbered. It is so of every context
    /// built here.
    pub open spec fn sound(self) -> bool {
        forall|i: int|
            0 <= i < self.contexts.len() ==> (#[trigger] self.contexts[i]).1.numbered()
    }

    /// A context was put in.
    pub open spec fn with_context(self, c: context::ContextView) -> StoreView {
        StoreView { contexts: shelf::with(self.contexts, c.id, c), ..self }
    }

    /// A run was put in.
    pub open spec fn with_run(self, r: trace::RunView) -> StoreView {
        StoreView { runs: shelf::with(self.runs, r.id, r), ..self }
    }
}

/// A context in a list, without its chunks' text.
pub open spec fn context_row(c: context::ContextView) -> json::JsonView {
    json::JsonView::Object(
        seq![
            ("id"@, json::JsonView::Str(c.id)),
            ("name"@, json::JsonView::Str(c.name)),
            (
                "parent"@,
                match c.parent {
                    Some(p) => json::JsonView::Str(p),
                    None => json::JsonView::Null,
                },
            ),
            ("created_at"@, json::JsonView::Str(c.created_at)),
            ("sources"@, json::strings_view(c.sources)),
            ("total_chars"@, json::JsonView::UInt(c.total_chars as u64)),
            ("chunks"@, json::JsonView::UInt(c.chunks.len() as u64)),
        ],
    )
}

/// The header of a run: what is told of it without its answer and its steps.
pub open spec fn run_header(r: trace::RunView) -> Seq<(Seq<char>, json::JsonView)> {
    seq![
        ("id"@, json::JsonView::Str(r.id)),
        ("context_id"@, json::JsonView::Str(r.context_id)),
        ("query"@, json::JsonView::Str(r.query)),
        ("status"@, json::JsonView::Str(r.status)),
        ("started_at"@, json::JsonView::Str(r.started_at)),
        ("elapsed_ms"@, json::JsonView::UInt(r.elapsed_ms)),
        ("model_calls"@, json::JsonView::UInt(r.model_calls as u64)),
        ("steps"@, json::JsonView::UInt(r.trace.len() as u64)),
    ]
}

/// A run in a list: its header, with its answer or without.
pub open spec fn run_row(r: trace::RunView, answered: bool) -> json::JsonView {
    json::JsonView::Object(
        if answered {
            run_header(r).push(("answer"@, json::JsonView::Str(r.answer)))
        } else {
            run_header(r)
        },
    )
}

/// The rows of contexts, under the times they were made.
pub open spec fn context_rows(s: Seq<(Seq<char>, context::ContextView)>) -> Seq<
    (Seq<char>, json::JsonView),
> {
    Seq::new(s.len(), |i: int| (s[i].1.created_at, context_row(s[i].1)))
}

/// The rows of runs of a context, or of all, under the times they were begun.
pub open spec fn run_rows(
    s: Seq<(Seq<char>, trace::RunView)>,
    context_id: Option<Seq<char>>,
    answered: bool,
) -> Seq<(Seq<char>, json::JsonView)>
    decreases s.len(),
{
    if s.len() == 0 {
        seq![]
    } else {
        let before = run_rows(s.drop_last(), context_id, answered);
        let r = s.last().1;
        if context_id is None || r.context_id == context_id->0 {
            before.push((r.started_at, run_row(r, answered)))
        } else {
            before
        }
    }
}

/// Rows, newest first; rows of the same time by id.
pub open spec fn newest_first(rows: Seq<(Seq<char>, json::JsonView)>) -> Seq<json::JsonView> {
    let s = order::sorted(rows, true);
    Seq::new(s.len(), |i: int| s[i].1)
}

fn show_context_row(c: &ContextRecord) -> (r: Json)
    ensures
        r@ == context_row(c@),
{
    let mut f: Vec<(String, Json)> = Vec::new();
    json::put(&mut f, "id", Json::str(c.id.as_str()));
    json::put(&mut f, "name", Json::str(c.name.as_str()));
    json::put(&mut f, "parent", Json::opt_str(&c.parent));
    json::put(&mut f, "created_at", Json::str(c.created_at.as_str()));
    json::put(&mut f, "sources", Json::strings(&c.sources));
    json::put(&mut f, "total_chars", Json::uint(c.total_chars));
    json::put(&mut f, "chunks", Json::uint(c.chunks.len()));
    assert(c@.chunks.len() == c.chunks@.len());
    assert(json::field_views(f@) =~= context_row(c@)->Object_0);
    Json::Object(f)
}

fn show_run_row(rec: &RunRecord, answered: bool) -> (r: Json)
    ensures
        r@ == run_row(rec@, answered),
{
    let mut f: Vec<(String, Json)> = Vec::new();
    json::put(&mut f, "id", Json::str(rec.id.as_str()));
    json::put(&mut f, "context_id", Json::str(rec.context_id.as_str()));
    json::put(&mut f, "query", Json::str(rec.query.as_str()));
    json::put(&mut f, "status", Json::str(rec.status.as_str()));
    json::put(&mut f, "started_at", Json::str(rec.started_at.as_str()));
    json::put(&mut f, "elapsed_ms", Json::UInt(rec.elapsed_ms));
    json::put(&mut f, "model_calls", Json::uint(rec.model_calls));
    json::put(&mut f, "steps", Json::uint(rec.trace.len()));
    assert(rec@.trace.len() == rec.trace@.len());
    assert(json::field_views(f@) =~= run_header(rec@));
    if answered {
        json::put(&mut f, "answer", Json::str(rec.answer.as_str()));
    }
    assert(json::field_views(f@) =~= run_row(rec@, answered)->Object_0);
    Json::Object(f)
}

/// What rows hold.
pub open spec fn row_views(rows: Seq<(String, Json)>) -> Seq<(Seq<char>, json::JsonView)> {
    Seq::new(rows.len(), |i: int| (rows[i].0@, rows[i].1@))
}

/// Rows, newest first.
fn list_rows(rows: Vec<(String, Json)>) -> (r: Vec<Json>)
    ensures
        json::item_views(r@) == newest_first(row_views(rows@)),
{
    let ghost keyed = order::keyed(rows@);
    let ghost before = rows@;
    let sorted = order::sort(rows, true);
    let ghost pairs = order::keyed(sorted@);
    proof {
        let f = |j: Json| j@;
        order::law_sorting_goes_by_key(keyed, f, true);
        assert(order::exchanged(keyed, f) =~= row_views(before));
    }
    let ghost wanted = newest_first(row_views(before));
    let mut out: Vec<Json> = Vec::new();
    let mut i: usize = 0;
    assert(json::item_views(out@) =~= wanted.take(0));
    while i < sorted.len()
        invariant
            i <= sorted@.len(),
            sorted@.len() == wanted.len(),
            forall|k: int| 0 <= k < sorted@.len() ==> (#[trigger] sorted@[k]).1@ == wanted[k],
            json::item_views(out@) == wanted.take(i as int),
        decreases sorted@.len() - i,
    {
        json::add_item(&mut out, sorted[i].1.copy());
        assert(json::item_views(out@) =~= wanted.take(i as int + 1));
        i = i + 1;
    }
    assert(wanted.take(i as int) =~= wanted);
    out
}

/// `Arc::clone`: another handle on the same value.
#[verifier::external_body]
fn share(c: &Arc<ContextRecord>) -> (r: Arc<ContextRecord>)
    ensures
        r == *c,
{
    Arc::clone(c)
}

/// What is behind an optional shared context.
pub open spec fn opt_shared(c: Option<Arc<ContextRecord>>) -> Option<context::ContextView> {
    match c {
        Some(c) => Some(c@),
        None => None,
    }
}

/// What is behind an optional run.
pub open spec fn opt_run(r: Option<RunRecord>) -> Option<trace::RunView> {
    match r {
        Some(r) => Some(r@),
        None => None,
    }
}

impl Store {
    /// An empty store.
    pub fn new() -> (s: Store)
        ensures
            s@ == (StoreView { contexts: seq![], runs: seq![] }),
            s@.ordered(),
    {
        let s = Store { contexts: Shelf::new(), runs: Shelf::new() };
        assert(s@.contexts =~= seq![]);
        assert(s@.runs =~= seq![]);
        s
    }

    /// Holds a context.
    pub fn insert(&mut self, rec: ContextRecord) -> (r: Arc<ContextRecord>)
        ensures
            r@ == rec@,
            final(self)@ == old(self)@.with_context(rec@),
            old(self)@.ordered() ==> final(self)@.ordered(),
            old(self)@.sound() && rec@.numbered() ==> final(self)@.sound(),
    {
        let ghost f = |c: Arc<ContextRecord>| shared_view(c);
        let ghost was = self.contexts@;
        let id = rec.id.clone();
        let arc = Arc::new(rec);
        let kept = share(&arc);
        proof {
            shelf::law_records_are_seen_through(was, f, id@, kept);
            if shelf::ordered(was) {
                shelf::law_the_order_is_kept(was, id@, kept);
            }
        }
        let ghost before = self@;
        self.contexts.put(id.as_str(), kept);
        proof {
            shelf::law_records_are_seen_through(self.contexts@, f, id@, kept);
            if before.sound() && kept@.numbered() {
                lemma_with_sound(before, kept@);
            }
        }
        arc
    }

    /// Builds a context from documents, under a fresh id, and holds it.
    pub fn create(
        &mut self,
        name: &str,
        docs: Vec<Document>,
        parent: Option<String>,
        target_chars: Option<usize>,
    ) -> (r: Result<Arc<ContextRecord>, String>)
        requires
            forall|i: int| 0 <= i < docs@.len() ==> (#[trigger] docs@[i])@.fits(),
        ensures
            match r {
                Ok(c) => {
                    &&& context::create_refusal(
                        chunk::doc_views(docs@),
                        context::target_or_default(target_chars),
                    ) is None
                    &&& stamp::is_uuid(c.id@)
                    &&& c@ == context::context_of(
                        c.id@,
                        name@,
                        context::opt_text(parent),
                        c.created_at@,
                        chunk::doc_views(docs@),
                        context::target_or_default(target_chars),
                    )
                    &&& c@.numbered()
                    &&& final(self)@ == old(self)@.with_context(c@)
                },
                Err(e) => context::create_refusal(
                    chunk::doc_views(docs@),
                    context::target_or_default(target_chars),
                ) == Some(e@) && final(self)@ == old(self)@,
            },
            old(self)@.ordered() ==> final(self)@.ordered(),
            old(self)@.sound() ==> final(self)@.sound(),
    {
        match ContextRecord::created(name, docs, parent, target_chars) {
            Ok(rec) => Ok(self.insert(rec)),
            Err(e) => Err(e),
        }
    }

    /// The context with the id.
    pub fn get(&self, id: &str) -> (r: Option<Arc<ContextRecord>>)
        ensures
            opt_shared(r) == shelf::got(self@.contexts, id@),
    {
        let ghost f = |c: Arc<ContextRecord>| shared_view(c);
        match self.contexts.get(id) {
            Some(c) => {
                proof {
                    shelf::law_records_are_seen_through(self.contexts@, f, id@, *c);
                }
                Some(share(c))
            },
            None => {
                proof {
                    let some = arbitrary::<Arc<ContextRecord>>();
                    shelf::law_records_are_seen_through(self.contexts@, f, id@, some);
                }
                None
            },
        }
    }

    /// The contexts, newest first, without the text of their chunks.
    pub fn list(&self) -> (r: Vec<Json>)
        ensures
            json::item_views(r@) == newest_first(context_rows(self@.contexts)),
    {
        let ghost v = context_rows(self@.contexts);
        let mut rows: Vec<(String, Json)> = Vec::new();
        let mut i: usize = 0;
        while i < self.contexts.items.len()
            invariant
                i <= self.contexts.items@.len(),
                v == context_rows(self@.contexts),
                v.len() == self.contexts.items@.len(),
                rows@.len() == i,
                forall|k: int|
                    0 <= k < i ==> ((#[trigger] rows@[k]).0@, rows@[k].1@) == v[k],
            decreases self.contexts.items@.len() - i,
        {
            let c = &self.contexts.items[i].1;
            assert(v[i as int] == (c@.created_at, context_row(c@)));
            rows.push((c.created_at.clone(), show_context_row(c)));
            i = i + 1;
        }
        assert(row_views(rows@) =~= v);
        list_rows(rows)
    }

    /// Lets a context go; says whether there was one.
    pub fn delete(&mut self, id: &str) -> (b: bool)
        ensures
            b == shelf::holds(old(self)@.contexts, id@),
            final(self)@.contexts == shelf::without(old(self)@.contexts, id@),
            final(self)@.runs == old(self)@.runs,
            old(self)@.ordered() ==> final(self)@.ordered(),
            old(self)@.sound() ==> final(self)@.sound(),
    {
        let ghost f = |c: Arc<ContextRecord>| shared_view(c);
        let ghost was = self.contexts@;
        let ghost before = self@;
        let b = self.contexts.take_out(id);
        proof {
            let some = arbitrary::<Arc<ContextRecord>>();
            shelf::law_records_are_seen_through(was, f, id@, some);
            shelf::law_records_are_seen_through(self.contexts@, f, id@, some);
            if shelf::ordered(was) {
                shelf::law_the_order_is_kept(was, id@, some);
            }
            if before.sound() {
                lemma_without_sound(before, id@);
            }
        }
        b
    }

    /// Lets every context go and keeps the runs; says how many contexts there
    /// were.
    pub fn drop_contexts(&mut self) -> (n: usize)
        ensures
            n == old(self)@.contexts.len(),
            final(self)@ == (StoreView { contexts: seq![], runs: old(self)@.runs }),
            old(self)@.ordered() ==> final(self)@.ordered(),
            final(self)@.sound(),
    {
        let n: usize = self.contexts.items.len();
        assert(self@.contexts.len() == n);
        self.contexts = Shelf::new();
        assert(self@.contexts =~= seq![]);
        n
    }

    /// Lets every context and run go; says how many contexts there were.
    pub fn purge(&mut self) -> (n: usize)
        ensures
            n == old(self)@.contexts.len(),
            final(self)@ == (StoreView { contexts: seq![], runs: seq![] }),
            final(self)@.ordered(),
    {
        let n: usize = self.contexts.items.len();
        assert(self@.contexts.len() == n);
        self.contexts = Shelf::new();
        self.runs = Shelf::new();
        assert(self@.contexts =~= seq![]);
        assert(self@.runs =~= seq![]);
        n
    }

    /// Keeps a run.
    pub fn save_run(&mut self, rec: &RunRecord)
        ensures
            final(self)@ == old(self)@.with_run(rec@),
            old(self)@.ordered() ==> final(self)@.ordered(),
    {
        let ghost f = |r: RunRecord| r@;
        let ghost was = self.runs@;
        let kept = rec.clone();
        proof {
            shelf::law_records_are_seen_through(was, f, rec.id@, kept);
            if shelf::ordered(was) {
                shelf::law_the_order_is_kept(was, rec.id@, kept);
            }
        }
        self.runs.put(rec.id.as_str(), kept);
        proof {
            shelf::law_records_are_seen_through(self.runs@, f, rec.id@, kept);
        }
    }

    /// The run with the id.
    pub fn run(&self, id: &str) -> (r: Option<RunRecord>)
        ensures
            opt_run(r) == shelf::got(self@.runs, id@),
    {
        let ghost f = |r: RunRecord| r@;
        match self.runs.get(id) {
            Some(rec) => {
                proof {
                    shelf::law_records_are_seen_through(self.runs@, f, id@, *rec);
                }
                Some(rec.clone())
            },
            None => {
                proof {
                    let some = arbitrary::<RunRecord>();
                    shelf::law_records_are_seen_through(self.runs@, f, id@, some);
                }
                None
            },
        }
    }

    /// The headers of the runs of a context, or of all, newest first.
    pub fn list_runs(&self, context_id: Option<&str>) -> (r: Vec<Json>)
        ensures
            json::item_views(r@) == newest_first(
                run_rows(
                    self@.runs,
                    match context_id {
                        Some(c) => Some(c@),
                        None => None,
                    },
                    false,
                ),
            ),
    {
        self.rows_of_runs(context_id, false)
    }

    /// All runs with their answers, newest first, without their steps.
    pub fn list_answers(&self) -> (r: Vec<Json>)
        ensures
            json::item_views(r@) == newest_first(run_rows(self@.runs, None, true)),
    {
        self.rows_of_runs(None, true)
    }

    fn rows_of_runs(&self, context_id: Option<&str>, answered: bool) -> (r: Vec<Json>)
        ensures
            json::item_views(r@) == newest_first(
                run_rows(
                    self@.runs,
                    match context_id {
                        Some(c) => Some(c@),
                        None => None,
                    },
                    answered,
                ),
            ),
    {
        let ghost wanted = match context_id {
            Some(c) => Some(c@),
            None => None,
        };
        let ghost v = self@.runs;
        let mut rows: Vec<(String, Json)> = Vec::new();
        let mut i: usize = 0;
        assert(v.take(0) =~= seq![]);
        assert(row_views(rows@) =~= seq![]);
        while i < self.runs.items.len()
            invariant
                i <= self.runs.items@.len(),
                v == self@.runs,
                v.len() == self.runs.items@.len(),
                wanted == (match context_id {
                    Some(c) => Some(c@),
                    None => None,
                }),
                row_views(rows@) == run_rows(v.take(i as int), wanted, answered),
            decreases self.runs.items@.len() - i,
        {
            assert(v.take(i as int + 1).drop_last() =~= v.take(i as int));
            let rec = &self.runs.items[i].1;
            assert(v[i as int].1 == rec@);
            let keep = match context_id {
                Some(c) => text::same(rec.context_id.as_str(), c),
                None => true,
            };
            if keep {
                let ghost before = rows@;
                let row = show_run_row(rec, answered);
                rows.push((rec.started_at.clone(), row));
                assert(row_views(rows@) =~= row_views(before).push(
                    (rec@.started_at, run_row(rec@, answered)),
                ));
            }
            i = i + 1;
        }
        assert(v.take(i as int) =~= v);
        list_rows(rows)
    }
}

/// A context that is held is one of those that are held.
pub proof fn lemma_got_sound(s: StoreView, id: Seq<char>)
    requires
        s.sound(),
        shelf::got(s.contexts, id) is Some,
    ensures
        shelf::got(s.contexts, id)->0.numbered(),
{
    order::lemma_place(s.contexts, id, false);
    let p = order::place(s.contexts, id, false);
    assert(s.contexts[p].1.numbered());
}

proof fn lemma_with_sound(s: StoreView, c: context::ContextView)
    requires
        s.sound(),
        c.numbered(),
    ensures
        s.with_context(c).sound(),
{
    order::lemma_place(s.contexts, c.id, false);
    let p = order::place(s.contexts, c.id, false);
    let w = s.with_context(c).contexts;
    assert forall|i: int| 0 <= i < w.len() implies (#[trigger] w[i]).1.numbered() by {
        if i != p {
            let k = if shelf::holds(s.contexts, c.id) || i < p {
                i
            } else {
                i - 1
            };
            assert(w[i] == s.contexts[k]);
        }
    }
}

proof fn lemma_without_sound(s: StoreView, id: Seq<char>)
    requires
        s.sound(),
    ensures
        (StoreView { contexts: shelf::without(s.contexts, id), runs: s.runs }).sound(),
{
    order::lemma_place(s.contexts, id, false);
    let p = order::place(s.contexts, id, false);
    let w = shelf::without(s.contexts, id);
    assert forall|i: int| 0 <= i < w.len() implies (#[trigger] w[i]).1.numbered() by {
        let k = if shelf::holds(s.contexts, id) && i >= p {
            i + 1
        } else {
            i
        };
        assert(w[i] == s.contexts[k]);
    }
}

// ----------------------------------------------------------------------- laws
/// A context that was put in is got back as it was, every other stays as it
/// was, and runs are not touched.
pub proof fn law_a_context_is_got_back(s: StoreView, c: context::ContextView, other: Seq<char>)
    requires
        s.ordered(),
    ensures
        shelf::got(s.with_context(c).contexts, c.id) == Some(c),
        other != c.id ==> shelf::got(s.with_context(c).contexts, other) == shelf::got(
            s.contexts,
            other,
        ),
        s.with_context(c).runs == s.runs,
        s.with_context(c).ordered(),
{
    shelf::law_a_put_is_got_back(s.contexts, c.id, c, other);
    shelf::law_the_order_is_kept(s.contexts, c.id, c);
}

/// A run that was kept is got back as it was, and every other stays as it was.
pub proof fn law_a_run_is_got_back(s: StoreView, r: trace::RunView, other: Seq<char>)
    requires
        s.ordered(),
    ensures
        shelf::got(s.with_run(r).runs, r.id) == Some(r),
        other != r.id ==> shelf::got(s.with_run(r).runs, other) == shelf::got(s.runs, other),
        s.with_run(r).contexts == s.contexts,
        s.with_run(r).ordered(),
{
    shelf::law_a_put_is_got_back(s.runs, r.id, r, other);
    shelf::law_the_order_is_kept(s.runs, r.id, r);
}

/// A context that was let go is gone, and every other stays as it was.
pub proof fn law_a_deleted_context_is_gone(s: StoreView, id: Seq<char>, other: Seq<char>)
    requires
        s.ordered(),
    ensures
        shelf::got(shelf::without(s.contexts, id), id) is None,
        other != id ==> shelf::got(shelf::without(s.contexts, id), other) == shelf::got(
            s.contexts,
            other,
        ),
{
    shelf::law_what_is_taken_out_is_gone(s.contexts, id, other);
}

/// A list is of all there is, newest first.
pub proof fn law_a_list_is_newest_first(rows: Seq<(Seq<char>, json::JsonView)>)
    ensures
        newest_first(rows).len() == rows.len(),
        forall|i: int, j: int|
            0 <= i < j < rows.len() ==> !order::less(
                (#[trigger] order::sorted(rows, true)[i]).0,
                (#[trigger] order::sorted(rows, true)[j]).0,
            ),
        forall|i: int|
            0 <= i < rows.len() ==> rows.contains(#[trigger] order::sorted(rows, true)[i]),
{
    order::law_sorting_orders(rows, true);
    assert forall|i: int, j: int| 0 <= i < j < rows.len() implies !order::less(
        (#[trigger] order::sorted(rows, true)[i]).0,
        (#[trigger] order::sorted(rows, true)[j]).0,
    ) by {
        assert(!order::ahead(
            order::sorted(rows, true)[j].0,
            order::sorted(rows, true)[i].0,
            true,
        ));
    }
    assert forall|i: int| 0 <= i < rows.len() implies rows.contains(
        #[trigger] order::sorted(rows, true)[i],
    ) by {
        order::law_sorted_items_went_in(rows, true, i);
    }
}

/// A context in a list is told by its id, its name, where it comes from, when it
/// was made, its sources, its size, and how many chunks it has.
pub proof fn law_a_context_row_tells_the_context(c: context::ContextView)
    ensures
        context_row(c).field("id"@) == Some(json::JsonView::Str(c.id)),
        context_row(c).field("name"@) == Some(json::JsonView::Str(c.name)),
        context_row(c).field("parent"@) == Some(match c.parent {
                Some(p) => json::JsonView::Str(p),
                None => json::JsonView::Null,
            }),
        context_row(c).field("created_at"@) == Some(json::JsonView::Str(c.created_at)),
        context_row(c).field("sources"@) == Some(json::strings_view(c.sources)),
        context_row(c).field("total_chars"@) == Some(json::JsonView::UInt(c.total_chars as u64)),
        context_row(c).field("chunks"@) == Some(json::JsonView::UInt(c.chunks.len() as u64)),
{
    reveal_strlit("id");
    reveal_strlit("name");
    reveal_strlit("parent");
    reveal_strlit("created_at");
    reveal_strlit("sources");
    reveal_strlit("total_chars");
    reveal_strlit("chunks");
    let fields = context_row(c)->Object_0;
    assert("parent"@[0] == 'p');
    assert("chunks"@[0] == 'c');
    json::law_the_first_field_of_a_name_counts(fields, "id"@, 0);
    assert("id"@.len() != "name"@.len());
    json::law_the_first_field_of_a_name_counts(fields, "name"@, 1);
    assert("id"@.len() != "parent"@.len());
    assert("name"@.len() != "parent"@.len());
    json::law_the_first_field_of_a_name_counts(fields, "parent"@, 2);
    assert("id"@.len() != "created_at"@.len());
    assert("name"@.len() != "created_at"@.len());
    assert("parent"@.len() != "created_at"@.len());
    json::law_the_first_field_of_a_name_counts(fields, "created_at"@, 3);
    assert("id"@.len() != "sources"@.len());
    assert("name"@.len() != "sources"@.len());
    assert("parent"@.len() != "sources"@.len());
    assert("created_at"@.len() != "sources"@.len());
    json::law_the_first_field_of_a_name_counts(fields, "sources"@, 4);
    assert("id"@.len() != "total_chars"@.len());
    assert("name"@.len() != "total_chars"@.len());
    assert("parent"@.len() != "total_chars"@.len());
    assert("created_at"@.len() != "total_chars"@.len());
    assert("sources"@.len() != "total_chars"@.len());
    json::law_the_first_field_of_a_name_counts(fields, "total_chars"@, 5);
    assert("id"@.len() != "chunks"@.len());
    assert("name"@.len() != "chunks"@.len());
    assert("created_at"@.len() != "chunks"@.len());
    assert("sources"@.len() != "chunks"@.len());
    assert("total_chars"@.len() != "chunks"@.len());
    json::law_the_first_field_of_a_name_counts(fields, "chunks"@, 6);
}

/// A run in a list is told by its id, its context, its question, how it ended, when
/// it was begun, what it cost and how many steps it took; and by its answer, where
/// that is asked for.
pub proof fn law_a_run_row_tells_the_run(r: trace::RunView)
    ensures
        run_row(r, true).field("id"@) == Some(json::JsonView::Str(r.id)),
        run_row(r, true).field("context_id"@) == Some(json::JsonView::Str(r.context_id)),
        run_row(r, true).field("query"@) == Some(json::JsonView::Str(r.query)),
        run_row(r, true).field("status"@) == Some(json::JsonView::Str(r.status)),
        run_row(r, true).field("started_at"@) == Some(json::JsonView::Str(r.started_at)),
        run_row(r, true).field("elapsed_ms"@) == Some(json::JsonView::UInt(r.elapsed_ms)),
        run_row(r, true).field("model_calls"@) == Some(json::JsonView::UInt(r.model_calls as u64)),
        run_row(r, true).field("steps"@) == Some(json::JsonView::UInt(r.trace.len() as u64)),
        run_row(r, true).field("answer"@) == Some(json::JsonView::Str(r.answer)),
{
    reveal_strlit("id");
    reveal_strlit("context_id");
    reveal_strlit("query");
    reveal_strlit("status");
    reveal_strlit("started_at");
    reveal_strlit("elapsed_ms");
    reveal_strlit("model_calls");
    reveal_strlit("steps");
    reveal_strlit("answer");
    let fields = run_row(r, true)->Object_0;
    assert("context_id"@[0] == 'c');
    assert("started_at"@[0] == 's');
    assert("elapsed_ms"@[0] == 'e');
    assert("query"@[0] == 'q');
    assert("steps"@[0] == 's');
    assert("status"@[0] == 's');
    assert("answer"@[0] == 'a');
    json::law_the_first_field_of_a_name_counts(fields, "id"@, 0);
    assert("id"@.len() != "context_id"@.len());
    json::law_the_first_field_of_a_name_counts(fields, "context_id"@, 1);
    assert("id"@.len() != "query"@.len());
    assert("context_id"@.len() != "query"@.len());
    json::law_the_first_field_of_a_name_counts(fields, "query"@, 2);
    assert("id"@.len() != "status"@.len());
    assert("context_id"@.len() != "status"@.len());
    assert("query"@.len() != "status"@.len());
    json::law_the_first_field_of_a_name_counts(fields, "status"@, 3);
    assert("id"@.len() != "started_at"@.len());
    assert("query"@.len() != "started_at"@.len());
    assert("status"@.len() != "started_at"@.len());
    json::law_the_first_field_of_a_name_counts(fields, "started_at"@, 4);
    assert("id"@.len() != "elapsed_ms"@.len());
    assert("query"@.len() != "elapsed_ms"@.len());
    assert("status"@.len() != "elapsed_ms"@.len());
    json::law_the_first_field_of_a_name_counts(fields, "elapsed_ms"@, 5);
    assert("id"@.len() != "model_calls"@.len());
    assert("context_id"@.len() != "model_calls"@.len());
    assert("query"@.len() != "model_calls"@.len());
    assert("status"@.len() != "model_calls"@.len());
    assert("started_at"@.len() != "model_calls"@.len());
    assert("elapsed_ms"@.len() != "model_calls"@.len());
    json::law_the_first_field_of_a_name_counts(fields, "model_calls"@, 6);
    assert("id"@.len() != "steps"@.len());
    assert("context_id"@.len() != "steps"@.len());
    assert("status"@.len() != "steps"@.len());
    assert("started_at"@.len() != "steps"@.len());
    assert("elapsed_ms"@.len() != "steps"@.len());
    assert("model_calls"@.len() != "steps"@.len());
    json::law_the_first_field_of_a_name_counts(fields, "steps"@, 7);
    assert("id"@.len() != "answer"@.len());
    assert("context_id"@.len() != "answer"@.len());
    assert("query"@.len() != "answer"@.len());
    assert("started_at"@.len() != "answer"@.len());
    assert("elapsed_ms"@.len() != "answer"@.len());
    assert("model_calls"@.len() != "answer"@.len());
    assert("steps"@.len() != "answer"@.len());
    json::law_the_first_field_of_a_name_counts(fields, "answer"@, 8);
}

/// The rows of runs are those of the runs of the context that is asked for, or of
/// all, every one, in order.
pub proof fn law_every_run_of_a_context_is_listed(
    s: Seq<(Seq<char>, trace::RunView)>,
    context_id: Option<Seq<char>>,
    answered: bool,
)
    ensures
        run_rows(s, context_id, answered) == s.filter(
            |p: (Seq<char>, trace::RunView)|
                context_id is None || p.1.context_id == context_id->0,
        ).map_values(
            |p: (Seq<char>, trace::RunView)| (p.1.started_at, run_row(p.1, answered)),
        ),
    decreases s.len(),
{
    reveal(Seq::filter);
    let f = |p: (Seq<char>, trace::RunView)|
        context_id is None || p.1.context_id == context_id->0;
    let g = |p: (Seq<char>, trace::RunView)| (p.1.started_at, run_row(p.1, answered));
    let all = run_rows(s, context_id, answered);
    if s.len() == 0 {
        assert(all =~= s.filter(f).map_values(g));
    } else {
        let front = s.drop_last();
        law_every_run_of_a_context_is_listed(front, context_id, answered);
        if f(s.last()) {
            assert(s.filter(f) == front.filter(f).push(s.last()));
            assert(all =~= s.filter(f).map_values(g));
        } else {
            assert(s.filter(f) == front.filter(f));
        }
    }
}

/// Every context that is held is listed, and every row is of one that is.
pub proof fn law_every_context_is_listed(
    s: Seq<(Seq<char>, context::ContextView)>,
    i: int,
)
    requires
        0 <= i < s.len(),
    ensures
        context_rows(s).len() == s.len(),
        newest_first(context_rows(s)).len() == s.len(),
        newest_first(context_rows(s)).contains(context_row(s[i].1)),
{
    let rows = context_rows(s);
    law_a_list_is_newest_first(rows);
    law_no_row_is_lost(rows, i);
}

/// No row is lost in a list.
pub proof fn law_no_row_is_lost(rows: Seq<(Seq<char>, json::JsonView)>, i: int)
    requires
        0 <= i < rows.len(),
    ensures
        newest_first(rows).contains(rows[i].1),
{
    broadcast use vstd::seq_lib::group_to_multiset_ensures;

    order::law_sorting_keeps_the_items(rows, true);
    let s = order::sorted(rows, true);
    assert(rows.contains(rows[i]));
    assert(rows.to_multiset().count(rows[i]) > 0);
    assert(s.contains(rows[i]));
    let k = choose|k: int| 0 <= k < s.len() && s[k] == rows[i];
    assert(newest_first(rows)[k] == rows[i].1);
}

/// A list shows every row that it was given, as often as it was given, and none
/// before one that is newer.
pub proof fn law_a_list_shows_every_row_newest_first(
    rows: Seq<(Seq<char>, json::JsonView)>,
) -> (times: Seq<Seq<char>>)
    ensures
        times.len() == rows.len(),
        newest_first(rows).len() == rows.len(),
        Seq::new(rows.len(), |i: int| (times[i], newest_first(rows)[i])).to_multiset()
            == rows.to_multiset(),
        forall|i: int, j: int|
            0 <= i < j < rows.len() ==> !order::less(#[trigger] times[i], #[trigger] times[j]),
{
    law_a_list_is_newest_first(rows);
    order::law_sorting_keeps_the_items(rows, true);
    let s = order::sorted(rows, true);
    let times = Seq::new(s.len(), |i: int| s[i].0);
    assert(Seq::new(rows.len(), |i: int| (times[i], newest_first(rows)[i])) =~= s);
    assert forall|i: int, j: int| 0 <= i < j < rows.len() implies !order::less(
        #[trigger] times[i],
        #[trigger] times[j],
    ) by {
        assert(!order::less(s[i].0, s[j].0));
    }
    times
}

} // verus!
