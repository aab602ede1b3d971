//! What the HTTP routes answer, as values: the status and the body of every
//! reply, and what a request comes to before anything outside is done.
//!
//! The routes that look at a corpus need no model and cost nothing. The one
//! that answers a question needs one, and says so where there is none.
use vstd::prelude::*;
use vstd::string::*;

use crate::budget;
use crate::budget::Budget;
use crate::chunk;
use crate::chunk::{Chunk, Document};
use crate::context;
use crate::context::ContextRecord;
use crate::json;
use crate::json::Json;
use crate::observe;
use crate::ops;
use crate::ops::Observation;
use crate::roots;
use crate::roots::Roots;
use crate::shelf;
use crate::store;
use crate::store::Store;
use crate::text;
use crate::trace;
use crate::trace::{Citation, RunRecord, TraceStep};

verus! {

/// A reply.
pub struct Reply {
    pub status: u16,
    pub body: Json,
}

/// What a reply holds.
#[verifier::ext_equal]
pub struct ReplyView {
    pub status: u16,
    pub body: json::JsonView,
}

impl View for Reply {
    type V = ReplyView;

    open spec fn view(&self) -> ReplyView {
        ReplyView { status: self.status, body: self.body@ }
    }
}

/// An object with one field.
pub open spec fn one_field(key: Seq<char>, value: json::JsonView) -> json::JsonView {
    json::JsonView::Object(seq![(key, value)])
}

/// An object with one field.
pub fn object_of(key: &str, value: Json) -> (r: Json)
    ensures
        r@ == one_field(key@, value@),
{
    let mut f: Vec<(String, Json)> = Vec::new();
    let ghost v = value@;
    json::put(&mut f, key, value);
    assert(json::field_views(f@) =~= seq![(key@, v)]);
    Json::Object(f)
}

/// A reply that tells an error.
pub open spec fn told_error(status: u16, message: Seq<char>) -> ReplyView {
    ReplyView { status, body: one_field("error"@, json::JsonView::Str(message)) }
}

/// A reply that all is well.
pub open spec fn told_ok(body: json::JsonView) -> ReplyView {
    ReplyView { status: 200, body }
}

/// A reply that tells an error.
pub fn error_reply(status: u16, message: &str) -> (r: Reply)
    ensures
        r@ == told_error(status, message@),
{
    Reply { status, body: object_of("error", Json::str(message)) }
}

fn ok_reply(body: Json) -> (r: Reply)
    ensures
        r@ == told_ok(body@),
{
    Reply { status: 200, body }
}

/// What the service answers when it is asked whether it lives.
pub fn health() -> (r: Json)
    ensures
        r@ == json::JsonView::Object(
            seq![
                ("ok"@, json::JsonView::Bool(true)),
                ("service"@, json::JsonView::Str("ryu-rlm"@)),
            ],
        ),
{
    let mut f: Vec<(String, Json)> = Vec::new();
    json::put(&mut f, "ok", Json::Bool(true));
    json::put(&mut f, "service", Json::str("ryu-rlm"));
    assert(json::field_views(f@) =~= seq![
        ("ok"@, json::JsonView::Bool(true)),
        ("service"@, json::JsonView::Str("ryu-rlm"@)),
    ]);
    Json::Object(f)
}

/// What a request without the right token is answered.
pub fn unauthorized() -> (r: Reply)
    ensures
        r@ == told_error(401, "unauthorized"@),
{
    error_reply(401, "unauthorized")
}

/// The names of the operators.
pub open spec fn operator_names() -> Seq<Seq<char>> {
    seq!["outline"@, "peek"@, "grep"@, "map"@, "recurse"@, "note"@, "final"@]
}

/// The limits that the service tells of itself.
pub open spec fn limits() -> json::JsonView {
    json::JsonView::Object(
        seq![
            (
                "max_context_chars"@,
                json::JsonView::UInt(context::MAX_CONTEXT_CHARS as u64),
            ),
            ("max_files_per_load"@, json::JsonView::UInt(roots::MAX_FILES as u64)),
            (
                "max_observation_chars"@,
                json::JsonView::UInt(observe::MAX_OBSERVATION_CHARS as u64),
            ),
            ("max_map_fanout"@, json::JsonView::UInt(ops::MAX_MAP_FANOUT as u64)),
        ],
    )
}

/// What the service can do, and what it cannot do at present.
pub open spec fn capability(has_host: bool, shown: Seq<Seq<char>>) -> json::JsonView {
    json::JsonView::Object(
        seq![
            ("service"@, json::JsonView::Str("ryu-rlm"@)),
            ("capability"@, json::JsonView::Str("rlm.query"@)),
            ("model_calls_available"@, json::JsonView::Bool(has_host)),
            ("context_roots"@, json::strings_view(shown)),
            ("operators"@, json::strings_view(operator_names())),
            ("limits"@, limits()),
        ],
    )
}

fn show_limits() -> (r: Json)
    ensures
        r@ == limits(),
{
    let mut f: Vec<(String, Json)> = Vec::new();
    json::put(&mut f, "max_context_chars", Json::uint(context::MAX_CONTEXT_CHARS));
    json::put(&mut f, "max_files_per_load", Json::uint(roots::MAX_FILES));
    json::put(&mut f, "max_observation_chars", Json::uint(observe::MAX_OBSERVATION_CHARS));
    json::put(&mut f, "max_map_fanout", Json::uint(ops::MAX_MAP_FANOUT));
    assert(json::field_views(f@) =~= limits()->Object_0);
    Json::Object(f)
}

fn show_operators() -> (r: Json)
    ensures
        r@ == json::strings_view(operator_names()),
{
    let mut v: Vec<String> = Vec::new();
    v.push("outline".to_owned());
    v.push("peek".to_owned());
    v.push("grep".to_owned());
    v.push("map".to_owned());
    v.push("recurse".to_owned());
    v.push("note".to_owned());
    v.push("final".to_owned());
    assert(text::views(v@) =~= operator_names());
    Json::strings(&v)
}

/// What the service tells of itself: what it can do, and whether a model is to
/// be had, so that a missing grant is seen before someone waits on a query.
pub fn capability_descriptor(has_host: bool, roots: &Roots) -> (r: Json)
    ensures
        r@ == capability(has_host, roots::displays(roots@)),
{
    let mut f: Vec<(String, Json)> = Vec::new();
    json::put(&mut f, "service", Json::str("ryu-rlm"));
    json::put(&mut f, "capability", Json::str("rlm.query"));
    json::put(&mut f, "model_calls_available", Json::Bool(has_host));
    json::put(&mut f, "context_roots", Json::strings(&roots.display()));
    json::put(&mut f, "operators", show_operators());
    json::put(&mut f, "limits", show_limits());
    assert(json::field_views(f@) =~= capability(
        has_host,
        roots::displays(roots@),
    )->Object_0);
    Json::Object(f)
}

// -------------------------------------------------------------------- queries
/// A question, with the bounds that the caller wants.
pub struct QueryBody {
    /// The context to answer from.
    pub context_id: String,
    /// The question.
    pub query: String,
    pub max_steps: Option<usize>,
    pub max_model_calls: Option<usize>,
    pub max_depth: Option<usize>,
    pub wall_secs: Option<u64>,
}

/// The bounds that a caller names over those of the node.
pub open spec fn overlaid(
    base: Budget,
    max_steps: Option<usize>,
    max_model_calls: Option<usize>,
    max_depth: Option<usize>,
    wall_secs: Option<u64>,
) -> Budget {
    Budget {
        max_steps: ops::or_else(max_steps, base.max_steps),
        max_model_calls: ops::or_else(max_model_calls, base.max_model_calls),
        max_depth: ops::or_else(max_depth, base.max_depth),
        wall_secs: ops::or_else(wall_secs, base.wall_secs),
    }
}

/// The budget of a caller who names some bounds: those over the node's own,
/// clamped.
pub fn budget_over(
    base: Budget,
    max_steps: Option<usize>,
    max_model_calls: Option<usize>,
    max_depth: Option<usize>,
    wall_secs: Option<u64>,
) -> (b: Budget)
    ensures
        b == budget::sanitized(
            overlaid(base, max_steps, max_model_calls, max_depth, wall_secs),
        ),
{
    let wanted = Budget {
        max_steps: match max_steps {
            Some(n) => n,
            None => base.max_steps,
        },
        max_model_calls: match max_model_calls {
            Some(n) => n,
            None => base.max_model_calls,
        },
        max_depth: match max_depth {
            Some(n) => n,
            None => base.max_depth,
        },
        wall_secs: match wall_secs {
            Some(n) => n,
            None => base.wall_secs,
        },
    };
    wanted.sanitize()
}

impl QueryBody {
    /// The budget of the query: the caller's bounds over the node's own,
    /// clamped.
    pub fn budget(&self, base: Budget) -> (b: Budget)
        ensures
            b == budget::sanitized(
                overlaid(
                    base,
                    self.max_steps,
                    self.max_model_calls,
                    self.max_depth,
                    self.wall_secs,
                ),
            ),
    {
        budget_over(
            base,
            self.max_steps,
            self.max_model_calls,
            self.max_depth,
            self.wall_secs,
        )
    }
}

/// A bound that a caller leaves out is the node's own, as far as the node's
/// own is within bounds; one that the caller names is honoured as far as it is.
pub proof fn law_a_bound_left_out_is_the_nodes_own(
    base: Budget,
    max_steps: Option<usize>,
    max_model_calls: Option<usize>,
    max_depth: Option<usize>,
    wall_secs: Option<u64>,
)
    requires
        budget::sanitized(base) == base,
    ensures
        ({
            let b = budget::sanitized(
                overlaid(base, max_steps, max_model_calls, max_depth, wall_secs),
            );
            &&& max_steps is None ==> b.max_steps == base.max_steps
            &&& max_model_calls is None ==> b.max_model_calls == base.max_model_calls
            &&& max_depth is None ==> b.max_depth == base.max_depth
            &&& wall_secs is None ==> b.wall_secs == base.wall_secs
            &&& max_steps is Some && 1 <= max_steps->0 <= 40 ==> b.max_steps == max_steps->0
        }),
{
}

/// What is told where no model can be asked.
pub open spec fn no_model() -> Seq<char> {
    "no model callback is available to this sidecar, so nothing can be read from the corpus. Check that @ryu/rlm is granted hook:side-model."@
}

/// Why a query is not run, or nothing where it is.
pub open spec fn query_refusal(found: bool, has_host: bool, query: Seq<char>) -> Option<ReplyView> {
    if !found {
        Some(told_error(404, "no such context"@))
    } else if !has_host {
        Some(told_error(503, no_model()))
    } else if text::is_blank(query) {
        Some(told_error(400, "query is empty"@))
    } else {
        None
    }
}

/// What is behind an optional reply.
pub open spec fn opt_reply(r: Option<Reply>) -> Option<ReplyView> {
    match r {
        Some(r) => Some(r@),
        None => None,
    }
}

/// Refuses a query that cannot be run.
pub fn refuse_query(found: bool, has_host: bool, query: &str) -> (r: Option<Reply>)
    ensures
        opt_reply(r) == query_refusal(found, has_host, query@),
{
    if !found {
        Some(error_reply(404, "no such context"))
    } else if !has_host {
        Some(
            error_reply(
                503,
                "no model callback is available to this sidecar, so nothing can be read from the corpus. Check that @ryu/rlm is granted hook:side-model.",
            ),
        )
    } else if text::blank(query) {
        Some(error_reply(400, "query is empty"))
    } else {
        None
    }
}

// ------------------------------------------------------------------- contexts
/// The name of a context, or what stands for one.
pub open spec fn name_or(name: Option<Seq<char>>, other: Seq<char>) -> Seq<char> {
    match name {
        Some(n) => n,
        None => other,
    }
}

/// The documents that a request carries.
pub open spec fn whole_docs(v: Seq<(String, String)>) -> Seq<chunk::DocumentView> {
    Seq::new(
        v.len(),
        |i: int| chunk::DocumentView { source: v[i].0@, text: v[i].1@, first_line: 1 },
    )
}

/// The documents that a request carries, by source and text.
pub fn documents(v: &Vec<(String, String)>) -> (r: Vec<Document>)
    ensures
        chunk::doc_views(r@) == whole_docs(v@),
        forall|i: int| 0 <= i < r@.len() ==> (#[trigger] r@[i])@.fits(),
{
    let mut out: Vec<Document> = Vec::new();
    let mut i: usize = 0;
    while i < v.len()
        invariant
            i <= v@.len(),
            out@.len() == i,
            forall|k: int|
                0 <= k < i ==> (#[trigger] out@[k])@ == whole_docs(v@)[k] && out@[k]@.fits(),
        decreases v@.len() - i,
    {
        out.push(Document::new(v[i].0.as_str(), v[i].1.as_str()));
        i = i + 1;
    }
    assert(chunk::doc_views(out@) =~= whole_docs(v@));
    out
}

/// What is told of a context that was made.
pub open spec fn made_fields(c: context::ContextView) -> Seq<(Seq<char>, json::JsonView)> {
    seq![
        ("id"@, json::JsonView::Str(c.id)),
        ("name"@, json::JsonView::Str(c.name)),
        ("chunks"@, json::JsonView::UInt(c.chunks.len() as u64)),
        ("total_chars"@, json::JsonView::UInt(c.total_chars as u64)),
        ("sources"@, json::strings_view(c.sources)),
    ]
}

fn show_made(c: &ContextRecord) -> (r: Vec<(String, Json)>)
    ensures
        json::field_views(r@) == made_fields(c@),
{
    let mut f: Vec<(String, Json)> = Vec::new();
    json::put(&mut f, "id", Json::str(c.id.as_str()));
    json::put(&mut f, "name", Json::str(c.name.as_str()));
    json::put(&mut f, "chunks", Json::uint(c.chunks.len()));
    json::put(&mut f, "total_chars", Json::uint(c.total_chars));
    json::put(&mut f, "sources", Json::strings(&c.sources));
    assert(c@.chunks.len() == c.chunks@.len());
    assert(json::field_views(f@) =~= made_fields(c@));
    f
}

/// The reply to a request that made a context.
pub fn made_reply(c: &ContextRecord) -> (r: Reply)
    ensures
        r@ == told_ok(json::JsonView::Object(made_fields(c@))),
{
    ok_reply(Json::Object(show_made(c)))
}

/// The reply to a request that made a context from paths.
pub fn loaded_reply(c: &ContextRecord, skipped: &Vec<String>) -> (r: Reply)
    ensures
        r@ == told_ok(
            json::JsonView::Object(
                made_fields(c@).push(("skipped"@, json::strings_view(text::views(skipped@)))),
            ),
        ),
{
    let mut f = show_made(c);
    json::put(&mut f, "skipped", Json::strings(skipped));
    ok_reply(Json::Object(f))
}

/// Makes the context that a request with documents asks for, or says why not.
pub fn create_context(
    name: Option<&str>,
    docs: Vec<Document>,
    parent: Option<String>,
    target_chars: Option<usize>,
) -> (r: Result<ContextRecord, Reply>)
    requires
        forall|i: int| 0 <= i < docs@.len() ==> (#[trigger] docs@[i])@.fits(),
    ensures
        ({
            let views = chunk::doc_views(docs@);
            let target = context::target_or_default(target_chars);
            match r {
                Ok(c) => {
                    &&& context::create_refusal(views, target) is None
                    &&& crate::stamp::is_uuid(c.id@)
                    &&& c@ == context::context_of(
                        c.id@,
                        name_or(observe::opt_str(name), "context"@),
                        context::opt_text(parent),
                        c.created_at@,
                        views,
                        target,
                    )
                    &&& c@.numbered()
                },
                Err(e) => context::create_refusal(views, target) is Some && e@ == told_error(
                    400,
                    context::create_refusal(views, target)->0,
                ),
            }
        }),
{
    let name = match name {
        Some(n) => n,
        None => "context",
    };
    match ContextRecord::created(name, docs, parent, target_chars) {
        Ok(c) => Ok(c),
        Err(e) => Err(error_reply(400, e.as_str())),
    }
}

/// What is told where nothing could be loaded: a silent empty corpus would be
/// sure of everything that it does not mention.
pub open spec fn nothing_loaded(skipped: Seq<Seq<char>>, none: Seq<char>) -> Seq<char> {
    "nothing readable was loaded. Refused or unreadable: "@ + (if skipped.len() == 0 {
        none
    } else {
        text::joined(skipped, "; "@)
    })
}

/// What is told where nothing could be loaded.
pub fn show_nothing_loaded(skipped: &Vec<String>, none: &str) -> (r: String)
    ensures
        r@ == nothing_loaded(text::views(skipped@), none@),
{
    let mut out = "nothing readable was loaded. Refused or unreadable: ".to_owned();
    if skipped.len() == 0 {
        out.append(none);
    } else {
        out.append(text::join(skipped, 0, skipped.len(), "; ").as_str());
        assert(text::views(skipped@).subrange(0, skipped@.len() as int) =~= text::views(skipped@));
    }
    out
}

/// Makes the context that a request with paths asks for, from what was read, or
/// says why not.
pub fn create_from_paths(
    name: Option<&str>,
    docs: Vec<Document>,
    skipped: &Vec<String>,
    target_chars: Option<usize>,
) -> (r: Result<ContextRecord, Reply>)
    requires
        forall|i: int| 0 <= i < docs@.len() ==> (#[trigger] docs@[i])@.fits(),
    ensures
        ({
            let views = chunk::doc_views(docs@);
            let target = context::target_or_default(target_chars);
            match r {
                Ok(c) => {
                    &&& context::create_refusal(views, target) is None
                    &&& crate::stamp::is_uuid(c.id@)
                    &&& c@ == context::context_of(
                        c.id@,
                        name_or(observe::opt_str(name), "files"@),
                        None,
                        c.created_at@,
                        views,
                        target,
                    )
                    &&& c@.numbered()
                },
                Err(e) => context::create_refusal(views, target) is Some && e@ == told_error(
                    400,
                    if views.len() == 0 {
                        nothing_loaded(text::views(skipped@), "(none reported)"@)
                    } else {
                        context::create_refusal(views, target)->0
                    },
                ),
            }
        }),
{
    assert(chunk::doc_views(docs@).len() == docs@.len());
    if docs.is_empty() {
        let told = show_nothing_loaded(skipped, "(none reported)");
        return Err(error_reply(400, told.as_str()));
    }
    let name = match name {
        Some(n) => n,
        None => "files",
    };
    match ContextRecord::created(name, docs, None, target_chars) {
        Ok(c) => Ok(c),
        Err(e) => Err(error_reply(400, e.as_str())),
    }
}

/// A chunk in the index of its context, without its text.
pub open spec fn chunk_row(c: chunk::ChunkView) -> json::JsonView {
    json::JsonView::Object(
        seq![
            ("id"@, json::JsonView::UInt(c.id as u64)),
            ("source"@, json::JsonView::Str(c.source)),
            ("start_line"@, json::JsonView::UInt(c.start_line as u64)),
            ("end_line"@, json::JsonView::UInt(c.end_line as u64)),
            ("chars"@, json::JsonView::UInt(c.text.len() as u64)),
            ("label"@, json::JsonView::Str(c.label)),
        ],
    )
}

/// A context's metadata and the index of its chunks.
pub open spec fn context_detail(c: context::ContextView) -> json::JsonView {
    json::JsonView::Object(
        seq![
            ("id"@, json::JsonView::Str(c.id)),
            ("name"@, json::JsonView::Str(c.name)),
            (
                "parent"@,
                match c.parent {
                    Some(p) => json::JsonView::Str(p),
                    None => json::JsonView::Null,
                },
            ),
            ("created_at"@, json::JsonView::Str(c.created_at)),
            ("sources"@, json::strings_view(c.sources)),
            ("total_chars"@, json::JsonView::UInt(c.total_chars as u64)),
            (
                "chunks"@,
                json::JsonView::Array(Seq::new(c.chunks.len(), |i: int| chunk_row(c.chunks[i]))),
            ),
        ],
    )
}

fn show_chunk_row(c: &Chunk) -> (r: Json)
    ensures
        r@ == chunk_row(c@),
{
    let mut f: Vec<(String, Json)> = Vec::new();
    json::put(&mut f, "id", Json::uint(c.id));
    json::put(&mut f, "source", Json::str(c.source.as_str()));
    json::put(&mut f, "start_line", Json::uint(c.start_line));
    json::put(&mut f, "end_line", Json::uint(c.end_line));
    json::put(&mut f, "chars", Json::uint(c.chars()));
    json::put(&mut f, "label", Json::str(c.label.as_str()));
    assert(json::field_views(f@) =~= chunk_row(c@)->Object_0);
    Json::Object(f)
}

fn show_context_detail(c: &ContextRecord) -> (r: Json)
    ensures
        r@ == context_detail(c@),
{
    let ghost wanted = Seq::new(c@.chunks.len(), |i: int| chunk_row(c@.chunks[i]));
    let mut index: Vec<Json> = Vec::new();
    let mut i: usize = 0;
    assert(json::item_views(index@) =~= wanted.take(0));
    while i < c.chunks.len()
        invariant
            i <= c.chunks@.len(),
            wanted == Seq::new(c@.chunks.len(), |i: int| chunk_row(c@.chunks[i])),
            json::item_views(index@) == wanted.take(i as int),
        decreases c.chunks@.len() - i,
    {
        json::add_item(&mut index, show_chunk_row(&c.chunks[i]));
        assert(json::item_views(index@) =~= wanted.take(i as int + 1));
        i = i + 1;
    }
    assert(wanted.take(i as int) =~= wanted);
    let mut f: Vec<(String, Json)> = Vec::new();
    json::put(&mut f, "id", Json::str(c.id.as_str()));
    json::put(&mut f, "name", Json::str(c.name.as_str()));
    json::put(&mut f, "parent", Json::opt_str(&c.parent));
    json::put(&mut f, "created_at", Json::str(c.created_at.as_str()));
    json::put(&mut f, "sources", Json::strings(&c.sources));
    json::put(&mut f, "total_chars", Json::uint(c.total_chars));
    json::put(&mut f, "chunks", Json::Array(index));
    assert(json::field_views(f@) =~= context_detail(c@)->Object_0);
    Json::Object(f)
}

/// What an observation is in a reply.
pub open spec fn observation_body(o: observe::ObservationView) -> json::JsonView {
    json::JsonView::Object(
        seq![
            ("text"@, json::JsonView::Str(o.text)),
            ("truncated"@, json::JsonView::Bool(o.truncated)),
        ],
    )
}

/// What an observation is in a reply.
pub fn show_observation(o: &Observation) -> (r: Json)
    ensures
        r@ == observation_body(o@),
{
    let mut f: Vec<(String, Json)> = Vec::new();
    json::put(&mut f, "text", Json::str(o.text.as_str()));
    json::put(&mut f, "truncated", Json::Bool(o.truncated));
    assert(json::field_views(f@) =~= observation_body(o@)->Object_0);
    Json::Object(f)
}

// --------------------------------------------------------------------- routes
/// Every context held, newest first.
pub fn list_contexts(store: &Store) -> (r: Reply)
    ensures
        r@ == told_ok(
            one_field(
                "contexts"@,
                json::JsonView::Array(store::newest_first(store::context_rows(store@.contexts))),
            ),
        ),
{
    ok_reply(object_of("contexts", Json::Array(store.list())))
}

/// A context's metadata and the index of its chunks.
pub fn get_context(store: &Store, id: &str) -> (r: Reply)
    ensures
        r@ == (match shelf::got(store@.contexts, id@) {
            Some(c) => told_ok(context_detail(c)),
            None => told_error(404, "no such context"@),
        }),
{
    match store.get(id) {
        Some(c) => ok_reply(show_context_detail(&c)),
        None => error_reply(404, "no such context"),
    }
}

/// Lets a context go.
pub fn delete_context(store: &mut Store, id: &str) -> (r: Reply)
    ensures
        r@ == told_ok(
            one_field(
                "deleted"@,
                json::JsonView::Bool(shelf::holds(old(store)@.contexts, id@)),
            ),
        ),
        final(store)@.contexts == shelf::without(old(store)@.contexts, id@),
        final(store)@.runs == old(store)@.runs,
        old(store)@.ordered() ==> final(store)@.ordered(),
        old(store)@.sound() ==> final(store)@.sound(),
{
    let gone = store.delete(id);
    ok_reply(object_of("deleted", Json::Bool(gone)))
}

/// The map of a context.
pub fn get_outline(store: &Store, id: &str) -> (r: Reply)
    ensures
        r@ == (match shelf::got(store@.contexts, id@) {
            Some(c) => told_ok(
                json::JsonView::Object(
                    seq![
                        ("outline"@, json::JsonView::Str(context::outline_of(c.chunks))),
                        ("stats"@, json::JsonView::Str(c.stats())),
                    ],
                ),
            ),
            None => told_error(404, "no such context"@),
        }),
{
    match store.get(id) {
        Some(c) => {
            let mut f: Vec<(String, Json)> = Vec::new();
            json::put(&mut f, "outline", Json::str(c.outline().as_str()));
            json::put(&mut f, "stats", Json::str(c.stats_line().as_str()));
            assert(json::field_views(f@) =~= seq![
                ("outline"@, json::JsonView::Str(context::outline_of(c@.chunks))),
                ("stats"@, json::JsonView::Str(c@.stats())),
            ]);
            ok_reply(Json::Object(f))
        },
        None => error_reply(404, "no such context"),
    }
}

/// A window of one chunk. No model is asked.
pub fn post_peek(
    store: &Store,
    id: &str,
    chunk: usize,
    start: usize,
    len: Option<usize>,
) -> (r: Reply)
    requires
        store@.sound(),
    ensures
        r@ == (match shelf::got(store@.contexts, id@) {
            Some(c) => told_ok(
                observation_body(
                    observe::observed(
                        observe::peek_text(c.chunks, chunk as nat, start as nat, len),
                    ),
                ),
            ),
            None => told_error(404, "no such context"@),
        }),
{
    match store.get(id) {
        Some(c) => {
            proof {
                store::lemma_got_sound(store@, id@);
                if chunk < c.chunks@.len() {
                    assert(context::is_numbered(c@.chunks[chunk as int]));
                }
            }
            ok_reply(show_observation(&ops::peek(&c, chunk, start, len)))
        },
        None => error_reply(404, "no such context"),
    }
}

/// A search of a context. No model is asked.
pub fn post_grep(
    store: &Store,
    id: &str,
    pattern: &str,
    max: Option<usize>,
    context_lines: Option<usize>,
) -> (r: Reply)
    requires
        store@.sound(),
    ensures
        r@ == (match shelf::got(store@.contexts, id@) {
            Some(c) => told_ok(
                observation_body(
                    observe::observed(
                        observe::grep_outcome(c.chunks, pattern@, max, context_lines),
                    ),
                ),
            ),
            None => told_error(404, "no such context"@),
        }),
{
    match store.get(id) {
        Some(c) => {
            proof {
                store::lemma_got_sound(store@, id@);
            }
            ok_reply(show_observation(&ops::grep(&c, pattern, max, context_lines)))
        },
        None => error_reply(404, "no such context"),
    }
}

/// Past queries and their answers, newest first.
pub fn list_runs(store: &Store) -> (r: Reply)
    ensures
        r@ == told_ok(
            one_field(
                "runs"@,
                json::JsonView::Array(store::newest_first(store::run_rows(store@.runs, None, true))),
            ),
        ),
{
    ok_reply(object_of("runs", Json::Array(store.list_answers())))
}

/// Lets every context held here go. Past runs are kept.
pub fn post_purge(store: &mut Store) -> (r: Reply)
    ensures
        r@ == told_ok(
            one_field(
                "deleted_contexts"@,
                json::JsonView::UInt(old(store)@.contexts.len() as u64),
            ),
        ),
        final(store)@ == (store::StoreView { contexts: seq![], runs: old(store)@.runs }),
        old(store)@.ordered() ==> final(store)@.ordered(),
        final(store)@.sound(),
{
    let n = store.drop_contexts();
    ok_reply(object_of("deleted_contexts", Json::uint(n)))
}

// ----------------------------------------------------------------------- runs
/// A citation as it is told.
pub open spec fn citation_body(c: trace::CitationView) -> json::JsonView {
    json::JsonView::Object(
        seq![
            ("chunk"@, json::JsonView::UInt(c.chunk as u64)),
            ("source"@, json::JsonView::Str(c.source)),
            ("start_line"@, json::JsonView::UInt(c.start_line as u64)),
            ("end_line"@, json::JsonView::UInt(c.end_line as u64)),
            ("label"@, json::JsonView::Str(c.label)),
        ],
    )
}

/// Citations as they are told.
pub open spec fn citation_bodies(cites: Seq<trace::CitationView>) -> json::JsonView {
    json::JsonView::Array(Seq::new(cites.len(), |i: int| citation_body(cites[i])))
}

fn show_citation(c: &Citation) -> (r: Json)
    ensures
        r@ == citation_body(c@),
{
    let mut f: Vec<(String, Json)> = Vec::new();
    json::put(&mut f, "chunk", Json::uint(c.chunk));
    json::put(&mut f, "source", Json::str(c.source.as_str()));
    json::put(&mut f, "start_line", Json::uint(c.start_line));
    json::put(&mut f, "end_line", Json::uint(c.end_line));
    json::put(&mut f, "label", Json::str(c.label.as_str()));
    assert(json::field_views(f@) =~= citation_body(c@)->Object_0);
    Json::Object(f)
}

/// Citations as they are told.
pub fn show_citations(cites: &Vec<Citation>) -> (r: Json)
    ensures
        r@ == citation_bodies(trace::citation_views(cites@)),
{
    let ghost v = trace::citation_views(cites@);
    let ghost wanted = Seq::new(v.len(), |i: int| citation_body(v[i]));
    let mut out: Vec<Json> = Vec::new();
    let mut i: usize = 0;
    assert(json::item_views(out@) =~= wanted.take(0));
    while i < cites.len()
        invariant
            i <= cites@.len(),
            v == trace::citation_views(cites@),
            wanted == Seq::new(v.len(), |i: int| citation_body(v[i])),
            json::item_views(out@) == wanted.take(i as int),
        decreases cites@.len() - i,
    {
        json::add_item(&mut out, show_citation(&cites[i]));
        assert(json::item_views(out@) =~= wanted.take(i as int + 1));
        i = i + 1;
    }
    assert(wanted.take(i as int) =~= wanted);
    Json::Array(out)
}

/// A step as it is told. What a step has not is left out.
pub open spec fn step_body(s: trace::StepView) -> json::JsonView {
    json::JsonView::Object(
        seq![
            ("index"@, json::JsonView::UInt(s.index as u64)),
            ("depth"@, json::JsonView::UInt(s.depth as u64)),
        ] + (match s.parent {
            Some(p) => seq![("parent"@, json::JsonView::UInt(p as u64))],
            None => seq![],
        }) + seq![
            ("op"@, json::JsonView::Str(s.op)),
            ("args"@, s.args),
            ("observation"@, json::JsonView::Str(s.observation)),
            ("truncated"@, json::JsonView::Bool(s.truncated)),
            ("model_calls"@, json::JsonView::UInt(s.model_calls as u64)),
            ("elapsed_ms"@, json::JsonView::UInt(s.elapsed_ms)),
        ] + (match s.error {
            Some(e) => seq![("error"@, json::JsonView::Str(e))],
            None => seq![],
        }),
    )
}

fn show_step(s: &TraceStep) -> (r: Json)
    ensures
        r@ == step_body(s@),
{
    let mut f: Vec<(String, Json)> = Vec::new();
    json::put(&mut f, "index", Json::uint(s.index));
    json::put(&mut f, "depth", Json::uint(s.depth));
    if let Some(p) = s.parent {
        json::put(&mut f, "parent", Json::uint(p));
    }
    json::put(&mut f, "op", Json::str(s.op.as_str()));
    json::put(&mut f, "args", s.args.copy());
    json::put(&mut f, "observation", Json::str(s.observation.as_str()));
    json::put(&mut f, "truncated", Json::Bool(s.truncated));
    json::put(&mut f, "model_calls", Json::uint(s.model_calls));
    json::put(&mut f, "elapsed_ms", Json::UInt(s.elapsed_ms));
    if let Some(e) = &s.error {
        json::put(&mut f, "error", Json::str(e.as_str()));
    }
    assert(json::field_views(f@) =~= step_body(s@)->Object_0);
    Json::Object(f)
}

/// Steps as they are told.
pub open spec fn step_bodies(steps: Seq<trace::StepView>) -> json::JsonView {
    json::JsonView::Array(Seq::new(steps.len(), |i: int| step_body(steps[i])))
}

fn show_steps(steps: &Vec<TraceStep>) -> (r: Json)
    ensures
        r@ == step_bodies(trace::step_views(steps@)),
{
    let ghost v = trace::step_views(steps@);
    let ghost wanted = Seq::new(v.len(), |i: int| step_body(v[i]));
    let mut out: Vec<Json> = Vec::new();
    let mut i: usize = 0;
    assert(json::item_views(out@) =~= wanted.take(0));
    while i < steps.len()
        invariant
            i <= steps@.len(),
            v == trace::step_views(steps@),
            wanted == Seq::new(v.len(), |i: int| step_body(v[i])),
            json::item_views(out@) == wanted.take(i as int),
        decreases steps@.len() - i,
    {
        json::add_item(&mut out, show_step(&steps[i]));
        assert(json::item_views(out@) =~= wanted.take(i as int + 1));
        i = i + 1;
    }
    assert(wanted.take(i as int) =~= wanted);
    Json::Array(out)
}

/// A budget as it is told.
pub open spec fn budget_body(b: Budget) -> json::JsonView {
    json::JsonView::Object(
        seq![
            ("max_steps"@, json::JsonView::UInt(b.max_steps as u64)),
            ("max_model_calls"@, json::JsonView::UInt(b.max_model_calls as u64)),
            ("max_depth"@, json::JsonView::UInt(b.max_depth as u64)),
            ("wall_secs"@, json::JsonView::UInt(b.wall_secs)),
        ],
    )
}

fn show_budget(b: &Budget) -> (r: Json)
    ensures
        r@ == budget_body(*b),
{
    let mut f: Vec<(String, Json)> = Vec::new();
    json::put(&mut f, "max_steps", Json::uint(b.max_steps));
    json::put(&mut f, "max_model_calls", Json::uint(b.max_model_calls));
    json::put(&mut f, "max_depth", Json::uint(b.max_depth));
    json::put(&mut f, "wall_secs", Json::UInt(b.wall_secs));
    assert(json::field_views(f@) =~= budget_body(*b)->Object_0);
    Json::Object(f)
}

/// A run as it is told, with its whole trace.
pub open spec fn run_body(r: trace::RunView) -> json::JsonView {
    json::JsonView::Object(
        seq![
            ("id"@, json::JsonView::Str(r.id)),
            ("context_id"@, json::JsonView::Str(r.context_id)),
            ("query"@, json::JsonView::Str(r.query)),
            ("status"@, json::JsonView::Str(r.status)),
            ("answer"@, json::JsonView::Str(r.answer)),
            ("cites"@, citation_bodies(r.cites)),
            ("trace"@, step_bodies(r.trace)),
            ("started_at"@, json::JsonView::Str(r.started_at)),
            ("elapsed_ms"@, json::JsonView::UInt(r.elapsed_ms)),
            ("model_calls"@, json::JsonView::UInt(r.model_calls as u64)),
            ("prompt_chars"@, json::JsonView::UInt(r.prompt_chars)),
            ("budget"@, budget_body(r.budget)),
        ],
    )
}

/// A run as it is told, with its whole trace.
pub fn show_run(rec: &RunRecord) -> (r: Json)
    ensures
        r@ == run_body(rec@),
{
    let mut f: Vec<(String, Json)> = Vec::new();
    json::put(&mut f, "id", Json::str(rec.id.as_str()));
    json::put(&mut f, "context_id", Json::str(rec.context_id.as_str()));
    json::put(&mut f, "query", Json::str(rec.query.as_str()));
    json::put(&mut f, "status", Json::str(rec.status.as_str()));
    json::put(&mut f, "answer", Json::str(rec.answer.as_str()));
    json::put(&mut f, "cites", show_citations(&rec.cites));
    json::put(&mut f, "trace", show_steps(&rec.trace));
    json::put(&mut f, "started_at", Json::str(rec.started_at.as_str()));
    json::put(&mut f, "elapsed_ms", Json::UInt(rec.elapsed_ms));
    json::put(&mut f, "model_calls", Json::uint(rec.model_calls));
    json::put(&mut f, "prompt_chars", Json::UInt(rec.prompt_chars));
    json::put(&mut f, "budget", show_budget(&rec.budget));
    assert(json::field_views(f@) =~= run_body(rec@)->Object_0);
    Json::Object(f)
}

/// The reply to a query that was run.
pub fn run_reply(rec: &RunRecord) -> (r: Reply)
    ensures
        r@ == told_ok(run_body(rec@)),
{
    ok_reply(show_run(rec))
}

/// One past query with its whole trace.
pub fn get_run(store: &Store, id: &str) -> (r: Reply)
    ensures
        r@ == (match shelf::got(store@.runs, id@) {
            Some(rec) => told_ok(run_body(rec)),
            None => told_error(404, "no such run"@),
        }),
{
    match store.run(id) {
        Some(rec) => run_reply(&rec),
        None => error_reply(404, "no such run"),
    }
}

/// A chunk in the index of its context is told by its id, its source, the lines it
/// runs over, its size and its label.
pub proof fn law_a_chunk_row_tells_the_chunk(c: chunk::ChunkView)
    ensures
        chunk_row(c).field("id"@) == Some(json::JsonView::UInt(c.id as u64)),
        chunk_row(c).field("source"@) == Some(json::JsonView::Str(c.source)),
        chunk_row(c).field("start_line"@) == Some(json::JsonView::UInt(c.start_line as u64)),
        chunk_row(c).field("end_line"@) == Some(json::JsonView::UInt(c.end_line as u64)),
        chunk_row(c).field("chars"@) == Some(json::JsonView::UInt(c.text.len() as u64)),
        chunk_row(c).field("label"@) == Some(json::JsonView::Str(c.label)),
{
    reveal_strlit("id");
    reveal_strlit("source");
    reveal_strlit("start_line");
    reveal_strlit("end_line");
    reveal_strlit("chars");
    reveal_strlit("label");
    let fields = chunk_row(c)->Object_0;
    assert("chars"@[0] == 'c');
    assert("label"@[0] == 'l');
    json::law_the_first_field_of_a_name_counts(fields, "id"@, 0);
    assert("id"@.len() != "source"@.len());
    json::law_the_first_field_of_a_name_counts(fields, "source"@, 1);
    assert("id"@.len() != "start_line"@.len());
    assert("source"@.len() != "start_line"@.len());
    json::law_the_first_field_of_a_name_counts(fields, "start_line"@, 2);
    assert("id"@.len() != "end_line"@.len());
    assert("source"@.len() != "end_line"@.len());
    assert("start_line"@.len() != "end_line"@.len());
    json::law_the_first_field_of_a_name_counts(fields, "end_line"@, 3);
    assert("id"@.len() != "chars"@.len());
    assert("source"@.len() != "chars"@.len());
    assert("start_line"@.len() != "chars"@.len());
    assert("end_line"@.len() != "chars"@.len());
    json::law_the_first_field_of_a_name_counts(fields, "chars"@, 4);
    assert("id"@.len() != "label"@.len());
    assert("source"@.len() != "label"@.len());
    assert("start_line"@.len() != "label"@.len());
    assert("end_line"@.len() != "label"@.len());
    json::law_the_first_field_of_a_name_counts(fields, "label"@, 5);
}

/// A context is told with all that it is, and a row for each of its chunks.
pub proof fn law_a_context_is_told_whole(c: context::ContextView)
    ensures
        context_detail(c).field("id"@) == Some(json::JsonView::Str(c.id)),
        context_detail(c).field("name"@) == Some(json::JsonView::Str(c.name)),
        context_detail(c).field("parent"@) == Some(match c.parent {
                Some(p) => json::JsonView::Str(p),
                None => json::JsonView::Null,
            }),
        context_detail(c).field("created_at"@) == Some(json::JsonView::Str(c.created_at)),
        context_detail(c).field("sources"@) == Some(json::strings_view(c.sources)),
        context_detail(c).field("total_chars"@) == Some(json::JsonView::UInt(c.total_chars as u64)),
        context_detail(c).field("chunks"@) == Some(json::JsonView::Array(c.chunks.map_values(|k: chunk::ChunkView| chunk_row(k)))),
{
    reveal_strlit("id");
    reveal_strlit("name");
    reveal_strlit("parent");
    reveal_strlit("created_at");
    reveal_strlit("sources");
    reveal_strlit("total_chars");
    reveal_strlit("chunks");
    let fields = context_detail(c)->Object_0;
    assert("parent"@[0] == 'p');
    assert("chunks"@[0] == 'c');
    json::law_the_first_field_of_a_name_counts(fields, "id"@, 0);
    assert("id"@.len() != "name"@.len());
    json::law_the_first_field_of_a_name_counts(fields, "name"@, 1);
    assert("id"@.len() != "parent"@.len());
    assert("name"@.len() != "parent"@.len());
    json::law_the_first_field_of_a_name_counts(fields, "parent"@, 2);
    assert("id"@.len() != "created_at"@.len());
    assert("name"@.len() != "created_at"@.len());
    assert("parent"@.len() != "created_at"@.len());
    json::law_the_first_field_of_a_name_counts(fields, "created_at"@, 3);
    assert("id"@.len() != "sources"@.len());
    assert("name"@.len() != "sources"@.len());
    assert("parent"@.len() != "sources"@.len());
    assert("created_at"@.len() != "sources"@.len());
    json::law_the_first_field_of_a_name_counts(fields, "sources"@, 4);
    assert("id"@.len() != "total_chars"@.len());
    assert("name"@.len() != "total_chars"@.len());
    assert("parent"@.len() != "total_chars"@.len());
    assert("created_at"@.len() != "total_chars"@.len());
    assert("sources"@.len() != "total_chars"@.len());
    json::law_the_first_field_of_a_name_counts(fields, "total_chars"@, 5);
    assert("id"@.len() != "chunks"@.len());
    assert("name"@.len() != "chunks"@.len());
    assert("created_at"@.len() != "chunks"@.len());
    assert("sources"@.len() != "chunks"@.len());
    assert("total_chars"@.len() != "chunks"@.len());
    json::law_the_first_field_of_a_name_counts(fields, "chunks"@, 6);
    assert(fields[6].1->Array_0 =~= c.chunks.map_values(|k: chunk::ChunkView| chunk_row(k)));
}

/// An observation is told by its text and by whether it was cut.
pub proof fn law_an_observation_is_told_whole(o: observe::ObservationView)
    ensures
        observation_body(o).field("text"@) == Some(json::JsonView::Str(o.text)),
        observation_body(o).field("truncated"@) == Some(json::JsonView::Bool(o.truncated)),
{
    reveal_strlit("text");
    reveal_strlit("truncated");
    let fields = observation_body(o)->Object_0;
    json::law_the_first_field_of_a_name_counts(fields, "text"@, 0);
    assert("text"@.len() != "truncated"@.len());
    json::law_the_first_field_of_a_name_counts(fields, "truncated"@, 1);
}

/// A citation is told by the chunk, its source, its lines and its label.
pub proof fn law_a_citation_is_told_whole(c: trace::CitationView)
    ensures
        citation_body(c).field("chunk"@) == Some(json::JsonView::UInt(c.chunk as u64)),
        citation_body(c).field("source"@) == Some(json::JsonView::Str(c.source)),
        citation_body(c).field("start_line"@) == Some(json::JsonView::UInt(c.start_line as u64)),
        citation_body(c).field("end_line"@) == Some(json::JsonView::UInt(c.end_line as u64)),
        citation_body(c).field("label"@) == Some(json::JsonView::Str(c.label)),
{
    reveal_strlit("chunk");
    reveal_strlit("source");
    reveal_strlit("start_line");
    reveal_strlit("end_line");
    reveal_strlit("label");
    let fields = citation_body(c)->Object_0;
    assert("chunk"@[0] == 'c');
    assert("label"@[0] == 'l');
    json::law_the_first_field_of_a_name_counts(fields, "chunk"@, 0);
    assert("chunk"@.len() != "source"@.len());
    json::law_the_first_field_of_a_name_counts(fields, "source"@, 1);
    assert("chunk"@.len() != "start_line"@.len());
    assert("source"@.len() != "start_line"@.len());
    json::law_the_first_field_of_a_name_counts(fields, "start_line"@, 2);
    assert("chunk"@.len() != "end_line"@.len());
    assert("source"@.len() != "end_line"@.len());
    assert("start_line"@.len() != "end_line"@.len());
    json::law_the_first_field_of_a_name_counts(fields, "end_line"@, 3);
    assert("source"@.len() != "label"@.len());
    assert("start_line"@.len() != "label"@.len());
    assert("end_line"@.len() != "label"@.len());
    json::law_the_first_field_of_a_name_counts(fields, "label"@, 4);
}

/// Every citation is told, in order, and so is every step.
pub proof fn law_every_citation_and_step_is_told(
    cites: Seq<trace::CitationView>,
    steps: Seq<trace::StepView>,
)
    ensures
        citation_bodies(cites) == json::JsonView::Array(
            cites.map_values(|c: trace::CitationView| citation_body(c)),
        ),
        step_bodies(steps) == json::JsonView::Array(
            steps.map_values(|s: trace::StepView| step_body(s)),
        ),
{
    assert(citation_bodies(cites)->Array_0 =~= cites.map_values(
        |c: trace::CitationView| citation_body(c),
    ));
    assert(step_bodies(steps)->Array_0 =~= steps.map_values(|s: trace::StepView| step_body(s)));
}

/// A query is run if and only if its context is there, a model is, and it asks
/// something; and what is missing first is told, with the status for it.
pub proof fn law_a_query_is_run_unless(found: bool, has_host: bool, query: Seq<char>)
    ensures
        query_refusal(found, has_host, query) is None <==> found && has_host && !text::is_blank(
            query,
        ),
        !found ==> query_refusal(found, has_host, query)->0.status == 404,
        found && !has_host ==> query_refusal(found, has_host, query)->0.status == 503,
        found && has_host && text::is_blank(query) ==> query_refusal(
            found,
            has_host,
            query,
        )->0.status == 400,
{
}

/// A bound that a caller names within what a node allows is the one that counts.
pub proof fn law_a_bound_that_is_named_counts(
    base: Budget,
    max_steps: usize,
    max_model_calls: usize,
    max_depth: usize,
    wall_secs: u64,
)
    ensures
        ({
            let b = budget::sanitized(
                overlaid(
                    base,
                    Some(max_steps),
                    Some(max_model_calls),
                    Some(max_depth),
                    Some(wall_secs),
                ),
            );
            &&& 1 <= max_steps <= 40 ==> b.max_steps == max_steps
            &&& 1 <= max_model_calls <= 2_000 ==> b.max_model_calls == max_model_calls
            &&& max_depth <= 3 ==> b.max_depth == max_depth
            &&& 10 <= wall_secs <= 3_600 ==> b.wall_secs == wall_secs
        }),
{
}

/// The limits that the service tells are those it keeps to.
pub proof fn law_the_limits_are_told()
    ensures
        limits().field("max_context_chars"@) == Some(json::JsonView::UInt(40_000_000)),
        limits().field("max_files_per_load"@) == Some(json::JsonView::UInt(5_000)),
        limits().field("max_observation_chars"@) == Some(json::JsonView::UInt(4_000)),
        limits().field("max_map_fanout"@) == Some(json::JsonView::UInt(64)),
{
    reveal_strlit("max_context_chars");
    reveal_strlit("max_files_per_load");
    reveal_strlit("max_observation_chars");
    reveal_strlit("max_map_fanout");
    let fields = limits()->Object_0;
    json::law_the_first_field_of_a_name_counts(fields, "max_context_chars"@, 0);
    assert("max_context_chars"@.len() != "max_files_per_load"@.len());
    json::law_the_first_field_of_a_name_counts(fields, "max_files_per_load"@, 1);
    assert("max_context_chars"@.len() != "max_observation_chars"@.len());
    assert("max_files_per_load"@.len() != "max_observation_chars"@.len());
    json::law_the_first_field_of_a_name_counts(fields, "max_observation_chars"@, 2);
    assert("max_context_chars"@.len() != "max_map_fanout"@.len());
    assert("max_files_per_load"@.len() != "max_map_fanout"@.len());
    assert("max_observation_chars"@.len() != "max_map_fanout"@.len());
    json::law_the_first_field_of_a_name_counts(fields, "max_map_fanout"@, 3);
}

/// What could not be loaded is told, all of it.
pub proof fn law_what_was_skipped_is_told(skipped: Seq<Seq<char>>, none: Seq<char>)
    ensures
        skipped.len() > 0 ==> nothing_loaded(skipped, none)
            == "nothing readable was loaded. Refused or unreadable: "@ + text::joined(
            skipped,
            "; "@,
        ),
        skipped.len() == 0 ==> nothing_loaded(skipped, none)
            == "nothing readable was loaded. Refused or unreadable: "@ + none,
{
}

/// The documents of a request are those it carries, each from its first line.
pub proof fn law_the_documents_of_a_request_are_whole(v: Seq<(String, String)>, i: int)
    requires
        0 <= i < v.len(),
    ensures
        whole_docs(v).len() == v.len(),
        whole_docs(v)[i].source == v[i].0@,
        whole_docs(v)[i].text == v[i].1@,
        whole_docs(v)[i].first_line == 1,
{
}

/// A run is told with all that it is: what was asked, how it ended, what it
/// answered and cites, every step, and what it cost and might have.
pub proof fn law_a_run_is_told_whole(r: trace::RunView)
    ensures
        run_body(r).field("id"@) == Some(json::JsonView::Str(r.id)),
        run_body(r).field("context_id"@) == Some(json::JsonView::Str(r.context_id)),
        run_body(r).field("query"@) == Some(json::JsonView::Str(r.query)),
        run_body(r).field("status"@) == Some(json::JsonView::Str(r.status)),
        run_body(r).field("answer"@) == Some(json::JsonView::Str(r.answer)),
        run_body(r).field("cites"@) == Some(citation_bodies(r.cites)),
        run_body(r).field("trace"@) == Some(step_bodies(r.trace)),
        run_body(r).field("started_at"@) == Some(json::JsonView::Str(r.started_at)),
        run_body(r).field("elapsed_ms"@) == Some(json::JsonView::UInt(r.elapsed_ms)),
        run_body(r).field("model_calls"@) == Some(json::JsonView::UInt(r.model_calls as u64)),
        run_body(r).field("prompt_chars"@) == Some(json::JsonView::UInt(r.prompt_chars)),
        run_body(r).field("budget"@) == Some(budget_body(r.budget)),
{
    reveal_strlit("id");
    reveal_strlit("context_id");
    reveal_strlit("query");
    reveal_strlit("status");
    reveal_strlit("answer");
    reveal_strlit("cites");
    reveal_strlit("trace");
    reveal_strlit("started_at");
    reveal_strlit("elapsed_ms");
    reveal_strlit("model_calls");
    reveal_strlit("prompt_chars");
    reveal_strlit("budget");
    let fields = run_body(r)->Object_0;
    assert("status"@[0] == 's');
    assert("answer"@[0] == 'a');
    assert("query"@[0] == 'q');
    assert("cites"@[0] == 'c');
    assert("trace"@[0] == 't');
    assert("context_id"@[0] == 'c');
    assert("started_at"@[0] == 's');
    assert("elapsed_ms"@[0] == 'e');
    assert("budget"@[0] == 'b');
    json::law_the_first_field_of_a_name_counts(fields, "id"@, 0);
    assert("id"@.len() != "context_id"@.len());
    json::law_the_first_field_of_a_name_counts(fields, "context_id"@, 1);
    assert("id"@.len() != "query"@.len());
    assert("context_id"@.len() != "query"@.len());
    json::law_the_first_field_of_a_name_counts(fields, "query"@, 2);
    assert("id"@.len() != "status"@.len());
    assert("context_id"@.len() != "status"@.len());
    assert("query"@.len() != "status"@.len());
    json::law_the_first_field_of_a_name_counts(fields, "status"@, 3);
    assert("id"@.len() != "answer"@.len());
    assert("context_id"@.len() != "answer"@.len());
    assert("query"@.len() != "answer"@.len());
    json::law_the_first_field_of_a_name_counts(fields, "answer"@, 4);
    assert("id"@.len() != "cites"@.len());
    assert("context_id"@.len() != "cites"@.len());
    assert("status"@.len() != "cites"@.len());
    assert("answer"@.len() != "cites"@.len());
    json::law_the_first_field_of_a_name_counts(fields, "cites"@, 5);
    assert("id"@.len() != "trace"@.len());
    assert("context_id"@.len() != "trace"@.len());
    assert("status"@.len() != "trace"@.len());
    assert("answer"@.len() != "trace"@.len());
    json::law_the_first_field_of_a_name_counts(fields, "trace"@, 6);
    assert("id"@.len() != "started_at"@.len());
    assert("query"@.len() != "started_at"@.len());
    assert("status"@.len() != "started_at"@.len());
    assert("answer"@.len() != "started_at"@.len());
    assert("cites"@.len() != "started_at"@.len());
    assert("trace"@.len() != "started_at"@.len());
    json::law_the_first_field_of_a_name_counts(fields, "started_at"@, 7);
    assert("id"@.len() != "elapsed_ms"@.len());
    assert("query"@.len() != "elapsed_ms"@.len());
    assert("status"@.len() != "elapsed_ms"@.len());
    assert("answer"@.len() != "elapsed_ms"@.len());
    assert("cites"@.len() != "elapsed_ms"@.len());
    assert("trace"@.len() != "elapsed_ms"@.len());
    json::law_the_first_field_of_a_name_counts(fields, "elapsed_ms"@, 8);
    assert("id"@.len() != "model_calls"@.len());
    assert("context_id"@.len() != "model_calls"@.len());
    assert("query"@.len() != "model_calls"@.len());
    assert("status"@.len() != "model_calls"@.len());
    assert("answer"@.len() != "model_calls"@.len());
    assert("cites"@.len() != "model_calls"@.len());
    assert("trace"@.len() != "model_calls"@.len());
    assert("started_at"@.len() != "model_calls"@.len());
    assert("elapsed_ms"@.len() != "model_calls"@.len());
    json::law_the_first_field_of_a_name_counts(fields, "model_calls"@, 9);
    assert("id"@.len() != "prompt_chars"@.len());
    assert("context_id"@.len() != "prompt_chars"@.len());
    assert("query"@.len() != "prompt_chars"@.len());
    assert("status"@.len() != "prompt_chars"@.len());
    assert("answer"@.len() != "prompt_chars"@.len());
    assert("cites"@.len() != "prompt_chars"@.len());
    assert("trace"@.len() != "prompt_chars"@.len());
    assert("started_at"@.len() != "prompt_chars"@.len());
    assert("elapsed_ms"@.len() != "prompt_chars"@.len());
    assert("model_calls"@.len() != "prompt_chars"@.len());
    json::law_the_first_field_of_a_name_counts(fields, "prompt_chars"@, 10);
    assert("id"@.len() != "budget"@.len());
    assert("context_id"@.len() != "budget"@.len());
    assert("query"@.len() != "budget"@.len());
    assert("cites"@.len() != "budget"@.len());
    assert("trace"@.len() != "budget"@.len());
    assert("started_at"@.len() != "budget"@.len());
    assert("elapsed_ms"@.len() != "budget"@.len());
    assert("model_calls"@.len() != "budget"@.len());
    assert("prompt_chars"@.len() != "budget"@.len());
    json::law_the_first_field_of_a_name_counts(fields, "budget"@, 11);
}

/// A budget is told by its four bounds.
pub proof fn law_a_budget_is_told_whole(b: Budget)
    ensures
        budget_body(b).field("max_steps"@) == Some(json::JsonView::UInt(b.max_steps as u64)),
        budget_body(b).field("max_model_calls"@) == Some(json::JsonView::UInt(b.max_model_calls as u64)),
        budget_body(b).field("max_depth"@) == Some(json::JsonView::UInt(b.max_depth as u64)),
        budget_body(b).field("wall_secs"@) == Some(json::JsonView::UInt(b.wall_secs)),
{
    reveal_strlit("max_steps");
    reveal_strlit("max_model_calls");
    reveal_strlit("max_depth");
    reveal_strlit("wall_secs");
    let fields = budget_body(b)->Object_0;
    assert("max_steps"@[4] == 's');
    assert("max_depth"@[4] == 'd');
    assert("max_steps"@[0] == 'm');
    assert("wall_secs"@[0] == 'w');
    assert("max_depth"@[0] == 'm');
    json::law_the_first_field_of_a_name_counts(fields, "max_steps"@, 0);
    assert("max_steps"@.len() != "max_model_calls"@.len());
    json::law_the_first_field_of_a_name_counts(fields, "max_model_calls"@, 1);
    assert("max_model_calls"@.len() != "max_depth"@.len());
    json::law_the_first_field_of_a_name_counts(fields, "max_depth"@, 2);
    assert("max_model_calls"@.len() != "wall_secs"@.len());
    json::law_the_first_field_of_a_name_counts(fields, "wall_secs"@, 3);
}

/// A context that was made is told by its id, its name, its size and its sources.
pub proof fn law_a_context_that_was_made_is_told(c: context::ContextView)
    ensures
        json::JsonView::Object(made_fields(c)).field("id"@) == Some(json::JsonView::Str(c.id)),
        json::JsonView::Object(made_fields(c)).field("name"@) == Some(json::JsonView::Str(c.name)),
        json::JsonView::Object(made_fields(c)).field("chunks"@) == Some(json::JsonView::UInt(c.chunks.len() as u64)),
        json::JsonView::Object(made_fields(c)).field("total_chars"@) == Some(json::JsonView::UInt(c.total_chars as u64)),
        json::JsonView::Object(made_fields(c)).field("sources"@) == Some(json::strings_view(c.sources)),
{
    reveal_strlit("id");
    reveal_strlit("name");
    reveal_strlit("chunks");
    reveal_strlit("total_chars");
    reveal_strlit("sources");
    let fields = made_fields(c);
    json::law_the_first_field_of_a_name_counts(fields, "id"@, 0);
    assert("id"@.len() != "name"@.len());
    json::law_the_first_field_of_a_name_counts(fields, "name"@, 1);
    assert("id"@.len() != "chunks"@.len());
    assert("name"@.len() != "chunks"@.len());
    json::law_the_first_field_of_a_name_counts(fields, "chunks"@, 2);
    assert("id"@.len() != "total_chars"@.len());
    assert("name"@.len() != "total_chars"@.len());
    assert("chunks"@.len() != "total_chars"@.len());
    json::law_the_first_field_of_a_name_counts(fields, "total_chars"@, 3);
    assert("id"@.len() != "sources"@.len());
    assert("name"@.len() != "sources"@.len());
    assert("chunks"@.len() != "sources"@.len());
    assert("total_chars"@.len() != "sources"@.len());
    json::law_the_first_field_of_a_name_counts(fields, "sources"@, 4);
}

/// What the service can do is told: its operators, its roots, its limits, and
/// whether a model is there.
pub proof fn law_what_the_service_can_do_is_told(has_host: bool, shown: Seq<Seq<char>>)
    ensures
        capability(has_host, shown).field("service"@) == Some(json::JsonView::Str("ryu-rlm"@)),
        capability(has_host, shown).field("capability"@) == Some(json::JsonView::Str("rlm.query"@)),
        capability(has_host, shown).field("model_calls_available"@) == Some(json::JsonView::Bool(has_host)),
        capability(has_host, shown).field("context_roots"@) == Some(json::strings_view(shown)),
        capability(has_host, shown).field("operators"@) == Some(json::strings_view(
            seq!["outline"@, "peek"@, "grep"@, "map"@, "recurse"@, "note"@, "final"@],
        )),
        capability(has_host, shown).field("limits"@) == Some(limits()),
{
    reveal_strlit("service");
    reveal_strlit("capability");
    reveal_strlit("model_calls_available");
    reveal_strlit("context_roots");
    reveal_strlit("operators");
    reveal_strlit("limits");
    let fields = capability(has_host, shown)->Object_0;
    json::law_the_first_field_of_a_name_counts(fields, "service"@, 0);
    assert("service"@.len() != "capability"@.len());
    json::law_the_first_field_of_a_name_counts(fields, "capability"@, 1);
    assert("service"@.len() != "model_calls_available"@.len());
    assert("capability"@.len() != "model_calls_available"@.len());
    json::law_the_first_field_of_a_name_counts(fields, "model_calls_available"@, 2);
    assert("service"@.len() != "context_roots"@.len());
    assert("capability"@.len() != "context_roots"@.len());
    assert("model_calls_available"@.len() != "context_roots"@.len());
    json::law_the_first_field_of_a_name_counts(fields, "context_roots"@, 3);
    assert("service"@.len() != "operators"@.len());
    assert("capability"@.len() != "operators"@.len());
    assert("model_calls_available"@.len() != "operators"@.len());
    assert("context_roots"@.len() != "operators"@.len());
    json::law_the_first_field_of_a_name_counts(fields, "operators"@, 4);
    assert("service"@.len() != "limits"@.len());
    assert("capability"@.len() != "limits"@.len());
    assert("model_calls_available"@.len() != "limits"@.len());
    assert("context_roots"@.len() != "limits"@.len());
    assert("operators"@.len() != "limits"@.len());
    json::law_the_first_field_of_a_name_counts(fields, "limits"@, 5);
}

/// A step is told whole: where it stands, what was done, what came of it and what
/// it cost; and its parent and its error, where it has them.
pub proof fn law_a_step_is_told_whole(s: trace::StepView)
    ensures
        step_body(s).field("index"@) == Some(json::JsonView::UInt(s.index as u64)),
        step_body(s).field("depth"@) == Some(json::JsonView::UInt(s.depth as u64)),
        step_body(s).field("op"@) == Some(json::JsonView::Str(s.op)),
        step_body(s).field("args"@) == Some(s.args),
        step_body(s).field("observation"@) == Some(json::JsonView::Str(s.observation)),
        step_body(s).field("truncated"@) == Some(json::JsonView::Bool(s.truncated)),
        step_body(s).field("model_calls"@) == Some(json::JsonView::UInt(s.model_calls as u64)),
        step_body(s).field("elapsed_ms"@) == Some(json::JsonView::UInt(s.elapsed_ms)),
        step_body(s).field("parent"@) == (match s.parent {
            Some(p) => Some(json::JsonView::UInt(p as u64)),
            None => None,
        }),
        step_body(s).field("error"@) == (match s.error {
            Some(e) => Some(json::JsonView::Str(e)),
            None => None,
        }),
{
    reveal_strlit("index");
    reveal_strlit("depth");
    reveal_strlit("parent");
    reveal_strlit("op");
    reveal_strlit("args");
    reveal_strlit("observation");
    reveal_strlit("truncated");
    reveal_strlit("model_calls");
    reveal_strlit("elapsed_ms");
    reveal_strlit("error");
    let fields = step_body(s)->Object_0;
    assert("index"@[0] == 'i');
    assert("depth"@[0] == 'd');
    assert("observation"@[0] == 'o');
    assert("model_calls"@[0] == 'm');
    assert("error"@[0] == 'e');
    assert("index"@.len() != "parent"@.len());
    assert("depth"@.len() != "parent"@.len());
    assert("index"@.len() != "op"@.len());
    assert("depth"@.len() != "op"@.len());
    assert("parent"@.len() != "op"@.len());
    assert("index"@.len() != "args"@.len());
    assert("depth"@.len() != "args"@.len());
    assert("parent"@.len() != "args"@.len());
    assert("op"@.len() != "args"@.len());
    assert("index"@.len() != "observation"@.len());
    assert("depth"@.len() != "observation"@.len());
    assert("parent"@.len() != "observation"@.len());
    assert("op"@.len() != "observation"@.len());
    assert("args"@.len() != "observation"@.len());
    assert("index"@.len() != "truncated"@.len());
    assert("depth"@.len() != "truncated"@.len());
    assert("parent"@.len() != "truncated"@.len());
    assert("op"@.len() != "truncated"@.len());
    assert("args"@.len() != "truncated"@.len());
    assert("observation"@.len() != "truncated"@.len());
    assert("index"@.len() != "model_calls"@.len());
    assert("depth"@.len() != "model_calls"@.len());
    assert("parent"@.len() != "model_calls"@.len());
    assert("op"@.len() != "model_calls"@.len());
    assert("args"@.len() != "model_calls"@.len());
    assert("truncated"@.len() != "model_calls"@.len());
    assert("index"@.len() != "elapsed_ms"@.len());
    assert("depth"@.len() != "elapsed_ms"@.len());
    assert("parent"@.len() != "elapsed_ms"@.len());
    assert("op"@.len() != "elapsed_ms"@.len());
    assert("args"@.len() != "elapsed_ms"@.len());
    assert("observation"@.len() != "elapsed_ms"@.len());
    assert("truncated"@.len() != "elapsed_ms"@.len());
    assert("model_calls"@.len() != "elapsed_ms"@.len());
    assert("parent"@.len() != "error"@.len());
    assert("op"@.len() != "error"@.len());
    assert("args"@.len() != "error"@.len());
    assert("observation"@.len() != "error"@.len());
    assert("truncated"@.len() != "error"@.len());
    assert("model_calls"@.len() != "error"@.len());
    assert("elapsed_ms"@.len() != "error"@.len());
    if s.parent is Some {
        if s.error is Some {
            assert(fields =~= seq![
                ("index"@, json::JsonView::UInt(s.index as u64)),
                ("depth"@, json::JsonView::UInt(s.depth as u64)),
                ("parent"@, json::JsonView::UInt(s.parent->0 as u64)),
                ("op"@, json::JsonView::Str(s.op)),
                ("args"@, s.args),
                ("observation"@, json::JsonView::Str(s.observation)),
                ("truncated"@, json::JsonView::Bool(s.truncated)),
                ("model_calls"@, json::JsonView::UInt(s.model_calls as u64)),
                ("elapsed_ms"@, json::JsonView::UInt(s.elapsed_ms)),
                ("error"@, json::JsonView::Str(s.error->0)),
            ]);
            json::law_the_first_field_of_a_name_counts(fields, "index"@, 0);
            json::law_the_first_field_of_a_name_counts(fields, "depth"@, 1);
            json::law_the_first_field_of_a_name_counts(fields, "parent"@, 2);
            json::law_the_first_field_of_a_name_counts(fields, "op"@, 3);
            json::law_the_first_field_of_a_name_counts(fields, "args"@, 4);
            json::law_the_first_field_of_a_name_counts(fields, "observation"@, 5);
            json::law_the_first_field_of_a_name_counts(fields, "truncated"@, 6);
            json::law_the_first_field_of_a_name_counts(fields, "model_calls"@, 7);
            json::law_the_first_field_of_a_name_counts(fields, "elapsed_ms"@, 8);
            json::law_the_first_field_of_a_name_counts(fields, "error"@, 9);
        } else {
            assert(fields =~= seq![
                ("index"@, json::JsonView::UInt(s.index as u64)),
                ("depth"@, json::JsonView::UInt(s.depth as u64)),
                ("parent"@, json::JsonView::UInt(s.parent->0 as u64)),
                ("op"@, json::JsonView::Str(s.op)),
                ("args"@, s.args),
                ("observation"@, json::JsonView::Str(s.observation)),
                ("truncated"@, json::JsonView::Bool(s.truncated)),
                ("model_calls"@, json::JsonView::UInt(s.model_calls as u64)),
                ("elapsed_ms"@, json::JsonView::UInt(s.elapsed_ms)),
            ]);
            json::law_the_first_field_of_a_name_counts(fields, "index"@, 0);
            json::law_the_first_field_of_a_name_counts(fields, "depth"@, 1);
            json::law_the_first_field_of_a_name_counts(fields, "parent"@, 2);
            json::law_the_first_field_of_a_name_counts(fields, "op"@, 3);
            json::law_the_first_field_of_a_name_counts(fields, "args"@, 4);
            json::law_the_first_field_of_a_name_counts(fields, "observation"@, 5);
            json::law_the_first_field_of_a_name_counts(fields, "truncated"@, 6);
            json::law_the_first_field_of_a_name_counts(fields, "model_calls"@, 7);
            json::law_the_first_field_of_a_name_counts(fields, "elapsed_ms"@, 8);
            json::law_the_first_field_of_a_name_counts(fields, "error"@, 9);
        }
    } else {
        if s.error is Some {
            assert(fields =~= seq![
                ("index"@, json::JsonView::UInt(s.index as u64)),
                ("depth"@, json::JsonView::UInt(s.depth as u64)),
                ("op"@, json::JsonView::Str(s.op)),
                ("args"@, s.args),
                ("observation"@, json::JsonView::Str(s.observation)),
                ("truncated"@, json::JsonView::Bool(s.truncated)),
                ("model_calls"@, json::JsonView::UInt(s.model_calls as u64)),
                ("elapsed_ms"@, json::JsonView::UInt(s.elapsed_ms)),
                ("error"@, json::JsonView::Str(s.error->0)),
            ]);
            json::law_the_first_field_of_a_name_counts(fields, "index"@, 0);
            json::law_the_first_field_of_a_name_counts(fields, "depth"@, 1);
            json::law_the_first_field_of_a_name_counts(fields, "op"@, 2);
            json::law_the_first_field_of_a_name_counts(fields, "args"@, 3);
            json::law_the_first_field_of_a_name_counts(fields, "observation"@, 4);
            json::law_the_first_field_of_a_name_counts(fields, "truncated"@, 5);
            json::law_the_first_field_of_a_name_counts(fields, "model_calls"@, 6);
            json::law_the_first_field_of_a_name_counts(fields, "elapsed_ms"@, 7);
            json::law_the_first_field_of_a_name_counts(fields, "error"@, 8);
            json::law_the_first_field_of_a_name_counts(fields, "parent"@, 9);
        } else {
            assert(fields =~= seq![
                ("index"@, json::JsonView::UInt(s.index as u64)),
                ("depth"@, json::JsonView::UInt(s.depth as u64)),
                ("op"@, json::JsonView::Str(s.op)),
                ("args"@, s.args),
                ("observation"@, json::JsonView::Str(s.observation)),
                ("truncated"@, json::JsonView::Bool(s.truncated)),
                ("model_calls"@, json::JsonView::UInt(s.model_calls as u64)),
                ("elapsed_ms"@, json::JsonView::UInt(s.elapsed_ms)),
            ]);
            json::law_the_first_field_of_a_name_counts(fields, "index"@, 0);
            json::law_the_first_field_of_a_name_counts(fields, "depth"@, 1);
            json::law_the_first_field_of_a_name_counts(fields, "op"@, 2);
            json::law_the_first_field_of_a_name_counts(fields, "args"@, 3);
            json::law_the_first_field_of_a_name_counts(fields, "observation"@, 4);
            json::law_the_first_field_of_a_name_counts(fields, "truncated"@, 5);
            json::law_the_first_field_of_a_name_counts(fields, "model_calls"@, 6);
            json::law_the_first_field_of_a_name_counts(fields, "elapsed_ms"@, 7);
            json::law_the_first_field_of_a_name_counts(fields, "parent"@, 8);
            json::law_the_first_field_of_a_name_counts(fields, "error"@, 8);
        }
    }
}

/// A reply that tells an error has its status, and says why.
pub proof fn law_a_reply_says_why(status: u16, why: Seq<char>, body: json::JsonView)
    ensures
        told_error(status, why).status == status,
        told_error(status, why).body.field("error"@) == Some(json::JsonView::Str(why)),
        told_ok(body).status == 200,
        told_ok(body).body == body,
{
    json::law_the_first_field_of_a_name_counts(
        told_error(status, why).body->Object_0,
        "error"@,
        0,
    );
}

/// A name that is given is the one that is taken.
pub proof fn law_a_name_that_is_given_is_taken(name: Seq<char>, other: Seq<char>)
    ensures
        name_or(Some(name), other) == name,
        name_or(None, other) == other,
{
}

} // verus!
