//! The same engine, spoken as an MCP server: JSON-RPC frames in, frames out.
//!
//! Tool names are bare, since whoever runs the server prefixes them with its
//! name. What a frame asks for is decided here; reading files and running
//! queries is done outside, and comes back as values.
use vstd::prelude::*;
use vstd::string::*;

use crate::api;
use crate::budget;
use crate::budget::Budget;
use crate::chunk;
use crate::chunk::Document;
use crate::context;
use crate::context::ContextRecord;
use crate::json;
use crate::json::Json;
use crate::observe;
use crate::ops;
use crate::ops::Observation;
use crate::shelf;
use crate::store;
use crate::store::Store;
use crate::text;
use crate::trace;
use crate::trace::RunRecord;

verus! {

/// The protocol that is spoken.
pub const PROTOCOL_VERSION: &'static str = "2024-11-05";

/// What `ask` is for.
pub const ASK_DESCRIPTION: &'static str = "Answer a question about files far larger than your context window, WITHOUT reading them into your context. Give it paths (files or directories) and a question; it chunks the corpus, plans over an outline, runs a cheap model over the chunks that matter, and returns an answer with `path:line` citations plus what it cost. Reach for this instead of reading a large directory yourself — the corpus never enters this conversation. Returns a `context_id` you can ask follow-up questions against with `query`, which skips reloading.";

/// What `load` is for.
pub const LOAD_DESCRIPTION: &'static str = "Load files or directories into a reusable context and return its id, chunk count and outline — without answering anything and without any model call. Use when you want to inspect what was loaded, or to ask several questions against one corpus.";

/// What `query` is for.
pub const QUERY_DESCRIPTION: &'static str = "Ask a question against a context that is already loaded. Same engine as `ask`, without re-reading the files. Returns the answer, the chunks it rests on, and the number of model calls it took.";

/// What `grep` is for.
pub const GREP_DESCRIPTION: &'static str = "Regex search across a loaded context. NO model call — deterministic, so a workflow branch gated on it takes the same path for the same corpus. Reports which chunk each hit fell in, with true `path:line` numbers.";

/// What `peek` is for.
pub const PEEK_DESCRIPTION: &'static str = "Read a window of one chunk verbatim. NO model call. Use to check an exact wording a citation points at — not to read the corpus, which is what `ask` is for.";

/// What `contexts` is for.
pub const CONTEXTS_DESCRIPTION: &'static str = "List the loaded contexts on this node with their sizes and sources.";

// ---------------------------------------------------------------------- tools
/// A schema of a type, with a description or without.
pub open spec fn typed(kind: Seq<char>, told: Option<Seq<char>>) -> json::JsonView {
    json::JsonView::Object(
        seq![("type"@, json::JsonView::Str(kind))] + (match told {
            Some(d) => seq![("description"@, json::JsonView::Str(d))],
            None => seq![],
        }),
    )
}

/// A schema of a list of texts, with a description or without.
pub open spec fn text_list(told: Option<Seq<char>>) -> json::JsonView {
    json::JsonView::Object(
        seq![
            ("type"@, json::JsonView::Str("array"@)),
            ("items"@, typed("string"@, None)),
        ] + (match told {
            Some(d) => seq![("description"@, json::JsonView::Str(d))],
            None => seq![],
        }),
    )
}

/// A schema of a count.
pub open spec fn count() -> json::JsonView {
    json::JsonView::Object(
        seq![
            ("type"@, json::JsonView::Str("integer"@)),
            ("minimum"@, json::JsonView::UInt(0)),
        ],
    )
}

/// The schema of what an answer may be asked to rest on.
pub open spec fn evidence_policy() -> json::JsonView {
    json::JsonView::Object(
        seq![
            ("type"@, json::JsonView::Str("object"@)),
            (
                "description"@,
                json::JsonView::Str(
                    "Optional structural grounding requirements for the final answer."@,
                ),
            ),
            (
                "properties"@,
                json::JsonView::Object(
                    seq![
                        ("minimum_citations"@, count()),
                        ("minimum_successful_recursions"@, count()),
                        ("allowed_source_prefix"@, typed("string"@, None)),
                    ],
                ),
            ),
        ],
    )
}

/// A tool: its name, what it is for, and what it takes.
pub open spec fn tool(
    name: Seq<char>,
    told: Seq<char>,
    arguments: Seq<(Seq<char>, json::JsonView)>,
    needed: Option<Seq<Seq<char>>>,
) -> json::JsonView {
    json::JsonView::Object(
        seq![
            ("name"@, json::JsonView::Str(name)),
            ("description"@, json::JsonView::Str(told)),
            (
                "inputSchema"@,
                json::JsonView::Object(
                    seq![
                        ("type"@, json::JsonView::Str("object"@)),
                        ("properties"@, json::JsonView::Object(arguments)),
                    ] + (match needed {
                        Some(v) => seq![("required"@, json::strings_view(v))],
                        None => seq![],
                    }),
                ),
            ),
        ],
    )
}

/// The arguments of `ask`.
pub open spec fn ask_arguments() -> Seq<(Seq<char>, json::JsonView)> {
    seq![
        ("paths"@, text_list(Some("Files or directories to read. Must be inside a configured context root."@))),
        ("query"@, typed("string"@, Some("The question to answer from those files."@))),
        ("max_steps"@, typed("integer"@, Some("Planning steps before it must answer. Default 14."@))),
        ("max_model_calls"@, typed("integer"@, Some("One root-owned ceiling shared by planner, recursion and map leaves."@))),
        ("max_depth"@, typed("integer"@, Some("How deep it may recurse. Default 2."@))),
        ("wall_secs"@, typed("integer"@, Some("One root deadline shared by every nested call."@))),
        ("evidence_policy"@, evidence_policy()),
    ]
}

/// The arguments of `load`.
pub open spec fn load_arguments() -> Seq<(Seq<char>, json::JsonView)> {
    seq![
        ("paths"@, text_list(None)),
        ("name"@, typed("string"@, Some("A label for this corpus."@))),
        ("text"@, typed("string"@, Some("Instead of paths: literal text to load as the corpus."@))),
    ]
}

/// The arguments of `query`.
pub open spec fn query_arguments() -> Seq<(Seq<char>, json::JsonView)> {
    seq![
        ("context_id"@, typed("string"@, None)),
        ("query"@, typed("string"@, None)),
        ("max_steps"@, typed("integer"@, None)),
        ("max_model_calls"@, typed("integer"@, None)),
        ("max_depth"@, typed("integer"@, None)),
        ("wall_secs"@, typed("integer"@, None)),
        ("evidence_policy"@, evidence_policy()),
    ]
}

/// The arguments of `grep`.
pub open spec fn grep_arguments() -> Seq<(Seq<char>, json::JsonView)> {
    seq![
        ("context_id"@, typed("string"@, None)),
        ("pattern"@, typed("string"@, Some("Case-insensitive regular expression."@))),
        ("max"@, typed("integer"@, None)),
        ("context"@, typed("integer"@, Some("Lines of surrounding context per hit, 0–3."@))),
    ]
}

/// The arguments of `peek`.
pub open spec fn peek_arguments() -> Seq<(Seq<char>, json::JsonView)> {
    seq![
        ("context_id"@, typed("string"@, None)),
        ("chunk"@, typed("integer"@, None)),
        ("start"@, typed("integer"@, None)),
        ("len"@, typed("integer"@, None)),
    ]
}

/// The arguments of `contexts`.
pub open spec fn contexts_arguments() -> Seq<(Seq<char>, json::JsonView)> {
    seq![]
}

/// The tools.
pub open spec fn tools() -> Seq<json::JsonView> {
    seq![
        tool("ask"@, ASK_DESCRIPTION@, ask_arguments(), Some(seq!["paths"@, "query"@])),
        tool("load"@, LOAD_DESCRIPTION@, load_arguments(), None),
        tool("query"@, QUERY_DESCRIPTION@, query_arguments(), Some(seq!["context_id"@, "query"@])),
        tool("grep"@, GREP_DESCRIPTION@, grep_arguments(), Some(seq!["context_id"@, "pattern"@])),
        tool("peek"@, PEEK_DESCRIPTION@, peek_arguments(), Some(seq!["context_id"@, "chunk"@])),
        tool("contexts"@, CONTEXTS_DESCRIPTION@, contexts_arguments(), None),
    ]
}

fn show_typed(kind: &str, told: Option<&str>) -> (r: Json)
    ensures
        r@ == typed(kind@, observe::opt_str(told)),
{
    let mut f: Vec<(String, Json)> = Vec::new();
    json::put(&mut f, "type", Json::str(kind));
    if let Some(d) = told {
        json::put(&mut f, "description", Json::str(d));
    }
    assert(json::field_views(f@) =~= typed(kind@, observe::opt_str(told))->Object_0);
    Json::Object(f)
}

fn show_text_list(told: Option<&str>) -> (r: Json)
    ensures
        r@ == text_list(observe::opt_str(told)),
{
    let mut f: Vec<(String, Json)> = Vec::new();
    json::put(&mut f, "type", Json::str("array"));
    json::put(&mut f, "items", show_typed("string", None));
    if let Some(d) = told {
        json::put(&mut f, "description", Json::str(d));
    }
    assert(json::field_views(f@) =~= text_list(observe::opt_str(told))->Object_0);
    Json::Object(f)
}

fn show_count() -> (r: Json)
    ensures
        r@ == count(),
{
    let mut f: Vec<(String, Json)> = Vec::new();
    json::put(&mut f, "type", Json::str("integer"));
    json::put(&mut f, "minimum", Json::UInt(0));
    assert(json::field_views(f@) =~= count()->Object_0);
    Json::Object(f)
}

/// The schema of what an answer may be asked to rest on.
pub fn evidence_policy_schema() -> (r: Json)
    ensures
        r@ == evidence_policy(),
{
    let mut p: Vec<(String, Json)> = Vec::new();
    json::put(&mut p, "minimum_citations", show_count());
    json::put(&mut p, "minimum_successful_recursions", show_count());
    json::put(&mut p, "allowed_source_prefix", show_typed("string", None));
    assert(json::field_views(p@) =~= seq![
        ("minimum_citations"@, count()),
        ("minimum_successful_recursions"@, count()),
        ("allowed_source_prefix"@, typed("string"@, None)),
    ]);
    let mut f: Vec<(String, Json)> = Vec::new();
    json::put(&mut f, "type", Json::str("object"));
    json::put(
        &mut f,
        "description",
        Json::str("Optional structural grounding requirements for the final answer."),
    );
    json::put(&mut f, "properties", Json::Object(p));
    assert(json::field_views(f@) =~= evidence_policy()->Object_0);
    Json::Object(f)
}

/// What an optional list of texts holds.
pub open spec fn opt_texts(v: Option<Vec<String>>) -> Option<Seq<Seq<char>>> {
    match v {
        Some(v) => Some(text::views(v@)),
        None => None,
    }
}

fn show_tool(
    name: &str,
    told: &str,
    arguments: Vec<(String, Json)>,
    needed: Option<Vec<String>>,
) -> (r: Json)
    ensures
        r@ == tool(name@, told@, json::field_views(arguments@), opt_texts(needed)),
{
    let ghost v = json::field_views(arguments@);
    let mut s: Vec<(String, Json)> = Vec::new();
    json::put(&mut s, "type", Json::str("object"));
    json::put(&mut s, "properties", Json::Object(arguments));
    if let Some(n) = &needed {
        json::put(&mut s, "required", Json::strings(n));
    }
    assert(json::field_views(s@) =~= seq![
        ("type"@, json::JsonView::Str("object"@)),
        ("properties"@, json::JsonView::Object(v)),
    ] + (match opt_texts(needed) {
        Some(v) => seq![("required"@, json::strings_view(v))],
        None => seq![],
    }));
    let mut f: Vec<(String, Json)> = Vec::new();
    json::put(&mut f, "name", Json::str(name));
    json::put(&mut f, "description", Json::str(told));
    json::put(&mut f, "inputSchema", Json::Object(s));
    assert(json::field_views(f@) =~= tool(name@, told@, v, opt_texts(needed))->Object_0);
    Json::Object(f)
}

fn show_ask() -> (r: Json)
    ensures
        r@ == tool("ask"@, ASK_DESCRIPTION@, ask_arguments(), Some(seq!["paths"@, "query"@])),
{
    let mut p: Vec<(String, Json)> = Vec::new();
    json::put(&mut p, "paths", show_text_list(Some("Files or directories to read. Must be inside a configured context root.")));
    json::put(&mut p, "query", show_typed("string", Some("The question to answer from those files.")));
    json::put(&mut p, "max_steps", show_typed("integer", Some("Planning steps before it must answer. Default 14.")));
    json::put(&mut p, "max_model_calls", show_typed("integer", Some("One root-owned ceiling shared by planner, recursion and map leaves.")));
    json::put(&mut p, "max_depth", show_typed("integer", Some("How deep it may recurse. Default 2.")));
    json::put(&mut p, "wall_secs", show_typed("integer", Some("One root deadline shared by every nested call.")));
    json::put(&mut p, "evidence_policy", evidence_policy_schema());
    assert(json::field_views(p@) =~= ask_arguments());
    let mut needed: Vec<String> = Vec::new();
    needed.push("paths".to_owned());
    needed.push("query".to_owned());
    assert(text::views(needed@) =~= seq!["paths"@, "query"@]);
    show_tool("ask", ASK_DESCRIPTION, p, Some(needed))
}

fn show_load() -> (r: Json)
    ensures
        r@ == tool("load"@, LOAD_DESCRIPTION@, load_arguments(), None),
{
    let mut p: Vec<(String, Json)> = Vec::new();
    json::put(&mut p, "paths", show_text_list(None));
    json::put(&mut p, "name", show_typed("string", Some("A label for this corpus.")));
    json::put(&mut p, "text", show_typed("string", Some("Instead of paths: literal text to load as the corpus.")));
    assert(json::field_views(p@) =~= load_arguments());
    show_tool("load", LOAD_DESCRIPTION, p, None)
}

fn show_query() -> (r: Json)
    ensures
        r@ == tool("query"@, QUERY_DESCRIPTION@, query_arguments(), Some(seq!["context_id"@, "query"@])),
{
    let mut p: Vec<(String, Json)> = Vec::new();
    json::put(&mut p, "context_id", show_typed("string", None));
    json::put(&mut p, "query", show_typed("string", None));
    json::put(&mut p, "max_steps", show_typed("integer", None));
    json::put(&mut p, "max_model_calls", show_typed("integer", None));
    json::put(&mut p, "max_depth", show_typed("integer", None));
    json::put(&mut p, "wall_secs", show_typed("integer", None));
    json::put(&mut p, "evidence_policy", evidence_policy_schema());
    assert(json::field_views(p@) =~= query_arguments());
    let mut needed: Vec<String> = Vec::new();
    needed.push("context_id".to_owned());
    needed.push("query".to_owned());
    assert(text::views(needed@) =~= seq!["context_id"@, "query"@]);
    show_tool("query", QUERY_DESCRIPTION, p, Some(needed))
}

fn show_grep() -> (r: Json)
    ensures
        r@ == tool("grep"@, GREP_DESCRIPTION@, grep_arguments(), Some(seq!["context_id"@, "pattern"@])),
{
    let mut p: Vec<(String, Json)> = Vec::new();
    json::put(&mut p, "context_id", show_typed("string", None));
    json::put(&mut p, "pattern", show_typed("string", Some("Case-insensitive regular expression.")));
    json::put(&mut p, "max", show_typed("integer", None));
    json::put(&mut p, "context", show_typed("integer", Some("Lines of surrounding context per hit, 0–3.")));
    assert(json::field_views(p@) =~= grep_arguments());
    let mut needed: Vec<String> = Vec::new();
    needed.push("context_id".to_owned());
    needed.push("pattern".to_owned());
    assert(text::views(needed@) =~= seq!["context_id"@, "pattern"@]);
    show_tool("grep", GREP_DESCRIPTION, p, Some(needed))
}

fn show_peek() -> (r: Json)
    ensures
        r@ == tool("peek"@, PEEK_DESCRIPTION@, peek_arguments(), Some(seq!["context_id"@, "chunk"@])),
{
    let mut p: Vec<(String, Json)> = Vec::new();
    json::put(&mut p, "context_id", show_typed("string", None));
    json::put(&mut p, "chunk", show_typed("integer", None));
    json::put(&mut p, "start", show_typed("integer", None));
    json::put(&mut p, "len", show_typed("integer", None));
    assert(json::field_views(p@) =~= peek_arguments());
    let mut needed: Vec<String> = Vec::new();
    needed.push("context_id".to_owned());
    needed.push("chunk".to_owned());
    assert(text::views(needed@) =~= seq!["context_id"@, "chunk"@]);
    show_tool("peek", PEEK_DESCRIPTION, p, Some(needed))
}

fn show_contexts() -> (r: Json)
    ensures
        r@ == tool("contexts"@, CONTEXTS_DESCRIPTION@, contexts_arguments(), None),
{
    let mut p: Vec<(String, Json)> = Vec::new();
    assert(json::field_views(p@) =~= contexts_arguments());
    show_tool("contexts", CONTEXTS_DESCRIPTION, p, None)
}

/// The tools, in the shape that a client is told them.
pub fn tool_list() -> (r: Json)
    ensures
        r@ == json::JsonView::Array(tools()),
{
    let mut v: Vec<Json> = Vec::new();
    json::add_item(&mut v, show_ask());
    json::add_item(&mut v, show_load());
    json::add_item(&mut v, show_query());
    json::add_item(&mut v, show_grep());
    json::add_item(&mut v, show_peek());
    json::add_item(&mut v, show_contexts());
    assert(json::item_views(v@) =~= tools());
    Json::Array(v)
}

// --------------------------------------------------------------------- frames
/// What a line of input asks for.
pub enum Frame {
    /// Nothing that is to be answered.
    Ignored,
    /// This answer.
    Answer(Json),
    /// A tool's result, under the id.
    Call { id: Json, name: String, args: Json },
}

/// What a frame holds.
pub enum FrameView {
    Ignored,
    Answer(json::JsonView),
    Call { id: json::JsonView, name: Seq<char>, args: json::JsonView },
}

impl View for Frame {
    type V = FrameView;

    open spec fn view(&self) -> FrameView {
        match *self {
            Frame::Ignored => FrameView::Ignored,
            Frame::Answer(j) => FrameView::Answer(j@),
            Frame::Call { id, name, args } => FrameView::Call {
                id: id@,
                name: name@,
                args: args@,
            },
        }
    }
}

/// An answer to the request with the id.
pub open spec fn result_of(id: json::JsonView, result: json::JsonView) -> json::JsonView {
    json::JsonView::Object(
        seq![("jsonrpc"@, json::JsonView::Str("2.0"@)), ("id"@, id), ("result"@, result)],
    )
}

/// An answer to a request for something that there is not.
pub open spec fn unknown_method(id: json::JsonView, method: Seq<char>) -> json::JsonView {
    json::JsonView::Object(
        seq![
            ("jsonrpc"@, json::JsonView::Str("2.0"@)),
            ("id"@, id),
            (
                "error"@,
                json::JsonView::Object(
                    seq![
                        ("code"@, json::JsonView::Number("-32601"@)),
                        (
                            "message"@,
                            json::JsonView::Str("unknown method '"@ + method + "'"@),
                        ),
                    ],
                ),
            ),
        ],
    )
}

/// What the server tells of itself.
pub open spec fn introduction(version: Seq<char>) -> json::JsonView {
    json::JsonView::Object(
        seq![
            ("protocolVersion"@, json::JsonView::Str(PROTOCOL_VERSION@)),
            (
                "capabilities"@,
                json::JsonView::Object(seq![("tools"@, json::JsonView::Object(seq![]))]),
            ),
            (
                "serverInfo"@,
                json::JsonView::Object(
                    seq![
                        ("name"@, json::JsonView::Str("ryu-rlm"@)),
                        ("version"@, json::JsonView::Str(version)),
                    ],
                ),
            ),
        ],
    )
}

/// A text field, or nothing in its place.
pub open spec fn text_or_none(j: json::JsonView, key: Seq<char>) -> Option<Seq<char>> {
    match j.field(key) {
        Some(json::JsonView::Str(s)) => Some(s),
        _ => None,
    }
}

/// A text field, or an empty text in its place.
pub open spec fn text_or_empty(j: json::JsonView, key: Seq<char>) -> Seq<char> {
    match text_or_none(j, key) {
        Some(s) => s,
        None => ""@,
    }
}

/// A field, or an empty object in its place.
pub open spec fn field_or_empty(j: json::JsonView, key: Seq<char>) -> json::JsonView {
    match j.field(key) {
        Some(v) => v,
        None => json::JsonView::Object(seq![]),
    }
}

/// What a JSON value asks for, or nothing where the line held none. What
/// carries no id is a notice, and takes no answer.
pub open spec fn asked(found: Option<json::JsonView>, version: Seq<char>) -> FrameView {
    match found {
        None => FrameView::Ignored,
        Some(j) => match j.field("id"@) {
            None => FrameView::Ignored,
            Some(id) => {
                let method = text_or_empty(j, "method"@);
                if method == "initialize"@ {
                    FrameView::Answer(result_of(id, introduction(version)))
                } else if method == "ping"@ {
                    FrameView::Answer(result_of(id, json::JsonView::Object(seq![])))
                } else if method == "tools/list"@ {
                    FrameView::Answer(
                        result_of(
                            id,
                            api::one_field("tools"@, json::JsonView::Array(tools())),
                        ),
                    )
                } else if method == "tools/call"@ {
                    let params = field_or_empty(j, "params"@);
                    FrameView::Call {
                        id,
                        name: text_or_empty(params, "name"@),
                        args: field_or_empty(params, "arguments"@),
                    }
                } else {
                    FrameView::Answer(unknown_method(id, method))
                }
            },
        },
    }
}

/// An answer to the request with the id.
pub fn result_frame(id: &Json, result: Json) -> (r: Json)
    ensures
        r@ == result_of(id@, result@),
{
    let ghost v = result@;
    let mut f: Vec<(String, Json)> = Vec::new();
    json::put(&mut f, "jsonrpc", Json::str("2.0"));
    json::put(&mut f, "id", id.copy());
    json::put(&mut f, "result", result);
    assert(json::field_views(f@) =~= result_of(id@, v)->Object_0);
    Json::Object(f)
}

fn show_unknown_method(id: &Json, method: &str) -> (r: Json)
    ensures
        r@ == unknown_method(id@, method@),
{
    let mut told = "unknown method '".to_owned();
    told.append(method);
    told.append("'");
    let mut e: Vec<(String, Json)> = Vec::new();
    json::put(&mut e, "code", Json::Number("-32601".to_owned()));
    json::put(&mut e, "message", Json::str(told.as_str()));
    assert(json::field_views(e@) =~= seq![
        ("code"@, json::JsonView::Number("-32601"@)),
        ("message"@, json::JsonView::Str(told@)),
    ]);
    let mut f: Vec<(String, Json)> = Vec::new();
    json::put(&mut f, "jsonrpc", Json::str("2.0"));
    json::put(&mut f, "id", id.copy());
    json::put(&mut f, "error", Json::Object(e));
    assert(json::field_views(f@) =~= unknown_method(id@, method@)->Object_0);
    Json::Object(f)
}

fn no_fields() -> (r: Json)
    ensures
        r@ == json::JsonView::Object(seq![]),
{
    let f: Vec<(String, Json)> = Vec::new();
    assert(json::field_views(f@) =~= seq![]);
    Json::Object(f)
}

fn show_introduction(version: &str) -> (r: Json)
    ensures
        r@ == introduction(version@),
{
    let mut info: Vec<(String, Json)> = Vec::new();
    json::put(&mut info, "name", Json::str("ryu-rlm"));
    json::put(&mut info, "version", Json::str(version));
    assert(json::field_views(info@) =~= seq![
        ("name"@, json::JsonView::Str("ryu-rlm"@)),
        ("version"@, json::JsonView::Str(version@)),
    ]);
    let mut f: Vec<(String, Json)> = Vec::new();
    json::put(&mut f, "protocolVersion", Json::str(PROTOCOL_VERSION));
    json::put(&mut f, "capabilities", api::object_of("tools", no_fields()));
    json::put(&mut f, "serverInfo", Json::Object(info));
    assert(json::field_views(f@) =~= introduction(version@)->Object_0);
    Json::Object(f)
}

fn read_text(j: &Json, key: &str) -> (r: Option<String>)
    ensures
        context::opt_text(r) == text_or_none(j@, key@),
{
    match j.get(key) {
        Some(Json::Str(s)) => Some(s.clone()),
        _ => None,
    }
}

fn read_text_or_empty(j: &Json, key: &str) -> (r: String)
    ensures
        r@ == text_or_empty(j@, key@),
{
    match read_text(j, key) {
        Some(s) => s,
        None => "".to_owned(),
    }
}

fn read_field_or_empty(j: &Json, key: &str) -> (r: Json)
    ensures
        r@ == field_or_empty(j@, key@),
{
    match j.get(key) {
        Some(v) => v.copy(),
        None => no_fields(),
    }
}

/// What was read from a line asks for.
pub fn on_frame(found: Option<Json>, version: &str) -> (r: Frame)
    ensures
        r@ == asked(json::tree_view(found), version@),
{
    let j = match found {
        None => {
            return Frame::Ignored;
        },
        Some(j) => j,
    };
    let id = match j.get("id") {
        None => {
            return Frame::Ignored;
        },
        Some(id) => id.copy(),
    };
    let method = read_text_or_empty(&j, "method");
    if text::same(method.as_str(), "initialize") {
        Frame::Answer(result_frame(&id, show_introduction(version)))
    } else if text::same(method.as_str(), "ping") {
        Frame::Answer(result_frame(&id, no_fields()))
    } else if text::same(method.as_str(), "tools/list") {
        Frame::Answer(result_frame(&id, api::object_of("tools", tool_list())))
    } else if text::same(method.as_str(), "tools/call") {
        let params = read_field_or_empty(&j, "params");
        Frame::Call {
            id,
            name: read_text_or_empty(&params, "name"),
            args: read_field_or_empty(&params, "arguments"),
        }
    } else {
        Frame::Answer(show_unknown_method(&id, method.as_str()))
    }
}

/// What a line of input asks for. A blank line, and a line that is no JSON, has
/// no id to answer on.
pub fn on_line(line: &str, version: &str) -> (r: Frame)
    ensures
        r@ == (if text::is_blank(line@) {
            FrameView::Ignored
        } else {
            asked(json::json_value(text::trim(line@)), version@)
        }),
{
    if text::blank(line) {
        return Frame::Ignored;
    }
    let trimmed = text::trimmed(line);
    on_frame(json::parse(trimmed.as_str()), version)
}

/// A tool's result as a client is given it: the text of it, and whether it is
/// an error.
pub open spec fn tool_output(told: Seq<char>, is_error: bool) -> json::JsonView {
    json::JsonView::Object(
        seq![
            (
                "content"@,
                json::JsonView::Array(
                    seq![
                        json::JsonView::Object(
                            seq![
                                ("type"@, json::JsonView::Str("text"@)),
                                ("text"@, json::JsonView::Str(told)),
                            ],
                        ),
                    ],
                ),
            ),
            ("isError"@, json::JsonView::Bool(is_error)),
        ],
    )
}

/// A text as a tool's result.
pub fn text_result(told: &str, is_error: bool) -> (r: Json)
    ensures
        r@ == tool_output(told@, is_error),
{
    let mut b: Vec<(String, Json)> = Vec::new();
    json::put(&mut b, "type", Json::str("text"));
    json::put(&mut b, "text", Json::str(told));
    let ghost block = json::JsonView::Object(
        seq![("type"@, json::JsonView::Str("text"@)), ("text"@, json::JsonView::Str(told@))],
    );
    assert(json::field_views(b@) =~= block->Object_0);
    let mut items: Vec<Json> = Vec::new();
    json::add_item(&mut items, Json::Object(b));
    assert(json::item_views(items@) =~= seq![block]);
    let mut f: Vec<(String, Json)> = Vec::new();
    json::put(&mut f, "content", Json::Array(items));
    json::put(&mut f, "isError", Json::Bool(is_error));
    assert(json::field_views(f@) =~= tool_output(told@, is_error)->Object_0);
    Json::Object(f)
}

/// A tool's result as a client is given it: the value, written for people. A
/// client that shows nothing but text still shows something readable.
pub fn tool_result(value: &Json, is_error: bool) -> (r: Json)
    ensures
        r@ == tool_output(json::pretty_text(json::normal(value@)), is_error),
{
    text_result(json::to_pretty_text(value).as_str(), is_error)
}

/// The frame that answers a call with what came of it. An error is a result
/// too, under the name `error`.
pub open spec fn call_answer(id: json::JsonView, came: Result<json::JsonView, Seq<char>>) ->
    json::JsonView {
    result_of(
        id,
        match came {
            Ok(v) => tool_output(json::pretty_text(json::normal(v)), false),
            Err(e) => tool_output(
                json::pretty_text(
                    json::normal(api::one_field("error"@, json::JsonView::Str(e))),
                ),
                true,
            ),
        },
    )
}

/// Answers a call with what came of it.
pub fn answer_call(id: &Json, came: Result<Json, String>) -> (r: Json)
    ensures
        r@ == call_answer(
            id@,
            match came {
                Ok(v) => Ok(v@),
                Err(e) => Err(e@),
            },
        ),
{
    match came {
        Ok(v) => result_frame(id, tool_result(&v, false)),
        Err(e) => {
            let told = api::object_of("error", Json::Str(e));
            result_frame(id, tool_result(&told, true))
        },
    }
}

/// A frame as it goes out: its JSON and a line feed.
pub fn frame_line(frame: &Json) -> (r: String)
    ensures
        r@ == json::compact_text(json::normal(frame@)) + "\n"@,
        json::well_written(json::normal(frame@), r@.drop_last()),
{
    let mut line = json::to_text(frame);
    let ghost was = line@;
    line.append("\n");
    proof {
        reveal_strlit("\n");
        assert(line@.drop_last() =~= was);
    }
    line
}

/// A frame takes one line: the line feed that ends it is the only one in it.
pub proof fn law_a_frame_is_one_line(frame: json::JsonView, line: Seq<char>)
    requires
        line.len() > 0,
        line.last() == '\n',
        json::well_written(frame, line.drop_last()),
    ensures
        forall|k: int| 0 <= k < line.len() ==> (#[trigger] line[k] == '\n' <==> k == line.len() - 1),
{
    assert forall|k: int| 0 <= k < line.len() implies (#[trigger] line[k] == '\n' <==> k
        == line.len() - 1) by {
        if k < line.len() - 1 {
            assert(line.drop_last()[k] == line[k]);
        }
    }
}

/// A request is answered on its own id: what goes out has the id that was read,
/// a fraction to its last digit, with the result beside it.
pub proof fn law_an_answer_has_the_id_of_its_request(
    frame: json::JsonView,
    came: Result<json::JsonView, Seq<char>>,
)
    requires
        json::tidy(frame),
        frame.field("id"@) is Some,
    ensures
        json::normal(call_answer(frame.field("id"@)->0, came)).field("id"@) == frame.field("id"@),
        json::normal(call_answer(frame.field("id"@)->0, came)).field("result"@) is Some,
{
    let id = frame.field("id"@)->0;
    let out = call_answer(id, came);
    json::law_a_field_of_a_tidy_value_is_tidy(frame, "id"@);
    json::law_a_tidy_value_stays_as_it_is(id);
    json::law_fields_are_found_where_they_were(out, "id"@);
    json::law_fields_are_found_where_they_were(out, "result"@);
    reveal_strlit("jsonrpc");
    reveal_strlit("id");
    reveal_strlit("result");
    let fields = out->Object_0;
    assert("id"@.len() == 2 && "jsonrpc"@.len() == 7 && "result"@.len() == 6);
    assert(fields.skip(1)[0] == fields[1]);
    assert(fields.skip(1).skip(1)[0] == fields[2]);
    reveal_with_fuel(json::lookup, 4);
}

// ---------------------------------------------------------------------- calls
/// What a call of a tool comes to.
pub enum ToolStep {
    /// This result.
    Done(Json),
    /// This error.
    Refused(String),
    /// A context is to be made of a text, and told.
    LoadText { name: String, text: String },
    /// A context is to be made of what is at paths, and told.
    LoadPaths { name: String, paths: Vec<String> },
    /// A context is to be made of what is at paths, and queried.
    Ask { paths: Vec<String>, query: String, budget: Budget },
    /// The context is to be queried.
    Query { context_id: String, query: String, budget: Budget },
}

/// What a step holds.
pub enum ToolView {
    Done(json::JsonView),
    Refused(Seq<char>),
    LoadText { name: Seq<char>, text: Seq<char> },
    LoadPaths { name: Seq<char>, paths: Seq<Seq<char>> },
    Ask { paths: Seq<Seq<char>>, query: Seq<char>, budget: Budget },
    Query { context_id: Seq<char>, query: Seq<char>, budget: Budget },
}

impl View for ToolStep {
    type V = ToolView;

    open spec fn view(&self) -> ToolView {
        match *self {
            ToolStep::Done(j) => ToolView::Done(j@),
            ToolStep::Refused(e) => ToolView::Refused(e@),
            ToolStep::LoadText { name, text } => ToolView::LoadText { name: name@, text: text@ },
            ToolStep::LoadPaths { name, paths } => ToolView::LoadPaths {
                name: name@,
                paths: text::views(paths@),
            },
            ToolStep::Ask { paths, query, budget } => ToolView::Ask {
                paths: text::views(paths@),
                query: query@,
                budget,
            },
            ToolStep::Query { context_id, query, budget } => ToolView::Query {
                context_id: context_id@,
                query: query@,
                budget,
            },
        }
    }
}

/// A number field, or nothing in its place.
pub open spec fn number_or_none(j: json::JsonView, key: Seq<char>) -> Option<usize> {
    match j.field(key) {
        Some(json::JsonView::UInt(n)) => Some(n as usize),
        _ => None,
    }
}

/// A number field of any size, or nothing in its place.
pub open spec fn long_or_none(j: json::JsonView, key: Seq<char>) -> Option<u64> {
    match j.field(key) {
        Some(json::JsonView::UInt(n)) => Some(n),
        _ => None,
    }
}

/// The texts among values.
pub open spec fn texts_among(items: Seq<json::JsonView>) -> Seq<Seq<char>>
    decreases items.len(),
{
    if items.len() == 0 {
        seq![]
    } else {
        match items.last() {
            json::JsonView::Str(s) => texts_among(items.drop_last()).push(s),
            _ => texts_among(items.drop_last()),
        }
    }
}

/// The paths that a call names.
pub open spec fn paths_of(args: json::JsonView) -> Seq<Seq<char>> {
    match args.field("paths"@) {
        Some(json::JsonView::Array(items)) => texts_among(items),
        _ => seq![],
    }
}

/// The budget that a call asks for, over the node's own, clamped.
pub open spec fn budget_of(args: json::JsonView, base: Budget) -> Budget {
    budget::sanitized(
        api::overlaid(
            base,
            number_or_none(args, "max_steps"@),
            number_or_none(args, "max_model_calls"@),
            number_or_none(args, "max_depth"@),
            long_or_none(args, "wall_secs"@),
        ),
    )
}

/// The context that a call names, or why there is none.
pub open spec fn context_named(
    contexts: Seq<(Seq<char>, context::ContextView)>,
    args: json::JsonView,
) -> Result<context::ContextView, Seq<char>> {
    match text_or_none(args, "context_id"@) {
        None => Err("context_id is required"@),
        Some(id) => match shelf::got(contexts, id) {
            Some(c) => Ok(c),
            None => Err(
                "no context with the id '"@ + id + "' — call `contexts` to list them"@,
            ),
        },
    }
}

/// A policy on evidence is asked for; one without fields demands nothing. There
/// is no record of evidence to hold a policy against, and an answer that passes
/// for checked would be a lie.
pub open spec fn wants_evidence(args: json::JsonView) -> bool {
    args.field("evidence_policy"@) matches Some(v) && v != json::JsonView::Object(seq![])
}

/// A call of `load`.
pub open spec fn load_step(args: json::JsonView) -> ToolView {
    let name = match text_or_none(args, "name"@) {
        Some(n) => n,
        None => "corpus"@,
    };
    match text_or_none(args, "text"@) {
        Some(text) => ToolView::LoadText { name, text },
        None => if paths_of(args).len() == 0 {
            ToolView::Refused("give either `paths` or `text`"@)
        } else {
            ToolView::LoadPaths { name, paths: paths_of(args) }
        },
    }
}

/// A call of `grep`.
pub open spec fn grep_step(
    contexts: Seq<(Seq<char>, context::ContextView)>,
    args: json::JsonView,
) -> ToolView {
    match context_named(contexts, args) {
        Err(e) => ToolView::Refused(e),
        Ok(c) => match text_or_none(args, "pattern"@) {
            None => ToolView::Refused("pattern is required"@),
            Some(pattern) => ToolView::Done(
                api::observation_body(
                    observe::observed(
                        observe::grep_outcome(
                            c.chunks,
                            pattern,
                            number_or_none(args, "max"@),
                            number_or_none(args, "context"@),
                        ),
                    ),
                ),
            ),
        },
    }
}

/// A call of `peek`.
pub open spec fn peek_step(
    contexts: Seq<(Seq<char>, context::ContextView)>,
    args: json::JsonView,
) -> ToolView {
    match context_named(contexts, args) {
        Err(e) => ToolView::Refused(e),
        Ok(c) => match number_or_none(args, "chunk"@) {
            None => ToolView::Refused("chunk is required"@),
            Some(id) => ToolView::Done(
                api::observation_body(
                    observe::observed(
                        observe::peek_text(
                            c.chunks,
                            id as nat,
                            ops::or_else(number_or_none(args, "start"@), 0) as nat,
                            number_or_none(args, "len"@),
                        ),
                    ),
                ),
            ),
        },
    }
}

/// A call of `query` or of `ask`.
pub open spec fn question_step(
    contexts: Seq<(Seq<char>, context::ContextView)>,
    has_host: bool,
    base: Budget,
    asks: bool,
    args: json::JsonView,
) -> ToolView {
    match text_or_none(args, "query"@) {
        None => ToolView::Refused("query is required"@),
        Some(query) => if !has_host {
            ToolView::Refused(api::no_model())
        } else if asks && paths_of(args).len() == 0 {
            ToolView::Refused("`ask` needs `paths`; use `query` for a loaded context"@)
        } else if !asks && context_named(contexts, args) is Err {
            ToolView::Refused(context_named(contexts, args)->Err_0)
        } else if wants_evidence(args) {
            ToolView::Refused(
                "evidence_policy cannot be honoured: no evidence is recorded to hold it against"@,
            )
        } else if asks {
            ToolView::Ask { paths: paths_of(args), query, budget: budget_of(args, base) }
        } else {
            ToolView::Query {
                context_id: text_or_empty(args, "context_id"@),
                query,
                budget: budget_of(args, base),
            }
        },
    }
}

/// What a call of a tool comes to.
pub open spec fn tool_step(
    contexts: Seq<(Seq<char>, context::ContextView)>,
    has_host: bool,
    base: Budget,
    name: Seq<char>,
    args: json::JsonView,
) -> ToolView {
    if name == "contexts"@ {
        ToolView::Done(
            api::one_field(
                "contexts"@,
                json::JsonView::Array(store::newest_first(store::context_rows(contexts))),
            ),
        )
    } else if name == "load"@ {
        load_step(args)
    } else if name == "grep"@ {
        grep_step(contexts, args)
    } else if name == "peek"@ {
        peek_step(contexts, args)
    } else if name == "query"@ {
        question_step(contexts, has_host, base, false, args)
    } else if name == "ask"@ {
        question_step(contexts, has_host, base, true, args)
    } else {
        ToolView::Refused("unknown tool '"@ + name + "'"@)
    }
}

fn read_number(j: &Json, key: &str) -> (r: Option<usize>)
    ensures
        r == number_or_none(j@, key@),
{
    match j.get(key) {
        Some(Json::UInt(n)) => Some(*n as usize),
        _ => None,
    }
}

fn read_long(j: &Json, key: &str) -> (r: Option<u64>)
    ensures
        r == long_or_none(j@, key@),
{
    match j.get(key) {
        Some(Json::UInt(n)) => Some(*n),
        _ => None,
    }
}

fn read_paths(args: &Json) -> (r: Vec<String>)
    ensures
        text::views(r@) == paths_of(args@),
{
    let mut out: Vec<String> = Vec::new();
    assert(text::views(out@) =~= seq![]);
    match args.get("paths") {
        Some(Json::Array(items)) => {
            let ghost v = json::item_views(items@);
            let mut i: usize = 0;
            proof {
                json::lemma_item_views(items@);
                assert(v.take(0) =~= seq![]);
            }
            while i < items.len()
                invariant
                    i <= items@.len(),
                    v == json::item_views(items@),
                    v.len() == items@.len(),
                    forall|k: int|
                        0 <= k < items@.len() ==> #[trigger] v[k] == json::json_view(items@[k]),
                    text::views(out@) == texts_among(v.take(i as int)),
                decreases items@.len() - i,
            {
                assert(v.take(i as int + 1).drop_last() =~= v.take(i as int));
                assert(v[i as int] == json::json_view(items@[i as int]));
                match &items[i] {
                    Json::Str(s) => {
                        let ghost was = out@;
                        out.push(s.clone());
                        assert(text::views(out@) =~= text::views(was).push(s@));
                    },
                    _ => {},
                }
                i = i + 1;
            }
            assert(v.take(i as int) =~= v);
        },
        _ => {},
    }
    out
}

fn read_budget(args: &Json, base: Budget) -> (b: Budget)
    ensures
        b == budget_of(args@, base),
{
    api::budget_over(
        base,
        read_number(args, "max_steps"),
        read_number(args, "max_model_calls"),
        read_number(args, "max_depth"),
        read_long(args, "wall_secs"),
    )
}

fn read_context(store: &Store, args: &Json) -> (r: Result<
    std::sync::Arc<ContextRecord>,
    String,
>)
    requires
        store@.sound(),
    ensures
        match r {
            Ok(c) => {
                &&& context_named(store@.contexts, args@) == Ok::<
                    context::ContextView,
                    Seq<char>,
                >(c@)
                &&& c@.numbered()
            },
            Err(e) => context_named(store@.contexts, args@) == Err::<
                context::ContextView,
                Seq<char>,
            >(e@),
        },
{
    match read_text(args, "context_id") {
        None => Err("context_id is required".to_owned()),
        Some(id) => match store.get(id.as_str()) {
            Some(c) => {
                proof {
                    store::lemma_got_sound(store@, id@);
                }
                Ok(c)
            },
            None => {
                let mut e = "no context with the id '".to_owned();
                e.append(id.as_str());
                e.append("' — call `contexts` to list them");
                Err(e)
            },
        },
    }
}

fn plan_load(args: &Json) -> (r: ToolStep)
    ensures
        r@ == load_step(args@),
{
    let name = match read_text(args, "name") {
        Some(n) => n,
        None => "corpus".to_owned(),
    };
    match read_text(args, "text") {
        Some(text) => ToolStep::LoadText { name, text },
        None => {
            let paths = read_paths(args);
            assert(text::views(paths@).len() == paths@.len());
            if paths.len() == 0 {
                ToolStep::Refused("give either `paths` or `text`".to_owned())
            } else {
                ToolStep::LoadPaths { name, paths }
            }
        },
    }
}

fn plan_grep(store: &Store, args: &Json) -> (r: ToolStep)
    requires
        store@.sound(),
    ensures
        r@ == grep_step(store@.contexts, args@),
{
    match read_context(store, args) {
        Err(e) => ToolStep::Refused(e),
        Ok(c) => match read_text(args, "pattern") {
            None => ToolStep::Refused("pattern is required".to_owned()),
            Some(pattern) => {
                let o = ops::grep(
                    &c,
                    pattern.as_str(),
                    read_number(args, "max"),
                    read_number(args, "context"),
                );
                ToolStep::Done(api::show_observation(&o))
            },
        },
    }
}

fn plan_peek(store: &Store, args: &Json) -> (r: ToolStep)
    requires
        store@.sound(),
    ensures
        r@ == peek_step(store@.contexts, args@),
{
    match read_context(store, args) {
        Err(e) => ToolStep::Refused(e),
        Ok(c) => match read_number(args, "chunk") {
            None => ToolStep::Refused("chunk is required".to_owned()),
            Some(id) => {
                let start: usize = match read_number(args, "start") {
                    Some(n) => n,
                    None => 0,
                };
                proof {
                    if id < c.chunks@.len() {
                        assert(context::is_numbered(c@.chunks[id as int]));
                    }
                }
                let o = ops::peek(&c, id, start, read_number(args, "len"));
                ToolStep::Done(api::show_observation(&o))
            },
        },
    }
}

fn asks_for_evidence(args: &Json) -> (b: bool)
    ensures
        b == wants_evidence(args@),
{
    match args.get("evidence_policy") {
        None => false,
        Some(Json::Object(fields)) => {
            proof {
                json::lemma_field_views(fields@);
                if fields@.len() == 0 {
                    assert(json::field_views(fields@) =~= seq![]);
                }
            }
            fields.len() > 0
        },
        Some(_) => true,
    }
}

fn plan_question(store: &Store, has_host: bool, base: Budget, asks: bool, args: &Json) -> (r:
    ToolStep)
    requires
        store@.sound(),
    ensures
        r@ == question_step(store@.contexts, has_host, base, asks, args@),
{
    let query = match read_text(args, "query") {
        None => {
            return ToolStep::Refused("query is required".to_owned());
        },
        Some(q) => q,
    };
    if !has_host {
        return ToolStep::Refused(
            "no model callback is available to this sidecar, so nothing can be read from the corpus. Check that @ryu/rlm is granted hook:side-model.".to_owned(),
        );
    }
    let budget = read_budget(args, base);
    let paths = read_paths(args);
    assert(text::views(paths@).len() == paths@.len());
    if asks {
        if paths.len() == 0 {
            return ToolStep::Refused(
                "`ask` needs `paths`; use `query` for a loaded context".to_owned(),
            );
        }
    } else if let Err(e) = read_context(store, args) {
        return ToolStep::Refused(e);
    }
    if asks_for_evidence(args) {
        return ToolStep::Refused(
            "evidence_policy cannot be honoured: no evidence is recorded to hold it against".to_owned(),
        );
    }
    if asks {
        ToolStep::Ask { paths, query, budget }
    } else {
        ToolStep::Query { context_id: read_text_or_empty(args, "context_id"), query, budget }
    }
}

/// Decides what a call of a tool comes to.
pub fn plan_tool(store: &Store, has_host: bool, base: Budget, name: &str, args: &Json) -> (r:
    ToolStep)
    requires
        store@.sound(),
    ensures
        r@ == tool_step(store@.contexts, has_host, base, name@, args@),
{
    if text::same(name, "contexts") {
        ToolStep::Done(api::object_of("contexts", Json::Array(store.list())))
    } else if text::same(name, "load") {
        plan_load(args)
    } else if text::same(name, "grep") {
        plan_grep(store, args)
    } else if text::same(name, "peek") {
        plan_peek(store, args)
    } else if text::same(name, "query") {
        plan_question(store, has_host, base, false, args)
    } else if text::same(name, "ask") {
        plan_question(store, has_host, base, true, args)
    } else {
        let mut e = "unknown tool '".to_owned();
        e.append(name);
        e.append("'");
        ToolStep::Refused(e)
    }
}

/// Why a call gets no context of what was read.
pub open spec fn load_refusal(
    docs: Seq<chunk::DocumentView>,
    skipped: Seq<Seq<char>>,
) -> Option<Seq<char>> {
    if docs.len() == 0 {
        Some(api::nothing_loaded(skipped, seq![]))
    } else {
        context::create_refusal(docs, context::target_or_default(None))
    }
}

/// Makes the context of what was read at paths, or says why not.
pub fn load_documents(name: &str, docs: Vec<Document>, skipped: &Vec<String>) -> (r: Result<
    ContextRecord,
    String,
>)
    requires
        forall|i: int| 0 <= i < docs@.len() ==> (#[trigger] docs@[i])@.fits(),
    ensures
        ({
            let views = chunk::doc_views(docs@);
            match r {
                Ok(c) => {
                    &&& load_refusal(views, text::views(skipped@)) is None
                    &&& crate::stamp::is_uuid(c.id@)
                    &&& c@ == context::context_of(
                        c.id@,
                        name@,
                        None,
                        c.created_at@,
                        views,
                        context::target_or_default(None),
                    )
                    &&& c@.numbered()
                },
                Err(e) => load_refusal(views, text::views(skipped@)) == Some(e@),
            }
        }),
{
    assert(chunk::doc_views(docs@).len() == docs@.len());
    if docs.is_empty() {
        proof {
            reveal_strlit("");
            assert(""@ =~= seq![]);
        }
        return Err(api::show_nothing_loaded(skipped, ""));
    }
    ContextRecord::created(name, docs, None, None)
}

/// Makes the context of a text, or says why not.
pub fn load_text(name: &str, text: &str) -> (r: Result<ContextRecord, String>)
    ensures
        ({
            let views = seq![
                chunk::DocumentView { source: "text"@, text: text@, first_line: 1 },
            ];
            match r {
                Ok(c) => {
                    &&& load_refusal(views, seq![]) is None
                    &&& crate::stamp::is_uuid(c.id@)
                    &&& c@ == context::context_of(
                        c.id@,
                        name@,
                        None,
                        c.created_at@,
                        views,
                        context::target_or_default(None),
                    )
                    &&& c@.numbered()
                },
                Err(e) => load_refusal(views, seq![]) == Some(e@),
            }
        }),
{
    let mut docs: Vec<Document> = Vec::new();
    docs.push(Document::new("text", text));
    assert(chunk::doc_views(docs@) =~= seq![
        chunk::DocumentView { source: "text"@, text: text@, first_line: 1 },
    ]);
    ContextRecord::created(name, docs, None, None)
}

/// What is told of a context that was loaded.
pub open spec fn loaded_body(c: context::ContextView) -> json::JsonView {
    json::JsonView::Object(
        seq![
            ("context_id"@, json::JsonView::Str(c.id)),
            ("chunks"@, json::JsonView::UInt(c.chunks.len() as u64)),
            ("total_chars"@, json::JsonView::UInt(c.total_chars as u64)),
            ("sources"@, json::strings_view(c.sources)),
            (
                "outline"@,
                json::JsonView::Str(observe::observed(context::outline_of(c.chunks)).text),
            ),
        ],
    )
}

/// What is told of a context that was loaded.
pub fn show_loaded(c: &ContextRecord) -> (r: Json)
    ensures
        r@ == loaded_body(c@),
{
    let mut f: Vec<(String, Json)> = Vec::new();
    json::put(&mut f, "context_id", Json::str(c.id.as_str()));
    json::put(&mut f, "chunks", Json::uint(c.chunks.len()));
    json::put(&mut f, "total_chars", Json::uint(c.total_chars));
    json::put(&mut f, "sources", Json::strings(&c.sources));
    let o = Observation::new(c.outline().as_str());
    json::put(&mut f, "outline", Json::str(o.text.as_str()));
    assert(c@.chunks.len() == c.chunks@.len());
    assert(json::field_views(f@) =~= loaded_body(c@)->Object_0);
    Json::Object(f)
}

/// What is told of a run: the answer and what it rests on, and what it cost.
/// The trace stays where it is, for it would fill the caller's own context.
pub open spec fn answer_body(run: trace::RunView, c: context::ContextView) -> json::JsonView {
    json::JsonView::Object(
        seq![
            ("answer"@, json::JsonView::Str(run.answer)),
            ("status"@, json::JsonView::Str(run.status)),
            ("cites"@, api::citation_bodies(run.cites)),
            ("context_id"@, json::JsonView::Str(c.id)),
            ("run_id"@, json::JsonView::Str(run.id)),
            (
                "cost"@,
                json::JsonView::Object(
                    seq![
                        ("model_calls"@, json::JsonView::UInt(run.model_calls as u64)),
                        ("prompt_chars"@, json::JsonView::UInt(run.prompt_chars)),
                        ("corpus_chars"@, json::JsonView::UInt(c.total_chars as u64)),
                        ("elapsed_ms"@, json::JsonView::UInt(run.elapsed_ms)),
                    ],
                ),
            ),
        ],
    )
}

/// What is told of a run.
pub fn show_answer(run: &RunRecord, c: &ContextRecord) -> (r: Json)
    ensures
        r@ == answer_body(run@, c@),
{
    let mut cost: Vec<(String, Json)> = Vec::new();
    json::put(&mut cost, "model_calls", Json::uint(run.model_calls));
    json::put(&mut cost, "prompt_chars", Json::UInt(run.prompt_chars));
    json::put(&mut cost, "corpus_chars", Json::uint(c.total_chars));
    json::put(&mut cost, "elapsed_ms", Json::UInt(run.elapsed_ms));
    assert(json::field_views(cost@) =~= seq![
        ("model_calls"@, json::JsonView::UInt(run@.model_calls as u64)),
        ("prompt_chars"@, json::JsonView::UInt(run@.prompt_chars)),
        ("corpus_chars"@, json::JsonView::UInt(c@.total_chars as u64)),
        ("elapsed_ms"@, json::JsonView::UInt(run@.elapsed_ms)),
    ]);
    let mut f: Vec<(String, Json)> = Vec::new();
    json::put(&mut f, "answer", Json::str(run.answer.as_str()));
    json::put(&mut f, "status", Json::str(run.status.as_str()));
    json::put(&mut f, "cites", api::show_citations(&run.cites));
    json::put(&mut f, "context_id", Json::str(c.id.as_str()));
    json::put(&mut f, "run_id", Json::str(run.id.as_str()));
    json::put(&mut f, "cost", Json::Object(cost));
    assert(json::field_views(f@) =~= answer_body(run@, c@)->Object_0);
    Json::Object(f)
}

// ----------------------------------------------------------------------- laws
/// What carries no id is never answered.
pub proof fn law_a_notice_is_not_answered(j: json::JsonView, version: Seq<char>)
    requires
        j.field("id"@) is None,
    ensures
        asked(Some(j), version) is Ignored,
{
}

/// Nothing that needs a model is begun without one.
pub proof fn law_no_question_without_a_model(
    contexts: Seq<(Seq<char>, context::ContextView)>,
    base: Budget,
    name: Seq<char>,
    args: json::JsonView,
)
    ensures
        !(tool_step(contexts, false, base, name, args) is Ask),
        !(tool_step(contexts, false, base, name, args) is Query),
{
}

/// Whatever a call asks for, what is spent on it is bounded.
pub proof fn law_a_call_cannot_ask_for_an_unbounded_budget(args: json::JsonView, base: Budget)
    ensures
        1 <= budget_of(args, base).max_steps <= 40,
        1 <= budget_of(args, base).max_model_calls <= 2_000,
        budget_of(args, base).max_depth <= 3,
        10 <= budget_of(args, base).wall_secs <= 3_600,
{
    budget::law_a_sanitized_budget_is_bounded(
        api::overlaid(
            base,
            number_or_none(args, "max_steps"@),
            number_or_none(args, "max_model_calls"@),
            number_or_none(args, "max_depth"@),
            long_or_none(args, "wall_secs"@),
        ),
    );
}

/// A loaded context is told by its id, by which it is queried, its size, its
/// sources and its outline as far as an observation shows it.
pub proof fn law_a_loaded_context_is_told(c: context::ContextView)
    ensures
        loaded_body(c).field("context_id"@) == Some(json::JsonView::Str(c.id)),
        loaded_body(c).field("chunks"@) == Some(json::JsonView::UInt(c.chunks.len() as u64)),
        loaded_body(c).field("total_chars"@) == Some(json::JsonView::UInt(c.total_chars as u64)),
        loaded_body(c).field("sources"@) == Some(json::strings_view(c.sources)),
        loaded_body(c).field("outline"@) == Some(json::JsonView::Str(observe::observed(context::outline_of(c.chunks)).text)),
{
    reveal_strlit("context_id");
    reveal_strlit("chunks");
    reveal_strlit("total_chars");
    reveal_strlit("sources");
    reveal_strlit("outline");
    let fields = loaded_body(c)->Object_0;
    assert("sources"@[0] == 's');
    assert("outline"@[0] == 'o');
    json::law_the_first_field_of_a_name_counts(fields, "context_id"@, 0);
    assert("context_id"@.len() != "chunks"@.len());
    json::law_the_first_field_of_a_name_counts(fields, "chunks"@, 1);
    assert("context_id"@.len() != "total_chars"@.len());
    assert("chunks"@.len() != "total_chars"@.len());
    json::law_the_first_field_of_a_name_counts(fields, "total_chars"@, 2);
    assert("context_id"@.len() != "sources"@.len());
    assert("chunks"@.len() != "sources"@.len());
    assert("total_chars"@.len() != "sources"@.len());
    json::law_the_first_field_of_a_name_counts(fields, "sources"@, 3);
    assert("context_id"@.len() != "outline"@.len());
    assert("chunks"@.len() != "outline"@.len());
    assert("total_chars"@.len() != "outline"@.len());
    json::law_the_first_field_of_a_name_counts(fields, "outline"@, 4);
}

/// An answer is told with how the run ended, what it cites, the context and the
/// run that it is of.
pub proof fn law_an_answer_is_told_with_what_it_rests_on(run: trace::RunView, c: context::ContextView)
    ensures
        answer_body(run, c).field("answer"@) == Some(json::JsonView::Str(run.answer)),
        answer_body(run, c).field("status"@) == Some(json::JsonView::Str(run.status)),
        answer_body(run, c).field("cites"@) == Some(api::citation_bodies(run.cites)),
        answer_body(run, c).field("context_id"@) == Some(json::JsonView::Str(c.id)),
        answer_body(run, c).field("run_id"@) == Some(json::JsonView::Str(run.id)),
{
    reveal_strlit("answer");
    reveal_strlit("status");
    reveal_strlit("cites");
    reveal_strlit("context_id");
    reveal_strlit("run_id");
    reveal_strlit("cost");
    let fields = answer_body(run, c)->Object_0;
    assert("answer"@[0] == 'a');
    assert("status"@[0] == 's');
    assert("run_id"@[0] == 'r');
    json::law_the_first_field_of_a_name_counts(fields, "answer"@, 0);
    json::law_the_first_field_of_a_name_counts(fields, "status"@, 1);
    assert("answer"@.len() != "cites"@.len());
    assert("status"@.len() != "cites"@.len());
    json::law_the_first_field_of_a_name_counts(fields, "cites"@, 2);
    assert("answer"@.len() != "context_id"@.len());
    assert("status"@.len() != "context_id"@.len());
    assert("cites"@.len() != "context_id"@.len());
    json::law_the_first_field_of_a_name_counts(fields, "context_id"@, 3);
    assert("cites"@.len() != "run_id"@.len());
    assert("context_id"@.len() != "run_id"@.len());
    json::law_the_first_field_of_a_name_counts(fields, "run_id"@, 4);
    assert("answer"@.len() != "cost"@.len());
    assert("status"@.len() != "cost"@.len());
    assert("cites"@.len() != "cost"@.len());
    assert("context_id"@.len() != "cost"@.len());
    assert("run_id"@.len() != "cost"@.len());
}

/// An answer is told with what it cost.
pub proof fn law_an_answer_is_told_with_its_cost(run: trace::RunView, c: context::ContextView)
    ensures
        answer_body(run, c)->Object_0[5].1.field("model_calls"@) == Some(json::JsonView::UInt(run.model_calls as u64)),
        answer_body(run, c)->Object_0[5].1.field("prompt_chars"@) == Some(json::JsonView::UInt(run.prompt_chars)),
        answer_body(run, c)->Object_0[5].1.field("corpus_chars"@) == Some(json::JsonView::UInt(c.total_chars as u64)),
        answer_body(run, c)->Object_0[5].1.field("elapsed_ms"@) == Some(json::JsonView::UInt(run.elapsed_ms)),
{
    reveal_strlit("model_calls");
    reveal_strlit("prompt_chars");
    reveal_strlit("corpus_chars");
    reveal_strlit("elapsed_ms");
    let fields = answer_body(run, c)->Object_0[5].1->Object_0;
    assert("prompt_chars"@[0] == 'p');
    assert("corpus_chars"@[0] == 'c');
    json::law_the_first_field_of_a_name_counts(fields, "model_calls"@, 0);
    assert("model_calls"@.len() != "prompt_chars"@.len());
    json::law_the_first_field_of_a_name_counts(fields, "prompt_chars"@, 1);
    assert("model_calls"@.len() != "corpus_chars"@.len());
    json::law_the_first_field_of_a_name_counts(fields, "corpus_chars"@, 2);
    assert("model_calls"@.len() != "elapsed_ms"@.len());
    assert("prompt_chars"@.len() != "elapsed_ms"@.len());
    assert("corpus_chars"@.len() != "elapsed_ms"@.len());
    json::law_the_first_field_of_a_name_counts(fields, "elapsed_ms"@, 3);
}

/// A tool is answered under the id of the call.
pub proof fn law_a_result_is_told_under_its_id(id: json::JsonView, result: json::JsonView)
    ensures
        result_of(id, result).field("jsonrpc"@) == Some(json::JsonView::Str("2.0"@)),
        result_of(id, result).field("id"@) == Some(id),
        result_of(id, result).field("result"@) == Some(result),
{
    reveal_strlit("jsonrpc");
    reveal_strlit("id");
    reveal_strlit("result");
    let fields = result_of(id, result)->Object_0;
    json::law_the_first_field_of_a_name_counts(fields, "jsonrpc"@, 0);
    assert("jsonrpc"@.len() != "id"@.len());
    json::law_the_first_field_of_a_name_counts(fields, "id"@, 1);
    assert("jsonrpc"@.len() != "result"@.len());
    assert("id"@.len() != "result"@.len());
    json::law_the_first_field_of_a_name_counts(fields, "result"@, 2);
}

/// The paths of a call are the texts in its list, all of them, in order.
pub proof fn law_every_path_of_a_call_is_read(items: Seq<json::JsonView>)
    ensures
        texts_among(items) == items.filter(|j: json::JsonView| j is Str).map_values(
            |j: json::JsonView| j->Str_0,
        ),
    decreases items.len(),
{
    reveal(Seq::filter);
    let f = |j: json::JsonView| j is Str;
    let g = |j: json::JsonView| j->Str_0;
    if items.len() == 0 {
        assert(texts_among(items) =~= items.filter(f).map_values(g));
    } else {
        let front = items.drop_last();
        law_every_path_of_a_call_is_read(front);
        if f(items.last()) {
            assert(items.filter(f) == front.filter(f).push(items.last()));
            assert(texts_among(items) =~= items.filter(f).map_values(g));
        } else {
            assert(items.filter(f) == front.filter(f));
        }
    }
}

/// A frame with an id is answered or is a call, whatever it asks for: each method
/// with what it is for, and any other with an error that names it.
pub proof fn law_every_request_is_answered(j: json::JsonView, version: Seq<char>)
    requires
        j.field("id"@) is Some,
    ensures
        !(asked(Some(j), version) is Ignored),
        j.field("method"@) == Some(json::JsonView::Str("tools/call"@)) ==> {
            &&& asked(Some(j), version) is Call
            &&& asked(Some(j), version)->id == j.field("id"@)->0
            &&& j.field("params"@) matches Some(params) ==> {
                &&& params.field("name"@) matches Some(json::JsonView::Str(name)) ==> asked(
                    Some(j),
                    version,
                )->name == name
                &&& params.field("arguments"@) matches Some(args) ==> asked(Some(j), version)->args
                    == args
            }
        },
        j.field("method"@) == Some(json::JsonView::Str("tools/list"@)) ==> asked(Some(j), version)
            == FrameView::Answer(
            result_of(
                j.field("id"@)->0,
                json::JsonView::Object(seq![("tools"@, json::JsonView::Array(tools()))]),
            ),
        ),
        j.field("method"@) == Some(json::JsonView::Str("ping"@)) ==> asked(Some(j), version)
            == FrameView::Answer(result_of(j.field("id"@)->0, json::JsonView::Object(seq![]))),
        j.field("method"@) == Some(json::JsonView::Str("initialize"@)) ==> asked(
            Some(j),
            version,
        ) == FrameView::Answer(result_of(j.field("id"@)->0, introduction(version))),
{
    reveal_strlit("tools/call");
    reveal_strlit("tools/list");
    reveal_strlit("ping");
    reveal_strlit("initialize");
    assert("tools/call"@[6] == 'c' && "tools/list"@[6] == 'l' && "initialize"@[6] == 'l');
    assert("tools/list"@[0] == 't' && "initialize"@[0] == 'i' && "tools/call"@[0] == 't');
    assert("ping"@.len() == 4);
}

proof fn lemma_tool_names_differ()
    ensures
        "contexts"@ != "load"@,
        "contexts"@ != "grep"@,
        "contexts"@ != "peek"@,
        "contexts"@ != "query"@,
        "contexts"@ != "ask"@,
        "load"@ != "grep"@,
        "load"@ != "peek"@,
        "load"@ != "query"@,
        "load"@ != "ask"@,
        "grep"@ != "peek"@,
        "grep"@ != "query"@,
        "grep"@ != "ask"@,
        "peek"@ != "query"@,
        "peek"@ != "ask"@,
        "query"@ != "ask"@,
{
    reveal_strlit("contexts");
    reveal_strlit("load");
    reveal_strlit("grep");
    reveal_strlit("peek");
    reveal_strlit("query");
    reveal_strlit("ask");
    assert("contexts"@.len() == 8 && "query"@.len() == 5 && "ask"@.len() == 3);
    assert("load"@.len() == 4 && "grep"@.len() == 4 && "peek"@.len() == 4);
    assert("load"@[0] == 'l' && "grep"@[0] == 'g' && "peek"@[0] == 'p');
}

/// A call that looks, in a context that is held, shows what it asks for: the
/// hits of that pattern, or that chunk from that offset.
pub proof fn law_a_call_that_looks_shows_what_it_asks_for(
    contexts: Seq<(Seq<char>, context::ContextView)>,
    has_host: bool,
    base: Budget,
    args: json::JsonView,
    id: Seq<char>,
    c: context::ContextView,
    pattern: Seq<char>,
    chunk: u64,
)
    requires
        args.field("context_id"@) == Some(json::JsonView::Str(id)),
        shelf::got(contexts, id) == Some(c),
        chunk <= usize::MAX,
    ensures
        args.field("pattern"@) == Some(json::JsonView::Str(pattern)) && args.field("max"@) is None
            && args.field("context"@) is None ==> tool_step(
            contexts,
            has_host,
            base,
            "grep"@,
            args,
        ) == ToolView::Done(
            api::observation_body(
                observe::observed(observe::grep_outcome(c.chunks, pattern, None, None)),
            ),
        ),
        args.field("chunk"@) == Some(json::JsonView::UInt(chunk)) && args.field("start"@) is None
            && args.field("len"@) is None ==> tool_step(contexts, has_host, base, "peek"@, args)
            == ToolView::Done(
            api::observation_body(
                observe::observed(observe::peek_text(c.chunks, chunk as nat, 0, None)),
            ),
        ),
        tool_step(contexts, has_host, base, "contexts"@, args) == ToolView::Done(
            json::JsonView::Object(
                seq![
                    (
                        "contexts"@,
                        json::JsonView::Array(store::newest_first(store::context_rows(contexts))),
                    ),
                ],
            ),
        ),
{
    lemma_tool_names_differ();
}

/// A question is begun if and only if it asks something, a model is there, what
/// it is about is there, and no policy is asked for; and it is begun as it is,
/// about what it names.
pub proof fn law_a_question_is_begun_unless(
    contexts: Seq<(Seq<char>, context::ContextView)>,
    has_host: bool,
    base: Budget,
    args: json::JsonView,
    query: Seq<char>,
    id: Seq<char>,
)
    requires
        args.field("query"@) == Some(json::JsonView::Str(query)),
        args.field("evidence_policy"@) is None,
    ensures
        args.field("context_id"@) == Some(json::JsonView::Str(id)) ==> (tool_step(
            contexts,
            has_host,
            base,
            "query"@,
            args,
        ) is Query <==> has_host && shelf::got(contexts, id) is Some),
        args.field("context_id"@) == Some(json::JsonView::Str(id)) && has_host && shelf::got(
            contexts,
            id,
        ) is Some ==> tool_step(contexts, has_host, base, "query"@, args) == (ToolView::Query {
            context_id: id,
            query,
            budget: budget_of(args, base),
        }),
        tool_step(contexts, has_host, base, "ask"@, args) is Ask <==> has_host && paths_of(
            args,
        ).len() > 0,
        has_host && paths_of(args).len() > 0 ==> tool_step(contexts, has_host, base, "ask"@, args)
            == (ToolView::Ask { paths: paths_of(args), query, budget: budget_of(args, base) }),
{
    lemma_tool_names_differ();
}

/// A load is of the text that it is given, or else of the paths, under the name
/// that it is given.
pub proof fn law_a_load_is_of_what_it_is_given(
    contexts: Seq<(Seq<char>, context::ContextView)>,
    has_host: bool,
    base: Budget,
    args: json::JsonView,
    name: Seq<char>,
    text: Seq<char>,
)
    requires
        args.field("name"@) == Some(json::JsonView::Str(name)),
    ensures
        args.field("text"@) == Some(json::JsonView::Str(text)) ==> tool_step(
            contexts,
            has_host,
            base,
            "load"@,
            args,
        ) == (ToolView::LoadText { name, text }),
        args.field("text"@) is None && paths_of(args).len() > 0 ==> tool_step(
            contexts,
            has_host,
            base,
            "load"@,
            args,
        ) == (ToolView::LoadPaths { name, paths: paths_of(args) }),
        args.field("text"@) is None && paths_of(args).len() == 0 ==> tool_step(
            contexts,
            has_host,
            base,
            "load"@,
            args,
        ) is Refused,
{
    lemma_tool_names_differ();
}

/// A bound that a call names, within what a node allows, is the one it gets; one
/// that it leaves out is the node's own.
pub proof fn law_a_call_gets_the_budget_it_asks_for(args: json::JsonView, base: Budget, n: u64)
    requires
        n <= usize::MAX,
    ensures
        args.field("max_steps"@) == Some(json::JsonView::UInt(n)) && 1 <= n <= 40 ==> budget_of(
            args,
            base,
        ).max_steps == n,
        args.field("max_model_calls"@) == Some(json::JsonView::UInt(n)) && 1 <= n <= 2_000
            ==> budget_of(args, base).max_model_calls == n,
        args.field("max_depth"@) == Some(json::JsonView::UInt(n)) && n <= 3 ==> budget_of(
            args,
            base,
        ).max_depth == n,
        args.field("wall_secs"@) == Some(json::JsonView::UInt(n)) && 10 <= n <= 3_600 ==> budget_of(
            args,
            base,
        ).wall_secs == n,
        args.field("max_steps"@) is None && 1 <= base.max_steps <= 40 ==> budget_of(
            args,
            base,
        ).max_steps == base.max_steps,
        args.field("max_model_calls"@) is None && 1 <= base.max_model_calls <= 2_000 ==> budget_of(
            args,
            base,
        ).max_model_calls == base.max_model_calls,
        args.field("max_depth"@) is None && base.max_depth <= 3 ==> budget_of(args, base).max_depth
            == base.max_depth,
        args.field("wall_secs"@) is None && 10 <= base.wall_secs <= 3_600 ==> budget_of(
            args,
            base,
        ).wall_secs == base.wall_secs,
{
}

/// What was read makes a context if and only if there is something, it is not too
/// much, and something is said in it.
pub proof fn law_what_was_read_makes_a_context_unless(
    docs: Seq<chunk::DocumentView>,
    skipped: Seq<Seq<char>>,
)
    ensures
        load_refusal(docs, skipped) is None <==> docs.len() > 0 && context::total_chars(docs)
            <= 40_000_000 && context::something_is_said(docs),
{
    context::law_documents_make_a_context_unless(docs, context::target_or_default(None));
}

/// The tools that are offered are those that are served: each has a name, what it
/// is for and what it takes, and says which of its arguments are needed.
pub proof fn law_the_tools_are_those_that_are_served()
    ensures
        tools().len() == 6,
        tool_says(tools()[0], "ask"@, Some(seq!["paths"@, "query"@])),
        tool_says(tools()[1], "load"@, None),
        tool_says(tools()[2], "query"@, Some(seq!["context_id"@, "query"@])),
        tool_says(tools()[3], "grep"@, Some(seq!["context_id"@, "pattern"@])),
        tool_says(tools()[4], "peek"@, Some(seq!["context_id"@, "chunk"@])),
        tool_says(tools()[5], "contexts"@, None),
{
    lemma_tool_says("ask"@, ASK_DESCRIPTION@, ask_arguments(), Some(seq!["paths"@, "query"@]));
    lemma_tool_says("load"@, LOAD_DESCRIPTION@, load_arguments(), None);
    lemma_tool_says(
        "query"@,
        QUERY_DESCRIPTION@,
        query_arguments(),
        Some(seq!["context_id"@, "query"@]),
    );
    lemma_tool_says(
        "grep"@,
        GREP_DESCRIPTION@,
        grep_arguments(),
        Some(seq!["context_id"@, "pattern"@]),
    );
    lemma_tool_says(
        "peek"@,
        PEEK_DESCRIPTION@,
        peek_arguments(),
        Some(seq!["context_id"@, "chunk"@]),
    );
    lemma_tool_says("contexts"@, CONTEXTS_DESCRIPTION@, contexts_arguments(), None);
}

/// A tool has this name, and needs these of its arguments.
pub open spec fn tool_says(
    tool: json::JsonView,
    name: Seq<char>,
    needed: Option<Seq<Seq<char>>>,
) -> bool {
    &&& tool.field("name"@) == Some(json::JsonView::Str(name))
    &&& tool.field("inputSchema"@) matches Some(schema) && schema.field("required"@) == (
    match needed {
        Some(v) => Some(json::strings_view(v)),
        None => None,
    })
}

proof fn lemma_tool_says(
    name: Seq<char>,
    told: Seq<char>,
    arguments: Seq<(Seq<char>, json::JsonView)>,
    needed: Option<Seq<Seq<char>>>,
)
    ensures
        tool_says(tool(name, told, arguments, needed), name, needed),
{
    reveal_strlit("name");
    reveal_strlit("description");
    reveal_strlit("inputSchema");
    reveal_strlit("type");
    reveal_strlit("properties");
    reveal_strlit("required");
    assert("name"@.len() == 4 && "description"@.len() == 11 && "inputSchema"@.len() == 11);
    assert("type"@.len() == 4 && "properties"@.len() == 10 && "required"@.len() == 8);
    assert("description"@[0] == 'd' && "inputSchema"@[0] == 'i');
    let fields = tool(name, told, arguments, needed)->Object_0;
    json::law_the_first_field_of_a_name_counts(fields, "name"@, 0);
    json::law_the_first_field_of_a_name_counts(fields, "inputSchema"@, 2);
    let inner = fields[2].1->Object_0;
    json::law_the_first_field_of_a_name_counts(inner, "required"@, 2);
}

/// What a question must rest on is refused where anything is asked of it, and an
/// empty policy asks nothing.
pub proof fn law_an_empty_policy_asks_nothing(args: json::JsonView, policy: json::JsonView)
    requires
        args.field("evidence_policy"@) == Some(policy),
    ensures
        wants_evidence(args) <==> policy != json::JsonView::Object(
            Seq::<(Seq<char>, json::JsonView)>::empty(),
        ),
{
}

/// A frame that asks for what is not served is told so, with the method it named.
pub proof fn law_an_unknown_method_is_told(
    j: json::JsonView,
    version: Seq<char>,
    method: Seq<char>,
)
    requires
        j.field("id"@) is Some,
        j.field("method"@) == Some(json::JsonView::Str(method)),
        method != "tools/call"@,
        method != "tools/list"@,
        method != "initialize"@,
        method != "ping"@,
    ensures
        asked(Some(j), version) == FrameView::Answer(unknown_method(j.field("id"@)->0, method)),
        unknown_method(j.field("id"@)->0, method).field("id"@) == j.field("id"@),
        unknown_method(j.field("id"@)->0, method).field("error"@) matches Some(e) && e.field(
            "code"@,
        ) == Some(json::JsonView::Number("-32601"@)) && e.field("message"@) == Some(
            json::JsonView::Str("unknown method '"@ + method + "'"@),
        ),
{
    reveal_strlit("jsonrpc");
    reveal_strlit("id");
    reveal_strlit("error");
    reveal_strlit("code");
    reveal_strlit("message");
    assert("jsonrpc"@.len() == 7 && "id"@.len() == 2 && "error"@.len() == 5);
    assert("code"@.len() == 4 && "message"@.len() == 7);
    let fields = unknown_method(j.field("id"@)->0, method)->Object_0;
    json::law_the_first_field_of_a_name_counts(fields, "id"@, 1);
    json::law_the_first_field_of_a_name_counts(fields, "error"@, 2);
    let inner = fields[2].1->Object_0;
    json::law_the_first_field_of_a_name_counts(inner, "code"@, 0);
    json::law_the_first_field_of_a_name_counts(inner, "message"@, 1);
}

/// What came of a call is told as a text, and an error is told as one.
pub proof fn law_what_came_of_a_call_is_told(told: Seq<char>, is_error: bool)
    ensures
        tool_output(told, is_error).field("isError"@) == Some(json::JsonView::Bool(is_error)),
        tool_output(told, is_error).field("content"@) matches Some(json::JsonView::Array(blocks))
            && blocks.len() == 1 && blocks[0].field("type"@) == Some(json::JsonView::Str("text"@))
            && blocks[0].field("text"@) == Some(json::JsonView::Str(told)),
{
    reveal_strlit("content");
    reveal_strlit("isError");
    reveal_strlit("type");
    reveal_strlit("text");
    assert("content"@[0] == 'c' && "isError"@[0] == 'i');
    assert("type"@[1] == 'y' && "text"@[1] == 'e');
    let fields = tool_output(told, is_error)->Object_0;
    json::law_the_first_field_of_a_name_counts(fields, "content"@, 0);
    json::law_the_first_field_of_a_name_counts(fields, "isError"@, 1);
    let inner = fields[0].1->Array_0[0]->Object_0;
    json::law_the_first_field_of_a_name_counts(inner, "type"@, 0);
    json::law_the_first_field_of_a_name_counts(inner, "text"@, 1);
}

/// A call that looks is taken at its word: what it asks for of hits, of lines
/// around them, of an offset and of a length is what it gets.
pub proof fn law_a_call_that_looks_is_taken_at_its_word(
    contexts: Seq<(Seq<char>, context::ContextView)>,
    has_host: bool,
    base: Budget,
    args: json::JsonView,
    id: Seq<char>,
    c: context::ContextView,
    pattern: Seq<char>,
    first: u64,
    second: u64,
    chunk: u64,
)
    requires
        args.field("context_id"@) == Some(json::JsonView::Str(id)),
        shelf::got(contexts, id) == Some(c),
        chunk <= usize::MAX,
        first <= usize::MAX,
        second <= usize::MAX,
    ensures
        args.field("pattern"@) == Some(json::JsonView::Str(pattern)) && args.field("max"@) == Some(
            json::JsonView::UInt(first),
        ) && args.field("context"@) == Some(json::JsonView::UInt(second)) ==> tool_step(
            contexts,
            has_host,
            base,
            "grep"@,
            args,
        ) == ToolView::Done(
            api::observation_body(
                observe::observed(
                    observe::grep_outcome(
                        c.chunks,
                        pattern,
                        Some(first as usize),
                        Some(second as usize),
                    ),
                ),
            ),
        ),
        args.field("chunk"@) == Some(json::JsonView::UInt(chunk)) && args.field("start"@) == Some(
            json::JsonView::UInt(first),
        ) && args.field("len"@) == Some(json::JsonView::UInt(second)) ==> tool_step(
            contexts,
            has_host,
            base,
            "peek"@,
            args,
        ) == ToolView::Done(
            api::observation_body(
                observe::observed(
                    observe::peek_text(
                        c.chunks,
                        chunk as nat,
                        first as nat,
                        Some(second as usize),
                    ),
                ),
            ),
        ),
{
    lemma_tool_names_differ();
}

/// A call is refused where what it needs is not there: a tool that there is not,
/// a context that is not held, a pattern or a chunk that is not named, a question
/// that asks nothing.
pub proof fn law_a_call_is_refused_for_what_it_lacks(
    contexts: Seq<(Seq<char>, context::ContextView)>,
    has_host: bool,
    base: Budget,
    args: json::JsonView,
    name: Seq<char>,
    id: Seq<char>,
)
    ensures
        name != "ask"@ && name != "load"@ && name != "query"@ && name != "grep"@ && name != "peek"@
            && name != "contexts"@ ==> tool_step(contexts, has_host, base, name, args) is Refused,
        args.field("context_id"@) == Some(json::JsonView::Str(id)) && shelf::got(
            contexts,
            id,
        ) is None && (name == "grep"@ || name == "peek"@ || name == "query"@) ==> tool_step(
            contexts,
            has_host,
            base,
            name,
            args,
        ) is Refused,
        args.field("context_id"@) is None && (name == "grep"@ || name == "peek"@ || name
            == "query"@) ==> tool_step(contexts, has_host, base, name, args) is Refused,
        args.field("pattern"@) is None ==> tool_step(
            contexts,
            has_host,
            base,
            "grep"@,
            args,
        ) is Refused,
        args.field("chunk"@) is None ==> tool_step(
            contexts,
            has_host,
            base,
            "peek"@,
            args,
        ) is Refused,
        args.field("query"@) is None ==> tool_step(
            contexts,
            has_host,
            base,
            "query"@,
            args,
        ) is Refused && tool_step(contexts, has_host, base, "ask"@, args) is Refused,
{
    lemma_tool_names_differ();
}

/// What came of a call is told under its id, as the text of the value or of the
/// error, and an error is marked as one.
pub proof fn law_a_call_is_answered_with_what_came_of_it(
    id: json::JsonView,
    v: json::JsonView,
    e: Seq<char>,
)
    ensures
        call_answer(id, Ok(v)).field("id"@) == Some(id),
        call_answer(id, Ok(v)).field("result"@) == Some(
            tool_output(json::pretty_text(json::normal(v)), false),
        ),
        call_answer(id, Err(e)).field("id"@) == Some(id),
        call_answer(id, Err(e)).field("result"@) == Some(
            tool_output(
                json::pretty_text(
                    json::normal(json::JsonView::Object(seq![("error"@, json::JsonView::Str(e))])),
                ),
                true,
            ),
        ),
{
    law_a_result_is_told_under_its_id(
        id,
        tool_output(json::pretty_text(json::normal(v)), false),
    );
    law_a_result_is_told_under_its_id(
        id,
        tool_output(
            json::pretty_text(
                json::normal(json::JsonView::Object(seq![("error"@, json::JsonView::Str(e))])),
            ),
            true,
        ),
    );
}

/// The server says which protocol it speaks, and who it is.
pub proof fn law_the_server_says_who_it_is(version: Seq<char>)
    ensures
        introduction(version).field("protocolVersion"@) == Some(json::JsonView::Str("2024-11-05"@)),
        introduction(version).field("capabilities"@) == Some(json::JsonView::Object(
            seq![("tools"@, json::JsonView::Object(seq![]))],
        )),
        introduction(version).field("serverInfo"@) == Some(json::JsonView::Object(
            seq![
                ("name"@, json::JsonView::Str("ryu-rlm"@)),
                ("version"@, json::JsonView::Str(version)),
            ],
        )),
{
    reveal_strlit("protocolVersion");
    reveal_strlit("capabilities");
    reveal_strlit("serverInfo");
    let fields = introduction(version)->Object_0;
    json::law_the_first_field_of_a_name_counts(fields, "protocolVersion"@, 0);
    assert("protocolVersion"@.len() != "capabilities"@.len());
    json::law_the_first_field_of_a_name_counts(fields, "capabilities"@, 1);
    assert("protocolVersion"@.len() != "serverInfo"@.len());
    assert("capabilities"@.len() != "serverInfo"@.len());
    json::law_the_first_field_of_a_name_counts(fields, "serverInfo"@, 2);
}

} // verus!
