//! The operator vocabulary: everything a planner may do to a context, and the
//! only way any of the corpus ever reaches it.
//!
//! The vocabulary is closed so that every argument can be held against the
//! corpus: chunk 900 of a context of 40 is an error, not an empty result that
//! reads as "nothing there". Each operator is a small JSON value, so a run can
//! be audited without running anything again.
use vstd::prelude::*;
use vstd::string::*;

use crate::context::ContextRecord;
use crate::json;
use crate::json::Json;
use crate::text;

pub use crate::observe::{grep, outline, peek, Observation, MAX_GREP_HITS, MAX_OBSERVATION_CHARS};

verus! {

/// Ceiling on the chunks that one `map` may fan out over.
pub const MAX_MAP_FANOUT: usize = 64;

/// One planner move.
#[derive(Debug, PartialEq)]
pub enum Op {
    /// Show the outline again, of sources with a text in them where one is
    /// given.
    Outline { source: Option<String> },
    /// Read one chunk, or a window inside it.
    Peek { chunk: usize, start: usize, len: Option<usize> },
    /// Search the whole corpus for a regular expression.
    Grep { pattern: String, max: Option<usize>, context: Option<usize> },
    /// Ask one cheap model the same question about each named chunk.
    MapOver { prompt: String, chunks: Vec<usize> },
    /// Run a nested query over a corpus made of the named chunks.
    Recurse { query: String, chunks: Vec<usize> },
    /// Write to the planner's own notes.
    Note { text: String },
    /// Answer, and stop.
    Final { answer: String, cites: Vec<usize> },
}

/// What an operator holds.
pub enum OpView {
    Outline { source: Option<Seq<char>> },
    Peek { chunk: usize, start: usize, len: Option<usize> },
    Grep { pattern: Seq<char>, max: Option<usize>, context: Option<usize> },
    MapOver { prompt: Seq<char>, chunks: Seq<usize> },
    Recurse { query: Seq<char>, chunks: Seq<usize> },
    Note { text: Seq<char> },
    Final { answer: Seq<char>, cites: Seq<usize> },
}

impl View for Op {
    type V = OpView;

    open spec fn view(&self) -> OpView {
        match *self {
            Op::Outline { source } => OpView::Outline {
                source: match source {
                    Some(s) => Some(s@),
                    None => None,
                },
            },
            Op::Peek { chunk, start, len } => OpView::Peek { chunk, start, len },
            Op::Grep { pattern, max, context } => OpView::Grep { pattern: pattern@, max, context },
            Op::MapOver { prompt, chunks } => OpView::MapOver { prompt: prompt@, chunks: chunks@ },
            Op::Recurse { query, chunks } => OpView::Recurse { query: query@, chunks: chunks@ },
            Op::Note { text } => OpView::Note { text: text@ },
            Op::Final { answer, cites } => OpView::Final { answer: answer@, cites: cites@ },
        }
    }
}

impl OpView {
    /// Short label for the trace.
    pub open spec fn label(self) -> Seq<char> {
        match self {
            OpView::Outline { .. } => "outline"@,
            OpView::Peek { .. } => "peek"@,
            OpView::Grep { .. } => "grep"@,
            OpView::MapOver { .. } => "map"@,
            OpView::Recurse { .. } => "recurse"@,
            OpView::Note { .. } => "note"@,
            OpView::Final { .. } => "final"@,
        }
    }
}

/// The first id that is not below `n`.
pub open spec fn first_beyond(ids: Seq<usize>, n: nat) -> Option<usize>
    decreases ids.len(),
{
    if ids.len() == 0 {
        None
    } else if ids[0] >= n {
        Some(ids[0])
    } else {
        first_beyond(ids.skip(1), n)
    }
}

/// The range of the ids of `n` chunks, as a refusal gives it. Without chunks
/// there is no range.
pub open spec fn numbering(n: nat) -> Seq<char> {
    if n == 0 {
        seq![]
    } else {
        ", numbered 0.."@ + text::decimal((n - 1) as nat)
    }
}

/// Why ids do not name chunks of a context of `n`.
pub open spec fn ids_refusal(ids: Seq<usize>, n: nat) -> Option<Seq<char>> {
    if ids.len() == 0 {
        Some("no chunks named; pick ids from the outline"@)
    } else {
        match first_beyond(ids, n) {
            Some(bad) => Some(
                "chunk "@ + text::decimal(bad as nat) + " does not exist (this context has "@
                    + text::decimal(n) + numbering(n) + ")"@,
            ),
            None => None,
        }
    }
}

impl OpView {
    /// Why the operator does not address a context of `n` chunks, or nothing
    /// where it does.
    pub open spec fn refusal(self, n: nat) -> Option<Seq<char>> {
        match self {
            OpView::Peek { chunk, .. } => ids_refusal(seq![chunk], n),
            OpView::MapOver { prompt, chunks } => if text::is_blank(prompt) {
                Some("map needs a prompt to ask of each chunk"@)
            } else if chunks.len() > MAX_MAP_FANOUT {
                Some(
                    "map over "@ + text::decimal(chunks.len()) + " chunks exceeds the "@
                        + text::decimal(MAX_MAP_FANOUT as nat)
                        + " fan-out ceiling; narrow with grep, or recurse on a sub-context"@,
                )
            } else {
                ids_refusal(chunks, n)
            },
            OpView::Recurse { query, chunks } => if text::is_blank(query) {
                Some("recurse needs a query"@)
            } else {
                ids_refusal(chunks, n)
            },
            OpView::Grep { pattern, .. } => if text::is_blank(pattern) {
                Some("grep needs a pattern"@)
            } else {
                None
            },
            OpView::Final { answer, cites } => if text::is_blank(answer) {
                Some("final needs an answer"@)
            } else {
                match first_beyond(cites, n) {
                    Some(bad) => Some(
                        "cited chunk "@ + text::decimal(bad as nat) + " does not exist"@,
                    ),
                    None => None,
                }
            },
            OpView::Outline { .. } | OpView::Note { .. } => None,
        }
    }
}

/// The first id that is not below `n`.
fn find_beyond(ids: &Vec<usize>, n: usize) -> (r: Option<usize>)
    ensures
        r == first_beyond(ids@, n as nat),
{
    let mut i: usize = 0;
    assert(ids@.skip(0) =~= ids@);
    while i < ids.len()
        invariant
            i <= ids@.len(),
            first_beyond(ids@, n as nat) == first_beyond(ids@.skip(i as int), n as nat),
        decreases ids@.len() - i,
    {
        assert(ids@.skip(i as int)[0] == ids@[i as int]);
        assert(ids@.skip(i as int).skip(1) =~= ids@.skip(i as int + 1));
        if ids[i] >= n {
            return Some(ids[i]);
        }
        i = i + 1;
    }
    None
}

/// Do the ids name chunks of a context of `n`?
fn check_ids(ids: &Vec<usize>, n: usize) -> (r: Result<(), String>)
    ensures
        match r {
            Ok(()) => ids_refusal(ids@, n as nat) is None,
            Err(e) => ids_refusal(ids@, n as nat) == Some(e@),
        },
{
    if ids.is_empty() {
        return Err("no chunks named; pick ids from the outline".to_owned());
    }
    match find_beyond(ids, n) {
        Some(bad) => {
            let mut e = "chunk ".to_owned();
            e.append(text::show(bad).as_str());
            e.append(" does not exist (this context has ");
            e.append(text::show(n).as_str());
            if n > 0 {
                let mut range = ", numbered 0..".to_owned();
                range.append(text::show(n - 1).as_str());
                e.append(range.as_str());
            } else {
                assert(e@ + numbering(0) =~= e@);
            }
            e.append(")");
            Err(e)
        },
        None => Ok(()),
    }
}

impl Op {
    /// Short label for the trace.
    pub fn label(&self) -> (r: &'static str)
        ensures
            r@ == self@.label(),
    {
        match self {
            Op::Outline { .. } => "outline",
            Op::Peek { .. } => "peek",
            Op::Grep { .. } => "grep",
            Op::MapOver { .. } => "map",
            Op::Recurse { .. } => "recurse",
            Op::Note { .. } => "note",
            Op::Final { .. } => "final",
        }
    }

    /// Refuses an operator whose arguments do not address this corpus, before
    /// it costs a model call.
    pub fn validate(&self, ctx: &ContextRecord) -> (r: Result<(), String>)
        ensures
            match r {
                Ok(()) => self@.refusal(ctx.chunks@.len()) is None,
                Err(e) => self@.refusal(ctx.chunks@.len()) == Some(e@),
            },
    {
        let n: usize = ctx.chunks.len();
        match self {
            Op::Peek { chunk, .. } => {
                let mut ids: Vec<usize> = Vec::new();
                ids.push(*chunk);
                assert(ids@ =~= seq![*chunk]);
                check_ids(&ids, n)
            },
            Op::MapOver { prompt, chunks } => {
                if text::blank(prompt.as_str()) {
                    return Err("map needs a prompt to ask of each chunk".to_owned());
                }
                if chunks.len() > MAX_MAP_FANOUT {
                    let mut e = "map over ".to_owned();
                    e.append(text::show(chunks.len()).as_str());
                    e.append(" chunks exceeds the ");
                    e.append(text::show(MAX_MAP_FANOUT).as_str());
                    e.append(" fan-out ceiling; narrow with grep, or recurse on a sub-context");
                    return Err(e);
                }
                check_ids(chunks, n)
            },
            Op::Recurse { query, chunks } => {
                if text::blank(query.as_str()) {
                    return Err("recurse needs a query".to_owned());
                }
                check_ids(chunks, n)
            },
            Op::Grep { pattern, .. } => {
                if text::blank(pattern.as_str()) {
                    return Err("grep needs a pattern".to_owned());
                }
                Ok(())
            },
            Op::Final { answer, cites } => {
                if text::blank(answer.as_str()) {
                    return Err("final needs an answer".to_owned());
                }
                match find_beyond(cites, n) {
                    Some(bad) => {
                        let mut e = "cited chunk ".to_owned();
                        e.append(text::show(bad).as_str());
                        e.append(" does not exist");
                        Err(e)
                    },
                    None => Ok(()),
                }
            },
            Op::Outline { .. } => Ok(()),
            Op::Note { .. } => Ok(()),
        }
    }
}

/// An operator that passes addresses chunks that there are, and only those.
pub proof fn law_a_valid_operator_names_real_chunks(op: OpView, n: nat)
    requires
        op.refusal(n) is None,
    ensures
        op matches OpView::Peek { chunk, .. } ==> chunk < n,
        op matches OpView::MapOver { chunks, .. } ==> 0 < chunks.len() <= MAX_MAP_FANOUT && forall|
            i: int,
        |
            0 <= i < chunks.len() ==> #[trigger] chunks[i] < n,
        op matches OpView::Recurse { chunks, .. } ==> 0 < chunks.len() && forall|i: int|
            0 <= i < chunks.len() ==> #[trigger] chunks[i] < n,
        op matches OpView::Final { cites, .. } ==> forall|i: int|
            0 <= i < cites.len() ==> #[trigger] cites[i] < n,
{
    match op {
        OpView::Peek { chunk, .. } => {
            lemma_first_beyond(seq![chunk], n);
            assert(seq![chunk][0] == chunk);
        },
        OpView::MapOver { chunks, .. } => {
            lemma_first_beyond(chunks, n);
        },
        OpView::Recurse { chunks, .. } => {
            lemma_first_beyond(chunks, n);
        },
        OpView::Final { cites, .. } => {
            lemma_first_beyond(cites, n);
        },
        _ => {},
    }
}

proof fn lemma_first_beyond(ids: Seq<usize>, n: nat)
    ensures
        first_beyond(ids, n) is None <==> forall|i: int|
            0 <= i < ids.len() ==> #[trigger] ids[i] < n,
    decreases ids.len(),
{
    if ids.len() > 0 {
        let rest = ids.skip(1);
        lemma_first_beyond(rest, n);
        if first_beyond(ids, n) is None {
            assert forall|i: int| 0 <= i < ids.len() implies #[trigger] ids[i] < n by {
                if i > 0 {
                    assert(rest[i - 1] == ids[i]);
                }
            }
        } else if ids[0] < n {
            let i = choose|i: int| 0 <= i < rest.len() && !(#[trigger] rest[i] < n);
            assert(ids[i + 1] == rest[i]);
        }
    }
}

// ------------------------------------------------------------------ JSON form
/// A field that must be there is not.
pub open spec fn missing(key: Seq<char>) -> Seq<char> {
    "missing field `"@ + key + "`"@
}

/// A number's text that is a negative whole number.
pub open spec fn is_negative(s: Seq<char>) -> bool {
    &&& s.len() > 0
    &&& s[0] == '-'
    &&& text::number(s.skip(1)) is Some
    &&& text::number(s.skip(1))->0 <= u64::MAX
}

/// How a value is named in an error of `serde_json`: a number, a fraction too, by
/// the text that `serde_json` displays for it.
pub open spec fn kind_of(j: json::JsonView) -> Seq<char> {
    match j {
        json::JsonView::Null => "null"@,
        json::JsonView::Bool(b) => "boolean `"@ + (if b {
            "true"@
        } else {
            "false"@
        }) + "`"@,
        json::JsonView::UInt(n) => "integer `"@ + text::decimal(n as nat) + "`"@,
        json::JsonView::Number(s) => (if is_negative(s) {
            "integer `"@
        } else {
            "floating point `"@
        }) + s + "`"@,
        json::JsonView::Str(s) => "string "@ + text::quoted(s),
        json::JsonView::Array(_) => "sequence"@,
        json::JsonView::Object(_) => "map"@,
    }
}

/// A value of another kind stands where `wanted` was due.
pub open spec fn invalid_type(j: json::JsonView, wanted: Seq<char>) -> Seq<char> {
    "invalid type: "@ + kind_of(j) + ", expected "@ + wanted
}

/// A value stands where a machine word was due: a whole number that is none is
/// out of range, anything else is of another kind.
pub open spec fn not_a_word(j: json::JsonView) -> Seq<char> {
    let whole = match j {
        json::JsonView::UInt(_) => true,
        json::JsonView::Number(s) => is_negative(s),
        _ => false,
    };
    if whole {
        "invalid value: "@ + kind_of(j) + ", expected usize"@
    } else {
        invalid_type(j, "usize"@)
    }
}

/// A string field, if it is there.
pub open spec fn str_field(j: json::JsonView, key: Seq<char>) -> Result<
    Option<Seq<char>>,
    Seq<char>,
> {
    match j.field(key) {
        None => Ok(None),
        Some(json::JsonView::Str(s)) => Ok(Some(s)),
        Some(v) => Err(invalid_type(v, "a string"@)),
    }
}

/// A string field that may be null.
pub open spec fn opt_str_field(j: json::JsonView, key: Seq<char>) -> Result<
    Option<Seq<char>>,
    Seq<char>,
> {
    match j.field(key) {
        Some(json::JsonView::Null) => Ok(None),
        _ => str_field(j, key),
    }
}

/// A value as a machine word, if it is one.
pub open spec fn as_word(j: json::JsonView) -> Option<usize> {
    match j {
        json::JsonView::UInt(n) => if n <= usize::MAX {
            Some(n as usize)
        } else {
            None
        },
        _ => None,
    }
}

/// A number field, if it is there.
pub open spec fn word_field(j: json::JsonView, key: Seq<char>) -> Result<
    Option<usize>,
    Seq<char>,
> {
    match j.field(key) {
        None => Ok(None),
        Some(v) => match as_word(v) {
            Some(n) => Ok(Some(n)),
            None => Err(not_a_word(v)),
        },
    }
}

/// A number field that may be null.
pub open spec fn opt_word_field(j: json::JsonView, key: Seq<char>) -> Result<
    Option<usize>,
    Seq<char>,
> {
    match j.field(key) {
        Some(json::JsonView::Null) => Ok(None),
        _ => word_field(j, key),
    }
}

/// Values as machine words, or what is wrong with the first that is none.
pub open spec fn as_words(items: Seq<json::JsonView>) -> Result<Seq<usize>, Seq<char>>
    decreases items.len(),
{
    if items.len() == 0 {
        Ok(seq![])
    } else {
        match (as_words(items.drop_last()), as_word(items.last())) {
            (Ok(v), Some(n)) => Ok(v.push(n)),
            (Err(e), _) => Err(e),
            (Ok(_), None) => Err(not_a_word(items.last())),
        }
    }
}

/// A field of numbers, if it is there.
pub open spec fn words_field(j: json::JsonView, key: Seq<char>) -> Result<
    Option<Seq<usize>>,
    Seq<char>,
> {
    match j.field(key) {
        None => Ok(None),
        Some(json::JsonView::Array(items)) => match as_words(items) {
            Ok(v) => Ok(Some(v)),
            Err(e) => Err(e),
        },
        Some(v) => Err(invalid_type(v, "a sequence"@)),
    }
}

/// What stands for a field that may be left out.
pub open spec fn or_else<T>(found: Option<T>, absent: T) -> T {
    match found {
        Some(v) => v,
        None => absent,
    }
}

/// The operator with the tag, read from the fields of `j`. A field of the
/// wrong kind is found before one that is missing, and of several the first by
/// name.
pub open spec fn tagged_op(tag: Seq<char>, j: json::JsonView) -> Result<OpView, Seq<char>> {
    if tag == "outline"@ {
        match opt_str_field(j, "source"@) {
            Ok(source) => Ok(OpView::Outline { source }),
            Err(e) => Err(e),
        }
    } else if tag == "peek"@ {
        match (word_field(j, "chunk"@), opt_word_field(j, "len"@), word_field(j, "start"@)) {
            (Ok(Some(chunk)), Ok(len), Ok(start)) => Ok(
                OpView::Peek { chunk, start: or_else(start, 0), len },
            ),
            (Ok(None), Ok(_), Ok(_)) => Err(missing("chunk"@)),
            (Err(e), _, _) => Err(e),
            (_, Err(e), _) => Err(e),
            (_, _, Err(e)) => Err(e),
        }
    } else if tag == "grep"@ {
        match (
            opt_word_field(j, "context"@),
            opt_word_field(j, "max"@),
            str_field(j, "pattern"@),
        ) {
            (Ok(context), Ok(max), Ok(Some(pattern))) => Ok(
                OpView::Grep { pattern, max, context },
            ),
            (Ok(_), Ok(_), Ok(None)) => Err(missing("pattern"@)),
            (Err(e), _, _) => Err(e),
            (_, Err(e), _) => Err(e),
            (_, _, Err(e)) => Err(e),
        }
    } else if tag == "map"@ {
        match (words_field(j, "chunks"@), str_field(j, "prompt"@)) {
            (Ok(Some(chunks)), Ok(Some(prompt))) => Ok(OpView::MapOver { prompt, chunks }),
            (Err(e), _) => Err(e),
            (_, Err(e)) => Err(e),
            (_, Ok(None)) => Err(missing("prompt"@)),
            (Ok(None), _) => Err(missing("chunks"@)),
        }
    } else if tag == "recurse"@ {
        match (words_field(j, "chunks"@), str_field(j, "query"@)) {
            (Ok(Some(chunks)), Ok(Some(query))) => Ok(OpView::Recurse { query, chunks }),
            (Err(e), _) => Err(e),
            (_, Err(e)) => Err(e),
            (_, Ok(None)) => Err(missing("query"@)),
            (Ok(None), _) => Err(missing("chunks"@)),
        }
    } else if tag == "note"@ {
        match str_field(j, "text"@) {
            Ok(Some(text)) => Ok(OpView::Note { text }),
            Ok(None) => Err(missing("text"@)),
            Err(e) => Err(e),
        }
    } else if tag == "final"@ {
        match (str_field(j, "answer"@), words_field(j, "cites"@)) {
            (Ok(Some(answer)), Ok(cites)) => Ok(
                OpView::Final { answer, cites: or_else(cites, seq![]) },
            ),
            (Ok(None), Ok(_)) => Err(missing("answer"@)),
            (Err(e), _) => Err(e),
            (_, Err(e)) => Err(e),
        }
    } else {
        Err(
            "unknown variant `"@ + tag
                + "`, expected one of `outline`, `peek`, `grep`, `map`, `recurse`, `note`, `final`"@,
        )
    }
}

/// The operator that a JSON value stands for. Only an object with a known
/// `op` stands for one: a guess would make a typing slip some other operator.
pub open spec fn op_of(j: json::JsonView) -> Result<OpView, Seq<char>> {
    match j {
        json::JsonView::Object(_) => match j.field("op"@) {
            None => Err(missing("op"@)),
            Some(json::JsonView::Str(tag)) => tagged_op(tag, j),
            Some(v) => Err(invalid_type(v, "variant identifier"@)),
        },
        _ => Err(invalid_type(j, "internally tagged enum Op"@)),
    }
}

/// What a planner is told of a value that stands for no operator.
pub open spec fn not_an_operator(why: Seq<char>) -> Seq<char> {
    "not a valid operator ("@ + why
        + "). Reply with one JSON object using an \"op\" of outline, peek, grep, map, recurse, note or final."@
}

fn show_missing(key: &str) -> (r: String)
    ensures
        r@ == missing(key@),
{
    let mut e = "missing field `".to_owned();
    e.append(key);
    e.append("`");
    e
}

fn negative(s: &str) -> (b: bool)
    ensures
        b == is_negative(s@),
{
    if s.unicode_len() == 0 || s.get_char(0) != '-' {
        return false;
    }
    let n = s.unicode_len();
    let rest = s.substring_char(1, n);
    assert(rest@ =~= s@.skip(1));
    text::parse_u64(rest).is_some()
}

fn show_kind(j: &Json) -> (r: String)
    ensures
        r@ == kind_of(j@),
{
    match j {
        Json::Null => "null".to_owned(),
        Json::Bool(b) => {
            let mut r = "boolean `".to_owned();
            if *b {
                r.append("true");
            } else {
                r.append("false");
            }
            r.append("`");
            r
        },
        Json::UInt(n) => {
            let mut r = "integer `".to_owned();
            r.append(text::show_u64(*n).as_str());
            r.append("`");
            r
        },
        Json::Number(s) => {
            let mut r = if negative(s.as_str()) {
                "integer `".to_owned()
            } else {
                "floating point `".to_owned()
            };
            r.append(s.as_str());
            r.append("`");
            r
        },
        Json::Str(s) => {
            let mut r = "string ".to_owned();
            r.append(text::quote(s.as_str()).as_str());
            r
        },
        Json::Array(_) => "sequence".to_owned(),
        Json::Object(_) => "map".to_owned(),
    }
}

fn show_invalid_type(j: &Json, wanted: &str) -> (r: String)
    ensures
        r@ == invalid_type(j@, wanted@),
{
    let mut e = "invalid type: ".to_owned();
    e.append(show_kind(j).as_str());
    e.append(", expected ");
    e.append(wanted);
    e
}

fn show_not_a_word(j: &Json) -> (r: String)
    ensures
        r@ == not_a_word(j@),
{
    let whole = match j {
        Json::UInt(_) => true,
        Json::Number(s) => negative(s.as_str()),
        _ => false,
    };
    if whole {
        let mut e = "invalid value: ".to_owned();
        e.append(show_kind(j).as_str());
        e.append(", expected usize");
        e
    } else {
        show_invalid_type(j, "usize")
    }
}

/// What is behind an optional text, or the error beside it.
pub open spec fn text_result(r: Result<Option<String>, String>) -> Result<
    Option<Seq<char>>,
    Seq<char>,
> {
    match r {
        Ok(Some(s)) => Ok(Some(s@)),
        Ok(None) => Ok(None),
        Err(e) => Err(e@),
    }
}

/// What is behind an optional word, or the error beside it.
pub open spec fn word_result(r: Result<Option<usize>, String>) -> Result<
    Option<usize>,
    Seq<char>,
> {
    match r {
        Ok(n) => Ok(n),
        Err(e) => Err(e@),
    }
}

/// What is behind optional words, or the error beside them.
pub open spec fn words_result(r: Result<Option<Vec<usize>>, String>) -> Result<
    Option<Seq<usize>>,
    Seq<char>,
> {
    match r {
        Ok(Some(v)) => Ok(Some(v@)),
        Ok(None) => Ok(None),
        Err(e) => Err(e@),
    }
}

fn read_str(j: &Json, key: &str) -> (r: Result<Option<String>, String>)
    ensures
        text_result(r) == str_field(j@, key@),
{
    match j.get(key) {
        None => Ok(None),
        Some(v) => match v.as_str() {
            Some(s) => Ok(Some(s.to_owned())),
            None => Err(show_invalid_type(v, "a string")),
        },
    }
}

fn read_opt_str(j: &Json, key: &str) -> (r: Result<Option<String>, String>)
    ensures
        text_result(r) == opt_str_field(j@, key@),
{
    match j.get(key) {
        Some(Json::Null) => Ok(None),
        _ => read_str(j, key),
    }
}

fn word_of(j: &Json) -> (r: Option<usize>)
    ensures
        r == as_word(j@),
{
    match j.as_u64() {
        Some(n) => if n <= usize::MAX as u64 {
            Some(n as usize)
        } else {
            None
        },
        None => None,
    }
}

fn read_word(j: &Json, key: &str) -> (r: Result<Option<usize>, String>)
    ensures
        word_result(r) == word_field(j@, key@),
{
    match j.get(key) {
        None => Ok(None),
        Some(v) => match word_of(v) {
            Some(n) => Ok(Some(n)),
            None => Err(show_not_a_word(v)),
        },
    }
}

fn read_opt_word(j: &Json, key: &str) -> (r: Result<Option<usize>, String>)
    ensures
        word_result(r) == opt_word_field(j@, key@),
{
    match j.get(key) {
        Some(Json::Null) => Ok(None),
        _ => read_word(j, key),
    }
}

/// An error among the first values is the error of all.
proof fn lemma_first_error(items: Seq<json::JsonView>, k: int)
    requires
        0 <= k <= items.len(),
        as_words(items.take(k)) is Err,
    ensures
        as_words(items) == as_words(items.take(k)),
    decreases items.len() - k,
{
    if k == items.len() {
        assert(items.take(k) =~= items);
    } else {
        assert(items.take(k + 1).drop_last() =~= items.take(k));
        lemma_first_error(items, k + 1);
    }
}

fn read_words(j: &Json, key: &str) -> (r: Result<Option<Vec<usize>>, String>)
    ensures
        words_result(r) == words_field(j@, key@),
{
    match j.get(key) {
        None => Ok(None),
        Some(Json::Array(items)) => {
            let ghost v = json::item_views(items@);
            proof {
                json::lemma_item_views(items@);
                assert(v.take(0) =~= seq![]);
            }
            let mut out: Vec<usize> = Vec::new();
            let mut i: usize = 0;
            assert(out@ =~= seq![]);
            while i < items.len()
                invariant
                    i <= items@.len(),
                    v == json::item_views(items@),
                    v.len() == items@.len(),
                    forall|k: int|
                        0 <= k < items@.len() ==> #[trigger] v[k] == json::json_view(items@[k]),
                    as_words(v.take(i as int)) == Ok::<Seq<usize>, Seq<char>>(out@),
                    j@.field(key@) == Some(json::JsonView::Array(v)),
                decreases items@.len() - i,
            {
                assert(v.take(i as int + 1).drop_last() =~= v.take(i as int));
                match word_of(&items[i]) {
                    Some(n) => {
                        out.push(n);
                    },
                    None => {
                        proof {
                            lemma_first_error(v, i as int + 1);
                        }
                        return Err(show_not_a_word(&items[i]));
                    },
                }
                i = i + 1;
            }
            assert(v.take(i as int) =~= v);
            Ok(Some(out))
        },
        Some(v) => Err(show_invalid_type(v, "a sequence")),
    }
}

/// What an operator read from JSON holds, or why there is none.
pub open spec fn op_result(r: Result<Op, String>) -> Result<OpView, Seq<char>> {
    match r {
        Ok(op) => Ok(op@),
        Err(e) => Err(e@),
    }
}

fn read_peek(j: &Json) -> (r: Result<Op, String>)
    ensures
        op_result(r) == tagged_op("peek"@, j@),
{
    proof {
        lemma_tags_differ();
    }
    match (read_word(j, "chunk"), read_opt_word(j, "len"), read_word(j, "start")) {
        (Err(e), _, _) => Err(e),
        (_, Err(e), _) => Err(e),
        (_, _, Err(e)) => Err(e),
        (Ok(None), Ok(_), Ok(_)) => Err(show_missing("chunk")),
        (Ok(Some(chunk)), Ok(len), Ok(start)) => {
            let start: usize = match start {
                Some(n) => n,
                None => 0,
            };
            Ok(Op::Peek { chunk, start, len })
        },
    }
}

fn read_grep(j: &Json) -> (r: Result<Op, String>)
    ensures
        op_result(r) == tagged_op("grep"@, j@),
{
    proof {
        lemma_tags_differ();
    }
    match (read_opt_word(j, "context"), read_opt_word(j, "max"), read_str(j, "pattern")) {
        (Err(e), _, _) => Err(e),
        (_, Err(e), _) => Err(e),
        (_, _, Err(e)) => Err(e),
        (Ok(_), Ok(_), Ok(None)) => Err(show_missing("pattern")),
        (Ok(context), Ok(max), Ok(Some(pattern))) => Ok(Op::Grep { pattern, max, context }),
    }
}

fn read_map(j: &Json) -> (r: Result<Op, String>)
    ensures
        op_result(r) == tagged_op("map"@, j@),
{
    proof {
        lemma_tags_differ();
    }
    match (read_words(j, "chunks"), read_str(j, "prompt")) {
        (Err(e), _) => Err(e),
        (_, Err(e)) => Err(e),
        (_, Ok(None)) => Err(show_missing("prompt")),
        (Ok(None), _) => Err(show_missing("chunks")),
        (Ok(Some(chunks)), Ok(Some(prompt))) => Ok(Op::MapOver { prompt, chunks }),
    }
}

fn read_recurse(j: &Json) -> (r: Result<Op, String>)
    ensures
        op_result(r) == tagged_op("recurse"@, j@),
{
    proof {
        lemma_tags_differ();
    }
    match (read_words(j, "chunks"), read_str(j, "query")) {
        (Err(e), _) => Err(e),
        (_, Err(e)) => Err(e),
        (_, Ok(None)) => Err(show_missing("query")),
        (Ok(None), _) => Err(show_missing("chunks")),
        (Ok(Some(chunks)), Ok(Some(query))) => Ok(Op::Recurse { query, chunks }),
    }
}

fn read_final(j: &Json) -> (r: Result<Op, String>)
    ensures
        op_result(r) == tagged_op("final"@, j@),
{
    proof {
        lemma_tags_differ();
    }
    match (read_str(j, "answer"), read_words(j, "cites")) {
        (Err(e), _) => Err(e),
        (_, Err(e)) => Err(e),
        (Ok(None), Ok(_)) => Err(show_missing("answer")),
        (Ok(Some(answer)), Ok(cites)) => {
            let cites: Vec<usize> = match cites {
                Some(v) => v,
                None => {
                    let none: Vec<usize> = Vec::new();
                    assert(none@ =~= seq![]);
                    none
                },
            };
            Ok(Op::Final { answer, cites })
        },
    }
}

/// The operator with the tag, read from the fields of `j`.
fn read_tagged(tag: &str, j: &Json) -> (r: Result<Op, String>)
    ensures
        op_result(r) == tagged_op(tag@, j@),
{
    if text::same(tag, "outline") {
        match read_opt_str(j, "source") {
            Ok(source) => Ok(Op::Outline { source }),
            Err(e) => Err(e),
        }
    } else if text::same(tag, "peek") {
        read_peek(j)
    } else if text::same(tag, "grep") {
        read_grep(j)
    } else if text::same(tag, "map") {
        read_map(j)
    } else if text::same(tag, "recurse") {
        read_recurse(j)
    } else if text::same(tag, "note") {
        match read_str(j, "text") {
            Ok(Some(text)) => Ok(Op::Note { text }),
            Ok(None) => Err(show_missing("text")),
            Err(e) => Err(e),
        }
    } else if text::same(tag, "final") {
        read_final(j)
    } else {
        let mut e = "unknown variant `".to_owned();
        e.append(tag);
        e.append(
            "`, expected one of `outline`, `peek`, `grep`, `map`, `recurse`, `note`, `final`",
        );
        Err(e)
    }
}

/// Reads one planner move from its `{"op": …}` form, and from no other.
pub fn parse_op(value: &Json) -> (r: Result<Op, String>)
    ensures
        match r {
            Ok(op) => op_of(value@) == Ok::<OpView, Seq<char>>(op@),
            Err(e) => op_of(value@) is Err && e@ == not_an_operator(op_of(value@)->Err_0),
        },
{
    let got = match value {
        Json::Object(_) => match value.get("op") {
            None => Err(show_missing("op")),
            Some(Json::Str(tag)) => read_tagged(tag.as_str(), value),
            Some(v) => Err(show_invalid_type(v, "variant identifier")),
        },
        _ => Err(show_invalid_type(value, "internally tagged enum Op")),
    };
    match got {
        Ok(op) => Ok(op),
        Err(why) => {
            let mut e = "not a valid operator (".to_owned();
            e.append(why.as_str());
            e.append(
                "). Reply with one JSON object using an \"op\" of outline, peek, grep, map, recurse, note or final.",
            );
            Err(e)
        },
    }
}

/// The JSON form of an operator.
pub open spec fn op_json(op: OpView) -> json::JsonView {
    json::JsonView::Object(
        match op {
            OpView::Outline { source } => seq![
                ("op"@, json::JsonView::Str("outline"@)),
                (
                    "source"@,
                    match source {
                        Some(s) => json::JsonView::Str(s),
                        None => json::JsonView::Null,
                    },
                ),
            ],
            OpView::Peek { chunk, start, len } => seq![
                ("op"@, json::JsonView::Str("peek"@)),
                ("chunk"@, json::JsonView::UInt(chunk as u64)),
                ("start"@, json::JsonView::UInt(start as u64)),
                ("len"@, json::opt_uint_view(len)),
            ],
            OpView::Grep { pattern, max, context } => seq![
                ("op"@, json::JsonView::Str("grep"@)),
                ("pattern"@, json::JsonView::Str(pattern)),
                ("max"@, json::opt_uint_view(max)),
                ("context"@, json::opt_uint_view(context)),
            ],
            OpView::MapOver { prompt, chunks } => seq![
                ("op"@, json::JsonView::Str("map"@)),
                ("prompt"@, json::JsonView::Str(prompt)),
                ("chunks"@, json::uints_view(chunks)),
            ],
            OpView::Recurse { query, chunks } => seq![
                ("op"@, json::JsonView::Str("recurse"@)),
                ("query"@, json::JsonView::Str(query)),
                ("chunks"@, json::uints_view(chunks)),
            ],
            OpView::Note { text } => seq![
                ("op"@, json::JsonView::Str("note"@)),
                ("text"@, json::JsonView::Str(text)),
            ],
            OpView::Final { answer, cites } => seq![
                ("op"@, json::JsonView::Str("final"@)),
                ("answer"@, json::JsonView::Str(answer)),
                ("cites"@, json::uints_view(cites)),
            ],
        },
    )
}

impl Op {
    /// The operator in its `{"op": …}` form.
    pub fn to_json(&self) -> (r: Json)
        ensures
            r@ == op_json(self@),
    {
        let mut f: Vec<(String, Json)> = Vec::new();
        json::put(&mut f, "op", Json::str(self.label()));
        match self {
            Op::Outline { source } => {
                json::put(&mut f, "source", Json::opt_str(source));
            },
            Op::Peek { chunk, start, len } => {
                json::put(&mut f, "chunk", Json::uint(*chunk));
                json::put(&mut f, "start", Json::uint(*start));
                json::put(&mut f, "len", Json::opt_uint(*len));
            },
            Op::Grep { pattern, max, context } => {
                json::put(&mut f, "pattern", Json::str(pattern.as_str()));
                json::put(&mut f, "max", Json::opt_uint(*max));
                json::put(&mut f, "context", Json::opt_uint(*context));
            },
            Op::MapOver { prompt, chunks } => {
                json::put(&mut f, "prompt", Json::str(prompt.as_str()));
                json::put(&mut f, "chunks", Json::uints(chunks));
            },
            Op::Recurse { query, chunks } => {
                json::put(&mut f, "query", Json::str(query.as_str()));
                json::put(&mut f, "chunks", Json::uints(chunks));
            },
            Op::Note { text } => {
                json::put(&mut f, "text", Json::str(text.as_str()));
            },
            Op::Final { answer, cites } => {
                json::put(&mut f, "answer", Json::str(answer.as_str()));
                json::put(&mut f, "cites", Json::uints(cites));
            },
        }
        assert(json::field_views(f@) =~= op_json(self@)->Object_0);
        Json::Object(f)
    }
}

/// Numbers written out are read back.
proof fn lemma_words_read_back(v: Seq<usize>)
    ensures
        as_words(Seq::new(v.len(), |k: int| json::JsonView::UInt(v[k] as u64))) == Ok::<
            Seq<usize>,
            Seq<char>,
        >(v),
    decreases v.len(),
{
    let items = Seq::new(v.len(), |k: int| json::JsonView::UInt(v[k] as u64));
    if v.len() == 0 {
        assert(v =~= seq![]);
    } else {
        let front = v.drop_last();
        lemma_words_read_back(front);
        assert(items.drop_last() =~= Seq::new(
            front.len(),
            |k: int| json::JsonView::UInt(front[k] as u64),
        ));
        assert(front.push(v.last()) =~= v);
    }
}

/// Looks a name up among a handful of fields.
proof fn lemma_lookup(fields: Seq<(Seq<char>, json::JsonView)>, key: Seq<char>, at: int)
    requires
        0 <= at < fields.len(),
        fields[at].0 == key,
        forall|i: int| 0 <= i < at ==> (#[trigger] fields[i]).0 != key,
    ensures
        json::lookup(fields, key) == Some(fields[at].1),
    decreases at,
{
    if at > 0 {
        let rest = fields.skip(1);
        assert forall|i: int| 0 <= i < at - 1 implies (#[trigger] rest[i]).0 != key by {
            assert(rest[i] == fields[i + 1]);
        }
        lemma_lookup(rest, key, at - 1);
    }
}

/// The names of the fields of an operator differ.
proof fn lemma_names_differ()
    ensures
        "op"@ != "source"@,
        "op"@ != "chunk"@,
        "op"@ != "start"@,
        "op"@ != "len"@,
        "op"@ != "pattern"@,
        "op"@ != "max"@,
        "op"@ != "context"@,
        "op"@ != "prompt"@,
        "op"@ != "chunks"@,
        "op"@ != "query"@,
        "op"@ != "text"@,
        "op"@ != "answer"@,
        "op"@ != "cites"@,
        "chunk"@ != "start"@,
        "chunk"@ != "len"@,
        "start"@ != "len"@,
        "pattern"@ != "max"@,
        "pattern"@ != "context"@,
        "max"@ != "context"@,
        "prompt"@ != "chunks"@,
        "query"@ != "chunks"@,
        "answer"@ != "cites"@,
{
    reveal_strlit("op");
    reveal_strlit("source");
    reveal_strlit("chunk");
    reveal_strlit("start");
    reveal_strlit("len");
    reveal_strlit("pattern");
    reveal_strlit("max");
    reveal_strlit("context");
    reveal_strlit("prompt");
    reveal_strlit("chunks");
    reveal_strlit("query");
    reveal_strlit("text");
    reveal_strlit("answer");
    reveal_strlit("cites");
    assert("op"@.len() == 2);
    assert("max"@.len() == 3 && "len"@.len() == 3 && "text"@.len() == 4);
    assert("chunk"@.len() == 5 && "start"@.len() == 5 && "query"@.len() == 5);
    assert("cites"@.len() == 5 && "source"@.len() == 6 && "prompt"@.len() == 6);
    assert("chunks"@.len() == 6 && "answer"@.len() == 6);
    assert("pattern"@.len() == 7 && "context"@.len() == 7);
    assert("chunk"@[0] != "start"@[0]);
    assert("pattern"@[0] != "context"@[0]);
    assert("prompt"@[0] != "chunks"@[0]);
}

/// The tags of the operators differ.
proof fn lemma_tags_differ()
    ensures
        "peek"@ != "outline"@,
        "grep"@ != "outline"@,
        "grep"@ != "peek"@,
        "map"@ != "outline"@,
        "map"@ != "peek"@,
        "map"@ != "grep"@,
        "recurse"@ != "outline"@,
        "recurse"@ != "peek"@,
        "recurse"@ != "grep"@,
        "recurse"@ != "map"@,
        "note"@ != "outline"@,
        "note"@ != "peek"@,
        "note"@ != "grep"@,
        "note"@ != "map"@,
        "note"@ != "recurse"@,
        "final"@ != "outline"@,
        "final"@ != "peek"@,
        "final"@ != "grep"@,
        "final"@ != "map"@,
        "final"@ != "recurse"@,
        "final"@ != "note"@,
{
    reveal_strlit("outline");
    reveal_strlit("peek");
    reveal_strlit("grep");
    reveal_strlit("map");
    reveal_strlit("recurse");
    reveal_strlit("note");
    reveal_strlit("final");
    assert("peek"@[0] == 'p');
    assert("map"@.len() == 3);
    assert("grep"@[0] == 'g');
    assert("note"@[0] == 'n');
    assert("outline"@[0] == 'o');
    assert("recurse"@[0] == 'r');
}

/// Every operator survives its JSON form: what is written is read back as the
/// same operator.
pub proof fn law_every_operator_round_trips(op: OpView)
    ensures
        op_of(op_json(op)) == Ok::<OpView, Seq<char>>(op),
{
    lemma_names_differ();
    lemma_tags_differ();
    let f = op_json(op)->Object_0;
    lemma_lookup(f, "op"@, 0);
    match op {
        OpView::Outline { source } => {
            lemma_lookup(f, "source"@, 1);
        },
        OpView::Peek { chunk, start, len } => {
            lemma_lookup(f, "chunk"@, 1);
            lemma_lookup(f, "start"@, 2);
            lemma_lookup(f, "len"@, 3);
        },
        OpView::Grep { pattern, max, context } => {
            lemma_lookup(f, "pattern"@, 1);
            lemma_lookup(f, "max"@, 2);
            lemma_lookup(f, "context"@, 3);
        },
        OpView::MapOver { prompt, chunks } => {
            lemma_lookup(f, "prompt"@, 1);
            lemma_lookup(f, "chunks"@, 2);
            lemma_words_read_back(chunks);
        },
        OpView::Recurse { query, chunks } => {
            lemma_lookup(f, "query"@, 1);
            lemma_lookup(f, "chunks"@, 2);
            lemma_words_read_back(chunks);
        },
        OpView::Note { text } => {
            lemma_lookup(f, "text"@, 1);
        },
        OpView::Final { answer, cites } => {
            lemma_lookup(f, "answer"@, 1);
            lemma_lookup(f, "cites"@, 2);
            lemma_words_read_back(cites);
        },
    }
}

/// What is no known operator is none: a name off the list is refused, never
/// taken for a neighbour.
pub proof fn law_an_unknown_name_is_refused(j: json::JsonView, tag: Seq<char>)
    requires
        j.field("op"@) == Some(json::JsonView::Str(tag)),
        !(seq![
            "outline"@,
            "peek"@,
            "grep"@,
            "map"@,
            "recurse"@,
            "note"@,
            "final"@,
        ]).contains(tag),
    ensures
        op_of(j) is Err,
{
    let known = seq![
        "outline"@,
        "peek"@,
        "grep"@,
        "map"@,
        "recurse"@,
        "note"@,
        "final"@,
    ];
    assert(known[0] == "outline"@ && known[1] == "peek"@ && known[2] == "grep"@ && known[3]
        == "map"@ && known[4] == "recurse"@ && known[5] == "note"@ && known[6] == "final"@);
}

/// An operator is refused for a cause, and for no other: it names a chunk that
/// is not there or none where it must, it asks nothing, it says nothing, or it
/// fans out over more than 64 chunks.
pub proof fn law_an_operator_is_refused_only_for_a_cause(op: OpView, n: nat)
    ensures
        op.refusal(n) is None <==> match op {
            OpView::Outline { .. } => true,
            OpView::Note { .. } => true,
            OpView::Peek { chunk, .. } => chunk < n,
            OpView::Grep { pattern, .. } => !text::is_blank(pattern),
            OpView::MapOver { prompt, chunks } => !text::is_blank(prompt) && 1 <= chunks.len() <= 64
                && forall|i: int| 0 <= i < chunks.len() ==> #[trigger] chunks[i] < n,
            OpView::Recurse { query, chunks } => !text::is_blank(query) && 1 <= chunks.len()
                && forall|i: int| 0 <= i < chunks.len() ==> #[trigger] chunks[i] < n,
            OpView::Final { answer, cites } => !text::is_blank(answer) && forall|i: int|
                0 <= i < cites.len() ==> #[trigger] cites[i] < n,
        },
{
    match op {
        OpView::Peek { chunk, .. } => {
            lemma_first_beyond(seq![chunk], n);
            assert(seq![chunk][0] == chunk);
        },
        OpView::MapOver { chunks, .. } => {
            lemma_first_beyond(chunks, n);
        },
        OpView::Recurse { chunks, .. } => {
            lemma_first_beyond(chunks, n);
        },
        OpView::Final { cites, .. } => {
            lemma_first_beyond(cites, n);
        },
        _ => {},
    }
}

/// The chunk that a refusal tells of is the first that is not there.
pub proof fn law_the_first_chunk_that_is_not_there_is_told(ids: Seq<usize>, n: nat, k: int)
    requires
        0 <= k < ids.len(),
        ids[k] >= n,
        forall|i: int| 0 <= i < k ==> #[trigger] ids[i] < n,
    ensures
        ids_refusal(ids, n) is Some,
        text::begins(
            ids_refusal(ids, n)->0,
            "chunk "@ + text::decimal(ids[k] as nat) + " does not exist (this context has "@
                + text::decimal(n),
        ),
    decreases k,
{
    lemma_first_beyond_at(ids, n, k);
    let said = "chunk "@ + text::decimal(ids[k] as nat) + " does not exist (this context has "@
        + text::decimal(n);
    assert(ids_refusal(ids, n)->0.subrange(0, said.len() as int) =~= said);
}

proof fn lemma_first_beyond_at(ids: Seq<usize>, n: nat, k: int)
    requires
        0 <= k < ids.len(),
        ids[k] >= n,
        forall|i: int| 0 <= i < k ==> #[trigger] ids[i] < n,
    ensures
        first_beyond(ids, n) == Some(ids[k]),
    decreases k,
{
    if k > 0 {
        let rest = ids.skip(1);
        assert(ids[0] < n);
        assert forall|i: int| 0 <= i < k - 1 implies #[trigger] rest[i] < n by {
            assert(rest[i] == ids[i + 1]);
        }
        lemma_first_beyond_at(rest, n, k - 1);
    }
}

/// A field that may be left out, or be null, holds the text or is so.
pub open spec fn holds_text(v: Option<json::JsonView>, s: Option<Seq<char>>) -> bool {
    match s {
        Some(s) => v == Some(json::JsonView::Str(s)),
        None => v is None || v == Some(json::JsonView::Null),
    }
}

/// A field that may be left out, or be null, holds the number or is so.
pub open spec fn holds_number(v: Option<json::JsonView>, n: Option<usize>) -> bool {
    match n {
        Some(n) => v == Some(json::JsonView::UInt(n as u64)),
        None => v is None || v == Some(json::JsonView::Null),
    }
}

/// The field is a list of just these numbers.
pub open spec fn holds_numbers(v: Option<json::JsonView>, ids: Seq<usize>) -> bool {
    v matches Some(json::JsonView::Array(items)) && items.len() == ids.len() && forall|i: int|
        0 <= i < ids.len() ==> #[trigger] items[i] == json::JsonView::UInt(ids[i] as u64)
}

/// The fields of a value are those of the operator: its name, what it must have,
/// and what it may have. What is left out counts as the start of a chunk, as no
/// citation, or as nothing asked for.
pub open spec fn stands_for(j: json::JsonView, op: OpView) -> bool {
    let tag = j.field("op"@);
    match op {
        OpView::Outline { source } => tag == Some(json::JsonView::Str("outline"@)) && holds_text(
            j.field("source"@),
            source,
        ),
        OpView::Peek { chunk, start, len } => {
            &&& tag == Some(json::JsonView::Str("peek"@))
            &&& j.field("chunk"@) == Some(json::JsonView::UInt(chunk as u64))
            &&& j.field("start"@) == Some(json::JsonView::UInt(start as u64)) || j.field(
                "start"@,
            ) is None && start == 0
            &&& holds_number(j.field("len"@), len)
        },
        OpView::Grep { pattern, max, context } => {
            &&& tag == Some(json::JsonView::Str("grep"@))
            &&& j.field("pattern"@) == Some(json::JsonView::Str(pattern))
            &&& holds_number(j.field("max"@), max)
            &&& holds_number(j.field("context"@), context)
        },
        OpView::MapOver { prompt, chunks } => {
            &&& tag == Some(json::JsonView::Str("map"@))
            &&& j.field("prompt"@) == Some(json::JsonView::Str(prompt))
            &&& holds_numbers(j.field("chunks"@), chunks)
        },
        OpView::Recurse { query, chunks } => {
            &&& tag == Some(json::JsonView::Str("recurse"@))
            &&& j.field("query"@) == Some(json::JsonView::Str(query))
            &&& holds_numbers(j.field("chunks"@), chunks)
        },
        OpView::Note { text } => {
            &&& tag == Some(json::JsonView::Str("note"@))
            &&& j.field("text"@) == Some(json::JsonView::Str(text))
        },
        OpView::Final { answer, cites } => {
            &&& tag == Some(json::JsonView::Str("final"@))
            &&& j.field("answer"@) == Some(json::JsonView::Str(answer))
            &&& holds_numbers(j.field("cites"@), cites) || j.field("cites"@) is None && cites.len()
                == 0
        },
    }
}

proof fn lemma_as_words(items: Seq<json::JsonView>, ids: Seq<usize>)
    ensures
        as_words(items) == Ok::<Seq<usize>, Seq<char>>(ids) <==> holds_numbers(
            Some(json::JsonView::Array(items)),
            ids,
        ),
    decreases items.len(),
{
    if items.len() == 0 {
        if ids.len() == 0 {
            assert(ids =~= seq![]);
        }
    } else {
        let front = items.drop_last();
        if ids.len() > 0 {
            lemma_as_words(front, ids.drop_last());
            assert(ids.drop_last().push(ids.last()) =~= ids);
        }
        if holds_numbers(Some(json::JsonView::Array(items)), ids) {
            assert(items[items.len() - 1] == json::JsonView::UInt(ids[ids.len() - 1] as u64));
            assert forall|i: int| 0 <= i < front.len() implies #[trigger] front[i]
                == json::JsonView::UInt(ids.drop_last()[i] as u64) by {
                assert(items[i] == front[i]);
            }
        }
        if as_words(items) == Ok::<Seq<usize>, Seq<char>>(ids) {
            assert(as_words(front) is Ok);
            assert(ids.drop_last() =~= as_words(front)->Ok_0);
            assert forall|i: int| 0 <= i < ids.len() implies #[trigger] items[i]
                == json::JsonView::UInt(ids[i] as u64) by {
                if i < front.len() {
                    assert(front[i] == items[i]);
                    assert(ids.drop_last()[i] == ids[i]);
                }
            }
        }
    }
}

/// A value stands for an operator if and only if it is an object whose fields
/// are those of the operator.
pub proof fn law_an_operator_is_what_its_fields_say(j: json::JsonView, op: OpView)
    ensures
        op_of(j) == Ok::<OpView, Seq<char>>(op) <==> j is Object && stands_for(j, op),
{
    lemma_tags_differ();
    match op {
        OpView::MapOver { chunks, .. } => {
            lemma_read_words(j, "chunks"@, chunks);
        },
        OpView::Recurse { chunks, .. } => {
            lemma_read_words(j, "chunks"@, chunks);
        },
        OpView::Final { cites, .. } => {
            lemma_read_words(j, "cites"@, cites);
            if cites.len() == 0 {
                assert(cites =~= seq![]);
            }
        },
        _ => {},
    }
}

proof fn lemma_read_words(j: json::JsonView, key: Seq<char>, ids: Seq<usize>)
    ensures
        words_field(j, key) == Ok::<Option<Seq<usize>>, Seq<char>>(Some(ids)) <==> holds_numbers(
            j.field(key),
            ids,
        ),
        words_field(j, key) == Ok::<Option<Seq<usize>>, Seq<char>>(None) <==> j.field(key) is None,
{
    if let Some(json::JsonView::Array(items)) = j.field(key) {
        lemma_as_words(items, ids);
    }
}

/// Every operator goes by its name.
pub proof fn law_an_operator_goes_by_its_name(op: OpView)
    ensures
        op is Outline ==> op.label() == "outline"@,
        op is Peek ==> op.label() == "peek"@,
        op is Grep ==> op.label() == "grep"@,
        op is MapOver ==> op.label() == "map"@,
        op is Recurse ==> op.label() == "recurse"@,
        op is Note ==> op.label() == "note"@,
        op is Final ==> op.label() == "final"@,
{
}

/// A value that stands where another was due is told by its kind, and by itself
/// where it is no list and no object; a whole number, with a sign before it or
/// without, is told as an integer and any other number as a fraction.
pub proof fn law_a_value_is_told_by_its_kind(n: u64, s: Seq<char>, wanted: Seq<char>)
    ensures
        invalid_type(json::JsonView::Null, wanted) == "invalid type: "@ + "null"@ + ", expected "@
            + wanted,
        invalid_type(json::JsonView::Bool(true), wanted) == "invalid type: "@ + ("boolean `"@
            + "true"@ + "`"@) + ", expected "@ + wanted,
        invalid_type(json::JsonView::Bool(false), wanted) == "invalid type: "@ + ("boolean `"@
            + "false"@ + "`"@) + ", expected "@ + wanted,
        invalid_type(json::JsonView::UInt(n), wanted) == "invalid type: "@ + ("integer `"@
            + text::decimal(n as nat) + "`"@) + ", expected "@ + wanted,
        invalid_type(json::JsonView::Str(s), wanted) == "invalid type: "@ + ("string "@
            + text::quoted(s)) + ", expected "@ + wanted,
        not_a_word(json::JsonView::UInt(n)) == "invalid value: "@ + ("integer `"@ + text::decimal(
            n as nat,
        ) + "`"@) + ", expected usize"@,
        not_a_word(json::JsonView::Number(seq!['-'] + text::decimal(n as nat))) == "invalid value: "@
            + ("integer `"@ + (seq!['-'] + text::decimal(n as nat)) + "`"@) + ", expected usize"@,
        (s.len() == 0 || s[0] != '-') ==> not_a_word(json::JsonView::Number(s)) == "invalid type: "@
            + ("floating point `"@ + s + "`"@) + ", expected "@ + "usize"@,
{
    let m = seq!['-'] + text::decimal(n as nat);
    assert(m.skip(1) =~= text::decimal(n as nat));
    text::law_a_number_is_shown_by_its_digits(n as nat);
}

/// An operator that lacks a field which it must have is told of it by name, where
/// nothing else is wrong with it.
pub proof fn law_a_field_that_is_missing_is_told(j: json::JsonView)
    requires
        j is Object,
    ensures
        j.field("op"@) is None ==> op_of(j) == Err::<OpView, Seq<char>>("missing field `"@ + "op"@
            + "`"@),
        j.field("op"@) == Some(json::JsonView::Str("peek"@)) && j.field("chunk"@) is None
            && j.field("start"@) is None && j.field("len"@) is None ==> op_of(j) == Err::<
            OpView,
            Seq<char>,
        >("missing field `"@ + "chunk"@ + "`"@),
        j.field("op"@) == Some(json::JsonView::Str("grep"@)) && j.field("pattern"@) is None
            && j.field("max"@) is None && j.field("context"@) is None ==> op_of(j) == Err::<
            OpView,
            Seq<char>,
        >("missing field `"@ + "pattern"@ + "`"@),
        j.field("op"@) == Some(json::JsonView::Str("map"@)) && j.field("prompt"@) is None
            && j.field("chunks"@) is None ==> op_of(j) == Err::<OpView, Seq<char>>(
            "missing field `"@ + "prompt"@ + "`"@,
        ),
        j.field("op"@) == Some(json::JsonView::Str("recurse"@)) && j.field("query"@) is None
            && j.field("chunks"@) is None ==> op_of(j) == Err::<OpView, Seq<char>>(
            "missing field `"@ + "query"@ + "`"@,
        ),
        j.field("op"@) == Some(json::JsonView::Str("note"@)) && j.field("text"@) is None ==> op_of(
            j,
        ) == Err::<OpView, Seq<char>>("missing field `"@ + "text"@ + "`"@),
        j.field("op"@) == Some(json::JsonView::Str("final"@)) && j.field("answer"@) is None
            && j.field("cites"@) is None ==> op_of(j) == Err::<OpView, Seq<char>>(
            "missing field `"@ + "answer"@ + "`"@,
        ),
{
    lemma_tags_differ();
}

/// A chunk that is not there is told with the numbers that there are; and so is
/// one that an answer cites.
pub proof fn law_a_refusal_tells_the_numbers_there_are(
    ids: Seq<usize>,
    n: nat,
    k: int,
    answer: Seq<char>,
)
    requires
        0 <= k < ids.len(),
        ids[k] >= n,
        forall|i: int| 0 <= i < k ==> #[trigger] ids[i] < n,
    ensures
        n > 0 ==> ids_refusal(ids, n) == Some(
            "chunk "@ + text::decimal(ids[k] as nat) + " does not exist (this context has "@
                + text::decimal(n) + (", numbered 0.."@ + text::decimal((n - 1) as nat)) + ")"@,
        ),
        n == 0 ==> ids_refusal(ids, n) == Some(
            "chunk "@ + text::decimal(ids[k] as nat) + " does not exist (this context has "@
                + text::decimal(n) + ")"@,
        ),
        !text::is_blank(answer) ==> (OpView::Final { answer, cites: ids }).refusal(n) == Some(
            "cited chunk "@ + text::decimal(ids[k] as nat) + " does not exist"@,
        ),
        ids_refusal(Seq::<usize>::empty(), n) == Some(
            "no chunks named; pick ids from the outline"@,
        ),
{
    lemma_first_beyond_at(ids, n, k);
    let said = "chunk "@ + text::decimal(ids[k] as nat) + " does not exist (this context has "@
        + text::decimal(n);
    assert(said + seq![] =~= said);
}

} // verus!
