//! Contexts: corpora held outside any prompt, cut into numbered chunks.
//!
//! A context is immutable once built. Chunk ids are the coordinate system that
//! every operator, citation and trace is written in, so adding documents makes
//! a new context that records its parent, and the old one stays valid.
use vstd::prelude::*;
use vstd::string::*;

use crate::chunk;
use crate::chunk::{Chunk, Document};
use crate::stamp;
use crate::text;

verus! {

/// Ceiling on one context's total characters.
pub const MAX_CONTEXT_CHARS: usize = 40_000_000;

/// Target chunk size of a context that is cut from another's chunks: finer
/// than the default, so that there is something to choose between.
pub const EPHEMERAL_TARGET_CHARS: usize = 2_000;

/// A built, immutable context.
#[derive(Debug)]
pub struct ContextRecord {
    pub id: String,
    pub name: String,
    /// The context this one was derived from, if any.
    pub parent: Option<String>,
    pub created_at: String,
    pub sources: Vec<String>,
    pub total_chars: usize,
    pub chunks: Vec<Chunk>,
}

/// What a context holds.
#[verifier::ext_equal]
pub struct ContextView {
    pub id: Seq<char>,
    pub name: Seq<char>,
    pub parent: Option<Seq<char>>,
    pub created_at: Seq<char>,
    pub sources: Seq<Seq<char>>,
    pub total_chars: nat,
    pub chunks: Seq<chunk::ChunkView>,
}

/// What an optional string holds.
pub open spec fn opt_text(s: Option<String>) -> Option<Seq<char>> {
    match s {
        Some(s) => Some(s@),
        None => None,
    }
}

impl View for ContextRecord {
    type V = ContextView;

    open spec fn view(&self) -> ContextView {
        ContextView {
            id: self.id@,
            name: self.name@,
            parent: opt_text(self.parent),
            created_at: self.created_at@,
            sources: text::views(self.sources@),
            total_chars: self.total_chars as nat,
            chunks: chunk::chunk_views(self.chunks@),
        }
    }
}

/// The line that stands for a chunk in an outline.
pub open spec fn row(c: chunk::ChunkView) -> Seq<char> {
    "["@ + text::decimal(c.id) + "] "@ + c.source + ":"@ + text::decimal(c.start_line) + "-"@
        + text::decimal(c.end_line) + " ("@ + text::decimal(c.text.len()) + " chars) "@ + c.label
        + "\n"@
}

/// One line per chunk.
pub open spec fn outline_of(chunks: Seq<chunk::ChunkView>) -> Seq<char>
    decreases chunks.len(),
{
    if chunks.len() == 0 {
        seq![]
    } else {
        outline_of(chunks.drop_last()) + row(chunks.last())
    }
}

/// The lines of a chunk can all be numbered, and so can the id after its own.
pub open spec fn is_numbered(c: chunk::ChunkView) -> bool {
    &&& c.id < usize::MAX
    &&& c.start_line + text::lines(c.text).len() <= usize::MAX + 1
}

impl ContextView {
    /// What the corpus is, in one line, without any of it.
    pub open spec fn stats(self) -> Seq<char> {
        text::decimal(self.chunks.len()) + " chunks across "@ + text::decimal(self.sources.len())
            + " source(s), "@ + text::decimal(self.total_chars) + " characters total (~"@
            + text::decimal(self.total_chars / 4)
            + " tokens). You have NOT been shown any of it."@
    }

    /// Every chunk's lines and neighbours can be numbered. It is so of every
    /// context built here.
    pub open spec fn numbered(self) -> bool {
        forall|i: int| 0 <= i < self.chunks.len() ==> is_numbered(#[trigger] self.chunks[i])
    }
}

/// The line that stands for a chunk in an outline.
pub fn show_row(c: &Chunk) -> (r: String)
    ensures
        r@ == row(c@),
{
    let mut out = "[".to_owned();
    out.append(text::show(c.id).as_str());
    out.append("] ");
    out.append(c.source.as_str());
    out.append(":");
    out.append(text::show(c.start_line).as_str());
    out.append("-");
    out.append(text::show(c.end_line).as_str());
    out.append(" (");
    out.append(text::show(c.chars()).as_str());
    out.append(" chars) ");
    out.append(c.label.as_str());
    out.append("\n");
    out
}

impl ContextRecord {
    /// The outline a planner works over: one line per chunk, with its id,
    /// source, line span, size and label, and nothing else of the corpus.
    pub fn outline(&self) -> (r: String)
        ensures
            r@ == outline_of(self@.chunks),
    {
        let mut out = String::new();
        let mut i: usize = 0;
        let ghost v = self@.chunks;
        assert(v.take(0) =~= seq![]);
        while i < self.chunks.len()
            invariant
                i <= self.chunks@.len(),
                v == self@.chunks,
                out@ == outline_of(v.take(i as int)),
            decreases self.chunks@.len() - i,
        {
            assert(v.take(i as int + 1).drop_last() =~= v.take(i as int));
            out.append(show_row(&self.chunks[i]).as_str());
            i = i + 1;
        }
        assert(v.take(i as int) =~= v);
        out
    }

    /// What this corpus is, in one line, without any of it.
    pub fn stats_line(&self) -> (r: String)
        ensures
            r@ == self@.stats(),
    {
        let mut out = text::show(self.chunks.len());
        out.append(" chunks across ");
        out.append(text::show(self.sources.len()).as_str());
        out.append(" source(s), ");
        out.append(text::show(self.total_chars).as_str());
        out.append(" characters total (~");
        out.append(text::show(self.total_chars / 4).as_str());
        out.append(" tokens). You have NOT been shown any of it.");
        out
    }

    /// The chunk with the id, if there is one.
    pub fn chunk(&self, id: usize) -> (r: Option<&Chunk>)
        ensures
            match r {
                Some(c) => id < self.chunks@.len() && *c == self.chunks@[id as int],
                None => id >= self.chunks@.len(),
            },
    {
        if id < self.chunks.len() {
            Some(&self.chunks[id])
        } else {
            None
        }
    }

    /// Can every chunk's lines and neighbours be numbered? A record that was
    /// read back from disk need not be one that was built here.
    pub fn is_sound(&self) -> (b: bool)
        ensures
            b == self@.numbered(),
    {
        let mut i: usize = 0;
        while i < self.chunks.len()
            invariant
                i <= self.chunks@.len(),
                forall|k: int| 0 <= k < i ==> is_numbered(#[trigger] self@.chunks[k]),
            decreases self.chunks@.len() - i,
        {
            let c = &self.chunks[i];
            let n: usize = text::lines_of(c.text.as_str()).len();
            assert(text::lines(c@.text).len() == n);
            if c.id == usize::MAX || (n > 0 && c.start_line > usize::MAX - (n - 1)) {
                assert(!is_numbered(self@.chunks[i as int]));
                return false;
            }
            i = i + 1;
        }
        true
    }
}

// ------------------------------------------------------------------- building
/// How many characters the documents have in all.
pub open spec fn total_chars(docs: Seq<chunk::DocumentView>) -> nat
    decreases docs.len(),
{
    if docs.len() == 0 {
        0
    } else {
        total_chars(docs.drop_last()) + docs.last().text.len()
    }
}

/// `n`, or the largest number a machine word holds where `n` is larger.
pub open spec fn word(n: nat) -> nat {
    if n > usize::MAX {
        usize::MAX as nat
    } else {
        n
    }
}

/// The list without the items that are like the one before them.
pub open spec fn dedup(s: Seq<Seq<char>>) -> Seq<Seq<char>>
    decreases s.len(),
{
    if s.len() == 0 {
        seq![]
    } else {
        let d = dedup(s.drop_last());
        if d.len() > 0 && d.last() == s.last() {
            d
        } else {
            d.push(s.last())
        }
    }
}

/// The sources of documents, in order.
pub open spec fn sources_of(docs: Seq<chunk::DocumentView>) -> Seq<Seq<char>> {
    Seq::new(docs.len(), |i: int| docs[i].source)
}

/// The context that documents make.
pub open spec fn context_of(
    id: Seq<char>,
    name: Seq<char>,
    parent: Option<Seq<char>>,
    created_at: Seq<char>,
    docs: Seq<chunk::DocumentView>,
    target: nat,
) -> ContextView {
    ContextView {
        id,
        name,
        parent,
        created_at,
        sources: dedup(sources_of(docs)),
        total_chars: word(total_chars(docs)),
        chunks: chunk::corpus_chunks(docs, chunk::clamped_target(target)),
    }
}

/// How many characters the documents have in all.
fn count_chars(docs: &Vec<Document>) -> (n: usize)
    ensures
        n == word(total_chars(chunk::doc_views(docs@))),
{
    let mut n: usize = 0;
    let mut i: usize = 0;
    let ghost v = chunk::doc_views(docs@);
    assert(v.take(0) =~= seq![]);
    while i < docs.len()
        invariant
            i <= docs@.len(),
            v == chunk::doc_views(docs@),
            n == word(total_chars(v.take(i as int))),
        decreases docs@.len() - i,
    {
        assert(v.take(i as int + 1).drop_last() =~= v.take(i as int));
        let more: usize = docs[i].text.as_str().unicode_len();
        n = if n > usize::MAX - more {
            usize::MAX
        } else {
            n + more
        };
        i = i + 1;
    }
    assert(v.take(i as int) =~= v);
    n
}

/// The sources of the documents, one for each run of the same.
fn list_sources(docs: &Vec<Document>) -> (r: Vec<String>)
    ensures
        text::views(r@) == dedup(sources_of(chunk::doc_views(docs@))),
{
    let mut out: Vec<String> = Vec::new();
    let mut i: usize = 0;
    let ghost v = sources_of(chunk::doc_views(docs@));
    assert(v.take(0) =~= seq![]);
    assert(text::views(out@) =~= seq![]);
    while i < docs.len()
        invariant
            i <= docs@.len(),
            v == sources_of(chunk::doc_views(docs@)),
            text::views(out@) == dedup(v.take(i as int)),
        decreases docs@.len() - i,
    {
        assert(v.take(i as int + 1).drop_last() =~= v.take(i as int));
        let n: usize = out.len();
        assert(n == text::views(out@).len());
        let seen = n > 0 && text::same(out[n - 1].as_str(), docs[i].source.as_str());
        if !seen {
            let source = docs[i].source.clone();
            proof {
                text::lemma_views_push(out@, source);
            }
            out.push(source);
        }
        i = i + 1;
    }
    assert(v.take(i as int) =~= v);
    out
}

/// Builds the context that documents make.
fn build(
    id: String,
    name: &str,
    parent: Option<String>,
    created_at: String,
    docs: &Vec<Document>,
    target: usize,
) -> (r: ContextRecord)
    requires
        forall|i: int| 0 <= i < docs@.len() ==> (#[trigger] docs@[i])@.fits(),
    ensures
        r@ == context_of(
            id@,
            name@,
            opt_text(parent),
            created_at@,
            chunk::doc_views(docs@),
            target as nat,
        ),
        r@.numbered(),
{
    let sources = list_sources(docs);
    let total_chars: usize = count_chars(docs);
    let chunks = chunk::chunk_documents(docs.as_slice(), target);
    let count: usize = chunks.len();
    proof {
        let v = chunk::doc_views(docs@);
        let t = chunk::clamped_target(target as nat);
        let cv = chunk::chunk_views(chunks@);
        chunk::law_a_chunk_comes_from_one_document(v, t);
        assert forall|i: int| 0 <= i < cv.len() implies is_numbered(#[trigger] cv[i]) by {
            let d = choose|d: int| 0 <= d < v.len() && chunk::cut_from(cv[i], #[trigger] v[d]);
            chunk::law_a_span_has_room_for_its_lines(cv[i], v[d]);
            assert(chunks@[i].end_line <= usize::MAX);
        }
    }
    ContextRecord { id, name: name.to_owned(), parent, created_at, sources, total_chars, chunks }
}

/// Why documents make no context of their own within a run, or nothing where
/// they do.
pub open spec fn ephemeral_refusal(docs: Seq<chunk::DocumentView>) -> Option<Seq<char>> {
    if docs.len() == 0 {
        Some("a sub-context needs at least one document"@)
    } else if chunk::corpus_chunks(docs, EPHEMERAL_TARGET_CHARS as nat).len() == 0 {
        Some("the selected chunks were empty"@)
    } else {
        None
    }
}

/// Why documents make no stored context, or nothing where they do.
pub open spec fn create_refusal(docs: Seq<chunk::DocumentView>, target: nat) -> Option<
    Seq<char>,
> {
    if docs.len() == 0 {
        Some("a context needs at least one document"@)
    } else if total_chars(docs) > MAX_CONTEXT_CHARS {
        Some(
            "context is "@ + text::decimal(word(total_chars(docs))) + " characters, over the "@
                + text::decimal(MAX_CONTEXT_CHARS as nat)
                + " ceiling; split it or narrow the paths"@,
        )
    } else if chunk::corpus_chunks(docs, chunk::clamped_target(target)).len() == 0 {
        Some("every document was empty after chunking"@)
    } else {
        None
    }
}

/// The target asked for, or the one that is used where none is.
pub open spec fn target_or_default(target: Option<usize>) -> nat {
    match target {
        Some(t) => t as nat,
        None => chunk::DEFAULT_TARGET_CHARS as nat,
    }
}

impl ContextRecord {
    /// A context for one nested run, under a given id and time. It is never
    /// stored.
    pub fn ephemeral_as(
        id: String,
        created_at: String,
        name: &str,
        docs: Vec<Document>,
    ) -> (r: Result<ContextRecord, String>)
        requires
            forall|i: int| 0 <= i < docs@.len() ==> (#[trigger] docs@[i])@.fits(),
        ensures
            match r {
                Ok(c) => ephemeral_refusal(chunk::doc_views(docs@)) is None && c@ == context_of(
                    id@,
                    name@,
                    None,
                    created_at@,
                    chunk::doc_views(docs@),
                    EPHEMERAL_TARGET_CHARS as nat,
                ) && c@.numbered(),
                Err(e) => ephemeral_refusal(chunk::doc_views(docs@)) == Some(e@),
            },
    {
        if docs.is_empty() {
            return Err("a sub-context needs at least one document".to_owned());
        }
        let c = build(id, name, None, created_at, &docs, EPHEMERAL_TARGET_CHARS);
        assert(c@.chunks.len() == c.chunks@.len());
        if c.chunks.is_empty() {
            return Err("the selected chunks were empty".to_owned());
        }
        Ok(c)
    }

    /// A context for one nested run, under a fresh id. A nested corpus is a
    /// detail of one step, so it is never stored.
    pub fn ephemeral(name: &str, docs: Vec<Document>) -> (r: Result<ContextRecord, String>)
        requires
            forall|i: int| 0 <= i < docs@.len() ==> (#[trigger] docs@[i])@.fits(),
        ensures
            match r {
                Ok(c) => {
                    &&& ephemeral_refusal(chunk::doc_views(docs@)) is None
                    &&& text::begins(c.id@, "ephemeral:"@)
                    &&& stamp::is_uuid(c.id@.skip("ephemeral:"@.len() as int))
                    &&& c@ == context_of(
                        c.id@,
                        name@,
                        None,
                        c.created_at@,
                        chunk::doc_views(docs@),
                        EPHEMERAL_TARGET_CHARS as nat,
                    )
                    &&& c@.numbered()
                },
                Err(e) => ephemeral_refusal(chunk::doc_views(docs@)) == Some(e@),
            },
    {
        let mut id = "ephemeral:".to_owned();
        let fresh = stamp::new_id();
        id.append(fresh.as_str());
        assert(id@.subrange(0, "ephemeral:"@.len() as int) =~= "ephemeral:"@);
        assert(id@.skip("ephemeral:"@.len() as int) =~= fresh@);
        ContextRecord::ephemeral_as(id, stamp::now(), name, docs)
    }

    /// The context that a store would hold for the documents, under a given id
    /// and time.
    pub fn created_as(
        id: String,
        created_at: String,
        name: &str,
        docs: Vec<Document>,
        parent: Option<String>,
        target_chars: Option<usize>,
    ) -> (r: Result<ContextRecord, String>)
        requires
            forall|i: int| 0 <= i < docs@.len() ==> (#[trigger] docs@[i])@.fits(),
        ensures
            match r {
                Ok(c) => create_refusal(
                    chunk::doc_views(docs@),
                    target_or_default(target_chars),
                ) is None && c@ == context_of(
                    id@,
                    name@,
                    opt_text(parent),
                    created_at@,
                    chunk::doc_views(docs@),
                    target_or_default(target_chars),
                ) && c@.numbered(),
                Err(e) => create_refusal(
                    chunk::doc_views(docs@),
                    target_or_default(target_chars),
                ) == Some(e@),
            },
    {
        if docs.is_empty() {
            return Err("a context needs at least one document".to_owned());
        }
        let total: usize = count_chars(&docs);
        if total > MAX_CONTEXT_CHARS {
            let mut e = "context is ".to_owned();
            e.append(text::show(total).as_str());
            e.append(" characters, over the ");
            e.append(text::show(MAX_CONTEXT_CHARS).as_str());
            e.append(" ceiling; split it or narrow the paths");
            return Err(e);
        }
        let target: usize = match target_chars {
            Some(t) => t,
            None => chunk::DEFAULT_TARGET_CHARS,
        };
        let c = build(id, name, parent, created_at, &docs, target);
        assert(c@.chunks.len() == c.chunks@.len());
        if c.chunks.is_empty() {
            return Err("every document was empty after chunking".to_owned());
        }
        Ok(c)
    }

    /// The context that a store would hold for the documents, under a fresh
    /// id.
    pub fn created(
        name: &str,
        docs: Vec<Document>,
        parent: Option<String>,
        target_chars: Option<usize>,
    ) -> (r: Result<ContextRecord, String>)
        requires
            forall|i: int| 0 <= i < docs@.len() ==> (#[trigger] docs@[i])@.fits(),
        ensures
            match r {
                Ok(c) => {
                    &&& create_refusal(
                        chunk::doc_views(docs@),
                        target_or_default(target_chars),
                    ) is None
                    &&& stamp::is_uuid(c.id@)
                    &&& c@ == context_of(
                        c.id@,
                        name@,
                        opt_text(parent),
                        c.created_at@,
                        chunk::doc_views(docs@),
                        target_or_default(target_chars),
                    )
                    &&& c@.numbered()
                },
                Err(e) => create_refusal(
                    chunk::doc_views(docs@),
                    target_or_default(target_chars),
                ) == Some(e@),
            },
    {
        let id = stamp::new_id();
        ContextRecord::created_as(id, stamp::now(), name, docs, parent, target_chars)
    }
}

// ----------------------------------------------------------------------- laws
/// No line feed stands in `s`.
pub open spec fn one_line(s: Seq<char>) -> bool {
    forall|i: int| 0 <= i < s.len() ==> #[trigger] s[i] != '\n'
}

proof fn lemma_one_line_concat(a: Seq<char>, b: Seq<char>)
    requires
        one_line(a),
        one_line(b),
    ensures
        one_line(a + b),
{
    assert forall|i: int| 0 <= i < (a + b).len() implies #[trigger] (a + b)[i] != '\n' by {
        if i < a.len() {
            assert((a + b)[i] == a[i]);
        } else {
            assert((a + b)[i] == b[i - a.len()]);
        }
    }
}

proof fn lemma_decimal_one_line(n: nat)
    ensures
        one_line(text::decimal(n)),
{
    text::lemma_decimal_digits(n);
    assert forall|i: int| 0 <= i < text::decimal(n).len() implies #[trigger] text::decimal(n)[i]
        != '\n' by {
        assert(text::is_digit(text::decimal(n)[i]));
    }
}

/// The row of a chunk is one line.
proof fn lemma_row_is_one_line(c: chunk::ChunkView)
    requires
        one_line(c.source),
        one_line(c.label),
    ensures
        text::lines(row(c)).len() == 1,
        row(c).last() == '\n',
        row(c).len() > 0,
{
    reveal_strlit("[");
    reveal_strlit("] ");
    reveal_strlit(":");
    reveal_strlit("-");
    reveal_strlit(" (");
    reveal_strlit(" chars) ");
    reveal_strlit("\n");
    lemma_decimal_one_line(c.id);
    lemma_decimal_one_line(c.start_line);
    lemma_decimal_one_line(c.end_line);
    lemma_decimal_one_line(c.text.len());
    let r1 = "["@ + text::decimal(c.id);
    lemma_one_line_concat("["@, text::decimal(c.id));
    let r2 = r1 + "] "@;
    lemma_one_line_concat(r1, "] "@);
    let r3 = r2 + c.source;
    lemma_one_line_concat(r2, c.source);
    let r4 = r3 + ":"@;
    lemma_one_line_concat(r3, ":"@);
    let r5 = r4 + text::decimal(c.start_line);
    lemma_one_line_concat(r4, text::decimal(c.start_line));
    let r6 = r5 + "-"@;
    lemma_one_line_concat(r5, "-"@);
    let r7 = r6 + text::decimal(c.end_line);
    lemma_one_line_concat(r6, text::decimal(c.end_line));
    let r8 = r7 + " ("@;
    lemma_one_line_concat(r7, " ("@);
    let r9 = r8 + text::decimal(c.text.len());
    lemma_one_line_concat(r8, text::decimal(c.text.len()));
    let r10 = r9 + " chars) "@;
    lemma_one_line_concat(r9, " chars) "@);
    let r11 = r10 + c.label;
    lemma_one_line_concat(r10, c.label);
    let r = row(c);
    assert(r == r11 + "\n"@);
    assert forall|i: int| 0 <= i < r.len() - 1 implies #[trigger] r[i] != '\n' by {
        assert(r[i] == r11[i]);
    }
    text::lemma_one_line(r);
}

/// The outline has one line per chunk, whatever the size of the corpus, where
/// no source and no label holds a line feed.
pub proof fn law_the_outline_has_a_line_per_chunk(chunks: Seq<chunk::ChunkView>)
    requires
        forall|i: int|
            0 <= i < chunks.len() ==> one_line((#[trigger] chunks[i]).source) && one_line(
                chunks[i].label,
            ),
    ensures
        text::lines(outline_of(chunks)).len() == chunks.len(),
        chunks.len() > 0 ==> outline_of(chunks).len() > 0 && outline_of(chunks).last() == '\n',
    decreases chunks.len(),
{
    if chunks.len() > 0 {
        let early = chunks.drop_last();
        assert forall|i: int| 0 <= i < early.len() implies one_line((#[trigger] early[i]).source)
            && one_line(early[i].label) by {
            assert(early[i] == chunks[i]);
        }
        law_the_outline_has_a_line_per_chunk(early);
        lemma_row_is_one_line(chunks.last());
        if early.len() == 0 {
            assert(outline_of(early).len() == 0);
        }
        text::lemma_lines_concat(outline_of(early), row(chunks.last()));
    } else {
        assert(text::lines(outline_of(chunks)).len() == 0);
    }
}

/// The numbers of a chunk each fit in a machine word.
pub open spec fn has_words(c: chunk::ChunkView) -> bool {
    c.id <= usize::MAX && c.start_line <= usize::MAX && c.end_line <= usize::MAX && c.text.len()
        <= usize::MAX
}

/// What a row takes besides the source it names.
pub open spec fn row_overhead() -> int {
    200
}

/// The outline grows with the number of chunks and not with the corpus: no
/// chunk adds more than its source and a constant.
pub proof fn law_the_outline_grows_with_the_chunks(chunks: Seq<chunk::ChunkView>, longest: int)
    requires
        longest >= 0,
        forall|i: int|
            0 <= i < chunks.len() ==> {
                &&& (#[trigger] chunks[i]).source.len() <= longest
                &&& chunks[i].label.len() <= chunk::MAX_LABEL_CHARS + 1
                &&& has_words(chunks[i])
            },
    ensures
        outline_of(chunks).len() <= chunks.len() * (longest + row_overhead()),
    decreases chunks.len(),
{
    if chunks.len() > 0 {
        let early = chunks.drop_last();
        assert forall|i: int| 0 <= i < early.len() implies {
            &&& (#[trigger] early[i]).source.len() <= longest
            &&& early[i].label.len() <= chunk::MAX_LABEL_CHARS + 1
            &&& has_words(early[i])
        } by {
            assert(early[i] == chunks[i]);
        }
        law_the_outline_grows_with_the_chunks(early, longest);
        let c = chunks.last();
        assert(c == chunks[chunks.len() - 1]);
        reveal_strlit("[");
        reveal_strlit("] ");
        reveal_strlit(":");
        reveal_strlit("-");
        reveal_strlit(" (");
        reveal_strlit(" chars) ");
        reveal_strlit("\n");
        text::lemma_word_len(c.id);
        text::lemma_word_len(c.start_line);
        text::lemma_word_len(c.end_line);
        text::lemma_word_len(c.text.len());
        assert(row(c).len() <= longest + row_overhead());
        assert(chunks.len() * (longest + row_overhead()) == early.len() * (longest
            + row_overhead()) + (longest + row_overhead())) by (nonlinear_arith)
            requires
                chunks.len() == early.len() + 1,
        ;
    }
}

/// The outline of more chunks is the outline of the first and that of the rest,
/// and of one chunk it is one row: its id, its source, the lines it runs over,
/// its size in characters and its label.
pub proof fn law_an_outline_is_a_row_for_each_chunk(
    a: Seq<chunk::ChunkView>,
    b: Seq<chunk::ChunkView>,
)
    ensures
        outline_of(a + b) == outline_of(a) + outline_of(b),
        outline_of(Seq::<chunk::ChunkView>::empty()) == Seq::<char>::empty(),
        a.len() == 1 ==> outline_of(a) == "["@ + text::decimal(a[0].id) + "] "@ + a[0].source + ":"@
            + text::decimal(a[0].start_line) + "-"@ + text::decimal(a[0].end_line) + " ("@
            + text::decimal(a[0].text.len()) + " chars) "@ + a[0].label + "\n"@,
    decreases b.len(),
{
    if b.len() == 0 {
        assert(a + b =~= a);
        assert(outline_of(a) + outline_of(b) =~= outline_of(a));
    } else {
        law_an_outline_is_a_row_for_each_chunk(a, b.drop_last());
        assert((a + b).drop_last() =~= a + b.drop_last());
        assert(outline_of(a + b) =~= outline_of(a) + outline_of(b));
    }
    if a.len() == 1 {
        assert(outline_of(a.drop_last()) =~= seq![]);
        assert(outline_of(a) =~= row(a[0]));
    }
}

/// The characters of more documents are those of the first and those of the
/// rest; of one they are its text's.
pub proof fn law_characters_add_up(a: Seq<chunk::DocumentView>, b: Seq<chunk::DocumentView>)
    ensures
        total_chars(a + b) == total_chars(a) + total_chars(b),
        a.len() == 0 ==> total_chars(a) == 0,
        a.len() == 1 ==> total_chars(a) == a[0].text.len(),
    decreases b.len(),
{
    if b.len() == 0 {
        assert(a + b =~= a);
    } else {
        law_characters_add_up(a, b.drop_last());
        assert((a + b).drop_last() =~= a + b.drop_last());
    }
    if a.len() == 1 {
        assert(total_chars(a.drop_last()) == 0);
    }
}

/// The sources of a context are those of its documents, all of them and no
/// others, and none twice in a row; where no two documents in a row share one,
/// they are the documents' own, in order.
pub proof fn law_the_sources_are_those_of_the_documents(docs: Seq<chunk::DocumentView>)
    ensures
        forall|i: int|
            0 <= i < docs.len() ==> dedup(sources_of(docs)).contains((#[trigger] docs[i]).source),
        forall|s: Seq<char>| #[trigger]
            dedup(sources_of(docs)).contains(s) ==> exists|i: int|
                0 <= i < docs.len() && (#[trigger] docs[i]).source == s,
        forall|i: int, j: int|
            0 <= i && j == i + 1 && j < dedup(sources_of(docs)).len() ==> #[trigger] dedup(
                sources_of(docs),
            )[i] != #[trigger] dedup(sources_of(docs))[j],
        (forall|i: int, j: int|
            0 <= i && j == i + 1 && j < docs.len() ==> (#[trigger] docs[i]).source != (
            #[trigger] docs[j]).source) ==> dedup(sources_of(docs)) == sources_of(docs),
    decreases docs.len(),
{
    let s = sources_of(docs);
    let all = dedup(s);
    if docs.len() > 0 {
        let front = docs.drop_last();
        law_the_sources_are_those_of_the_documents(front);
        assert(s.drop_last() =~= sources_of(front));
        let before = dedup(sources_of(front));
        let last = docs.last().source;
        assert(s.last() == last);
        lemma_dedup_last(sources_of(front));
        assert forall|i: int| 0 <= i < docs.len() implies all.contains(
            (#[trigger] docs[i]).source,
        ) by {
            if i < front.len() {
                assert(front[i] == docs[i]);
                let k = choose|k: int| 0 <= k < before.len() && before[k] == docs[i].source;
                assert(all[k] == docs[i].source);
            } else {
                assert(all[all.len() - 1] == last);
            }
        }
        assert forall|x: Seq<char>| #[trigger] all.contains(x) implies exists|i: int|
            0 <= i < docs.len() && (#[trigger] docs[i]).source == x by {
            let k = choose|k: int| 0 <= k < all.len() && all[k] == x;
            if k < before.len() {
                assert(before[k] == x);
                assert(before.contains(x));
                let i = choose|i: int| 0 <= i < front.len() && (#[trigger] front[i]).source == x;
                assert(docs[i] == front[i]);
            } else {
                assert(docs[docs.len() - 1].source == x);
            }
        }
        assert forall|i: int, j: int| 0 <= i && j == i + 1 && j < all.len() implies #[trigger] all[i]
            != #[trigger] all[j] by {
            if j < before.len() {
                assert(all[i] == before[i] && all[j] == before[j]);
            } else {
                assert(all[i] == before[i]);
                assert(before.last() == before[i]);
            }
        }
        if forall|i: int, j: int|
            0 <= i && j == i + 1 && j < docs.len() ==> (#[trigger] docs[i]).source != (
            #[trigger] docs[j]).source {
            assert forall|i: int, j: int| 0 <= i && j == i + 1 && j < front.len() implies (
            #[trigger] front[i]).source != (#[trigger] front[j]).source by {
                assert(front[i] == docs[i] && front[j] == docs[j]);
            }
            if front.len() > 0 {
                assert(docs[front.len() - 1].source != docs[docs.len() - 1].source);
                assert(before.last() == front[front.len() - 1].source);
            }
            assert(all =~= s);
        }
    } else {
        assert(s =~= seq![]);
        assert(all =~= seq![]);
    }
}

proof fn lemma_dedup_last(s: Seq<Seq<char>>)
    ensures
        s.len() > 0 <==> dedup(s).len() > 0,
        s.len() > 0 ==> dedup(s).last() == s.last(),
    decreases s.len(),
{
    if s.len() > 0 {
        lemma_dedup_last(s.drop_last());
    }
}

/// A line of some document is not blank.
pub open spec fn something_is_said(docs: Seq<chunk::DocumentView>) -> bool {
    exists|d: int, line: int|
        0 <= d < docs.len() && 0 <= line < text::lines(docs[d].text).len() && !text::is_blank(
            #[trigger] text::lines(docs[d].text)[line],
        )
}

/// There are chunks if and only if something is said.
pub proof fn lemma_chunks_where_something_is_said(docs: Seq<chunk::DocumentView>, target: nat)
    ensures
        chunk::corpus_chunks(docs, target).len() > 0 <==> something_is_said(docs),
{
    let all = chunk::corpus_chunks(docs, target);
    if something_is_said(docs) {
        let (d, line) = choose|d: int, line: int|
            0 <= d < docs.len() && 0 <= line < text::lines(docs[d].text).len() && !text::is_blank(
                #[trigger] text::lines(docs[d].text)[line],
            );
        let i = chunk::law_every_told_line_of_a_corpus_is_in_a_chunk(docs, target, d, line);
    }
    if all.len() > 0 {
        chunk::law_a_chunk_comes_from_one_document(docs, target);
        let c = all[0];
        let d = choose|d: int| 0 <= d < docs.len() && chunk::cut_from(c, #[trigger] docs[d]);
        let ls = text::lines(docs[d].text);
        if !something_is_said(docs) {
            assert forall|k: int| 0 <= k < ls.len() implies text::is_blank(#[trigger] ls[k]) by {
                assert(ls[k] == text::lines(docs[d].text)[k]);
            }
            chunk::lemma_blank_span(
                ls,
                c.start_line - docs[d].base(),
                c.end_line - docs[d].base() + 1,
            );
        }
    }
}

/// Documents make a context if and only if there are some, they have no more
/// than 40000000 characters in all, and something is said in one of them.
pub proof fn law_documents_make_a_context_unless(docs: Seq<chunk::DocumentView>, target: nat)
    ensures
        create_refusal(docs, target) is None <==> docs.len() > 0 && total_chars(docs) <= 40_000_000
            && something_is_said(docs),
        ephemeral_refusal(docs) is None <==> docs.len() > 0 && something_is_said(docs),
{
    lemma_chunks_where_something_is_said(docs, chunk::clamped_target(target));
    lemma_chunks_where_something_is_said(docs, EPHEMERAL_TARGET_CHARS as nat);
}

/// A context is what its documents make: under the id, the name and the parent
/// that it was given, with their sources, all their characters counted, and the
/// chunks that they are cut into.
pub proof fn law_a_context_holds_its_documents(
    id: Seq<char>,
    name: Seq<char>,
    parent: Option<Seq<char>>,
    at: Seq<char>,
    docs: Seq<chunk::DocumentView>,
    target: nat,
    d: int,
    line: int,
)
    requires
        0 <= d < docs.len(),
        0 <= line < text::lines(docs[d].text).len(),
        !text::is_blank(text::lines(docs[d].text)[line]),
    ensures
        ({
            let c = context_of(id, name, parent, at, docs, target);
            &&& c.id == id && c.name == name && c.parent == parent && c.created_at == at
            &&& c.sources.contains(docs[d].source)
            &&& total_chars(docs) <= usize::MAX ==> c.total_chars == total_chars(docs)
            &&& exists|i: int|
                0 <= i < c.chunks.len() && chunk::cut_from(#[trigger] c.chunks[i], docs[d])
                    && c.chunks[i].start_line <= docs[d].base() + line <= c.chunks[i].end_line
            &&& forall|i: int| 0 <= i < c.chunks.len() ==> (#[trigger] c.chunks[i]).id == i
        }),
{
    let t = chunk::clamped_target(target);
    law_the_sources_are_those_of_the_documents(docs);
    let i = chunk::law_every_told_line_of_a_corpus_is_in_a_chunk(docs, t, d, line);
    chunk::law_a_chunk_comes_from_one_document(docs, t);
    let c = context_of(id, name, parent, at, docs, target);
    assert(chunk::cut_from(c.chunks[i], docs[d]));
    assert(c.sources.contains(docs[d].source));
}

/// A corpus is told by how many chunks and sources it has, its characters, and a
/// quarter as many tokens.
pub proof fn law_a_corpus_is_told_by_its_size(c: ContextView)
    ensures
        c.stats() == text::decimal(c.chunks.len()) + " chunks across "@ + text::decimal(
            c.sources.len(),
        ) + " source(s), "@ + text::decimal(c.total_chars) + " characters total (~"@
            + text::decimal(c.total_chars / 4) + " tokens). You have NOT been shown any of it."@,
        target_or_default(None) == 6_000,
        EPHEMERAL_TARGET_CHARS == 2_000,
{
}

/// A context is cut to the target that it was asked for, where that is between
/// 500 and 24000.
pub proof fn law_a_context_is_cut_to_its_target(
    id: Seq<char>,
    name: Seq<char>,
    parent: Option<Seq<char>>,
    at: Seq<char>,
    docs: Seq<chunk::DocumentView>,
    target: usize,
)
    ensures
        500 <= target <= 24_000 ==> context_of(
            id,
            name,
            parent,
            at,
            docs,
            target_or_default(Some(target)),
        ).chunks == chunk::corpus_chunks(docs, target as nat),
        context_of(id, name, parent, at, docs, target_or_default(None)).chunks
            == chunk::corpus_chunks(docs, 6_000),
{
}

} // verus!
