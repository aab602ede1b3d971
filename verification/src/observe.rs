//! The operators that read a corpus without any model: `outline`, `peek` and
//! `grep`, and the bounded observations they return.
//!
//! Every observation is cut at [`MAX_OBSERVATION_CHARS`], or a planner could
//! `peek` its way to the whole corpus one step at a time. The cut is always
//! marked, so the planner narrows instead of concluding that the text ended.
use vstd::prelude::*;
use vstd::string::*;

use crate::chunk;
use crate::chunk::Chunk;
use crate::context;
use crate::context::ContextRecord;
use crate::pattern;
use crate::text;

verus! {

/// Ceiling on one operator's returned text, before the mark of a cut.
pub const MAX_OBSERVATION_CHARS: usize = 4_000;

/// Ceiling on grep hits returned in one step, whatever the caller asked for.
pub const MAX_GREP_HITS: usize = 60;

/// Ceiling on the lines shown around a hit, on either side.
pub const MAX_GREP_CONTEXT: usize = 3;

/// Ceiling on the size of a compiled pattern.
pub const REGEX_SIZE_LIMIT: usize = 1_048_576;

/// What an operator returned to the planner.
#[derive(Debug)]
pub struct Observation {
    pub text: String,
    /// Was the text cut at the ceiling?
    pub truncated: bool,
}

impl Clone for Observation {
    fn clone(&self) -> (r: Observation)
        ensures
            r == *self,
    {
        Observation { text: self.text.clone(), truncated: self.truncated }
    }
}

/// What an observation holds.
#[verifier::ext_equal]
pub struct ObservationView {
    pub text: Seq<char>,
    pub truncated: bool,
}

impl View for Observation {
    type V = ObservationView;

    open spec fn view(&self) -> ObservationView {
        ObservationView { text: self.text@, truncated: self.truncated }
    }
}

/// The mark that says a text of `total` characters was cut.
pub open spec fn cut_mark(total: nat) -> Seq<char> {
    "\n\n[… truncated: "@ + text::decimal(MAX_OBSERVATION_CHARS as nat) + " of "@
        + text::decimal(total)
        + " characters shown. Narrow the range, or map over the chunk instead of reading it.]"@
}

/// The observation of a text: the text itself, or its front part and the mark.
pub open spec fn observed(s: Seq<char>) -> ObservationView {
    if s.len() <= MAX_OBSERVATION_CHARS {
        ObservationView { text: s, truncated: false }
    } else {
        ObservationView {
            text: s.take(MAX_OBSERVATION_CHARS as int) + cut_mark(s.len()),
            truncated: true,
        }
    }
}

impl Observation {
    /// An observation of `s`, cut and marked where it passes the ceiling.
    pub fn new(s: &str) -> (r: Observation)
        ensures
            r@ == observed(s@),
    {
        let count: usize = s.unicode_len();
        if count <= MAX_OBSERVATION_CHARS {
            return Observation { text: s.to_owned(), truncated: false };
        }
        let mut mark = "\n\n[… truncated: ".to_owned();
        mark.append(text::show(MAX_OBSERVATION_CHARS).as_str());
        mark.append(" of ");
        mark.append(text::show(count).as_str());
        mark.append(
            " characters shown. Narrow the range, or map over the chunk instead of reading it.]",
        );
        let mut out = text::first_chars(s, MAX_OBSERVATION_CHARS);
        out.append(mark.as_str());
        Observation { text: out, truncated: true }
    }
}

// -------------------------------------------------------------------- outline
/// The rows of the chunks whose source has `needle` in it.
pub open spec fn rows_with(chunks: Seq<chunk::ChunkView>, needle: Seq<char>) -> Seq<char>
    decreases chunks.len(),
{
    if chunks.len() == 0 {
        seq![]
    } else if text::has(chunks.last().source, needle) {
        rows_with(chunks.drop_last(), needle) + context::row(chunks.last())
    } else {
        rows_with(chunks.drop_last(), needle)
    }
}

/// What `outline` shows.
pub open spec fn outline_text(chunks: Seq<chunk::ChunkView>, source: Option<Seq<char>>) -> Seq<
    char,
> {
    match source {
        None => context::outline_of(chunks),
        Some(needle) => {
            let rows = rows_with(chunks, needle);
            if rows.len() == 0 {
                "no source matches "@ + text::quoted(needle)
            } else {
                rows
            }
        },
    }
}

/// What an optional text holds.
pub open spec fn opt_str(s: Option<&str>) -> Option<Seq<char>> {
    match s {
        Some(s) => Some(s@),
        None => None,
    }
}

/// The outline, of the chunks whose source has the text in it where one is
/// given.
pub fn outline(ctx: &ContextRecord, source: Option<&str>) -> (r: Observation)
    ensures
        r@ == observed(outline_text(ctx@.chunks, opt_str(source))),
{
    let needle = match source {
        None => {
            return Observation::new(ctx.outline().as_str());
        },
        Some(needle) => needle,
    };
    let mut rows = String::new();
    let mut i: usize = 0;
    let ghost v = ctx@.chunks;
    assert(v.take(0) =~= seq![]);
    while i < ctx.chunks.len()
        invariant
            i <= ctx.chunks@.len(),
            v == ctx@.chunks,
            rows@ == rows_with(v.take(i as int), needle@),
        decreases ctx.chunks@.len() - i,
    {
        assert(v.take(i as int + 1).drop_last() =~= v.take(i as int));
        assert(v.take(i as int + 1).last() == ctx.chunks@[i as int]@);
        if text::contains(ctx.chunks[i].source.as_str(), needle) {
            rows.append(context::show_row(&ctx.chunks[i]).as_str());
        }
        i = i + 1;
    }
    assert(v.take(i as int) =~= v);
    if rows.as_str().is_empty() {
        let mut out = "no source matches ".to_owned();
        out.append(text::quote(needle).as_str());
        return Observation::new(out.as_str());
    }
    Observation::new(rows.as_str())
}

// ----------------------------------------------------------------------- peek
/// The smaller of what was asked for and the ceiling, or the ceiling.
pub open spec fn capped(asked: Option<usize>, ceiling: nat) -> nat {
    match asked {
        Some(n) => if n < ceiling {
            n as nat
        } else {
            ceiling
        },
        None => ceiling,
    }
}

/// What `peek` shows of a chunk.
pub open spec fn peek_text(
    chunks: Seq<chunk::ChunkView>,
    id: nat,
    start: nat,
    len: Option<usize>,
) -> Seq<char> {
    if id >= chunks.len() {
        "chunk "@ + text::decimal(id) + " does not exist"@
    } else {
        let c = chunks[id as int];
        if start >= c.text.len() {
            "chunk "@ + text::decimal(id) + " is "@ + text::decimal(c.text.len())
                + " characters; offset "@ + text::decimal(start) + " is past its end"@
        } else {
            "["@ + text::decimal(c.id) + "] "@ + c.source + ":"@ + text::decimal(c.start_line)
                + "-"@ + text::decimal(c.end_line) + " (offset "@ + text::decimal(start) + " of "@
                + text::decimal(c.text.len()) + " chars; adjacent chunks: "@ + text::bracketed(
                chunk::neighbor_ids(c.id, chunks.len()),
            ) + ")\n"@ + text::prefix(
                c.text.skip(start as int),
                capped(len, MAX_OBSERVATION_CHARS as nat) as int,
            )
        }
    }
}

/// A window of one chunk, verbatim.
pub fn peek(ctx: &ContextRecord, id: usize, start: usize, len: Option<usize>) -> (r: Observation)
    requires
        id < ctx.chunks@.len() ==> ctx.chunks@[id as int].id < usize::MAX,
    ensures
        r@ == observed(peek_text(ctx@.chunks, id as nat, start as nat, len)),
{
    let c = match ctx.chunk(id) {
        None => {
            let mut out = "chunk ".to_owned();
            out.append(text::show(id).as_str());
            out.append(" does not exist");
            return Observation::new(out.as_str());
        },
        Some(c) => c,
    };
    assert(c@ == ctx@.chunks[id as int]);
    let chars = text::chars_of(c.text.as_str());
    let total: usize = chars.len();
    if start >= total {
        let mut out = "chunk ".to_owned();
        out.append(text::show(id).as_str());
        out.append(" is ");
        out.append(text::show(total).as_str());
        out.append(" characters; offset ");
        out.append(text::show(start).as_str());
        out.append(" is past its end");
        return Observation::new(out.as_str());
    }
    let take: usize = match len {
        Some(n) => if n < MAX_OBSERVATION_CHARS {
            n
        } else {
            MAX_OBSERVATION_CHARS
        },
        None => MAX_OBSERVATION_CHARS,
    };
    let end: usize = if take > total - start {
        total
    } else {
        start + take
    };
    let window = text::string_of(&chars, start, end);
    assert(window@ =~= text::prefix(c.text@.skip(start as int), take as int));
    let mut out = "[".to_owned();
    out.append(text::show(c.id).as_str());
    out.append("] ");
    out.append(c.source.as_str());
    out.append(":");
    out.append(text::show(c.start_line).as_str());
    out.append("-");
    out.append(text::show(c.end_line).as_str());
    out.append(" (offset ");
    out.append(text::show(start).as_str());
    out.append(" of ");
    out.append(text::show(total).as_str());
    out.append(" chars; adjacent chunks: ");
    out.append(text::show_list(&c.neighbors(ctx.chunks.len())).as_str());
    out.append(")\n");
    out.append(window.as_str());
    Observation::new(out.as_str())
}

// ----------------------------------------------------------------------- grep
/// Does a pattern, case aside, match in a line of a chunk?
pub open spec fn is_hit(
    chunks: Seq<chunk::ChunkView>,
    pattern: Seq<char>,
    c: int,
    line: int,
) -> bool {
    pattern::matches_line(pattern, true, text::lines(chunks[c].text)[line])
}

/// The hits among the first `n` lines of the chunk at `c`.
pub open spec fn chunk_hits(
    chunks: Seq<chunk::ChunkView>,
    pattern: Seq<char>,
    c: int,
    n: int,
) -> Seq<(int, int)>
    decreases n,
{
    if n <= 0 {
        seq![]
    } else if is_hit(chunks, pattern, c, n - 1) {
        chunk_hits(chunks, pattern, c, n - 1).push((c, n - 1))
    } else {
        chunk_hits(chunks, pattern, c, n - 1)
    }
}

/// The hits in the first `c` chunks: each the chunk's place and the line's
/// place in it, in order.
pub open spec fn corpus_hits(chunks: Seq<chunk::ChunkView>, pattern: Seq<char>, c: int) -> Seq<
    (int, int),
>
    decreases c,
{
    if c <= 0 {
        seq![]
    } else {
        corpus_hits(chunks, pattern, c - 1) + chunk_hits(
            chunks,
            pattern,
            c - 1,
            text::lines(chunks[c - 1].text).len() as int,
        )
    }
}

/// At most the first `n` of a list.
pub open spec fn first_of(s: Seq<(int, int)>, n: int) -> Seq<(int, int)> {
    if s.len() <= n {
        s
    } else {
        s.take(n)
    }
}

/// The lines `from..to` of a chunk, each with its id, source and number.
pub open spec fn cited_lines(c: chunk::ChunkView, from: int, to: int) -> Seq<char>
    decreases to - from,
{
    if from >= to {
        seq![]
    } else {
        cited_lines(c, from, to - 1) + cited_line(c, to - 1)
    }
}

/// A line of a chunk with its id, source and number.
pub open spec fn cited_line(c: chunk::ChunkView, line: int) -> Seq<char> {
    "["@ + text::decimal(c.id) + "] "@ + c.source + ":"@ + text::decimal(
        (c.start_line + line) as nat,
    ) + ": "@ + text::trim_end(text::lines(c.text)[line]) + "\n"@
}

/// A hit with the lines around it.
pub open spec fn hit_text(chunks: Seq<chunk::ChunkView>, hit: (int, int), around: int) -> Seq<
    char,
> {
    let c = chunks[hit.0];
    let n = text::lines(c.text).len();
    let lo = if hit.1 < around {
        0
    } else {
        hit.1 - around
    };
    let hi = if hit.1 + around + 1 < n {
        hit.1 + around + 1
    } else {
        n as int
    };
    cited_lines(c, lo, hi)
}

/// All hits with the lines around them.
pub open spec fn hits_text(
    chunks: Seq<chunk::ChunkView>,
    hits: Seq<(int, int)>,
    around: int,
) -> Seq<char>
    decreases hits.len(),
{
    if hits.len() == 0 {
        seq![]
    } else {
        hits_text(chunks, hits.drop_last(), around) + hit_text(chunks, hits.last(), around)
    }
}

/// The ids of the chunks with hits, each once, in the order of their first.
pub open spec fn ids_hit(chunks: Seq<chunk::ChunkView>, hits: Seq<(int, int)>) -> Seq<usize>
    decreases hits.len(),
{
    if hits.len() == 0 {
        seq![]
    } else {
        let ids = ids_hit(chunks, hits.drop_last());
        let id = chunks[hits.last().0].id as usize;
        if ids.contains(id) {
            ids
        } else {
            ids.push(id)
        }
    }
}

/// The line that leads a report of hits: how many, and in which chunks.
pub open spec fn hits_header(chunks: Seq<chunk::ChunkView>, hits: Seq<(int, int)>) -> Seq<char> {
    text::decimal(hits.len()) + " hit(s) in chunks "@ + text::bracketed(ids_hit(chunks, hits))
        + "\n"@
}

/// What `grep` shows for hits, of which it takes no more than `cap`. That
/// nothing matched is said only where nothing did: with a ceiling of 0 there
/// may be matches and no hit to show.
pub open spec fn grep_text(
    chunks: Seq<chunk::ChunkView>,
    pattern: Seq<char>,
    matched: bool,
    hits: Seq<(int, int)>,
    cap: nat,
    around: int,
) -> Seq<char> {
    if !matched {
        "no match for "@ + text::quoted(pattern) + " anywhere in the corpus"@
    } else {
        let shown = hits_header(chunks, hits) + hits_text(chunks, hits, around);
        if hits.len() >= cap {
            shown + ("[… stopped at the "@ + text::decimal(cap) + "-hit ceiling]\n"@)
        } else {
            shown
        }
    }
}

/// The hits that `grep` reports.
pub open spec fn found_hits(chunks: Seq<chunk::ChunkView>, pattern: Seq<char>, cap: nat) -> Seq<
    (int, int),
> {
    first_of(corpus_hits(chunks, pattern, chunks.len() as int), cap as int)
}

/// Whether any line of the corpus matches.
pub open spec fn matched(chunks: Seq<chunk::ChunkView>, pattern: Seq<char>) -> bool {
    corpus_hits(chunks, pattern, chunks.len() as int).len() > 0
}

/// The places that a list of pairs holds.
pub open spec fn places(v: Seq<(usize, usize)>) -> Seq<(int, int)> {
    Seq::new(v.len(), |i: int| (v[i].0 as int, v[i].1 as int))
}

/// Places of lines that there are.
pub open spec fn real_places(chunks: Seq<chunk::ChunkView>, hits: Seq<(int, int)>) -> bool {
    forall|i: int|
        0 <= i < hits.len() ==> 0 <= (#[trigger] hits[i]).0 < chunks.len() && 0 <= hits[i].1
            < text::lines(chunks[hits[i].0].text).len()
}

proof fn lemma_chunk_hits(
    chunks: Seq<chunk::ChunkView>,
    pattern: Seq<char>,
    c: int,
    n: int,
    m: int,
)
    requires
        0 <= c < chunks.len(),
        0 <= n <= m <= text::lines(chunks[c].text).len(),
    ensures
        chunk_hits(chunks, pattern, c, n).is_prefix_of(chunk_hits(chunks, pattern, c, m)),
        real_places(chunks, chunk_hits(chunks, pattern, c, m)),
    decreases m,
{
    if n < m {
        lemma_chunk_hits(chunks, pattern, c, n, m - 1);
    } else if m > 0 {
        lemma_chunk_hits(chunks, pattern, c, n - 1, m - 1);
    }
}

proof fn lemma_corpus_hits(
    chunks: Seq<chunk::ChunkView>,
    pattern: Seq<char>,
    c: int,
    m: int,
)
    requires
        0 <= c <= m <= chunks.len(),
    ensures
        corpus_hits(chunks, pattern, c).is_prefix_of(corpus_hits(chunks, pattern, m)),
        real_places(chunks, corpus_hits(chunks, pattern, m)),
    decreases m,
{
    if m > 0 {
        let n = text::lines(chunks[m - 1].text).len() as int;
        lemma_chunk_hits(chunks, pattern, m - 1, 0, n);
        if c < m {
            lemma_corpus_hits(chunks, pattern, c, m - 1);
        } else {
            lemma_corpus_hits(chunks, pattern, c - 1, m - 1);
        }
    }
}

/// What was found so far is the front of what there is to find.
proof fn lemma_hits_so_far(
    chunks: Seq<chunk::ChunkView>,
    pattern: Seq<char>,
    c: int,
    n: int,
)
    requires
        0 <= c < chunks.len(),
        0 <= n <= text::lines(chunks[c].text).len(),
    ensures
        (corpus_hits(chunks, pattern, c) + chunk_hits(chunks, pattern, c, n)).is_prefix_of(
            corpus_hits(chunks, pattern, chunks.len() as int),
        ),
{
    let all = text::lines(chunks[c].text).len() as int;
    lemma_chunk_hits(chunks, pattern, c, n, all);
    lemma_corpus_hits(chunks, pattern, c + 1, chunks.len() as int);
    let a = corpus_hits(chunks, pattern, c) + chunk_hits(chunks, pattern, c, n);
    let b = corpus_hits(chunks, pattern, c + 1);
    assert(a.is_prefix_of(b));
}

/// The first lines, up to a limit, that an expression matches in.
fn find_hits(ctx: &ContextRecord, re: &regex::Regex, limit: usize) -> (r: Vec<(usize, usize)>)
    requires
        limit > 0,
        pattern::compiled_from(*re).1,
    ensures
        places(r@) == first_of(
            corpus_hits(ctx@.chunks, pattern::compiled_from(*re).0, ctx@.chunks.len() as int),
            limit as int,
        ),
        real_places(ctx@.chunks, places(r@)),
{
    let ghost v = ctx@.chunks;
    let ghost p = pattern::compiled_from(*re).0;
    let mut out: Vec<(usize, usize)> = Vec::new();
    let mut c: usize = 0;
    assert(places(out@) =~= seq![]);
    while c < ctx.chunks.len()
        invariant
            v == ctx@.chunks,
            p == pattern::compiled_from(*re).0,
            pattern::compiled_from(*re).1,
            c <= ctx.chunks@.len(),
            places(out@) == corpus_hits(v, p, c as int),
            out@.len() < limit,
        decreases ctx.chunks@.len() - c,
    {
        let ls = text::lines_of(ctx.chunks[c].text.as_str());
        let mut n: usize = 0;
        assert(places(out@) =~= corpus_hits(v, p, c as int) + chunk_hits(v, p, c as int, 0));
        while n < ls.len()
            invariant
                v == ctx@.chunks,
                p == pattern::compiled_from(*re).0,
                pattern::compiled_from(*re).1,
                c < ctx.chunks@.len(),
                text::views(ls@) == text::lines(v[c as int].text),
                n <= ls@.len(),
                places(out@) == corpus_hits(v, p, c as int) + chunk_hits(v, p, c as int, n as int),
                out@.len() < limit,
            decreases ls@.len() - n,
        {
            assert(text::views(ls@)[n as int] == ls@[n as int]@);
            if pattern::is_match(re, ls[n].as_str()) {
                let ghost was = out@;
                out.push((c, n));
                proof {
                    assert(is_hit(v, p, c as int, n as int));
                    assert(places(out@) =~= places(was).push((c as int, n as int)));
                    assert(places(out@) =~= corpus_hits(v, p, c as int) + chunk_hits(
                        v,
                        p,
                        c as int,
                        n as int + 1,
                    ));
                }
                if out.len() == limit {
                    proof {
                        lemma_hits_so_far(v, p, c as int, n as int + 1);
                        let all = corpus_hits(v, p, v.len() as int);
                        lemma_corpus_hits(v, p, v.len() as int, v.len() as int);
                        assert(places(out@).len() == limit);
                        assert(places(out@) =~= all.take(limit as int));
                    }
                    return out;
                }
            }
            n = n + 1;
        }
        c = c + 1;
    }
    proof {
        lemma_corpus_hits(v, p, v.len() as int, v.len() as int);
    }
    out
}

/// The lines `from..to` of a chunk, each with its id, source and number.
fn show_lines(c: &Chunk, ls: &Vec<String>, from: usize, to: usize) -> (r: String)
    requires
        text::views(ls@) == text::lines(c@.text),
        from <= to <= ls@.len(),
        c@.start_line + ls@.len() <= usize::MAX + 1,
    ensures
        r@ == cited_lines(c@, from as int, to as int),
{
    let mut out = String::new();
    let mut k: usize = from;
    while k < to
        invariant
            text::views(ls@) == text::lines(c@.text),
            from <= k <= to <= ls@.len(),
            c@.start_line + ls@.len() <= usize::MAX + 1,
            out@ == cited_lines(c@, from as int, k as int),
        decreases to - k,
    {
        assert(text::views(ls@)[k as int] == ls@[k as int]@);
        let mut line = "[".to_owned();
        line.append(text::show(c.id).as_str());
        line.append("] ");
        line.append(c.source.as_str());
        line.append(":");
        line.append(text::show(c.start_line + k).as_str());
        line.append(": ");
        line.append(text::trimmed_end(ls[k].as_str()).as_str());
        line.append("\n");
        out.append(line.as_str());
        k = k + 1;
    }
    out
}

/// The ids of the chunks with hits, each once.
fn list_ids(ctx: &ContextRecord, hits: &Vec<(usize, usize)>) -> (r: Vec<usize>)
    requires
        real_places(ctx@.chunks, places(hits@)),
    ensures
        r@ == ids_hit(ctx@.chunks, places(hits@)),
{
    let ghost v = ctx@.chunks;
    let ghost p = places(hits@);
    let mut out: Vec<usize> = Vec::new();
    let mut i: usize = 0;
    assert(p.take(0) =~= seq![]);
    while i < hits.len()
        invariant
            v == ctx@.chunks,
            p == places(hits@),
            real_places(v, p),
            i <= hits@.len(),
            out@ == ids_hit(v, p.take(i as int)),
        decreases hits@.len() - i,
    {
        assert(p.take(i as int + 1).drop_last() =~= p.take(i as int));
        assert(p[i as int] == (hits@[i as int].0 as int, hits@[i as int].1 as int));
        let id: usize = ctx.chunks[hits[i].0].id;
        let mut k: usize = 0;
        let mut seen = false;
        while k < out.len()
            invariant
                k <= out@.len(),
                seen == exists|j: int| 0 <= j < k && out@[j] == id,
            decreases out@.len() - k,
        {
            if out[k] == id {
                seen = true;
            }
            k = k + 1;
        }
        assert(seen == out@.contains(id));
        if !seen {
            out.push(id);
        }
        i = i + 1;
    }
    assert(p.take(i as int) =~= p);
    out
}

/// The report of hits that were found, where looking stopped at `cap` of them;
/// `matched` says whether there was anything to find.
pub fn grep_report(
    ctx: &ContextRecord,
    pattern: &str,
    matched: bool,
    hits: &Vec<(usize, usize)>,
    cap: usize,
    around: usize,
) -> (r: Observation)
    requires
        ctx@.numbered(),
        real_places(ctx@.chunks, places(hits@)),
        around <= MAX_GREP_CONTEXT,
    ensures
        r@ == observed(
            grep_text(ctx@.chunks, pattern@, matched, places(hits@), cap as nat, around as int),
        ),
{
    let ghost v = ctx@.chunks;
    let ghost p = places(hits@);
    if !matched {
        let mut out = "no match for ".to_owned();
        out.append(text::quote(pattern).as_str());
        out.append(" anywhere in the corpus");
        return Observation::new(out.as_str());
    }
    let mut body = String::new();
    let mut i: usize = 0;
    assert(p.take(0) =~= seq![]);
    while i < hits.len()
        invariant
            v == ctx@.chunks,
            p == places(hits@),
            ctx@.numbered(),
            real_places(v, p),
            around <= MAX_GREP_CONTEXT,
            i <= hits@.len(),
            body@ == hits_text(v, p.take(i as int), around as int),
        decreases hits@.len() - i,
    {
        assert(p.take(i as int + 1).drop_last() =~= p.take(i as int));
        assert(p[i as int] == (hits@[i as int].0 as int, hits@[i as int].1 as int));
        let c = &ctx.chunks[hits[i].0];
        assert(c@ == v[hits@[i as int].0 as int]);
        let at: usize = hits[i].1;
        let ls = text::lines_of(c.text.as_str());
        let n: usize = ls.len();
        assert(text::lines(c@.text).len() == n);
        let lo: usize = if at < around {
            0
        } else {
            at - around
        };
        let hi: usize = if n - at > around + 1 {
            at + around + 1
        } else {
            n
        };
        assert(context::is_numbered(v[hits@[i as int].0 as int]));
        body.append(show_lines(c, &ls, lo, hi).as_str());
        i = i + 1;
    }
    assert(p.take(i as int) =~= p);
    let ids = list_ids(ctx, hits);
    let mut out = text::show(hits.len());
    out.append(" hit(s) in chunks ");
    out.append(text::show_list(&ids).as_str());
    out.append("\n");
    assert(out@ == hits_header(v, p));
    out.append(body.as_str());
    if hits.len() >= cap {
        let mut mark = "[… stopped at the ".to_owned();
        mark.append(text::show(cap).as_str());
        mark.append("-hit ceiling]\n");
        out.append(mark.as_str());
    }
    Observation::new(out.as_str())
}

/// What `grep` shows for a pattern.
pub open spec fn grep_outcome(
    chunks: Seq<chunk::ChunkView>,
    pattern: Seq<char>,
    max: Option<usize>,
    context_lines: Option<usize>,
) -> Seq<char> {
    match pattern::refusal(pattern, true, REGEX_SIZE_LIMIT, usize::BITS) {
        Some(why) => "bad pattern: "@ + why,
        None => {
            let cap = capped(max, MAX_GREP_HITS as nat);
            let around = match context_lines {
                Some(n) => capped(Some(n), MAX_GREP_CONTEXT as nat) as int,
                None => 0,
            };
            grep_text(
                chunks,
                pattern,
                matched(chunks, pattern),
                found_hits(chunks, pattern, cap),
                cap,
                around,
            )
        },
    }
}

/// A search of the whole corpus for a regular expression, case aside. The ids
/// of the chunks with hits lead, since a planner acts on them.
pub fn grep(
    ctx: &ContextRecord,
    pattern: &str,
    max: Option<usize>,
    context_lines: Option<usize>,
) -> (r: Observation)
    requires
        ctx@.numbered(),
    ensures
        r@ == observed(grep_outcome(ctx@.chunks, pattern@, max, context_lines)),
{
    let re = match pattern::compile(pattern, true, REGEX_SIZE_LIMIT) {
        Ok(re) => re,
        Err(e) => {
            let mut out = "bad pattern: ".to_owned();
            out.append(pattern::error_message(&e).as_str());
            return Observation::new(out.as_str());
        },
    };
    let cap: usize = match max {
        Some(n) => if n < MAX_GREP_HITS {
            n
        } else {
            MAX_GREP_HITS
        },
        None => MAX_GREP_HITS,
    };
    let around: usize = match context_lines {
        Some(n) => if n < MAX_GREP_CONTEXT {
            n
        } else {
            MAX_GREP_CONTEXT
        },
        None => 0,
    };
    let limit: usize = if cap == 0 {
        1
    } else {
        cap
    };
    let found = find_hits(ctx, &re, limit);
    if cap == 0 {
        let none: Vec<(usize, usize)> = Vec::new();
        assert(places(none@) =~= found_hits(ctx@.chunks, pattern@, 0));
        grep_report(ctx, pattern, !found.is_empty(), &none, cap, around)
    } else {
        grep_report(ctx, pattern, !found.is_empty(), &found, cap, around)
    }
}

// ----------------------------------------------------------------------- laws
/// The longest an observation can be, with the mark of a cut.
pub open spec fn observation_bound() -> int {
    MAX_OBSERVATION_CHARS + 150
}

/// Whatever an operator has to say, an observation is bounded; it keeps the
/// front of it; and it says so, in a flag and in the text, when and only when
/// something was cut.
pub proof fn law_an_observation_is_bounded_and_marked(s: Seq<char>)
    requires
        s.len() <= usize::MAX,
    ensures
        observed(s).text.len() <= observation_bound(),
        observed(s).truncated <==> s.len() > MAX_OBSERVATION_CHARS,
        !observed(s).truncated ==> observed(s).text == s,
        text::begins(observed(s).text, text::prefix(s, MAX_OBSERVATION_CHARS as int)),
        observed(s).truncated ==> text::has(observed(s).text, cut_mark(s.len())),
{
    let o = observed(s).text;
    if s.len() > MAX_OBSERVATION_CHARS {
        let kept = s.take(MAX_OBSERVATION_CHARS as int);
        let mark = cut_mark(s.len());
        reveal_strlit("\n\n[… truncated: ");
        reveal_strlit(" of ");
        reveal_strlit(
            " characters shown. Narrow the range, or map over the chunk instead of reading it.]",
        );
        text::lemma_word_len(MAX_OBSERVATION_CHARS as nat);
        text::lemma_word_len(s.len());
        assert(o == kept + mark);
        assert(o.subrange(0, kept.len() as int) =~= kept);
        assert(o.subrange(kept.len() as int, o.len() as int) =~= mark);
        assert(text::stands_at(o, mark, kept.len() as int));
    } else {
        assert(o.subrange(0, s.len() as int) =~= s);
    }
}

/// A run of short numbers in brackets is short.
proof fn lemma_bracketed_len(ids: Seq<usize>)
    ensures
        text::bracketed(ids).len() <= 2 + 22 * ids.len(),
{
    reveal_strlit("[");
    reveal_strlit("]");
    let parts = Seq::new(ids.len(), |i: int| text::decimal(ids[i] as nat));
    assert forall|i: int| 0 <= i < parts.len() implies (#[trigger] parts[i]).len() <= 20 by {
        text::lemma_word_len(ids[i] as nat);
    }
    lemma_joined_len(parts);
}

proof fn lemma_joined_len(parts: Seq<Seq<char>>)
    requires
        forall|i: int| 0 <= i < parts.len() ==> (#[trigger] parts[i]).len() <= 20,
    ensures
        text::joined(parts, ", "@).len() <= 22 * parts.len(),
    decreases parts.len(),
{
    reveal_strlit(", ");
    if parts.len() > 1 {
        assert forall|i: int| 0 <= i < parts.drop_last().len() implies (
        #[trigger] parts.drop_last()[i]).len() <= 20 by {
            assert(parts.drop_last()[i] == parts[i]);
        }
        lemma_joined_len(parts.drop_last());
    }
}

proof fn lemma_ids_hit_len(chunks: Seq<chunk::ChunkView>, hits: Seq<(int, int)>)
    ensures
        ids_hit(chunks, hits).len() <= hits.len(),
    decreases hits.len(),
{
    if hits.len() > 0 {
        lemma_ids_hit_len(chunks, hits.drop_last());
    }
}

/// The ids of the chunks with hits lead what `grep` shows, where no cut can
/// take them.
pub proof fn law_grep_leads_with_the_chunk_ids(
    chunks: Seq<chunk::ChunkView>,
    pattern: Seq<char>,
    max: Option<usize>,
    around: int,
)
    requires
        matched(chunks, pattern),
    ensures
        ({
            let cap = capped(max, MAX_GREP_HITS as nat);
            let hits = found_hits(chunks, pattern, cap);
            text::begins(
                observed(grep_text(chunks, pattern, true, hits, cap, around)).text,
                hits_header(chunks, hits),
            )
        }),
{
    let cap = capped(max, MAX_GREP_HITS as nat);
    let hits = found_hits(chunks, pattern, cap);
    let header = hits_header(chunks, hits);
    let shown = grep_text(chunks, pattern, true, hits, cap, around);
    let o = observed(shown).text;
    assert(hits.len() <= MAX_GREP_HITS);
    lemma_ids_hit_len(chunks, hits);
    lemma_bracketed_len(ids_hit(chunks, hits));
    text::lemma_word_len(hits.len());
    reveal_strlit(" hit(s) in chunks ");
    reveal_strlit("\n");
    assert(header.len() <= MAX_OBSERVATION_CHARS);
    assert(shown.subrange(0, header.len() as int) =~= header);
    assert(o.subrange(0, header.len() as int) =~= header);
}

/// `grep` reports no more hits than its ceiling, and every one is a line that
/// there is, which the pattern matches, at the number it has in its source.
pub proof fn law_grep_hits_are_real(chunks: Seq<chunk::ChunkView>, pattern: Seq<char>, cap: nat)
    ensures
        found_hits(chunks, pattern, cap).len() <= cap,
        real_places(chunks, found_hits(chunks, pattern, cap)),
        forall|i: int|
            0 <= i < found_hits(chunks, pattern, cap).len() ==> is_hit(
                chunks,
                pattern,
                (#[trigger] found_hits(chunks, pattern, cap)[i]).0,
                found_hits(chunks, pattern, cap)[i].1,
            ),
{
    let all = corpus_hits(chunks, pattern, chunks.len() as int);
    lemma_corpus_hits(chunks, pattern, chunks.len() as int, chunks.len() as int);
    lemma_corpus_hits_match(chunks, pattern, chunks.len() as int);
    let found = found_hits(chunks, pattern, cap);
    assert forall|i: int| 0 <= i < found.len() implies is_hit(
        chunks,
        pattern,
        (#[trigger] found[i]).0,
        found[i].1,
    ) by {
        assert(found[i] == all[i]);
    }
    assert forall|i: int| 0 <= i < found.len() implies 0 <= (#[trigger] found[i]).0 < chunks.len()
        && 0 <= found[i].1 < text::lines(chunks[found[i].0].text).len() by {
        assert(found[i] == all[i]);
    }
}

proof fn lemma_corpus_hits_match(chunks: Seq<chunk::ChunkView>, pattern: Seq<char>, c: int)
    requires
        0 <= c <= chunks.len(),
    ensures
        forall|i: int|
            0 <= i < corpus_hits(chunks, pattern, c).len() ==> is_hit(
                chunks,
                pattern,
                (#[trigger] corpus_hits(chunks, pattern, c)[i]).0,
                corpus_hits(chunks, pattern, c)[i].1,
            ),
    decreases c,
{
    if c > 0 {
        lemma_corpus_hits_match(chunks, pattern, c - 1);
        let n = text::lines(chunks[c - 1].text).len() as int;
        lemma_chunk_hits_match(chunks, pattern, c - 1, n);
        let a = corpus_hits(chunks, pattern, c - 1);
        let b = chunk_hits(chunks, pattern, c - 1, n);
        let all = corpus_hits(chunks, pattern, c);
        assert forall|i: int| 0 <= i < all.len() implies is_hit(
            chunks,
            pattern,
            (#[trigger] all[i]).0,
            all[i].1,
        ) by {
            if i < a.len() {
                assert(all[i] == a[i]);
            } else {
                assert(all[i] == b[i - a.len()]);
            }
        }
    }
}

proof fn lemma_chunk_hits_match(
    chunks: Seq<chunk::ChunkView>,
    pattern: Seq<char>,
    c: int,
    n: int,
)
    ensures
        forall|i: int|
            0 <= i < chunk_hits(chunks, pattern, c, n).len() ==> is_hit(
                chunks,
                pattern,
                (#[trigger] chunk_hits(chunks, pattern, c, n)[i]).0,
                chunk_hits(chunks, pattern, c, n)[i].1,
            ),
    decreases n,
{
    if n > 0 {
        lemma_chunk_hits_match(chunks, pattern, c, n - 1);
        let before = chunk_hits(chunks, pattern, c, n - 1);
        let all = chunk_hits(chunks, pattern, c, n);
        assert forall|i: int| 0 <= i < all.len() implies is_hit(
            chunks,
            pattern,
            (#[trigger] all[i]).0,
            all[i].1,
        ) by {
            if i < before.len() {
                assert(all[i] == before[i]);
            }
        }
    } else {
        assert(chunk_hits(chunks, pattern, c, n).len() == 0);
    }
}

/// The lines of the corpus that match, and no others, are the hits: each once,
/// in the order of the chunks and of the lines in them.
pub proof fn law_grep_misses_nothing(chunks: Seq<chunk::ChunkView>, pattern: Seq<char>)
    ensures
        forall|c: int, line: int|
            0 <= c < chunks.len() && 0 <= line < text::lines(chunks[c].text).len()
                && #[trigger] pattern::matches_line(
                pattern,
                true,
                text::lines(chunks[c].text)[line],
            ) ==> corpus_hits(chunks, pattern, chunks.len() as int).contains((c, line)),
        forall|i: int|
            0 <= i < corpus_hits(chunks, pattern, chunks.len() as int).len() ==> {
                let hit = #[trigger] corpus_hits(chunks, pattern, chunks.len() as int)[i];
                &&& 0 <= hit.0 < chunks.len()
                &&& 0 <= hit.1 < text::lines(chunks[hit.0].text).len()
                &&& pattern::matches_line(pattern, true, text::lines(chunks[hit.0].text)[hit.1])
            },
        forall|i: int, j: int|
            0 <= i < j < corpus_hits(chunks, pattern, chunks.len() as int).len() ==> {
                let a = #[trigger] corpus_hits(chunks, pattern, chunks.len() as int)[i];
                let b = #[trigger] corpus_hits(chunks, pattern, chunks.len() as int)[j];
                a.0 < b.0 || a.0 == b.0 && a.1 < b.1
            },
        matched(chunks, pattern) <==> exists|c: int, line: int|
            0 <= c < chunks.len() && 0 <= line < text::lines(chunks[c].text).len()
                && #[trigger] pattern::matches_line(
                pattern,
                true,
                text::lines(chunks[c].text)[line],
            ),
{
    let n = chunks.len() as int;
    let all = corpus_hits(chunks, pattern, n);
    lemma_corpus_hits(chunks, pattern, n, n);
    lemma_corpus_hits_match(chunks, pattern, n);
    lemma_corpus_hits_ordered(chunks, pattern, n);
    assert forall|c: int, line: int|
        0 <= c < chunks.len() && 0 <= line < text::lines(chunks[c].text).len()
            && #[trigger] pattern::matches_line(
            pattern,
            true,
            text::lines(chunks[c].text)[line],
        ) implies all.contains((c, line)) by {
        lemma_corpus_hit_found(chunks, pattern, n, c, line);
    }
    assert forall|i: int| 0 <= i < all.len() implies {
        let hit = #[trigger] all[i];
        &&& 0 <= hit.0 < chunks.len()
        &&& 0 <= hit.1 < text::lines(chunks[hit.0].text).len()
        &&& pattern::matches_line(pattern, true, text::lines(chunks[hit.0].text)[hit.1])
    } by {
        assert(is_hit(chunks, pattern, all[i].0, all[i].1));
    }
    if all.len() > 0 {
        let hit = all[0];
        assert(pattern::matches_line(pattern, true, text::lines(chunks[hit.0].text)[hit.1]));
    }
}

proof fn lemma_chunk_hit_found(
    chunks: Seq<chunk::ChunkView>,
    pattern: Seq<char>,
    c: int,
    n: int,
    line: int,
)
    requires
        0 <= line < n,
        pattern::matches_line(pattern, true, text::lines(chunks[c].text)[line]),
    ensures
        chunk_hits(chunks, pattern, c, n).contains((c, line)),
    decreases n,
{
    let all = chunk_hits(chunks, pattern, c, n);
    if line == n - 1 {
        assert(all[all.len() - 1] == (c, line));
    } else {
        lemma_chunk_hit_found(chunks, pattern, c, n - 1, line);
        let before = chunk_hits(chunks, pattern, c, n - 1);
        let i = choose|i: int| 0 <= i < before.len() && before[i] == (c, line);
        assert(all[i] == (c, line));
    }
}

proof fn lemma_corpus_hit_found(
    chunks: Seq<chunk::ChunkView>,
    pattern: Seq<char>,
    n: int,
    c: int,
    line: int,
)
    requires
        0 <= c < n <= chunks.len(),
        0 <= line < text::lines(chunks[c].text).len(),
        pattern::matches_line(pattern, true, text::lines(chunks[c].text)[line]),
    ensures
        corpus_hits(chunks, pattern, n).contains((c, line)),
    decreases n,
{
    let before = corpus_hits(chunks, pattern, n - 1);
    let m = text::lines(chunks[n - 1].text).len() as int;
    let own = chunk_hits(chunks, pattern, n - 1, m);
    let all = corpus_hits(chunks, pattern, n);
    if c == n - 1 {
        lemma_chunk_hit_found(chunks, pattern, c, m, line);
        let i = choose|i: int| 0 <= i < own.len() && own[i] == (c, line);
        assert(all[before.len() + i] == (c, line));
    } else {
        lemma_corpus_hit_found(chunks, pattern, n - 1, c, line);
        let i = choose|i: int| 0 <= i < before.len() && before[i] == (c, line);
        assert(all[i] == (c, line));
    }
}

proof fn lemma_chunk_hits_ordered(
    chunks: Seq<chunk::ChunkView>,
    pattern: Seq<char>,
    c: int,
    n: int,
)
    ensures
        forall|i: int|
            0 <= i < chunk_hits(chunks, pattern, c, n).len() ==> (#[trigger] chunk_hits(
                chunks,
                pattern,
                c,
                n,
            )[i]).0 == c && chunk_hits(chunks, pattern, c, n)[i].1 < n,
        forall|i: int, j: int|
            0 <= i < j < chunk_hits(chunks, pattern, c, n).len() ==> (#[trigger] chunk_hits(
                chunks,
                pattern,
                c,
                n,
            )[i]).1 < (#[trigger] chunk_hits(chunks, pattern, c, n)[j]).1,
    decreases n,
{
    if n > 0 {
        lemma_chunk_hits_ordered(chunks, pattern, c, n - 1);
        let before = chunk_hits(chunks, pattern, c, n - 1);
        let all = chunk_hits(chunks, pattern, c, n);
        assert forall|i: int| 0 <= i < all.len() implies (#[trigger] all[i]).0 == c && all[i].1
            < n by {
            if i < before.len() {
                assert(all[i] == before[i]);
            }
        }
        assert forall|i: int, j: int| 0 <= i < j < all.len() implies (#[trigger] all[i]).1 < (
        #[trigger] all[j]).1 by {
            assert(all[i] == before[i]);
            if j < before.len() {
                assert(all[j] == before[j]);
            }
        }
    } else {
        assert(chunk_hits(chunks, pattern, c, n).len() == 0);
    }
}

proof fn lemma_corpus_hits_ordered(chunks: Seq<chunk::ChunkView>, pattern: Seq<char>, n: int)
    ensures
        forall|i: int|
            0 <= i < corpus_hits(chunks, pattern, n).len() ==> (#[trigger] corpus_hits(
                chunks,
                pattern,
                n,
            )[i]).0 < n,
        forall|i: int, j: int|
            0 <= i < j < corpus_hits(chunks, pattern, n).len() ==> {
                let a = #[trigger] corpus_hits(chunks, pattern, n)[i];
                let b = #[trigger] corpus_hits(chunks, pattern, n)[j];
                a.0 < b.0 || a.0 == b.0 && a.1 < b.1
            },
    decreases n,
{
    if n > 0 {
        lemma_corpus_hits_ordered(chunks, pattern, n - 1);
        let m = text::lines(chunks[n - 1].text).len() as int;
        lemma_chunk_hits_ordered(chunks, pattern, n - 1, m);
        let before = corpus_hits(chunks, pattern, n - 1);
        let own = chunk_hits(chunks, pattern, n - 1, m);
        let all = corpus_hits(chunks, pattern, n);
        assert forall|i: int| 0 <= i < all.len() implies (#[trigger] all[i]).0 < n by {
            if i < before.len() {
                assert(all[i] == before[i]);
            } else {
                assert(all[i] == own[i - before.len()]);
            }
        }
        assert forall|i: int, j: int| 0 <= i < j < all.len() implies {
            let a = #[trigger] all[i];
            let b = #[trigger] all[j];
            a.0 < b.0 || a.0 == b.0 && a.1 < b.1
        } by {
            if i < before.len() {
                assert(all[i] == before[i]);
                if j < before.len() {
                    assert(all[j] == before[j]);
                } else {
                    assert(all[j] == own[j - before.len()]);
                }
            } else {
                assert(all[i] == own[i - before.len()]);
                assert(all[j] == own[j - before.len()]);
            }
        }
    } else {
        assert(corpus_hits(chunks, pattern, n).len() == 0);
    }
}

/// What `grep` reports is the first of the matching lines, as many as its
/// ceiling lets it; where fewer match, it is all of them.
pub proof fn law_grep_reports_the_first_hits(
    chunks: Seq<chunk::ChunkView>,
    pattern: Seq<char>,
    cap: nat,
)
    ensures
        found_hits(chunks, pattern, cap).is_prefix_of(
            corpus_hits(chunks, pattern, chunks.len() as int),
        ),
        found_hits(chunks, pattern, cap).len() <= cap,
        found_hits(chunks, pattern, cap).len() < cap ==> forall|c: int, line: int|
            0 <= c < chunks.len() && 0 <= line < text::lines(chunks[c].text).len()
                && #[trigger] pattern::matches_line(
                pattern,
                true,
                text::lines(chunks[c].text)[line],
            ) ==> found_hits(chunks, pattern, cap).contains((c, line)),
        cap > 0 && (exists|c: int, line: int|
            0 <= c < chunks.len() && 0 <= line < text::lines(chunks[c].text).len()
                && #[trigger] pattern::matches_line(
                pattern,
                true,
                text::lines(chunks[c].text)[line],
            )) ==> found_hits(chunks, pattern, cap).len() > 0,
{
    law_grep_misses_nothing(chunks, pattern);
}

/// The text stands in what is shown.
proof fn lemma_has(s: Seq<char>, p: Seq<char>, part: Seq<char>, q: Seq<char>)
    requires
        s == p + part + q,
    ensures
        text::has(s, part),
{
    assert(s.subrange(p.len() as int, (p.len() + part.len()) as int) =~= part);
    assert(text::stands_at(s, part, p.len() as int));
}

proof fn lemma_cited_lines_has(c: chunk::ChunkView, from: int, to: int, k: int) -> (pq: (
    Seq<char>,
    Seq<char>,
))
    requires
        from <= k < to,
    ensures
        cited_lines(c, from, to) == pq.0 + cited_line(c, k) + pq.1,
    decreases to - from,
{
    if k == to - 1 {
        assert(cited_lines(c, from, to) =~= cited_lines(c, from, to - 1) + cited_line(c, k)
            + seq![]);
        (cited_lines(c, from, to - 1), seq![])
    } else {
        let (p, q) = lemma_cited_lines_has(c, from, to - 1, k);
        assert(cited_lines(c, from, to) =~= p + cited_line(c, k) + (q + cited_line(c, to - 1)));
        (p, q + cited_line(c, to - 1))
    }
}

proof fn lemma_hits_text_has(
    chunks: Seq<chunk::ChunkView>,
    hits: Seq<(int, int)>,
    around: int,
    i: int,
    k: int,
) -> (pq: (Seq<char>, Seq<char>))
    requires
        0 <= i < hits.len(),
        0 <= around,
        0 <= hits[i].1 < text::lines(chunks[hits[i].0].text).len(),
        0 <= k < text::lines(chunks[hits[i].0].text).len(),
        hits[i].1 - around <= k <= hits[i].1 + around,
    ensures
        hits_text(chunks, hits, around) == pq.0 + cited_line(chunks[hits[i].0], k) + pq.1,
    decreases hits.len(),
{
    let before = hits_text(chunks, hits.drop_last(), around);
    let last = hit_text(chunks, hits.last(), around);
    let line = cited_line(chunks[hits[i].0], k);
    if i == hits.len() - 1 {
        let c = chunks[hits[i].0];
        let n = text::lines(c.text).len();
        let lo = if hits[i].1 < around {
            0
        } else {
            hits[i].1 - around
        };
        let hi = if hits[i].1 + around + 1 < n {
            hits[i].1 + around + 1
        } else {
            n as int
        };
        let (p, q) = lemma_cited_lines_has(c, lo, hi, k);
        assert(hits_text(chunks, hits, around) =~= (before + p) + line + q);
        (before + p, q)
    } else {
        assert(hits.drop_last()[i] == hits[i]);
        let (p, q) = lemma_hits_text_has(chunks, hits.drop_last(), around, i, k);
        assert(hits_text(chunks, hits, around) =~= p + line + (q + last));
        (p, q + last)
    }
}

/// Every hit stands in the report, and so do the lines around it as far as they
/// were asked for, each with the id and the source of its chunk, the number that
/// the line has there, and the line.
pub proof fn law_a_report_shows_every_hit(
    chunks: Seq<chunk::ChunkView>,
    pattern: Seq<char>,
    hits: Seq<(int, int)>,
    cap: nat,
    around: int,
    i: int,
    k: int,
)
    requires
        0 <= i < hits.len(),
        0 <= around,
        0 <= hits[i].1 < text::lines(chunks[hits[i].0].text).len(),
        0 <= k < text::lines(chunks[hits[i].0].text).len(),
        hits[i].1 - around <= k <= hits[i].1 + around,
    ensures
        ({
            let c = chunks[hits[i].0];
            text::has(
                grep_text(chunks, pattern, true, hits, cap, around),
                "["@ + text::decimal(c.id) + "] "@ + c.source + ":"@ + text::decimal(
                    (c.start_line + k) as nat,
                ) + ": "@ + text::trim_end(text::lines(c.text)[k]) + "\n"@,
            )
        }),
{
    let c = chunks[hits[i].0];
    let line = cited_line(c, k);
    let (p, q) = lemma_hits_text_has(chunks, hits, around, i, k);
    let all = grep_text(chunks, pattern, true, hits, cap, around);
    let head = hits_header(chunks, hits);
    let mark = "[… stopped at the "@ + text::decimal(cap) + "-hit ceiling]\n"@;
    if hits.len() >= cap {
        assert(all =~= (head + p) + line + (q + mark));
        lemma_has(all, head + p, line, q + mark);
    } else {
        assert(all =~= (head + p) + line + q);
        lemma_has(all, head + p, line, q);
    }
}

/// A report leads with how many hits there are and in which chunks, and ends
/// with the mark of its ceiling if and only if it has as many hits as that.
pub proof fn law_a_report_says_where_it_stopped(
    chunks: Seq<chunk::ChunkView>,
    pattern: Seq<char>,
    hits: Seq<(int, int)>,
    cap: nat,
    around: int,
)
    ensures
        ({
            let head = text::decimal(hits.len()) + " hit(s) in chunks "@ + text::bracketed(
                ids_hit(chunks, hits),
            ) + "\n"@;
            &&& hits.len() >= cap ==> grep_text(chunks, pattern, true, hits, cap, around) == head
                + hits_text(chunks, hits, around) + ("[… stopped at the "@ + text::decimal(cap)
                + "-hit ceiling]\n"@)
            &&& hits.len() < cap ==> grep_text(chunks, pattern, true, hits, cap, around) == head
                + hits_text(chunks, hits, around)
        }),
{
}

/// The ids that lead a report are those of the chunks with hits, all of them,
/// each once.
pub proof fn law_the_ids_of_a_report_are_those_hit(
    chunks: Seq<chunk::ChunkView>,
    hits: Seq<(int, int)>,
)
    ensures
        forall|i: int|
            0 <= i < hits.len() ==> ids_hit(chunks, hits).contains(
                chunks[(#[trigger] hits[i]).0].id as usize,
            ),
        forall|id: usize| #[trigger]
            ids_hit(chunks, hits).contains(id) ==> exists|i: int|
                0 <= i < hits.len() && chunks[(#[trigger] hits[i]).0].id as usize == id,
        ids_hit(chunks, hits).no_duplicates(),
    decreases hits.len(),
{
    if hits.len() > 0 {
        let front = hits.drop_last();
        law_the_ids_of_a_report_are_those_hit(chunks, front);
        let before = ids_hit(chunks, front);
        let all = ids_hit(chunks, hits);
        let id = chunks[hits.last().0].id as usize;
        assert forall|i: int| 0 <= i < hits.len() implies all.contains(
            chunks[(#[trigger] hits[i]).0].id as usize,
        ) by {
            if i < front.len() {
                assert(front[i] == hits[i]);
                let x = chunks[hits[i].0].id as usize;
                let k = choose|k: int| 0 <= k < before.len() && before[k] == x;
                assert(all[k] == x);
            } else if !before.contains(id) {
                assert(all[all.len() - 1] == id);
            }
        }
        assert forall|x: usize| #[trigger] all.contains(x) implies exists|i: int|
            0 <= i < hits.len() && chunks[(#[trigger] hits[i]).0].id as usize == x by {
            let k = choose|k: int| 0 <= k < all.len() && all[k] == x;
            if k < before.len() {
                assert(before[k] == x);
                assert(before.contains(x));
                let i = choose|i: int|
                    0 <= i < front.len() && chunks[(#[trigger] front[i]).0].id as usize == x;
                assert(hits[i] == front[i]);
            } else {
                assert(hits[hits.len() - 1] == hits.last());
            }
        }
    }
}

/// That nothing matched is told if and only if no line of the corpus matches.
pub proof fn law_no_match_is_told_only_where_nothing_matches(
    chunks: Seq<chunk::ChunkView>,
    pattern: Seq<char>,
    max: Option<usize>,
    context_lines: Option<usize>,
)
    requires
        pattern::refusal(pattern, true, REGEX_SIZE_LIMIT, usize::BITS) is None,
    ensures
        text::begins(
            grep_outcome(chunks, pattern, max, context_lines),
            "no match for "@,
        ) <==> !exists|c: int, line: int|
            0 <= c < chunks.len() && 0 <= line < text::lines(chunks[c].text).len()
                && #[trigger] pattern::matches_line(
                pattern,
                true,
                text::lines(chunks[c].text)[line],
            ),
{
    law_grep_misses_nothing(chunks, pattern);
    reveal_strlit("no match for ");
    let shown = grep_outcome(chunks, pattern, max, context_lines);
    let said = "no match for "@;
    if matched(chunks, pattern) {
        let cap = capped(max, MAX_GREP_HITS as nat);
        let hits = found_hits(chunks, pattern, cap);
        let n = text::decimal(hits.len());
        text::law_a_number_is_shown_by_its_digits(hits.len());
        assert(shown[0] == n[0]);
        assert(text::is_digit(n[0]));
        if text::begins(shown, said) {
            assert(shown.subrange(0, said.len() as int)[0] == shown[0]);
            assert(said[0] == 'n');
            assert(false);
        }
    } else {
        assert(shown.subrange(0, said.len() as int) =~= said);
    }
}

/// How much one look may show: 4000 characters, 60 hits, and three lines on
/// either side of one; what a caller asks for counts up to that.
pub proof fn law_a_look_has_its_ceilings(asked: usize, ceiling: nat)
    ensures
        MAX_OBSERVATION_CHARS == 4_000,
        MAX_GREP_HITS == 60,
        MAX_GREP_CONTEXT == 3,
        REGEX_SIZE_LIMIT == 1_048_576,
        capped(None, ceiling) == ceiling,
        asked <= ceiling ==> capped(Some(asked), ceiling) == asked,
        asked > ceiling ==> capped(Some(asked), ceiling) == ceiling,
{
}

/// An observation of a text that is short enough is the text; of any other it
/// is the first 4000 characters, and what it says next is that it was cut.
pub proof fn law_an_observation_shows_what_it_can(s: Seq<char>)
    ensures
        s.len() <= 4_000 ==> observed(s).text == s && !observed(s).truncated,
        s.len() > 4_000 ==> observed(s).truncated && observed(s).text.len() > 4_000
            && observed(s).text.take(4_000) == s.take(4_000) && text::begins(
            observed(s).text.skip(4_000),
            "\n\n[… truncated: "@ + text::decimal(4_000) + " of "@ + text::decimal(s.len()),
        ),
{
    if s.len() > 4_000 {
        let shown = observed(s).text;
        reveal_strlit("\n\n[… truncated: ");
        assert(shown.take(4_000) =~= s.take(4_000));
        assert(shown.skip(4_000) =~= cut_mark(s.len()));
        let said = "\n\n[… truncated: "@ + text::decimal(4_000) + " of "@ + text::decimal(s.len());
        assert(cut_mark(s.len()).subrange(0, said.len() as int) =~= said);
    }
}

/// A window of a chunk is the text at the offset, as long as was asked for as
/// far as the chunk and the ceiling go, behind a line that says which chunk it
/// is and where it stands.
pub proof fn law_a_peek_shows_the_text_at_the_offset(
    chunks: Seq<chunk::ChunkView>,
    id: nat,
    start: nat,
    len: Option<usize>,
) -> (n: int)
    requires
        id < chunks.len(),
        start < chunks[id as int].text.len(),
    ensures
        0 <= n <= 4_000,
        start + n <= chunks[id as int].text.len(),
        len matches Some(asked) ==> n <= asked,
        start + n < chunks[id as int].text.len() ==> n == 4_000 || len == Some(n as usize),
        ({
            let c = chunks[id as int];
            let shown = peek_text(chunks, id, start, len);
            let window = c.text.subrange(start as int, start + n);
            &&& shown.len() > n
            &&& shown.skip(shown.len() - n) == window
            &&& shown[shown.len() - n - 1] == '\n'
            &&& text::begins(
                shown,
                "["@ + text::decimal(c.id) + "] "@ + c.source + ":"@ + text::decimal(c.start_line)
                    + "-"@ + text::decimal(c.end_line),
            )
            &&& text::has(shown, text::bracketed(chunk::neighbor_ids(c.id, chunks.len())))
        }),
{
    let c = chunks[id as int];
    let rest = c.text.skip(start as int);
    let cap = capped(len, MAX_OBSERVATION_CHARS as nat) as int;
    let window = text::prefix(rest, cap);
    let n = window.len() as int;
    assert(window =~= c.text.subrange(start as int, start + n));
    let shown = peek_text(chunks, id, start, len);
    let where_ = "["@ + text::decimal(c.id) + "] "@ + c.source + ":"@ + text::decimal(
        c.start_line,
    ) + "-"@ + text::decimal(c.end_line);
    let told = " (offset "@ + text::decimal(start) + " of "@ + text::decimal(c.text.len())
        + " chars; adjacent chunks: "@;
    let ids = text::bracketed(chunk::neighbor_ids(c.id, chunks.len()));
    reveal_strlit(")\n");
    assert(shown =~= where_ + told + ids + ")\n"@ + window);
    assert(shown.skip(shown.len() - n) =~= window);
    assert(shown.subrange(0, where_.len() as int) =~= where_);
    assert(shown =~= (where_ + told) + ids + (")\n"@ + window));
    lemma_has(shown, where_ + told, ids, ")\n"@ + window);
    n
}

/// What `outline` shows of the sources that a text is in is the outline of the
/// chunks of those sources, and of no others.
pub proof fn law_an_outline_is_narrowed_to_sources(
    chunks: Seq<chunk::ChunkView>,
    needle: Seq<char>,
)
    ensures
        rows_with(chunks, needle) == context::outline_of(
            chunks.filter(|c: chunk::ChunkView| text::has(c.source, needle)),
        ),
        outline_text(chunks, None) == context::outline_of(chunks),
        (exists|i: int| 0 <= i < chunks.len() && text::has((#[trigger] chunks[i]).source, needle))
            ==> outline_text(chunks, Some(needle)) == context::outline_of(
            chunks.filter(|c: chunk::ChunkView| text::has(c.source, needle)),
        ),
        !(exists|i: int| 0 <= i < chunks.len() && text::has(
            (#[trigger] chunks[i]).source,
            needle,
        )) ==> outline_text(chunks, Some(needle)) == "no source matches "@ + text::quoted(needle),
    decreases chunks.len(),
{
    reveal(Seq::filter);
    let f = |c: chunk::ChunkView| text::has(c.source, needle);
    if chunks.len() > 0 {
        let front = chunks.drop_last();
        law_an_outline_is_narrowed_to_sources(front, needle);
        if f(chunks.last()) {
            let kept = front.filter(f).push(chunks.last());
            assert(chunks.filter(f) == kept);
            assert(kept.drop_last() =~= front.filter(f));
            reveal_strlit("\n");
            assert(chunks[chunks.len() - 1] == chunks.last());
        } else {
            assert(chunks.filter(f) == front.filter(f));
            if exists|i: int| 0 <= i < chunks.len() && text::has(
                (#[trigger] chunks[i]).source,
                needle,
            ) {
                let i = choose|i: int|
                    0 <= i < chunks.len() && text::has((#[trigger] chunks[i]).source, needle);
                assert(front[i] == chunks[i]);
            }
            if exists|i: int| 0 <= i < front.len() && text::has(
                (#[trigger] front[i]).source,
                needle,
            ) {
                let i = choose|i: int|
                    0 <= i < front.len() && text::has((#[trigger] front[i]).source, needle);
                assert(chunks[i] == front[i]);
            }
        }
    }
    lemma_rows_with_empty(chunks, needle);
}

proof fn lemma_rows_with_empty(chunks: Seq<chunk::ChunkView>, needle: Seq<char>)
    ensures
        rows_with(chunks, needle).len() > 0 <==> exists|i: int|
            0 <= i < chunks.len() && text::has((#[trigger] chunks[i]).source, needle),
    decreases chunks.len(),
{
    if chunks.len() > 0 {
        let front = chunks.drop_last();
        lemma_rows_with_empty(front, needle);
        reveal_strlit("\n");
        if text::has(chunks.last().source, needle) {
            assert(chunks[chunks.len() - 1] == chunks.last());
        } else if rows_with(front, needle).len() > 0 {
            let i = choose|i: int|
                0 <= i < front.len() && text::has((#[trigger] front[i]).source, needle);
            assert(chunks[i] == front[i]);
        } else {
            assert forall|i: int| 0 <= i < chunks.len() implies !text::has(
                (#[trigger] chunks[i]).source,
                needle,
            ) by {
                if i < front.len() {
                    assert(front[i] == chunks[i]);
                }
            }
        }
    }
}

/// A search is carried out as it was asked for: it shows as many of the first
/// hits as the caller wants and 60 at the most, and 60 where the caller does not
/// say; and as many lines on either side of one as the caller wants and three at
/// the most, and none where the caller does not say. A pattern that is no pattern
/// is told with the reason.
pub proof fn law_a_search_is_carried_out_as_asked(
    chunks: Seq<chunk::ChunkView>,
    pattern: Seq<char>,
    max: Option<usize>,
    context_lines: Option<usize>,
    c: int,
    line: int,
)
    requires
        0 <= c < chunks.len(),
        0 <= line < text::lines(chunks[c].text).len(),
        pattern::matches_line(pattern, true, text::lines(chunks[c].text)[line]),
    ensures
        pattern::refusal(pattern, true, 1_048_576, usize::BITS) matches Some(why) ==> grep_outcome(
            chunks,
            pattern,
            max,
            context_lines,
        ) == "bad pattern: "@ + why,
        pattern::refusal(pattern, true, 1_048_576, usize::BITS) is None ==> ({
            let cap: nat = match max {
                Some(n) => if n < 60 {
                    n as nat
                } else {
                    60
                },
                None => 60,
            };
            let around: int = match context_lines {
                Some(n) => if n < 3 {
                    n as int
                } else {
                    3
                },
                None => 0,
            };
            let hits = found_hits(chunks, pattern, cap);
            let head = text::decimal(hits.len()) + " hit(s) in chunks "@ + text::bracketed(
                ids_hit(chunks, hits),
            ) + "\n"@;
            &&& hits.len() >= cap ==> grep_outcome(chunks, pattern, max, context_lines) == head
                + hits_text(chunks, hits, around) + ("[… stopped at the "@ + text::decimal(cap)
                + "-hit ceiling]\n"@)
            &&& hits.len() < cap ==> grep_outcome(chunks, pattern, max, context_lines) == head
                + hits_text(chunks, hits, around)
        }),
{
    law_grep_misses_nothing(chunks, pattern);
    law_grep_reports_the_first_hits(chunks, pattern, 1);
}

/// What a report shows of hits is what it shows of the first of them and what it
/// shows of the rest; and of one hit it is that line and the lines around it as
/// far as there are any, in order, each with the id and the source of its chunk
/// and its number there, and nothing else.
pub proof fn law_a_report_shows_the_lines_around_a_hit_alone(
    chunks: Seq<chunk::ChunkView>,
    a: Seq<(int, int)>,
    b: Seq<(int, int)>,
    c: int,
    line: int,
    around: int,
)
    requires
        0 <= c < chunks.len(),
        0 <= line < text::lines(chunks[c].text).len(),
        0 <= around,
    ensures
        hits_text(chunks, a + b, around) == hits_text(chunks, a, around) + hits_text(
            chunks,
            b,
            around,
        ),
        hits_text(chunks, Seq::<(int, int)>::empty(), around).len() == 0,
        ({
            let n = text::lines(chunks[c].text).len() as int;
            let lo = if line - around > 0 {
                line - around
            } else {
                0
            };
            let hi = if line + around < n {
                line + around + 1
            } else {
                n
            };
            hits_text(chunks, seq![(c, line)], around) == text::joined(
                numbered_lines(chunks[c], lo, hi),
                "\n"@,
            ) + "\n"@
        }),
    decreases b.len(),
{
    if b.len() == 0 {
        assert(a + b =~= a);
        assert(hits_text(chunks, a, around) =~= hits_text(chunks, a, around) + hits_text(
            chunks,
            b,
            around,
        ));
    } else {
        law_a_report_shows_the_lines_around_a_hit_alone(
            chunks,
            a,
            b.drop_last(),
            c,
            line,
            around,
        );
        assert((a + b).drop_last() =~= a + b.drop_last());
        assert(hits_text(chunks, a + b, around) =~= hits_text(chunks, a, around) + hits_text(
            chunks,
            b,
            around,
        ));
    }
    let one = seq![(c, line)];
    assert(one.drop_last() =~= Seq::<(int, int)>::empty());
    assert(hits_text(chunks, Seq::<(int, int)>::empty(), around) =~= seq![]);
    assert(hits_text(chunks, one.drop_last(), around) =~= seq![]);
    assert(hits_text(chunks, one, around) =~= hit_text(chunks, (c, line), around));
    let n = text::lines(chunks[c].text).len() as int;
    let lo = if line - around > 0 {
        line - around
    } else {
        0
    };
    let hi = if line + around < n {
        line + around + 1
    } else {
        n
    };
    lemma_cited_lines(chunks[c], lo, hi);
}

/// The lines `from..to` of a chunk, each behind the id and the source of the chunk
/// and the number that the line has there.
pub open spec fn numbered_lines(c: chunk::ChunkView, from: int, to: int) -> Seq<Seq<char>> {
    Seq::new(
        (to - from) as nat,
        |j: int|
            "["@ + text::decimal(c.id) + "] "@ + c.source + ":"@ + text::decimal(
                (c.start_line + from + j) as nat,
            ) + ": "@ + text::trim_end(text::lines(c.text)[from + j]),
    )
}

proof fn lemma_cited_lines(c: chunk::ChunkView, from: int, to: int)
    requires
        from < to,
    ensures
        cited_lines(c, from, to) == text::joined(numbered_lines(c, from, to), "\n"@) + "\n"@,
    decreases to - from,
{
    let rows = numbered_lines(c, from, to);
    let before = numbered_lines(c, from, to - 1);
    assert(rows.drop_last() =~= before);
    assert(rows.last() + "\n"@ =~= cited_line(c, to - 1));
    if to - 1 > from {
        lemma_cited_lines(c, from, to - 1);
        assert(cited_lines(c, from, to) =~= text::joined(rows, "\n"@) + "\n"@);
    } else {
        assert(cited_lines(c, from, to - 1) =~= seq![]);
        assert(cited_lines(c, from, to) =~= text::joined(rows, "\n"@) + "\n"@);
    }
}

/// A look at a chunk that is not there, or past the end of one, says so.
pub proof fn law_a_look_past_the_end_says_so(
    chunks: Seq<chunk::ChunkView>,
    id: nat,
    start: nat,
    len: Option<usize>,
)
    ensures
        id >= chunks.len() ==> peek_text(chunks, id, start, len) == "chunk "@ + text::decimal(id)
            + " does not exist"@,
        id < chunks.len() && start >= chunks[id as int].text.len() ==> peek_text(
            chunks,
            id,
            start,
            len,
        ) == "chunk "@ + text::decimal(id) + " is "@ + text::decimal(chunks[id as int].text.len())
            + " characters; offset "@ + text::decimal(start) + " is past its end"@,
{
}

} // verus!
