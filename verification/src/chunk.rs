//! Structure-aware chunking: turning documents into the addressable units that
//! a planner works over.
//!
//! Chunk boundaries are the coordinate system of everything else, so two
//! properties matter most: a chunk never straddles two documents, and a chunk
//! never splits a line. Inside a document the splitter prefers Markdown
//! headings, next blank lines, and cuts at any line once the text runs long.
//! Chunks do not overlap; [`Chunk::neighbors`] answers for facts on a boundary.
use vstd::prelude::*;
use vstd::string::*;

use crate::text;

verus! {

/// Target chunk size in characters, when a caller names none.
pub const DEFAULT_TARGET_CHARS: usize = 6_000;

/// Ceiling on a chunk of more than one line.
pub const MAX_CHARS: usize = 24_000;

/// The smallest target that is honoured.
pub const MIN_TARGET_CHARS: usize = 500;

/// The longest label, before the mark that says it was cut.
pub const MAX_LABEL_CHARS: usize = 96;

/// One addressable unit of a context.
#[derive(Debug)]
pub struct Chunk {
    /// Index into the context's chunks, by which every operator names it.
    pub id: usize,
    /// Where the text came from, as citations report it.
    pub source: String,
    /// First line of the text within `source`, counted from 1.
    pub start_line: usize,
    /// Last line of the text within `source`.
    pub end_line: usize,
    /// The chunk's own text.
    pub text: String,
    /// Its heading, or its first line that is not blank.
    pub label: String,
}

/// What a chunk holds.
#[verifier::ext_equal]
pub struct ChunkView {
    pub id: nat,
    pub source: Seq<char>,
    pub start_line: nat,
    pub end_line: nat,
    pub text: Seq<char>,
    pub label: Seq<char>,
}

impl View for Chunk {
    type V = ChunkView;

    open spec fn view(&self) -> ChunkView {
        ChunkView {
            id: self.id as nat,
            source: self.source@,
            start_line: self.start_line as nat,
            end_line: self.end_line as nat,
            text: self.text@,
            label: self.label@,
        }
    }
}

/// What a list of chunks holds.
pub open spec fn chunk_views(v: Seq<Chunk>) -> Seq<ChunkView> {
    Seq::new(v.len(), |i: int| v[i]@)
}

/// The ids next to `id` among `total`, the lower one first.
pub open spec fn neighbor_ids(id: nat, total: nat) -> Seq<usize> {
    (if id > 0 {
        seq![(id - 1) as usize]
    } else {
        seq![]
    }) + (if id + 1 < total {
        seq![(id + 1) as usize]
    } else {
        seq![]
    })
}

impl Chunk {
    /// How many characters the chunk's text has.
    pub fn chars(&self) -> (n: usize)
        ensures
            n == self.text@.len(),
    {
        self.text.as_str().unicode_len()
    }

    /// The ids just before and after this one, bounded by the corpus.
    pub fn neighbors(&self, total: usize) -> (r: Vec<usize>)
        requires
            self.id < usize::MAX,
        ensures
            r@ == neighbor_ids(self.id as nat, total as nat),
    {
        let mut out: Vec<usize> = Vec::new();
        if self.id > 0 {
            out.push(self.id - 1);
        }
        if self.id + 1 < total {
            out.push(self.id + 1);
        }
        assert(out@ =~= neighbor_ids(self.id as nat, total as nat));
        out
    }
}

impl Clone for Chunk {
    fn clone(&self) -> (r: Chunk)
        ensures
            r == *self,
    {
        Chunk {
            id: self.id,
            source: self.source.clone(),
            start_line: self.start_line,
            end_line: self.end_line,
            text: self.text.clone(),
            label: self.label.clone(),
        }
    }
}

/// One source document handed to the chunker.
#[derive(Debug)]
pub struct Document {
    pub source: String,
    pub text: String,
    /// The line of `source` that `text` starts at, counted from 1. It is not 1
    /// for an excerpt, whose citations must still name the lines of the whole.
    pub first_line: usize,
}

/// What a document holds.
#[verifier::ext_equal]
pub struct DocumentView {
    pub source: Seq<char>,
    pub text: Seq<char>,
    pub first_line: nat,
}

impl View for Document {
    type V = DocumentView;

    open spec fn view(&self) -> DocumentView {
        DocumentView {
            source: self.source@,
            text: self.text@,
            first_line: self.first_line as nat,
        }
    }
}

/// What a list of documents holds.
pub open spec fn doc_views(v: Seq<Document>) -> Seq<DocumentView> {
    Seq::new(v.len(), |i: int| v[i]@)
}

/// `n`, but at least 1.
pub open spec fn at_least_one(n: nat) -> nat {
    if n == 0 {
        1
    } else {
        n
    }
}

impl DocumentView {
    /// The number of the document's first line.
    pub open spec fn base(self) -> nat {
        at_least_one(self.first_line)
    }

    /// Every line of the document can be numbered. A document that starts at
    /// line 1 always fits.
    pub open spec fn fits(self) -> bool {
        self.first_line > 1 ==> self.first_line + text::lines(self.text).len() <= usize::MAX + 1
    }
}

impl Document {
    /// A whole document, starting at line 1.
    pub fn new(source: &str, text: &str) -> (r: Document)
        ensures
            r@ == (DocumentView { source: source@, text: text@, first_line: 1 }),
    {
        Document { source: source.to_owned(), text: text.to_owned(), first_line: 1 }
    }

    /// An excerpt that begins partway into `source`.
    pub fn excerpt(source: &str, text: &str, first_line: usize) -> (r: Document)
        ensures
            r@ == (DocumentView {
                source: source@,
                text: text@,
                first_line: at_least_one(first_line as nat),
            }),
    {
        Document {
            source: source.to_owned(),
            text: text.to_owned(),
            first_line: if first_line == 0 {
                1
            } else {
                first_line
            },
        }
    }
}

// ------------------------------------------------------- what a splitter does
/// How many `#` stand at the front of `s`.
pub open spec fn hashes(s: Seq<char>) -> nat
    decreases s.len(),
{
    if s.len() > 0 && s[0] == '#' {
        1 + hashes(s.skip(1))
    } else {
        0
    }
}

/// A Markdown ATX heading: one to six `#` and a space, after any white space.
pub open spec fn heading(line: Seq<char>) -> bool {
    let t = text::trim_start(line);
    1 <= hashes(t) <= 6 && hashes(t) < t.len() && t[hashes(t) as int] == ' '
}

/// The size of the lines `from..to`, with one more character for each line.
pub open spec fn size(ls: Seq<Seq<char>>, from: int, to: int) -> nat
    decreases to - from,
{
    if from < to {
        size(ls, from, to - 1) + ls[to - 1].len() + 1
    } else {
        0
    }
}

/// The size that a chunk of more than one line may not pass.
pub open spec fn ceiling(target: nat) -> nat {
    if 2 * target < MAX_CHARS {
        2 * target
    } else {
        MAX_CHARS as nat
    }
}

/// Does a chunk that began at line `from` end before line `i`?
pub open spec fn breaks(ls: Seq<Seq<char>>, target: nat, from: int, i: int) -> bool {
    ||| heading(ls[i]) && size(ls, from, i) >= target / 3
    ||| text::is_blank(ls[i]) && size(ls, from, i) >= target
    ||| size(ls, from, i) + ls[i].len() + 1 > ceiling(target)
}

/// The first line at or after `i` that breaks a group begun at `from`, or the
/// end of the document.
pub open spec fn group_end(ls: Seq<Seq<char>>, target: nat, from: int, i: int) -> int
    decreases ls.len() - i,
{
    if i >= ls.len() {
        ls.len() as int
    } else if breaks(ls, target, from, i) {
        i
    } else {
        group_end(ls, target, from, i + 1)
    }
}

/// The groups that the lines from `from` on fall into, each with its first
/// line and the line after its last.
pub open spec fn groups(ls: Seq<Seq<char>>, target: nat, from: int) -> Seq<(int, int)>
    decreases ls.len() - from,
{
    if from >= ls.len() {
        seq![]
    } else {
        let end = group_end(ls, target, from, from + 1);
        proof {
            lemma_group_end(ls, target, from, from + 1);
        }
        seq![(from, end)] + groups(ls, target, end)
    }
}

/// Where a group ends: nothing breaks it before, and something breaks it
/// there, unless the document ends.
pub proof fn lemma_group_end(ls: Seq<Seq<char>>, target: nat, from: int, i: int)
    requires
        i <= ls.len(),
    ensures
        i <= group_end(ls, target, from, i) <= ls.len(),
        forall|k: int|
            i <= k < group_end(ls, target, from, i) ==> !#[trigger] breaks(ls, target, from, k),
        group_end(ls, target, from, i) < ls.len() ==> breaks(
            ls,
            target,
            from,
            group_end(ls, target, from, i),
        ),
    decreases ls.len() - i,
{
    if i < ls.len() && !breaks(ls, target, from, i) {
        lemma_group_end(ls, target, from, i + 1);
    }
}

/// The first line of `from..to` that is not blank, or nothing.
pub open spec fn first_told(ls: Seq<Seq<char>>, from: int, to: int) -> Seq<char>
    decreases to - from,
{
    if from >= to {
        seq![]
    } else if !text::is_blank(ls[from]) {
        ls[from]
    } else {
        first_told(ls, from + 1, to)
    }
}

/// What a line says: the words of a heading, and any other line as it is, both
/// without white space around them.
pub open spec fn words_of(line: Seq<char>) -> Seq<char> {
    let t = text::trim(line);
    if heading(line) {
        text::trim(t.skip(hashes(t) as int))
    } else {
        t
    }
}

/// A line as a label: what it says, cut with a mark where it is long.
pub open spec fn label_of(line: Seq<char>) -> Seq<char> {
    let cleaned = words_of(line);
    if cleaned.len() > MAX_LABEL_CHARS {
        cleaned.take(MAX_LABEL_CHARS as int) + "…"@
    } else {
        cleaned
    }
}

/// The text of the lines `from..to`.
pub open spec fn span_text(ls: Seq<Seq<char>>, from: int, to: int) -> Seq<char> {
    text::joined(ls.subrange(from, to), "\n"@)
}

/// The chunk that a group of lines becomes.
pub open spec fn group_chunk(
    doc: DocumentView,
    ls: Seq<Seq<char>>,
    group: (int, int),
    id: nat,
) -> ChunkView {
    ChunkView {
        id,
        source: doc.source,
        start_line: (doc.base() + group.0) as nat,
        end_line: (doc.base() + group.1 - 1) as nat,
        text: span_text(ls, group.0, group.1),
        label: label_of(first_told(ls, group.0, group.1)),
    }
}

/// The chunks that groups become, numbered from `next`; a blank group becomes
/// none.
pub open spec fn group_chunks(
    doc: DocumentView,
    ls: Seq<Seq<char>>,
    gs: Seq<(int, int)>,
    next: nat,
) -> Seq<ChunkView>
    decreases gs.len(),
{
    if gs.len() == 0 {
        seq![]
    } else {
        let before = group_chunks(doc, ls, gs.drop_last(), next);
        let group = gs.last();
        if text::is_blank(span_text(ls, group.0, group.1)) {
            before
        } else {
            before.push(group_chunk(doc, ls, group, next + before.len()))
        }
    }
}

/// The chunks of one document, numbered from `next`.
pub open spec fn doc_chunks(doc: DocumentView, target: nat, next: nat) -> Seq<ChunkView> {
    let ls = text::lines(doc.text);
    group_chunks(doc, ls, groups(ls, target, 0), next)
}

/// The chunks of all documents, in order.
pub open spec fn corpus_chunks(docs: Seq<DocumentView>, target: nat) -> Seq<ChunkView>
    decreases docs.len(),
{
    if docs.len() == 0 {
        seq![]
    } else {
        let before = corpus_chunks(docs.drop_last(), target);
        before + doc_chunks(docs.last(), target, before.len())
    }
}

/// The target that is used for the one asked for.
pub open spec fn clamped_target(target: nat) -> nat {
    if target < MIN_TARGET_CHARS {
        MIN_TARGET_CHARS as nat
    } else if target > MAX_CHARS {
        MAX_CHARS as nat
    } else {
        target
    }
}

// ------------------------------------------------------------------- the code
/// How many `#` stand in `cs` from `from` on.
fn count_hashes(cs: &Vec<char>, from: usize) -> (n: usize)
    requires
        from <= cs@.len(),
    ensures
        n == hashes(cs@.skip(from as int)),
        from + n <= cs@.len(),
{
    let mut n: usize = 0;
    let total: usize = cs.len();
    while from + n < total && cs[from + n] == '#'
        invariant
            total == cs@.len(),
            from + n <= total,
            hashes(cs@.skip(from as int)) == n + hashes(cs@.skip(from as int + n as int)),
        decreases total - from - n,
    {
        assert(cs@.skip(from as int + n as int).skip(1) =~= cs@.skip(from as int + n as int + 1));
        n = n + 1;
    }
    n
}

/// Is the line a Markdown ATX heading? Headings underlined on the next line do
/// not count: a table of dashes would look like one per row.
fn is_heading(line: &str) -> (r: bool)
    ensures
        r == heading(line@),
{
    let t = text::trimmed_start(line);
    let cs = text::chars_of(t.as_str());
    assert(cs@.skip(0) =~= cs@);
    let n: usize = count_hashes(&cs, 0);
    1 <= n && n <= 6 && n < cs.len() && cs[n] == ' '
}

/// The line that stands for a chunk in an outline.
fn label_for(ls: &Vec<String>, from: usize, to: usize) -> (r: String)
    requires
        from <= to <= ls@.len(),
    ensures
        r@ == label_of(first_told(text::views(ls@), from as int, to as int)),
{
    let ghost v = text::views(ls@);
    let mut i: usize = from;
    while i < to && text::blank(ls[i].as_str())
        invariant
            from <= i <= to <= ls@.len(),
            v == text::views(ls@),
            first_told(v, from as int, to as int) == first_told(v, i as int, to as int),
        decreases to - i,
    {
        i = i + 1;
    }
    let raw = if i < to {
        ls[i].clone()
    } else {
        String::new()
    };
    assert(raw@ == first_told(v, from as int, to as int));
    let cleaned = if is_heading(raw.as_str()) {
        let t = text::chars_of(text::trimmed(raw.as_str()).as_str());
        assert(t@.skip(0) =~= t@);
        let n: usize = count_hashes(&t, 0);
        let bare = text::string_of(&t, n, t.len());
        assert(t@.skip(n as int) =~= t@.subrange(n as int, t@.len() as int));
        text::trimmed(bare.as_str())
    } else {
        text::trimmed(raw.as_str())
    };
    let mut out = text::first_chars(cleaned.as_str(), MAX_LABEL_CHARS);
    if cleaned.as_str().unicode_len() > MAX_LABEL_CHARS {
        out.append("…");
    }
    out
}

/// Appends the chunk of the lines `from..to`, unless there is nothing in it
/// but white space.
fn push_chunk(doc: &Document, ls: &Vec<String>, from: usize, to: usize, out: &mut Vec<Chunk>)
    requires
        from < to <= ls@.len(),
        doc@.base() + to <= usize::MAX + 1,
    ensures
        chunk_views(final(out)@) == if text::is_blank(
            span_text(text::views(ls@), from as int, to as int),
        ) {
            chunk_views(old(out)@)
        } else {
            chunk_views(old(out)@).push(
                group_chunk(doc@, text::views(ls@), (from as int, to as int), old(out)@.len()),
            )
        },
{
    let text = text::join(ls, from, to, "\n");
    if text::blank(text.as_str()) {
        return ;
    }
    let label = label_for(ls, from, to);
    let base: usize = if doc.first_line == 0 {
        1
    } else {
        doc.first_line
    };
    let chunk = Chunk {
        id: out.len(),
        source: doc.source.clone(),
        start_line: base + from,
        end_line: base + (to - 1),
        text,
        label,
    };
    let ghost was = out@;
    out.push(chunk);
    proof {
        let want = group_chunk(doc@, text::views(ls@), (from as int, to as int), was.len());
        assert(chunk@ == want);
        assert(chunk_views(out@) =~= chunk_views(was).push(want));
    }
}

/// Splits one document, appending to `out` so that ids stay consecutive across
/// the corpus. The target is a preference of at least one character.
fn split_one(doc: &Document, target: usize, out: &mut Vec<Chunk>)
    requires
        doc@.fits(),
        target <= MAX_CHARS,
    ensures
        chunk_views(final(out)@) == chunk_views(old(out)@) + doc_chunks(
            doc@,
            target as nat,
            old(out)@.len(),
        ),
{
    let ls = text::lines_of(doc.text.as_str());
    let n: usize = ls.len();
    let ghost v = text::views(ls@);
    let ghost was = chunk_views(out@);
    let ghost done: Seq<(int, int)> = seq![];
    let soft_ceiling: usize = if target * 2 < MAX_CHARS {
        target * 2
    } else {
        MAX_CHARS
    };
    let mut from: usize = 0;
    let mut held: usize = 0;
    let mut i: usize = 0;
    proof {
        assert(was + group_chunks(doc@, v, done, was.len()) =~= was);
        assert(done + groups(v, target as nat, 0) =~= groups(v, target as nat, 0));
    }
    while i < n
        invariant
            n == ls@.len(),
            v == text::views(ls@),
            v == text::lines(doc@.text),
            doc@.fits(),
            target <= MAX_CHARS,
            soft_ceiling == ceiling(target as nat),
            from <= i <= n,
            i > 0 ==> from < i,
            held == size(v, from as int, i as int) || held == usize::MAX && held <= size(
                v,
                from as int,
                i as int,
            ),
            groups(v, target as nat, 0) == done + groups(v, target as nat, from as int),
            i > 0 ==> group_end(v, target as nat, from as int, from + 1) == group_end(
                v,
                target as nat,
                from as int,
                i as int,
            ),
            chunk_views(out@) == was + group_chunks(doc@, v, done, was.len()),
        decreases n - i,
    {
        let line = ls[i].as_str();
        let chars: usize = line.unicode_len();
        let with_line: usize = saturating_size(held, chars);
        if i > 0 {
            let cut = is_heading(line) && held >= target / 3 || text::blank(line) && held >= target
                || with_line > soft_ceiling;
            assert(cut == breaks(v, target as nat, from as int, i as int));
            if cut {
                proof {
                    let gs = done.push((from as int, i as int));
                    assert(gs.drop_last() =~= done);
                    assert(done + groups(v, target as nat, from as int) =~= gs + groups(
                        v,
                        target as nat,
                        i as int,
                    ));
                    assert(chunk_views(out@).len() == out@.len());
                    done = gs;
                }
                push_chunk(doc, &ls, from, i, out);
                proof {
                    assert(chunk_views(out@) =~= was + group_chunks(doc@, v, done, was.len()));
                }
                from = i;
                held = 0;
                assert(size(v, i as int, i as int) == 0);
            }
        }
        assert(v[i as int] == ls@[i as int]@);
        assert(size(v, from as int, i as int + 1) == size(v, from as int, i as int)
            + v[i as int].len() + 1);
        held = saturating_size(held, chars);
        i = i + 1;
    }
    if n > 0 {
        proof {
            let gs = done.push((from as int, n as int));
            assert(gs.drop_last() =~= done);
            assert(groups(v, target as nat, n as int) =~= seq![]);
            assert(done + groups(v, target as nat, from as int) =~= gs);
            assert(chunk_views(out@).len() == out@.len());
            done = gs;
        }
        push_chunk(doc, &ls, from, n, out);
        proof {
            assert(chunk_views(out@) =~= was + group_chunks(doc@, v, done, was.len()));
        }
    } else {
        assert(groups(v, target as nat, 0) =~= done);
    }
}

/// `held + chars + 1`, or the largest number where that is larger.
fn saturating_size(held: usize, chars: usize) -> (r: usize)
    ensures
        r == held + chars + 1 || r == usize::MAX && held + chars + 1 > usize::MAX,
{
    if chars == usize::MAX || held > usize::MAX - chars - 1 {
        usize::MAX
    } else {
        held + chars + 1
    }
}

/// Splits documents into chunks, numbered consecutively across the whole
/// corpus in document order.
pub fn chunk_documents(docs: &[Document], target: usize) -> (r: Vec<Chunk>)
    requires
        forall|i: int| 0 <= i < docs@.len() ==> (#[trigger] docs@[i])@.fits(),
    ensures
        chunk_views(r@) == corpus_chunks(doc_views(docs@), clamped_target(target as nat)),
{
    let target: usize = if target < MIN_TARGET_CHARS {
        MIN_TARGET_CHARS
    } else if target > MAX_CHARS {
        MAX_CHARS
    } else {
        target
    };
    let mut out: Vec<Chunk> = Vec::new();
    let ghost v = doc_views(docs@);
    let mut i: usize = 0;
    assert(chunk_views(out@) =~= corpus_chunks(v.take(0), target as nat));
    while i < docs.len()
        invariant
            i <= docs@.len(),
            target <= MAX_CHARS,
            v == doc_views(docs@),
            forall|k: int| 0 <= k < docs@.len() ==> (#[trigger] docs@[k])@.fits(),
            chunk_views(out@) == corpus_chunks(v.take(i as int), target as nat),
        decreases docs@.len() - i,
    {
        assert(v.take(i as int + 1).drop_last() =~= v.take(i as int));
        split_one(&docs[i], target, &mut out);
        i = i + 1;
    }
    assert(v.take(i as int) =~= v);
    out
}

// ----------------------------------------------------------------------- laws
/// The groups cover the lines `from..to` with no gap and no overlap.
pub open spec fn tiles(gs: Seq<(int, int)>, from: int, to: int) -> bool {
    if gs.len() == 0 {
        from == to
    } else {
        &&& gs[0].0 == from
        &&& gs.last().1 == to
        &&& forall|k: int| 0 <= k < gs.len() ==> (#[trigger] gs[k]).0 < gs[k].1
        &&& forall|k: int, m: int|
            0 <= k < gs.len() && m == k + 1 && m < gs.len() ==> (#[trigger] gs[k]).1 == (
            #[trigger] gs[m]).0
    }
}

/// No group of more than one line passes the ceiling.
pub open spec fn within_ceiling(
    ls: Seq<Seq<char>>,
    target: nat,
    group: (int, int),
) -> bool {
    group.1 == group.0 + 1 || size(ls, group.0, group.1) <= ceiling(target)
}

/// Groups cover every line once, in order, and keep to the ceiling.
pub proof fn lemma_groups(ls: Seq<Seq<char>>, target: nat, from: int)
    requires
        0 <= from <= ls.len(),
    ensures
        tiles(groups(ls, target, from), from, ls.len() as int),
        forall|k: int|
            0 <= k < groups(ls, target, from).len() ==> within_ceiling(
                ls,
                target,
                #[trigger] groups(ls, target, from)[k],
            ),
    decreases ls.len() - from,
{
    if from < ls.len() {
        let end = group_end(ls, target, from, from + 1);
        lemma_group_end(ls, target, from, from + 1);
        lemma_groups(ls, target, end);
        let rest = groups(ls, target, end);
        let all = groups(ls, target, from);
        assert(all =~= seq![(from, end)] + rest);
        if end > from + 1 {
            assert(!breaks(ls, target, from, end - 1));
        }
        assert forall|k: int| 0 <= k < all.len() implies within_ceiling(
            ls,
            target,
            #[trigger] all[k],
        ) by {
            if k > 0 {
                assert(all[k] == rest[k - 1]);
            }
        }
        assert forall|k: int| 0 <= k < all.len() implies (#[trigger] all[k]).0 < all[k].1 by {
            if k > 0 {
                assert(all[k] == rest[k - 1]);
            }
        }
        assert forall|k: int, m: int| 0 <= k < all.len() && m == k + 1 && m < all.len() implies (
        #[trigger] all[k]).1 == (#[trigger] all[m]).0 by {
            assert(all[m] == rest[m - 1]);
            if k > 0 {
                assert(all[k] == rest[k - 1]);
            }
        }
        if rest.len() > 0 {
            assert(all.last() == rest.last());
        }
    }
}

/// Every group ends where the groups do, or before.
proof fn lemma_tiles_bound(gs: Seq<(int, int)>, from: int, to: int, k: int)
    requires
        tiles(gs, from, to),
        0 <= k < gs.len(),
    ensures
        from <= gs[k].0 < gs[k].1 <= to,
    decreases gs.len(),
{
    if k < gs.len() - 1 {
        lemma_tiles_drop_last(gs, from, to);
        lemma_tiles_bound(gs.drop_last(), from, gs.last().0, k);
        assert(gs.drop_last()[k] == gs[k]);
    } else if gs.len() > 1 {
        lemma_tiles_drop_last(gs, from, to);
        lemma_tiles_bound(gs.drop_last(), from, gs.last().0, gs.len() - 2);
    }
}

proof fn lemma_tiles_drop_last(gs: Seq<(int, int)>, from: int, to: int)
    requires
        tiles(gs, from, to),
        gs.len() > 0,
    ensures
        tiles(gs.drop_last(), from, gs.last().0),
{
    let t = gs.drop_last();
    if t.len() > 0 {
        assert(t.last() == gs[gs.len() - 2]);
        assert(gs[gs.len() - 2].1 == gs[gs.len() - 1].0);
        assert forall|k: int| 0 <= k < t.len() implies (#[trigger] t[k]).0 < t[k].1 by {
            assert(t[k] == gs[k]);
        }
        assert forall|k: int, m: int| 0 <= k < t.len() && m == k + 1 && m < t.len() implies (
        #[trigger] t[k]).1 == (#[trigger] t[m]).0 by {
            assert(t[k] == gs[k] && t[m] == gs[m]);
        }
    }
}

/// The chunk at `i` comes from the group at `k`.
pub open spec fn comes_from(
    doc: DocumentView,
    ls: Seq<Seq<char>>,
    gs: Seq<(int, int)>,
    next: nat,
    i: int,
    k: int,
) -> bool {
    &&& 0 <= k < gs.len()
    &&& !is_blank_group(ls, gs[k])
    &&& group_chunks(doc, ls, gs, next)[i] == group_chunk(doc, ls, gs[k], (next + i) as nat)
}

/// Is there nothing but white space in the group?
pub open spec fn is_blank_group(ls: Seq<Seq<char>>, group: (int, int)) -> bool {
    text::is_blank(span_text(ls, group.0, group.1))
}

/// Every chunk comes from a group.
proof fn lemma_chunk_origin(
    doc: DocumentView,
    ls: Seq<Seq<char>>,
    gs: Seq<(int, int)>,
    next: nat,
    i: int,
) -> (k: int)
    requires
        0 <= i < group_chunks(doc, ls, gs, next).len(),
    ensures
        comes_from(doc, ls, gs, next, i, k),
    decreases gs.len(),
{
    let early = gs.drop_last();
    let before = group_chunks(doc, ls, early, next);
    if i < before.len() {
        let k = lemma_chunk_origin(doc, ls, early, next, i);
        assert(early[k] == gs[k]);
        k
    } else {
        gs.len() - 1
    }
}

/// Every group that is not blank becomes a chunk.
proof fn lemma_group_told(
    doc: DocumentView,
    ls: Seq<Seq<char>>,
    gs: Seq<(int, int)>,
    next: nat,
    k: int,
) -> (i: int)
    requires
        0 <= k < gs.len(),
        !is_blank_group(ls, gs[k]),
    ensures
        0 <= i < group_chunks(doc, ls, gs, next).len(),
        comes_from(doc, ls, gs, next, i, k),
    decreases gs.len(),
{
    let early = gs.drop_last();
    let before = group_chunks(doc, ls, early, next);
    if k < gs.len() - 1 {
        assert(early[k] == gs[k]);
        lemma_group_told(doc, ls, early, next, k)
    } else {
        before.len() as int
    }
}

/// Chunks stand in the order of their lines, and all before the line `to`.
proof fn lemma_chunk_order(
    doc: DocumentView,
    ls: Seq<Seq<char>>,
    gs: Seq<(int, int)>,
    next: nat,
    from: int,
    to: int,
)
    requires
        0 <= from,
        tiles(gs, from, to),
    ensures
        forall|i: int, j: int|
            0 <= i < j < group_chunks(doc, ls, gs, next).len() ==> (#[trigger] group_chunks(
                doc,
                ls,
                gs,
                next,
            )[i]).end_line < (#[trigger] group_chunks(doc, ls, gs, next)[j]).start_line,
        forall|i: int|
            0 <= i < group_chunks(doc, ls, gs, next).len() ==> (#[trigger] group_chunks(
                doc,
                ls,
                gs,
                next,
            )[i]).end_line < doc.base() + to,
    decreases gs.len(),
{
    if gs.len() > 0 {
        let early = gs.drop_last();
        lemma_tiles_drop_last(gs, from, to);
        lemma_tiles_bound(gs, from, to, gs.len() - 1);
        lemma_chunk_order(doc, ls, early, next, from, gs.last().0);
        let before = group_chunks(doc, ls, early, next);
        let all = group_chunks(doc, ls, gs, next);
        let fresh = group_chunk(doc, ls, gs.last(), next + before.len());
        assert(all == before || all == before.push(fresh));
        assert forall|i: int| 0 <= i < all.len() implies (#[trigger] all[i]).end_line < doc.base()
            + to by {
            if i < before.len() {
                assert(all[i] == before[i]);
            }
        }
        assert forall|i: int, j: int| 0 <= i < j < all.len() implies (#[trigger] all[i]).end_line
            < (#[trigger] all[j]).start_line by {
            assert(all[i] == before[i]);
            if j < before.len() {
                assert(all[j] == before[j]);
            }
        }
    } else {
        assert(group_chunks(doc, ls, gs, next).len() == 0);
    }
}

/// The chunk `c` is a run of whole lines of `doc`, with its source and the
/// numbers that its lines have in it.
pub open spec fn cut_from(c: ChunkView, doc: DocumentView) -> bool {
    let ls = text::lines(doc.text);
    let from = c.start_line - doc.base();
    let to = c.end_line - doc.base() + 1;
    &&& c.source == doc.source
    &&& 0 <= from < to <= ls.len()
    &&& c.text == span_text(ls, from, to)
    &&& c.label == label_of(first_told(ls, from, to))
}

/// A chunk never splits a line, never holds white space alone, and passes the
/// ceiling only when it is a single line; chunks of a document are numbered
/// one after the other and do not overlap.
pub proof fn law_chunks_are_runs_of_whole_lines(doc: DocumentView, target: nat, next: nat)
    ensures
        forall|i: int|
            0 <= i < doc_chunks(doc, target, next).len() ==> {
                let c = #[trigger] doc_chunks(doc, target, next)[i];
                &&& cut_from(c, doc)
                &&& c.id == next + i
                &&& !text::is_blank(c.text)
                &&& c.start_line == c.end_line || c.text.len() < ceiling(target)
            },
        forall|i: int, j: int|
            0 <= i < j < doc_chunks(doc, target, next).len() ==> (#[trigger] doc_chunks(
                doc,
                target,
                next,
            )[i]).end_line < (#[trigger] doc_chunks(doc, target, next)[j]).start_line,
{
    let ls = text::lines(doc.text);
    let gs = groups(ls, target, 0);
    lemma_groups(ls, target, 0);
    lemma_chunk_order(doc, ls, gs, next, 0, ls.len() as int);
    assert forall|i: int| 0 <= i < doc_chunks(doc, target, next).len() implies {
        let c = #[trigger] doc_chunks(doc, target, next)[i];
        &&& cut_from(c, doc)
        &&& c.id == next + i
        &&& !text::is_blank(c.text)
        &&& c.start_line == c.end_line || c.text.len() < ceiling(target)
    } by {
        let k = lemma_chunk_origin(doc, ls, gs, next, i);
        lemma_tiles_bound(gs, 0, ls.len() as int, k);
        assert(within_ceiling(ls, target, gs[k]));
        lemma_span_size(ls, gs[k].0, gs[k].1);
    }
}

/// The text of a run of lines is one shorter than the run's size.
proof fn lemma_span_size(ls: Seq<Seq<char>>, from: int, to: int)
    requires
        0 <= from < to <= ls.len(),
    ensures
        span_text(ls, from, to).len() + 1 == size(ls, from, to),
    decreases to - from,
{
    reveal_strlit("\n");
    let run = ls.subrange(from, to);
    if to == from + 1 {
        assert(size(ls, from, from) == 0);
        assert(run[0] == ls[from]);
    } else {
        lemma_span_size(ls, from, to - 1);
        assert(run.drop_last() =~= ls.subrange(from, to - 1));
    }
}

/// Every line that is not blank lies in a chunk of its document.
pub proof fn law_every_told_line_is_in_a_chunk(doc: DocumentView, target: nat, next: nat, line: int)
    requires
        0 <= line < text::lines(doc.text).len(),
        !text::is_blank(text::lines(doc.text)[line]),
    ensures
        exists|i: int|
            0 <= i < doc_chunks(doc, target, next).len() && (#[trigger] doc_chunks(
                doc,
                target,
                next,
            )[i]).start_line <= doc.base() + line <= doc_chunks(doc, target, next)[i].end_line,
{
    let ls = text::lines(doc.text);
    let gs = groups(ls, target, 0);
    lemma_groups(ls, target, 0);
    let k = lemma_tiles_find(gs, 0, ls.len() as int, line);
    lemma_tiles_bound(gs, 0, ls.len() as int, k);
    lemma_span_told(ls, gs[k].0, gs[k].1, line);
    let i = lemma_group_told(doc, ls, gs, next, k);
    assert(doc_chunks(doc, target, next)[i].start_line <= doc.base() + line);
}

/// The group that a line falls in.
proof fn lemma_tiles_find(gs: Seq<(int, int)>, from: int, to: int, line: int) -> (k: int)
    requires
        tiles(gs, from, to),
        from <= line < to,
    ensures
        0 <= k < gs.len(),
        gs[k].0 <= line < gs[k].1,
    decreases gs.len(),
{
    if line >= gs.last().0 {
        gs.len() - 1
    } else {
        lemma_tiles_drop_last(gs, from, to);
        let k = lemma_tiles_find(gs.drop_last(), from, gs.last().0, line);
        assert(gs.drop_last()[k] == gs[k]);
        k
    }
}

/// A run with a line that is not blank is not blank.
proof fn lemma_span_told(ls: Seq<Seq<char>>, from: int, to: int, line: int)
    requires
        0 <= from <= line < to <= ls.len(),
        !text::is_blank(ls[line]),
    ensures
        !text::is_blank(span_text(ls, from, to)),
    decreases to - from,
{
    let run = ls.subrange(from, to);
    let whole = span_text(ls, from, to);
    if to == from + 1 {
        assert(run[0] == ls[from]);
    } else {
        assert(run.drop_last() =~= ls.subrange(from, to - 1));
        let front = span_text(ls, from, to - 1);
        let last = ls[to - 1];
        assert(whole == front + "\n"@ + last);
        if line == to - 1 {
            let j = choose|j: int| 0 <= j < last.len() && !text::is_white(#[trigger] last[j]);
            assert(whole[front.len() + "\n"@.len() + j] == last[j]);
        } else {
            lemma_span_told(ls, from, to - 1, line);
            let j = choose|j: int| 0 <= j < front.len() && !text::is_white(#[trigger] front[j]);
            assert(whole[j] == front[j]);
        }
    }
}

/// Where no line is blank, the chunks' spans tile the document: the first
/// starts at its first line, each starts on the line after the one before, and
/// the last ends at its last line.
pub proof fn law_spans_tile_a_document_without_blank_lines(
    doc: DocumentView,
    target: nat,
    next: nat,
)
    requires
        text::lines(doc.text).len() > 0,
        forall|k: int|
            0 <= k < text::lines(doc.text).len() ==> !text::is_blank(
                #[trigger] text::lines(doc.text)[k],
            ),
    ensures
        doc_chunks(doc, target, next).len() > 0,
        doc_chunks(doc, target, next)[0].start_line == doc.base(),
        doc_chunks(doc, target, next).last().end_line == doc.base() + text::lines(doc.text).len()
            - 1,
        forall|i: int, j: int|
            0 <= i < doc_chunks(doc, target, next).len() && j == i + 1 && j < doc_chunks(
                doc,
                target,
                next,
            ).len() ==> (#[trigger] doc_chunks(doc, target, next)[j]).start_line == (
            #[trigger] doc_chunks(doc, target, next)[i]).end_line + 1,
{
    let ls = text::lines(doc.text);
    let gs = groups(ls, target, 0);
    lemma_groups(ls, target, 0);
    assert forall|k: int| 0 <= k < gs.len() implies !is_blank_group(ls, #[trigger] gs[k]) by {
        lemma_tiles_bound(gs, 0, ls.len() as int, k);
        lemma_span_told(ls, gs[k].0, gs[k].1, gs[k].0);
    }
    lemma_all_told(doc, ls, gs, next);
    let all = doc_chunks(doc, target, next);
    assert forall|i: int, j: int| 0 <= i < all.len() && j == i + 1 && j < all.len() implies (
    #[trigger] all[j]).start_line == (#[trigger] all[i]).end_line + 1 by {
        assert(all[i] == group_chunk(doc, ls, gs[i], (next + i) as nat));
        assert(all[j] == group_chunk(doc, ls, gs[j], (next + j) as nat));
        lemma_tiles_bound(gs, 0, ls.len() as int, i);
    }
}

/// With no blank group, each group is a chunk.
proof fn lemma_all_told(
    doc: DocumentView,
    ls: Seq<Seq<char>>,
    gs: Seq<(int, int)>,
    next: nat,
)
    requires
        forall|k: int| 0 <= k < gs.len() ==> !is_blank_group(ls, #[trigger] gs[k]),
    ensures
        group_chunks(doc, ls, gs, next).len() == gs.len(),
        forall|k: int|
            0 <= k < gs.len() ==> #[trigger] group_chunks(doc, ls, gs, next)[k] == group_chunk(
                doc,
                ls,
                gs[k],
                (next + k) as nat,
            ),
    decreases gs.len(),
{
    if gs.len() > 0 {
        assert forall|k: int| 0 <= k < gs.drop_last().len() implies !is_blank_group(
            ls,
            #[trigger] gs.drop_last()[k],
        ) by {
            assert(gs.drop_last()[k] == gs[k]);
        }
        lemma_all_told(doc, ls, gs.drop_last(), next);
        assert(!is_blank_group(ls, gs.last()));
    }
}

/// A chunk never straddles two documents: each is cut from one of them. The id
/// of a chunk is its place in the corpus.
pub proof fn law_a_chunk_comes_from_one_document(docs: Seq<DocumentView>, target: nat)
    ensures
        forall|i: int|
            0 <= i < corpus_chunks(docs, target).len() ==> {
                let c = #[trigger] corpus_chunks(docs, target)[i];
                &&& c.id == i
                &&& !text::is_blank(c.text)
                &&& c.start_line == c.end_line || c.text.len() < ceiling(target)
                &&& exists|d: int| 0 <= d < docs.len() && cut_from(c, #[trigger] docs[d])
            },
    decreases docs.len(),
{
    if docs.len() > 0 {
        let early = docs.drop_last();
        law_a_chunk_comes_from_one_document(early, target);
        let before = corpus_chunks(early, target);
        law_chunks_are_runs_of_whole_lines(docs.last(), target, before.len());
        let all = corpus_chunks(docs, target);
        assert forall|i: int| 0 <= i < all.len() implies {
            let c = #[trigger] all[i];
            &&& c.id == i
            &&& !text::is_blank(c.text)
            &&& c.start_line == c.end_line || c.text.len() < ceiling(target)
            &&& exists|d: int| 0 <= d < docs.len() && cut_from(c, #[trigger] docs[d])
        } by {
            if i < before.len() {
                assert(all[i] == before[i]);
                let d = choose|d: int|
                    0 <= d < early.len() && cut_from(before[i], #[trigger] early[d]);
                assert(cut_from(all[i], docs[d]));
            } else {
                let own = doc_chunks(docs.last(), target, before.len());
                assert(all[i] == own[i - before.len()]);
                assert(cut_from(all[i], docs[docs.len() - 1]));
            }
        }
    }
}

/// A label is one line of bounded length.
pub proof fn law_a_label_is_short(line: Seq<char>)
    ensures
        label_of(line).len() <= MAX_LABEL_CHARS + 1,
{
    reveal_strlit("…");
}

/// A chunk's text has no more lines than its span.
pub proof fn law_a_span_has_room_for_its_lines(c: ChunkView, doc: DocumentView)
    requires
        cut_from(c, doc),
    ensures
        c.start_line + text::lines(c.text).len() <= c.end_line + 1,
{
    let ls = text::lines(doc.text);
    let lo = c.start_line - doc.base();
    let run = ls.subrange(lo, c.end_line - doc.base() + 1);
    assert forall|k: int, i: int|
        0 <= k < run.len() && 0 <= i < run[k].len() implies #[trigger] run[k][i] != '\n' by {
        text::lemma_lines_have_no_feed(doc.text, lo + k);
        assert(run[k] == ls[lo + k]);
    }
    text::lemma_joined_line_count(run);
}

/// The excerpt that a chunk is, as a document of its own.
pub open spec fn excerpt_of(c: ChunkView) -> DocumentView {
    DocumentView {
        source: c.source,
        text: c.text,
        first_line: at_least_one(c.start_line),
    }
}

proof fn lemma_first_told_shift(
    ls: Seq<Seq<char>>,
    lo: int,
    hi: int,
    from: int,
    to: int,
)
    requires
        0 <= lo <= hi <= ls.len(),
        0 <= from <= to <= hi - lo,
    ensures
        first_told(ls.subrange(lo, hi), from, to) == first_told(ls, lo + from, lo + to),
    decreases to - from,
{
    if from < to {
        lemma_first_told_shift(ls, lo, hi, from + 1, to);
    }
}

/// A chunk cut again keeps true citations: whatever is cut from the excerpt
/// that a chunk is, is cut from the chunk's own document, with the line numbers
/// it has there. It holds of documents none of whose lines end with a carriage
/// return of their own.
pub proof fn law_a_chunk_of_a_chunk_is_cited_truly(
    doc: DocumentView,
    c: ChunkView,
    target: nat,
    next: nat,
)
    requires
        cut_from(c, doc),
        forall|k: int|
            0 <= k < text::lines(doc.text).len() ==> text::is_plain_line(
                #[trigger] text::lines(doc.text)[k],
            ),
    ensures
        forall|i: int|
            0 <= i < doc_chunks(excerpt_of(c), target, next).len() ==> cut_from(
                #[trigger] doc_chunks(excerpt_of(c), target, next)[i],
                doc,
            ),
{
    let ls = text::lines(doc.text);
    let lo = c.start_line - doc.base();
    let hi = c.end_line - doc.base() + 1;
    let e = excerpt_of(c);
    let run = ls.subrange(lo, hi);
    assert forall|k: int| 0 <= k < run.len() implies text::is_plain_line(#[trigger] run[k]) by {
        assert(run[k] == ls[lo + k]);
    }
    text::lemma_lines_of_joined(run);
    let end = if run.last().len() == 0 {
        hi - 1
    } else {
        hi
    };
    assert(run.drop_last() =~= ls.subrange(lo, hi - 1));
    let own = text::lines(e.text);
    assert(own == ls.subrange(lo, end));
    law_chunks_are_runs_of_whole_lines(e, target, next);
    assert forall|i: int| 0 <= i < doc_chunks(e, target, next).len() implies cut_from(
        #[trigger] doc_chunks(e, target, next)[i],
        doc,
    ) by {
        let s = doc_chunks(e, target, next)[i];
        let from = s.start_line - e.base();
        let to = s.end_line - e.base() + 1;
        assert(cut_from(s, e));
        assert(own.subrange(from, to) =~= ls.subrange(lo + from, lo + to));
        lemma_first_told_shift(ls, lo, end, from, to);
    }
}

// --------------------------------------------------------------- laws on cuts
/// A line with `w` characters of white space, `h` hashes, and a space.
pub open spec fn atx(line: Seq<char>, w: int, h: int) -> bool {
    &&& 0 <= w
    &&& 1 <= h <= 6
    &&& w + h < line.len()
    &&& forall|k: int| 0 <= k < w ==> text::is_white(#[trigger] line[k])
    &&& forall|k: int| w <= k < w + h ==> #[trigger] line[k] == '#'
    &&& line[w + h] == ' '
}

proof fn lemma_hashes(s: Seq<char>)
    ensures
        hashes(s) <= s.len(),
        forall|k: int| 0 <= k < hashes(s) ==> #[trigger] s[k] == '#',
        hashes(s) < s.len() ==> s[hashes(s) as int] != '#',
    decreases s.len(),
{
    if s.len() > 0 && s[0] == '#' {
        let t = s.skip(1);
        lemma_hashes(t);
        assert forall|k: int| 0 <= k < hashes(s) implies #[trigger] s[k] == '#' by {
            if k > 0 {
                assert(t[k - 1] == s[k]);
            }
        }
        if hashes(s) < s.len() {
            assert(t[hashes(t) as int] == s[hashes(s) as int]);
        }
    }
}

/// A heading is white space, one to six hashes and a space, and nothing else is.
pub proof fn law_a_heading_is_hashes_and_a_space(line: Seq<char>)
    ensures
        heading(line) <==> exists|w: int, h: int| atx(line, w, h),
{
    let w = text::law_trimming_the_front(line);
    let t = line.skip(w);
    lemma_hashes(t);
    let h = hashes(t) as int;
    if heading(line) {
        assert forall|k: int| w <= k < w + h implies #[trigger] line[k] == '#' by {
            assert(t[k - w] == line[k]);
        }
        assert(line[w + h] == t[h]);
        assert(atx(line, w, h));
    }
    if exists|w: int, h: int| atx(line, w, h) {
        let (v, g) = choose|w: int, h: int| atx(line, w, h);
        lemma_atx_place(line, v, g);
    }
}

/// Where the hashes of a heading stand.
proof fn lemma_atx_place(line: Seq<char>, w: int, h: int)
    requires
        atx(line, w, h),
    ensures
        text::trim_start(line) == line.skip(w),
        hashes(line.skip(w)) == h,
        heading(line),
{
    let t = line.skip(w);
    assert(line[w] == '#');
    assert(!text::is_white('#'));
    text::lemma_trim_start_at(line, w);
    lemma_hashes(t);
    let n = hashes(t) as int;
    if n < h {
        assert(t[n] == line[w + n]);
        assert(line[w + n] == '#');
    }
    if n > h {
        assert(t[h] == line[w + h]);
    }
    assert(t[h] == line[w + h]);
}

/// How many characters a run of lines holds, with the line feed of each.
pub open spec fn held(ls: Seq<Seq<char>>, from: int, to: int) -> nat {
    (text::joined(ls.subrange(from, to), seq!['\n']).len() + 1) as nat
}

/// A chunk that began at line `from` has a cause to end before line `i`: the
/// line is a heading and a third of the target is held, or it is blank and the
/// target is held, or with it twice the target or 24000 characters are passed.
pub open spec fn has_cause(ls: Seq<Seq<char>>, target: nat, from: int, i: int) -> bool {
    ||| held(ls, from, i) >= target / 3 && exists|w: int, h: int| atx(ls[i], w, h)
    ||| held(ls, from, i) >= target && forall|k: int|
        0 <= k < ls[i].len() ==> text::is_white(#[trigger] ls[i][k])
    ||| held(ls, from, i) + ls[i].len() + 1 > 2 * target
    ||| held(ls, from, i) + ls[i].len() + 1 > 24_000
}

proof fn lemma_breaks_for_cause(ls: Seq<Seq<char>>, target: nat, from: int, i: int)
    requires
        0 <= from < i < ls.len(),
    ensures
        breaks(ls, target, from, i) <==> has_cause(ls, target, from, i),
{
    reveal_strlit("\n");
    assert("\n"@ =~= seq!['\n']);
    lemma_span_size(ls, from, i);
    law_a_heading_is_hashes_and_a_space(ls[i]);
}

/// Groups meet for a cause, and only there: the line after a group is one that
/// its lines have a cause to end before, and no line inside it is.
pub open spec fn cut_for_cause(ls: Seq<Seq<char>>, target: nat, from: int, to: int) -> bool {
    &&& to == ls.len() || has_cause(ls, target, from, to)
    &&& forall|i: int| from < i < to ==> !#[trigger] has_cause(ls, target, from, i)
}

/// The groups of a document's lines cover them all, one after the other, and a
/// group ends for a cause, and at the first one that there is.
pub proof fn law_groups_meet_for_a_cause(ls: Seq<Seq<char>>, target: nat, from: int, k: int)
    requires
        0 <= from <= ls.len(),
        0 <= k < groups(ls, target, from).len(),
    ensures
        tiles(groups(ls, target, from), from, ls.len() as int),
        cut_for_cause(
            ls,
            target,
            groups(ls, target, from)[k].0,
            groups(ls, target, from)[k].1,
        ),
    decreases ls.len() - from,
{
    lemma_groups(ls, target, from);
    if from < ls.len() {
        let end = group_end(ls, target, from, from + 1);
        lemma_group_end(ls, target, from, from + 1);
        if k == 0 {
            assert forall|i: int| from < i < end implies !#[trigger] has_cause(
                ls,
                target,
                from,
                i,
            ) by {
                lemma_breaks_for_cause(ls, target, from, i);
                assert(!breaks(ls, target, from, i));
            }
            if end < ls.len() {
                lemma_breaks_for_cause(ls, target, from, end);
            }
        } else {
            let rest = groups(ls, target, end);
            assert(groups(ls, target, from)[k] == rest[k - 1]);
            law_groups_meet_for_a_cause(ls, target, end, k - 1);
        }
    }
}

/// The lines of the document that a chunk runs over.
pub open spec fn run_of(c: ChunkView, doc: DocumentView) -> (int, int) {
    (c.start_line - doc.base(), c.end_line - doc.base() + 1)
}

/// A chunk ends for a cause: at the end of its document, at a heading once it
/// holds a third of the target, at a blank line once it holds the target, or
/// where one line more would take it past its ceiling. And it goes on as long as
/// there is none.
pub proof fn law_a_chunk_ends_for_a_cause(doc: DocumentView, target: nat, next: nat, i: int)
    requires
        0 <= i < doc_chunks(doc, target, next).len(),
    ensures
        ({
            let c = doc_chunks(doc, target, next)[i];
            let ls = text::lines(doc.text);
            &&& cut_from(c, doc)
            &&& cut_for_cause(ls, target, run_of(c, doc).0, run_of(c, doc).1)
        }),
{
    let ls = text::lines(doc.text);
    let gs = groups(ls, target, 0);
    law_chunks_are_runs_of_whole_lines(doc, target, next);
    let k = lemma_chunk_origin(doc, ls, gs, next, i);
    lemma_groups(ls, target, 0);
    lemma_tiles_bound(gs, 0, ls.len() as int, k);
    law_groups_meet_for_a_cause(ls, target, 0, k);
}

/// Every chunk of a corpus is cut from one of its documents, and ends for a
/// cause that is there.
pub proof fn law_a_corpus_is_cut_for_cause(docs: Seq<DocumentView>, target: nat, i: int)
    requires
        0 <= i < corpus_chunks(docs, target).len(),
    ensures
        exists|d: int| 0 <= d < docs.len() && {
            let c = corpus_chunks(docs, target)[i];
            &&& cut_from(c, #[trigger] docs[d])
            &&& cut_for_cause(
                text::lines(docs[d].text),
                target,
                run_of(c, docs[d]).0,
                run_of(c, docs[d]).1,
            )
        },
    decreases docs.len(),
{
    if docs.len() > 0 {
        let early = docs.drop_last();
        let before = corpus_chunks(early, target);
        let c = corpus_chunks(docs, target)[i];
        if i < before.len() {
            law_a_corpus_is_cut_for_cause(early, target, i);
            assert(c == before[i]);
            let d = choose|d: int| 0 <= d < early.len() && {
                &&& cut_from(before[i], #[trigger] early[d])
                &&& cut_for_cause(
                    text::lines(early[d].text),
                    target,
                    run_of(before[i], early[d]).0,
                    run_of(before[i], early[d]).1,
                )
            };
            assert(docs[d] == early[d]);
            assert(cut_from(c, docs[d]));
        } else {
            law_a_chunk_ends_for_a_cause(docs.last(), target, before.len(), i - before.len());
            assert(cut_from(c, docs[docs.len() - 1]));
        }
    }
}

/// Every line of every document of a corpus that is not blank lies in a chunk
/// that is cut from that document, at its number.
pub proof fn law_every_told_line_of_a_corpus_is_in_a_chunk(
    docs: Seq<DocumentView>,
    target: nat,
    d: int,
    line: int,
) -> (i: int)
    requires
        0 <= d < docs.len(),
        0 <= line < text::lines(docs[d].text).len(),
        !text::is_blank(text::lines(docs[d].text)[line]),
    ensures
        0 <= i < corpus_chunks(docs, target).len(),
        cut_from(corpus_chunks(docs, target)[i], docs[d]),
        corpus_chunks(docs, target)[i].start_line <= docs[d].base() + line <= corpus_chunks(
            docs,
            target,
        )[i].end_line,
    decreases docs.len(),
{
    let early = docs.drop_last();
    let before = corpus_chunks(early, target);
    if d < early.len() {
        assert(early[d] == docs[d]);
        law_every_told_line_of_a_corpus_is_in_a_chunk(early, target, d, line)
    } else {
        let own = doc_chunks(docs.last(), target, before.len());
        law_every_told_line_is_in_a_chunk(docs.last(), target, before.len(), line);
        law_chunks_are_runs_of_whole_lines(docs.last(), target, before.len());
        let k = choose|k: int|
            0 <= k < own.len() && (#[trigger] own[k]).start_line <= docs.last().base() + line
                <= own[k].end_line;
        assert(corpus_chunks(docs, target)[before.len() + k] == own[k]);
        before.len() + k
    }
}

/// The chunks of one document come before those of the next: what more documents
/// add stands at the end, and what was there stays as it was.
pub proof fn law_more_documents_add_chunks_at_the_end(
    docs: Seq<DocumentView>,
    more: Seq<DocumentView>,
    target: nat,
)
    ensures
        corpus_chunks(docs, target).is_prefix_of(corpus_chunks(docs + more, target)),
    decreases more.len(),
{
    if more.len() == 0 {
        assert(docs + more =~= docs);
    } else {
        law_more_documents_add_chunks_at_the_end(docs, more.drop_last(), target);
        assert((docs + more).drop_last() =~= docs + more.drop_last());
    }
}

proof fn lemma_size_front(first: Seq<char>, rest: Seq<Seq<char>>, n: int)
    requires
        0 <= n <= rest.len(),
    ensures
        size(seq![first] + rest, 0, n + 1) == first.len() + 1 + size(rest, 0, n),
    decreases n,
{
    let all = seq![first] + rest;
    if n > 0 {
        lemma_size_front(first, rest, n - 1);
        assert(all[n] == rest[n - 1]);
    } else {
        assert(size(all, 0, 0) == 0);
        assert(all[0] == first);
    }
}

/// The lines of a text hold no more than the text.
proof fn lemma_lines_size(s: Seq<char>)
    ensures
        size(text::lines(s), 0, text::lines(s).len() as int) <= s.len() + 1,
    decreases s.len(),
{
    text::lemma_line_len(s);
    let k = text::line_len(s) as int;
    if s.len() > 0 {
        if k >= s.len() {
            assert(size(seq![s], 0, 0) == 0);
        } else {
            let first = text::strip_cr(s.take(k));
            let rest = text::lines(s.skip(k + 1));
            lemma_lines_size(s.skip(k + 1));
            lemma_size_front(first, rest, rest.len() as int);
            if s.skip(k + 1).len() == 0 {
                assert(rest.len() == 0);
                assert(size(rest, 0, 0) == 0);
            }
        }
    }
}

proof fn lemma_size_grows(ls: Seq<Seq<char>>, from: int, i: int, to: int)
    requires
        0 <= from <= i <= to <= ls.len(),
    ensures
        size(ls, from, i) <= size(ls, from, to),
    decreases to - i,
{
    if i < to {
        lemma_size_grows(ls, from, i, to - 1);
    }
}

/// A document that holds less than a third of the target is one chunk, over all
/// of its lines, however many paragraphs and headings it has; and where it is
/// blank, none.
pub proof fn law_a_short_document_is_one_chunk(doc: DocumentView, target: nat, next: nat)
    requires
        doc.text.len() + 1 < target / 3,
        target <= 24_000,
    ensures
        text::is_blank(doc.text) ==> doc_chunks(doc, target, next).len() == 0,
        (exists|k: int| 0 <= k < text::lines(doc.text).len() && !text::is_blank(
            #[trigger] text::lines(doc.text)[k],
        )) ==> {
            &&& doc_chunks(doc, target, next).len() == 1
            &&& doc_chunks(doc, target, next)[0].start_line == doc.base()
            &&& doc_chunks(doc, target, next)[0].end_line + 1 == doc.base() + text::lines(
                doc.text,
            ).len()
        },
{
    let ls = text::lines(doc.text);
    let gs = groups(ls, target, 0);
    lemma_lines_size(doc.text);
    lemma_groups(ls, target, 0);
    if ls.len() > 0 {
        let end = group_end(ls, target, 0, 1);
        lemma_group_end(ls, target, 0, 1);
        if end < ls.len() {
            lemma_size_grows(ls, 0, end + 1, ls.len() as int);
            lemma_size_grows(ls, 0, end, ls.len() as int);
            assert(size(ls, 0, end + 1) == size(ls, 0, end) + ls[end].len() + 1);
            assert(false);
        }
        assert(groups(ls, target, end) =~= seq![]);
        assert(gs =~= seq![(0int, ls.len() as int)]);
        assert(gs.drop_last() =~= seq![]);
        assert(group_chunks(doc, ls, gs.drop_last(), next).len() == 0);
    }
    if exists|k: int| 0 <= k < ls.len() && !text::is_blank(#[trigger] ls[k]) {
        let k = choose|k: int| 0 <= k < ls.len() && !text::is_blank(#[trigger] ls[k]);
        lemma_span_told(ls, 0, ls.len() as int, k);
    }
    if text::is_blank(doc.text) {
        law_chunks_are_runs_of_whole_lines(doc, target, next);
        if doc_chunks(doc, target, next).len() > 0 {
            let c = doc_chunks(doc, target, next)[0];
            assert(cut_from(c, doc));
            lemma_blank_lines(doc.text);
            lemma_blank_span(ls, c.start_line - doc.base(), c.end_line - doc.base() + 1);
        }
    }
}

/// The lines of blank text are blank.
proof fn lemma_blank_lines(s: Seq<char>)
    requires
        text::is_blank(s),
    ensures
        forall|k: int| 0 <= k < text::lines(s).len() ==> text::is_blank(#[trigger] text::lines(s)[k]),
    decreases s.len(),
{
    text::lemma_line_len(s);
    let n = text::line_len(s) as int;
    if s.len() > 0 && n < s.len() {
        let rest = s.skip(n + 1);
        assert forall|i: int| 0 <= i < rest.len() implies text::is_white(#[trigger] rest[i]) by {
            assert(rest[i] == s[n + 1 + i]);
        }
        lemma_blank_lines(rest);
        let first = text::strip_cr(s.take(n));
        assert forall|i: int| 0 <= i < first.len() implies text::is_white(#[trigger] first[i]) by {
            assert(first[i] == s[i]);
        }
        let all = text::lines(s);
        assert forall|k: int| 0 <= k < all.len() implies text::is_blank(#[trigger] all[k]) by {
            if k > 0 {
                assert(all[k] == text::lines(rest)[k - 1]);
            }
        }
    }
}

/// A run of blank lines is blank.
pub proof fn lemma_blank_span(ls: Seq<Seq<char>>, from: int, to: int)
    requires
        0 <= from < to <= ls.len(),
        forall|k: int| 0 <= k < ls.len() ==> text::is_blank(#[trigger] ls[k]),
    ensures
        text::is_blank(span_text(ls, from, to)),
    decreases to - from,
{
    reveal_strlit("\n");
    let run = ls.subrange(from, to);
    let whole = span_text(ls, from, to);
    if to == from + 1 {
        assert(run[0] == ls[from]);
    } else {
        lemma_blank_span(ls, from, to - 1);
        assert(run.drop_last() =~= ls.subrange(from, to - 1));
        let front = span_text(ls, from, to - 1);
        let last = ls[to - 1];
        assert(text::is_blank(last));
        assert(text::is_white('\n'));
        assert(whole == front + "\n"@ + last);
        assert forall|i: int| 0 <= i < whole.len() implies text::is_white(#[trigger] whole[i]) by {
            if i < front.len() {
                assert(whole[i] == front[i]);
            } else if i > front.len() {
                assert(whole[i] == last[i - front.len() - 1]);
            }
        }
    }
}

/// The target that is used is the one asked for, where it is between 500 and
/// 24000, and else the nearer of these.
pub proof fn law_a_target_is_kept_within_reason(target: nat)
    ensures
        500 <= target <= 24_000 ==> clamped_target(target) == target,
        target < 500 ==> clamped_target(target) == 500,
        target > 24_000 ==> clamped_target(target) == 24_000,
{
}

/// A chunk is labelled by its first line that is not blank: by the words after
/// the hashes where that is a heading, and else by the line, without the white
/// space around them, and whole where they have no more than 96 characters.
pub proof fn law_a_label_says_the_first_line(ls: Seq<Seq<char>>, from: int, to: int, f: int)
    requires
        0 <= from <= f < to <= ls.len(),
        forall|k: int| from <= k < f ==> text::is_blank(#[trigger] ls[k]),
        !text::is_blank(ls[f]),
    ensures
        ({
            let label = label_of(first_told(ls, from, to));
            &&& forall|w: int, h: int| #[trigger]
                atx(ls[f], w, h) ==> shows(label, text::trim(ls[f].skip(w + h)))
            &&& (!exists|w: int, h: int| atx(ls[f], w, h)) ==> shows(label, text::trim(ls[f]))
        }),
{
    lemma_first_told_at(ls, from, to, f);
    let line = ls[f];
    law_a_heading_is_hashes_and_a_space(line);
    reveal_strlit("…");
    let said = words_of(line);
    if said.len() > 96 {
        assert(label_of(line).take(96) =~= said.take(96));
    }
    assert forall|w: int, h: int| #[trigger] atx(line, w, h) implies shows(
        label_of(line),
        text::trim(line.skip(w + h)),
    ) by {
        lemma_atx_place(line, w, h);
        let t = line.skip(w);
        let j = text::law_trimming_the_back(t);
        assert(t[h - 1] == line[w + h - 1]);
        assert(!text::is_white('#'));
        assert(j >= h);
        let kept = t.take(j);
        lemma_hashes(kept);
        lemma_hashes(t);
        let n = hashes(kept) as int;
        if n < h {
            assert(kept[n] == t[n]);
            assert(t[n] == line[w + n]);
        }
        if n > h {
            assert(kept[h] == t[h]);
            assert(t[h] == line[w + h]);
        }
        let tail = t.skip(j);
        assert forall|k: int| 0 <= k < tail.len() implies text::is_white(#[trigger] tail[k]) by {
            assert(tail[k] == t[j + k]);
        }
        assert(t.skip(h) =~= kept.skip(h) + tail);
        text::lemma_trim_tail(kept.skip(h), tail);
        assert(t.skip(h) =~= line.skip(w + h));
    }
}

/// A label is the text, or its first 96 characters and a mark.
pub open spec fn shows(label: Seq<char>, s: Seq<char>) -> bool {
    if s.len() <= 96 {
        label == s
    } else {
        label.len() == 97 && label.take(96) == s.take(96) && label[96] == '…'
    }
}

proof fn lemma_first_told_at(ls: Seq<Seq<char>>, from: int, to: int, f: int)
    requires
        0 <= from <= f < to <= ls.len(),
        forall|k: int| from <= k < f ==> text::is_blank(#[trigger] ls[k]),
        !text::is_blank(ls[f]),
    ensures
        first_told(ls, from, to) == ls[f],
    decreases f - from,
{
    if from < f {
        assert(text::is_blank(ls[from]));
        lemma_first_told_at(ls, from + 1, to, f);
    }
}

/// The neighbours of a chunk are the one before it, if it is not the first, and
/// the one after it, if there is one, in that order.
pub proof fn law_neighbours_are_next_to_a_chunk(id: nat, total: nat)
    requires
        id < usize::MAX,
    ensures
        forall|n: usize| #[trigger]
            neighbor_ids(id, total).contains(n) <==> n + 1 == id || n == id + 1 && n < total,
        neighbor_ids(id, total).len() == (if id > 0 {
            1int
        } else {
            0
        }) + (if id + 1 < total {
            1int
        } else {
            0
        }),
        neighbor_ids(id, total).len() == 2 ==> neighbor_ids(id, total)[0] < neighbor_ids(
            id,
            total,
        )[1],
{
    let all = neighbor_ids(id, total);
    assert forall|n: usize| #[trigger] all.contains(n) <==> n + 1 == id || n == id + 1 && n
        < total by {
        if n + 1 == id {
            assert(all[0] == n);
        }
        if n == id + 1 && n < total {
            assert(all[all.len() - 1] == n);
        }
    }
}

/// A chunk has the text of its lines as they are, with a line feed between them,
/// and they are counted from the first line that its document says it has.
pub proof fn law_a_chunk_has_the_text_of_its_lines(
    doc: DocumentView,
    target: nat,
    next: nat,
    i: int,
)
    requires
        0 <= i < doc_chunks(doc, target, next).len(),
    ensures
        ({
            let c = doc_chunks(doc, target, next)[i];
            let base: int = if doc.first_line == 0 {
                1
            } else {
                doc.first_line as int
            };
            let ls = text::lines(doc.text);
            &&& c.source == doc.source
            &&& base <= c.start_line <= c.end_line < base + ls.len()
            &&& c.text == text::joined(
                ls.subrange(c.start_line - base, c.end_line + 1 - base),
                seq!['\n'],
            )
        }),
{
    law_chunks_are_runs_of_whole_lines(doc, target, next);
    reveal_strlit("\n");
    assert("\n"@ =~= seq!['\n']);
}

/// A chunk as a document of its own is its text, under its source, from its first
/// line on.
pub proof fn law_an_excerpt_is_the_chunk(c: ChunkView)
    ensures
        excerpt_of(c).source == c.source,
        excerpt_of(c).text == c.text,
        c.start_line > 0 ==> excerpt_of(c).first_line == c.start_line,
        c.start_line > 0 ==> excerpt_of(c).base() == c.start_line,
{
}

} // verus!
