//! `map`: one question put to a reader for each chunk, and the answers folded
//! down to what bears on the question. The fold's whole job is to be small.
use vstd::prelude::*;
use vstd::string::*;

use crate::chunk;
use crate::chunk::Chunk;
use crate::context::ContextRecord;
use crate::observe;
use crate::observe::Observation;
use crate::prompts;
use crate::text;

verus! {

/// What became of one reader.
#[derive(Debug)]
pub enum LeafOutcome {
    /// It replied.
    Answered(String),
    /// It was asked, and could not reply.
    Failed,
    /// It was never heard of again.
    Lost,
}

/// What an outcome holds.
pub enum LeafView {
    Answered(Seq<char>),
    Failed,
    Lost,
}

impl View for LeafOutcome {
    type V = LeafView;

    open spec fn view(&self) -> LeafView {
        match *self {
            LeafOutcome::Answered(s) => LeafView::Answered(s@),
            LeafOutcome::Failed => LeafView::Failed,
            LeafOutcome::Lost => LeafView::Lost,
        }
    }
}

/// What a list of outcomes holds.
pub open spec fn leaf_views(v: Seq<LeafOutcome>) -> Seq<LeafView> {
    Seq::new(v.len(), |i: int| v[i]@)
}

/// The ids that name a chunk.
pub open spec fn readable(chunks: Seq<chunk::ChunkView>, ids: Seq<usize>) -> Seq<usize>
    decreases ids.len(),
{
    if ids.len() == 0 {
        seq![]
    } else {
        let before = readable(chunks, ids.drop_last());
        if ids.last() < chunks.len() {
            before.push(ids.last())
        } else {
            before
        }
    }
}

/// The prompts of the readers, one for each chunk that is named.
pub open spec fn leaf_prompts(
    chunks: Seq<chunk::ChunkView>,
    ids: Seq<usize>,
    question: Seq<char>,
) -> Seq<Seq<char>> {
    Seq::new(
        readable(chunks, ids).len(),
        |k: int| prompts::leaf_text(question, chunks[readable(chunks, ids)[k] as int].text),
    )
}

/// Readable ids name chunks.
pub proof fn lemma_readable(chunks: Seq<chunk::ChunkView>, ids: Seq<usize>)
    ensures
        forall|k: int|
            0 <= k < readable(chunks, ids).len() ==> #[trigger] readable(chunks, ids)[k]
                < chunks.len(),
        readable(chunks, ids).len() <= ids.len(),
        (forall|k: int| 0 <= k < ids.len() ==> #[trigger] ids[k] < chunks.len()) ==> readable(
            chunks,
            ids,
        ) == ids,
    decreases ids.len(),
{
    if ids.len() > 0 {
        lemma_readable(chunks, ids.drop_last());
        if forall|k: int| 0 <= k < ids.len() ==> #[trigger] ids[k] < chunks.len() {
            let front = ids.drop_last();
            assert forall|k: int| 0 <= k < front.len() implies #[trigger] front[k]
                < chunks.len() by {
                assert(front[k] == ids[k]);
            }
            assert(ids[ids.len() - 1] < chunks.len());
            assert(front.push(ids.last()) =~= ids);
        }
    } else {
        assert(ids =~= seq![]);
    }
}

/// The ids that name a chunk.
pub fn keep_readable(ctx: &ContextRecord, ids: &Vec<usize>) -> (r: Vec<usize>)
    ensures
        r@ == readable(ctx@.chunks, ids@),
{
    let mut out: Vec<usize> = Vec::new();
    let mut i: usize = 0;
    assert(ids@.take(0) =~= seq![]);
    assert(out@ =~= seq![]);
    while i < ids.len()
        invariant
            i <= ids@.len(),
            out@ == readable(ctx@.chunks, ids@.take(i as int)),
        decreases ids@.len() - i,
    {
        assert(ids@.take(i as int + 1).drop_last() =~= ids@.take(i as int));
        if ids[i] < ctx.chunks.len() {
            out.push(ids[i]);
        }
        i = i + 1;
    }
    assert(ids@.take(i as int) =~= ids@);
    out
}

/// The prompts of the readers, one for each chunk that is named.
pub fn map_requests(ctx: &ContextRecord, question: &str, ids: &Vec<usize>) -> (r: Vec<String>)
    ensures
        text::views(r@) == leaf_prompts(ctx@.chunks, ids@, question@),
{
    let kept = keep_readable(ctx, ids);
    proof {
        lemma_readable(ctx@.chunks, ids@);
    }
    let mut out: Vec<String> = Vec::new();
    let mut i: usize = 0;
    while i < kept.len()
        invariant
            i <= kept@.len(),
            kept@ == readable(ctx@.chunks, ids@),
            forall|k: int| 0 <= k < kept@.len() ==> #[trigger] kept@[k] < ctx@.chunks.len(),
            out@.len() == i,
            forall|k: int|
                0 <= k < i ==> (#[trigger] out@[k])@ == prompts::leaf_text(
                    question@,
                    ctx@.chunks[kept@[k] as int].text,
                ),
        decreases kept@.len() - i,
    {
        let c = &ctx.chunks[kept[i]];
        assert(c@ == ctx@.chunks[kept@[i as int] as int]);
        out.push(prompts::leaf_prompt(question, c.text.as_str()));
        i = i + 1;
    }
    assert(text::views(out@) =~= leaf_prompts(ctx@.chunks, ids@, question@));
    out
}

// ----------------------------------------------------------------------- fold
/// What became of the reader at a place.
pub open spec fn outcome_at(outcomes: Seq<LeafView>, k: int) -> LeafView {
    if 0 <= k < outcomes.len() {
        outcomes[k]
    } else {
        LeafView::Lost
    }
}

/// Does a reader's reply say anything?
pub open spec fn says_something(reply: Seq<char>) -> bool {
    let t = text::trim(reply);
    t.len() > 0 && !text::alike(t, prompts::LEAF_NOTHING@)
}

/// What is found in a chunk, with where it stands.
pub open spec fn finding(id: usize, c: chunk::ChunkView, reply: Seq<char>) -> Seq<char> {
    "["@ + text::decimal(id as nat) + "] "@ + c.source + ":"@ + text::decimal(c.start_line) + "-"@
        + text::decimal(c.end_line) + " — "@ + text::trim(reply)
}

/// The findings of the first `n` readers.
pub open spec fn findings(
    chunks: Seq<chunk::ChunkView>,
    ids: Seq<usize>,
    outcomes: Seq<LeafView>,
    n: nat,
) -> Seq<Seq<char>>
    decreases n,
{
    if n == 0 {
        seq![]
    } else {
        let before = findings(chunks, ids, outcomes, (n - 1) as nat);
        match outcome_at(outcomes, n - 1) {
            LeafView::Answered(reply) => if says_something(reply) {
                before.push(finding(ids[n - 1], chunks[ids[n - 1] as int], reply))
            } else {
                before
            },
            _ => before,
        }
    }
}

/// How many of the first `n` readers were heard of.
pub open spec fn heard(outcomes: Seq<LeafView>, n: nat) -> nat
    decreases n,
{
    if n == 0 {
        0
    } else {
        heard(outcomes, (n - 1) as nat) + (if outcome_at(outcomes, n - 1) is Lost {
            0nat
        } else {
            1
        })
    }
}

/// How many of the first `n` readers did not reply.
pub open spec fn failed(outcomes: Seq<LeafView>, n: nat) -> nat
    decreases n,
{
    if n == 0 {
        0
    } else {
        failed(outcomes, (n - 1) as nat) + (if outcome_at(outcomes, n - 1) is Answered {
            0nat
        } else {
            1
        })
    }
}

/// What the planner is told of a `map`.
pub open spec fn fold_text(read: nat, errors: nat, lines: Seq<Seq<char>>) -> Seq<char> {
    if lines.len() == 0 {
        "read "@ + text::decimal(read) + " chunk(s); none of them bore on that question"@ + (
        if errors > 0 {
            " ("@ + text::decimal(errors) + " failed)"@
        } else {
            ""@
        })
    } else {
        "read "@ + text::decimal(read) + " chunk(s), "@ + text::decimal(lines.len()) + " relevant"@
            + (if errors > 0 {
            ", "@ + text::decimal(errors) + " failed"@
        } else {
            ""@
        }) + ":\n"@ + text::joined(lines, "\n"@)
    }
}

/// The findings of a `map` over the ids.
pub open spec fn map_findings(
    chunks: Seq<chunk::ChunkView>,
    ids: Seq<usize>,
    outcomes: Seq<LeafView>,
) -> Seq<Seq<char>> {
    let kept = readable(chunks, ids);
    findings(chunks, kept, outcomes, kept.len())
}

/// The observation of a `map` over the ids.
pub open spec fn map_observation(
    chunks: Seq<chunk::ChunkView>,
    ids: Seq<usize>,
    outcomes: Seq<LeafView>,
) -> observe::ObservationView {
    let n = readable(chunks, ids).len();
    observe::observed(
        fold_text(heard(outcomes, n), failed(outcomes, n), map_findings(chunks, ids, outcomes)),
    )
}

fn show_finding(id: usize, c: &Chunk, told: &str) -> (r: String)
    ensures
        r@ == "["@ + text::decimal(id as nat) + "] "@ + c.source@ + ":"@ + text::decimal(
            c.start_line as nat,
        ) + "-"@ + text::decimal(c.end_line as nat) + " — "@ + told@,
{
    let mut out = "[".to_owned();
    out.append(text::show(id).as_str());
    out.append("] ");
    out.append(c.source.as_str());
    out.append(":");
    out.append(text::show(c.start_line).as_str());
    out.append("-");
    out.append(text::show(c.end_line).as_str());
    out.append(" — ");
    out.append(told);
    out
}

fn show_fold(read: usize, errors: usize, lines: &Vec<String>) -> (r: String)
    ensures
        r@ == fold_text(read as nat, errors as nat, text::views(lines@)),
{
    let mut out = "read ".to_owned();
    out.append(text::show(read).as_str());
    if lines.len() == 0 {
        out.append(" chunk(s); none of them bore on that question");
        let note = if errors > 0 {
            let mut note = " (".to_owned();
            note.append(text::show(errors).as_str());
            note.append(" failed)");
            note
        } else {
            "".to_owned()
        };
        out.append(note.as_str());
        return out;
    }
    out.append(" chunk(s), ");
    out.append(text::show(lines.len()).as_str());
    out.append(" relevant");
    let note = if errors > 0 {
        let mut note = ", ".to_owned();
        note.append(text::show(errors).as_str());
        note.append(" failed");
        note
    } else {
        "".to_owned()
    };
    out.append(note.as_str());
    out.append(":\n");
    out.append(text::join(lines, 0, lines.len(), "\n").as_str());
    assert(text::views(lines@).subrange(0, lines@.len() as int) =~= text::views(lines@));
    out
}

/// Folds the readers' replies: what bears on the question, and what the
/// planner is told.
pub fn fold_map(ctx: &ContextRecord, ids: &Vec<usize>, outcomes: &Vec<LeafOutcome>) -> (r: (
    Vec<String>,
    Observation,
))
    ensures
        text::views(r.0@) == map_findings(ctx@.chunks, ids@, leaf_views(outcomes@)),
        r.1@ == map_observation(ctx@.chunks, ids@, leaf_views(outcomes@)),
{
    let kept = keep_readable(ctx, ids);
    proof {
        lemma_readable(ctx@.chunks, ids@);
    }
    let ghost v = leaf_views(outcomes@);
    let mut lines: Vec<String> = Vec::new();
    let mut read: usize = 0;
    let mut errors: usize = 0;
    let mut k: usize = 0;
    assert(text::views(lines@) =~= seq![]);
    while k < kept.len()
        invariant
            k <= kept@.len(),
            kept@ == readable(ctx@.chunks, ids@),
            forall|i: int| 0 <= i < kept@.len() ==> #[trigger] kept@[i] < ctx@.chunks.len(),
            v == leaf_views(outcomes@),
            read <= k,
            errors <= k,
            read == heard(v, k as nat),
            errors == failed(v, k as nat),
            text::views(lines@) == findings(ctx@.chunks, kept@, v, k as nat),
        decreases kept@.len() - k,
    {
        if k < outcomes.len() {
            match &outcomes[k] {
                LeafOutcome::Answered(reply) => {
                    assert(outcome_at(v, k as int) == LeafView::Answered(reply@));
                    read = read + 1;
                    let t = text::trimmed(reply.as_str());
                    if t.as_str().unicode_len() > 0 && !text::same_ignoring_case(
                        t.as_str(),
                        prompts::LEAF_NOTHING,
                    ) {
                        let id: usize = kept[k];
                        let c = &ctx.chunks[id];
                        assert(c@ == ctx@.chunks[id as int]);
                        let ghost was = lines@;
                        lines.push(show_finding(id, c, t.as_str()));
                        assert(text::views(lines@) =~= text::views(was).push(
                            finding(id, c@, reply@),
                        ));
                    }
                },
                LeafOutcome::Failed => {
                    assert(outcome_at(v, k as int) is Failed);
                    read = read + 1;
                    errors = errors + 1;
                },
                LeafOutcome::Lost => {
                    assert(outcome_at(v, k as int) is Lost);
                    errors = errors + 1;
                },
            }
        } else {
            errors = errors + 1;
        }
        k = k + 1;
    }
    let told = show_fold(read, errors, &lines);
    (lines, Observation::new(told.as_str()))
}

/// A reader that found nothing adds nothing: only replies that say something
/// are folded, and each carries the id and the place of its chunk.
pub proof fn law_only_what_was_said_is_folded(
    chunks: Seq<chunk::ChunkView>,
    ids: Seq<usize>,
    outcomes: Seq<LeafView>,
    n: nat,
)
    ensures
        findings(chunks, ids, outcomes, n).len() <= n,
        forall|i: int|
            0 <= i < findings(chunks, ids, outcomes, n).len() ==> exists|k: int|
                0 <= k < n && outcome_at(outcomes, k) is Answered && says_something(
                    outcome_at(outcomes, k)->Answered_0,
                ) && #[trigger] findings(chunks, ids, outcomes, n)[i] == finding(
                    ids[k],
                    chunks[ids[k] as int],
                    outcome_at(outcomes, k)->Answered_0,
                ),
    decreases n,
{
    if n > 0 {
        law_only_what_was_said_is_folded(chunks, ids, outcomes, (n - 1) as nat);
        let before = findings(chunks, ids, outcomes, (n - 1) as nat);
        let all = findings(chunks, ids, outcomes, n);
        assert forall|i: int| 0 <= i < all.len() implies exists|k: int|
            0 <= k < n && outcome_at(outcomes, k) is Answered && says_something(
                outcome_at(outcomes, k)->Answered_0,
            ) && #[trigger] all[i] == finding(
                ids[k],
                chunks[ids[k] as int],
                outcome_at(outcomes, k)->Answered_0,
            ) by {
            if i < before.len() {
                assert(all[i] == before[i]);
                let k = choose|k: int|
                    0 <= k < n - 1 && outcome_at(outcomes, k) is Answered && says_something(
                        outcome_at(outcomes, k)->Answered_0,
                    ) && before[i] == finding(
                        ids[k],
                        chunks[ids[k] as int],
                        outcome_at(outcomes, k)->Answered_0,
                    );
                assert(0 <= k < n && all[i] == finding(
                    ids[k],
                    chunks[ids[k] as int],
                    outcome_at(outcomes, k)->Answered_0,
                ));
            } else {
                assert(outcome_at(outcomes, n - 1) is Answered);
                assert(0 <= n - 1 < n && all[i] == finding(
                    ids[n - 1],
                    chunks[ids[n - 1] as int],
                    outcome_at(outcomes, n - 1)->Answered_0,
                ));
            }
        }
    }
}

/// A `map` asks one reader per chunk that it names, and counts every reader as
/// heard of or failed.
pub proof fn law_a_map_asks_once_per_chunk(
    chunks: Seq<chunk::ChunkView>,
    ids: Seq<usize>,
    question: Seq<char>,
    outcomes: Seq<LeafView>,
)
    requires
        forall|k: int| 0 <= k < ids.len() ==> #[trigger] ids[k] < chunks.len(),
    ensures
        leaf_prompts(chunks, ids, question).len() == ids.len(),
        forall|k: int|
            0 <= k < ids.len() ==> #[trigger] leaf_prompts(chunks, ids, question)[k]
                == prompts::leaf_text(question, chunks[ids[k] as int].text),
        heard(outcomes, ids.len()) <= ids.len(),
        ids.len() <= heard(outcomes, ids.len()) + failed(outcomes, ids.len()),
{
    lemma_readable(chunks, ids);
    lemma_counts(outcomes, ids.len());
}

proof fn lemma_counts(outcomes: Seq<LeafView>, n: nat)
    ensures
        heard(outcomes, n) <= n,
        n <= heard(outcomes, n) + failed(outcomes, n),
    decreases n,
{
    if n > 0 {
        lemma_counts(outcomes, (n - 1) as nat);
    }
}

/// The ids that are read are those that name a chunk, all of them, in order.
pub proof fn law_every_chunk_that_is_there_is_read(chunks: Seq<chunk::ChunkView>, ids: Seq<usize>)
    ensures
        readable(chunks, ids) == ids.filter(|id: usize| id < chunks.len()),
    decreases ids.len(),
{
    reveal(Seq::filter);
    let f = |id: usize| id < chunks.len();
    if ids.len() > 0 {
        law_every_chunk_that_is_there_is_read(chunks, ids.drop_last());
        assert(f(ids.last()) == (ids.last() < chunks.len()));
    }
}

/// The reader at a place replied, and its reply is neither blank nor the word
/// for nothing, in whatever case.
pub open spec fn told(outcomes: Seq<LeafView>, k: int) -> bool {
    &&& 0 <= k < outcomes.len()
    &&& outcomes[k] is Answered
    &&& !text::is_blank(outcomes[k]->Answered_0)
    &&& !text::alike(text::trim(outcomes[k]->Answered_0), "NOTHING"@)
}

/// The places of readers.
pub open spec fn places(n: nat) -> Seq<int> {
    Seq::new(n, |k: int| k)
}

proof fn lemma_told(outcomes: Seq<LeafView>, k: int)
    requires
        0 <= k,
    ensures
        told(outcomes, k) <==> outcome_at(outcomes, k) is Answered && says_something(
            outcome_at(outcomes, k)->Answered_0,
        ),
{
    if k < outcomes.len() && outcomes[k] is Answered {
        text::lemma_trim_blank(outcomes[k]->Answered_0);
    }
}

/// What is found is what was told, by every reader that told something and by no
/// other, in the order of the readers: each reply, without the white space
/// around it, under the id and the place of its chunk.
pub proof fn law_nothing_that_was_told_is_lost(
    chunks: Seq<chunk::ChunkView>,
    ids: Seq<usize>,
    outcomes: Seq<LeafView>,
    n: nat,
)
    ensures
        findings(chunks, ids, outcomes, n) == places(n).filter(
            |k: int| told(outcomes, k),
        ).map_values(
            |k: int|
                {
                    let c = chunks[ids[k] as int];
                    "["@ + text::decimal(ids[k] as nat) + "] "@ + c.source + ":"@ + text::decimal(
                        c.start_line,
                    ) + "-"@ + text::decimal(c.end_line) + " — "@ + text::trim(
                        outcomes[k]->Answered_0,
                    )
                },
        ),
        forall|k: int|
            0 <= k < n && #[trigger] told(outcomes, k) ==> findings(
                chunks,
                ids,
                outcomes,
                n,
            ).contains(
                {
                    let c = chunks[ids[k] as int];
                    "["@ + text::decimal(ids[k] as nat) + "] "@ + c.source + ":"@ + text::decimal(
                        c.start_line,
                    ) + "-"@ + text::decimal(c.end_line) + " — "@ + text::trim(
                        outcomes[k]->Answered_0,
                    )
                },
            ),
    decreases n,
{
    reveal(Seq::filter);
    let f = |k: int| told(outcomes, k);
    let g = |k: int|
        {
            let c = chunks[ids[k] as int];
            "["@ + text::decimal(ids[k] as nat) + "] "@ + c.source + ":"@ + text::decimal(
                c.start_line,
            ) + "-"@ + text::decimal(c.end_line) + " — "@ + text::trim(outcomes[k]->Answered_0)
        };
    let all = findings(chunks, ids, outcomes, n);
    if n == 0 {
        assert(places(0) =~= seq![]);
        assert(all =~= places(0).filter(f).map_values(g));
    } else {
        let m = (n - 1) as nat;
        law_nothing_that_was_told_is_lost(chunks, ids, outcomes, m);
        let before = findings(chunks, ids, outcomes, m);
        lemma_told(outcomes, n - 1);
        assert(places(n).drop_last() =~= places(m));
        assert(places(n).last() == n - 1);
        assert(f(n - 1) == told(outcomes, n - 1));
        if told(outcomes, n - 1) {
            let kept = places(m).filter(f).push(n - 1);
            assert(places(n).filter(f) == kept);
            assert(all == before.push(g(n - 1)));
            assert(all =~= kept.map_values(g));
        } else {
            assert(places(n).filter(f) == places(m).filter(f));
            assert(all == before);
        }
        assert forall|k: int| 0 <= k < n && #[trigger] told(outcomes, k) implies all.contains(
            g(k),
        ) by {
            if k < m {
                let i = choose|i: int| 0 <= i < before.len() && before[i] == g(k);
                assert(all[i] == g(k));
            } else {
                assert(all[all.len() - 1] == g(k));
            }
        }
    }
}

/// As many readers are counted as heard of as were, and as many as failed as did
/// not reply.
pub proof fn law_readers_are_counted(outcomes: Seq<LeafView>, n: nat)
    ensures
        heard(outcomes, n) == places(n).filter(
            |k: int| 0 <= k < outcomes.len() && !(outcomes[k] is Lost),
        ).len(),
        failed(outcomes, n) == places(n).filter(
            |k: int| !(0 <= k < outcomes.len() && outcomes[k] is Answered),
        ).len(),
    decreases n,
{
    reveal(Seq::filter);
    let f = |k: int| 0 <= k < outcomes.len() && !(outcomes[k] is Lost);
    let g = |k: int| !(0 <= k < outcomes.len() && outcomes[k] is Answered);
    if n == 0 {
        assert(places(0) =~= seq![]);
        assert(places(0).filter(f).len() == 0);
        assert(places(0).filter(g).len() == 0);
    } else {
        let m = (n - 1) as nat;
        law_readers_are_counted(outcomes, m);
        assert(places(n).drop_last() =~= places(m));
        assert(places(n).last() == n - 1);
        assert(f(n - 1) == !(outcome_at(outcomes, n - 1) is Lost));
        assert(g(n - 1) == !(outcome_at(outcomes, n - 1) is Answered));
        assert(places(n).filter(f).len() == places(m).filter(f).len() + (if f(n - 1) {
            1int
        } else {
            0
        }));
        assert(places(n).filter(g).len() == places(m).filter(g).len() + (if g(n - 1) {
            1int
        } else {
            0
        }));
    }
}

/// A `map` over chunks that are there finds what each of its readers told, and
/// tells the planner how many were read, how many told something, and how many
/// failed.
pub proof fn law_a_map_tells_what_was_found(
    chunks: Seq<chunk::ChunkView>,
    ids: Seq<usize>,
    outcomes: Seq<LeafView>,
)
    requires
        forall|k: int| 0 <= k < ids.len() ==> #[trigger] ids[k] < chunks.len(),
    ensures
        map_findings(chunks, ids, outcomes) == findings(chunks, ids, outcomes, ids.len()),
        ({
            let lines = map_findings(chunks, ids, outcomes);
            let read = places(ids.len()).filter(
                |k: int| 0 <= k < outcomes.len() && !(outcomes[k] is Lost),
            ).len();
            let errors = places(ids.len()).filter(
                |k: int| !(0 <= k < outcomes.len() && outcomes[k] is Answered),
            ).len();
            let failed = if errors > 0 {
                text::decimal(errors) + " failed"@
            } else {
                seq![]
            };
            &&& lines.len() == 0 ==> map_observation(chunks, ids, outcomes) == observe::observed(
                "read "@ + text::decimal(read) + " chunk(s); none of them bore on that question"@ + (
                if errors > 0 {
                    " ("@ + failed + ")"@
                } else {
                    seq![]
                }),
            )
            &&& lines.len() > 0 ==> map_observation(chunks, ids, outcomes) == observe::observed(
                "read "@ + text::decimal(read) + " chunk(s), "@ + text::decimal(lines.len())
                    + " relevant"@ + (if errors > 0 {
                    ", "@ + failed
                } else {
                    seq![]
                }) + ":\n"@ + text::joined(lines, "\n"@),
            )
        }),
{
    lemma_readable(chunks, ids);
    law_readers_are_counted(outcomes, ids.len());
    let n = ids.len();
    let lines = map_findings(chunks, ids, outcomes);
    let read = heard(outcomes, n);
    let errors = failed(outcomes, n);
    reveal_strlit("");
    assert(""@ =~= seq![]);
    if errors > 0 {
        assert(" ("@ + text::decimal(errors) + " failed)"@ =~= " ("@ + (text::decimal(errors)
            + " failed"@) + ")"@) by {
            reveal_strlit(" failed)");
            reveal_strlit(" failed");
            reveal_strlit(")");
        }
        assert(", "@ + text::decimal(errors) + " failed"@ =~= ", "@ + (text::decimal(errors)
            + " failed"@));
    }
}

/// A reply says something unless it is blank or is, but for white space around it
/// and for case, the word for nothing.
pub proof fn law_a_reply_says_something_unless(reply: Seq<char>)
    ensures
        says_something(reply) <==> !text::is_blank(reply) && !text::alike(
            text::trim(reply),
            "NOTHING"@,
        ),
{
    let span = text::law_trimming_takes_white_space_off_the_ends(reply);
}

} // verus!
