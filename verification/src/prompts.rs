//! The words that models are sent: the planner's instructions, the reader's,
//! and the frames around what they are shown.
use vstd::prelude::*;
use vstd::string::*;

use crate::budget::Budget;
use crate::context;
use crate::context::ContextRecord;
use crate::observe;
use crate::observe::Observation;
use crate::text;
use crate::working;
use crate::working::Working;

verus! {

/// The reader's instructions for one leaf of a `map`. Short on purpose: it is
/// paid for once per chunk.
pub const LEAF_SYSTEM: &'static str = "You are reading ONE excerpt of a much larger corpus. Answer the question using only this excerpt. Be brief and concrete, and quote the decisive words. If this excerpt contains nothing that bears on the question, reply with exactly: NOTHING";

/// The word by which a reader says that an excerpt has no bearing on the
/// question.
pub const LEAF_NOTHING: &'static str = "NOTHING";

/// The planner's instructions, up to where it stands.
pub const ROOT_SYSTEM: &'static str = "You are the planner of a Recursive Language Model. A large corpus is held outside your context as a variable. You cannot see it and you will never be shown it. You interact with it ONLY by emitting one operator per turn.\n\nReply with EXACTLY ONE JSON object and nothing else:\n{\"op\":\"outline\",\"source\":\"<optional substring filter>\"}\n{\"op\":\"grep\",\"pattern\":\"<regex>\",\"max\":40,\"context\":1}\n{\"op\":\"peek\",\"chunk\":<id>,\"start\":0,\"len\":2000}\n{\"op\":\"map\",\"prompt\":\"<question asked of each chunk>\",\"chunks\":[<ids>]}\n{\"op\":\"recurse\",\"query\":\"<sub-question>\",\"chunks\":[<ids>]}\n{\"op\":\"note\",\"text\":\"<something you must not forget>\"}\n{\"op\":\"final\",\"answer\":\"<your answer>\",\"cites\":[<chunk ids>]}\n\nHow to work:\n- `grep` first to locate, then `map` to read. `map` runs a cheap model over each chunk in parallel and folds the answers back to you — it is how you read a hundred chunks without seeing them.\n- `peek` is for checking an exact wording, not for reading the corpus. Observations are truncated; peeking your way through a document will not work and is not the mechanism.\n- `recurse` when a sub-question deserves its own plan over a subset.\n- You are rebuilt from your notes and findings every turn. There is no conversation history. If something matters, `note` it.\n- Answer ONLY from what the operators returned. If the corpus does not settle the question, say so in `final` — that is a correct answer. Never fill a gap from your own knowledge of the subject; you were not given this corpus to be asked what you already think.\n- Cite the chunk ids your answer rests on.\n\nYou are at recursion depth ";

/// The planner's instructions at a depth.
pub open spec fn root_text(depth: nat, budget: Budget) -> Seq<char> {
    ROOT_SYSTEM@ + text::decimal(depth) + " of "@ + text::decimal(budget.max_depth as nat)
        + ". You have "@ + text::decimal(budget.max_steps as nat) + " planning steps."@
}

/// The planner's instructions. They are a contract: a planner that answers
/// from what it already knows cannot be told from one that read, until someone
/// checks a citation.
pub fn root_system(depth: usize, budget: &Budget) -> (r: String)
    ensures
        r@ == root_text(depth as nat, *budget),
{
    let mut out = ROOT_SYSTEM.to_owned();
    out.append(text::show(depth).as_str());
    out.append(" of ");
    out.append(text::show(budget.max_depth).as_str());
    out.append(". You have ");
    out.append(text::show(budget.max_steps).as_str());
    out.append(" planning steps.");
    out
}

/// What every prompt of a run starts with: the question, and the map of the
/// corpus as far as an observation may show it.
pub open spec fn header_text(query: Seq<char>, ctx: context::ContextView) -> Seq<char> {
    "# Question\n"@ + query + "\n\n# Corpus\n"@ + ctx.stats() + "\n\n## Outline\n"@
        + observe::observed(context::outline_of(ctx.chunks)).text + "\n"@
}

/// What every prompt of a run starts with.
pub fn header(query: &str, ctx: &ContextRecord) -> (r: String)
    ensures
        r@ == header_text(query@, ctx@),
{
    let mut out = "# Question\n".to_owned();
    out.append(query);
    out.append("\n\n# Corpus\n");
    out.append(ctx.stats_line().as_str());
    out.append("\n\n## Outline\n");
    out.append(Observation::new(ctx.outline().as_str()).text.as_str());
    out.append("\n");
    out
}

/// The prompt of a planning turn.
pub open spec fn turn_text(
    query: Seq<char>,
    ctx: context::ContextView,
    work: working::WorkingView,
) -> Seq<char> {
    header_text(query, ctx) + "\n"@ + work.rendered() + "\n# Your next operator\n"@
}

/// The prompt of a planning turn.
pub fn turn_prompt(query: &str, ctx: &ContextRecord, work: &Working) -> (r: String)
    ensures
        r@ == turn_text(query@, ctx@, work@),
{
    let mut out = header(query, ctx);
    out.append("\n");
    out.append(work.render().as_str());
    out.append("\n# Your next operator\n");
    out
}

/// The prompt of the one turn that is left when the steps have run out.
pub open spec fn forced_text(
    query: Seq<char>,
    ctx: context::ContextView,
    work: working::WorkingView,
) -> Seq<char> {
    header_text(query, ctx) + "\n"@ + work.rendered()
        + "\n# Out of steps\nAnswer now from your notes and findings alone. State plainly what you could not establish. Reply with the `final` operator.\n"@
}

/// The prompt of the one turn that is left when the steps have run out.
pub fn forced_prompt(query: &str, ctx: &ContextRecord, work: &Working) -> (r: String)
    ensures
        r@ == forced_text(query@, ctx@, work@),
{
    let mut out = header(query, ctx);
    out.append("\n");
    out.append(work.render().as_str());
    out.append(
        "\n# Out of steps\nAnswer now from your notes and findings alone. State plainly what you could not establish. Reply with the `final` operator.\n",
    );
    out
}

/// The prompt of a reader: one question, one excerpt.
pub open spec fn leaf_text(question: Seq<char>, excerpt: Seq<char>) -> Seq<char> {
    "# Question\n"@ + question + "\n\n# Excerpt\n"@ + excerpt
}

/// The prompt of a reader.
pub fn leaf_prompt(question: &str, excerpt: &str) -> (r: String)
    ensures
        r@ == leaf_text(question@, excerpt@),
{
    let mut out = "# Question\n".to_owned();
    out.append(question);
    out.append("\n\n# Excerpt\n");
    out.append(excerpt);
    out
}

/// Whatever the size of the corpus, the planner's prompt shows no more of it
/// than one observation: over the question and its own state, a prompt is
/// bounded by a constant.
pub proof fn law_a_prompt_does_not_grow_with_the_corpus(
    query: Seq<char>,
    ctx: context::ContextView,
    work: working::WorkingView,
)
    requires
        ctx.chunks.len() <= usize::MAX,
        ctx.sources.len() <= usize::MAX,
        ctx.total_chars <= usize::MAX,
        context::outline_of(ctx.chunks).len() <= usize::MAX,
    ensures
        turn_text(query, ctx, work).len() <= query.len() + work.rendered().len()
            + observe::observation_bound() + 300,
        forced_text(query, ctx, work).len() <= query.len() + work.rendered().len()
            + observe::observation_bound() + 500,
{
    observe::law_an_observation_is_bounded_and_marked(context::outline_of(ctx.chunks));
    text::lemma_word_len(ctx.chunks.len());
    text::lemma_word_len(ctx.sources.len());
    text::lemma_word_len(ctx.total_chars);
    text::lemma_word_len(ctx.total_chars / 4);
    reveal_strlit(" chunks across ");
    reveal_strlit(" source(s), ");
    reveal_strlit(" characters total (~");
    reveal_strlit(" tokens). You have NOT been shown any of it.");
    reveal_strlit("# Question\n");
    reveal_strlit("\n\n# Corpus\n");
    reveal_strlit("\n\n## Outline\n");
    reveal_strlit("\n");
    reveal_strlit("\n# Your next operator\n");
    reveal_strlit(
        "\n# Out of steps\nAnswer now from your notes and findings alone. State plainly what you could not establish. Reply with the `final` operator.\n",
    );
}

/// A prompt of a planner has the question, the size of the corpus, the outline as
/// far as an observation shows it, and all that the planner keeps; and it asks
/// for the next operator, or for the last word.
pub proof fn law_a_prompt_has_what_a_planner_needs(
    query: Seq<char>,
    ctx: context::ContextView,
    work: working::WorkingView,
)
    ensures
        ({
            let head = "# Question\n"@ + query + "\n\n# Corpus\n"@ + ctx.stats()
                + "\n\n## Outline\n"@ + observe::observed(context::outline_of(ctx.chunks)).text
                + "\n\n"@ + work.rendered();
            &&& turn_text(query, ctx, work) == head + "\n# Your next operator\n"@
            &&& text::begins(forced_text(query, ctx, work), head + "\n# Out of steps\n"@)
        }),
{
    reveal_strlit("\n");
    reveal_strlit("\n\n");
    let shown = observe::observed(context::outline_of(ctx.chunks)).text;
    let front = "# Question\n"@ + query + "\n\n# Corpus\n"@ + ctx.stats() + "\n\n## Outline\n"@
        + shown;
    let head = front + "\n\n"@ + work.rendered();
    assert(header_text(query, ctx) + "\n"@ + work.rendered() =~= head);
    reveal_strlit("\n# Out of steps\n");
    reveal_strlit(
        "\n# Out of steps\nAnswer now from your notes and findings alone. State plainly what you could not establish. Reply with the `final` operator.\n",
    );
    let said = head + "\n# Out of steps\n"@;
    assert(forced_text(query, ctx, work).subrange(0, said.len() as int) =~= said);
}

/// A planner is told its depth, the greatest depth, and how many steps it has.
pub proof fn law_a_planner_is_told_its_bounds(depth: nat, budget: Budget)
    ensures
        root_text(depth, budget) == ROOT_SYSTEM@ + text::decimal(depth) + " of "@ + text::decimal(
            budget.max_depth as nat,
        ) + ". You have "@ + text::decimal(budget.max_steps as nat) + " planning steps."@,
{
}

} // verus!
