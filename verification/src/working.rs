//! What a planner keeps from turn to turn. There is no transcript: one would
//! grow without limit and hand the planner the corpus after all, one
//! observation at a time. State lives in three slots instead, and the prompt is
//! made from them anew every turn.
use vstd::prelude::*;
use vstd::string::*;

use crate::text;

verus! {

/// How many recent observations are shown in full; older ones are shown by
/// their first line.
pub const RECENT_IN_FULL: usize = 4;

/// Ceiling on notes.
pub const MAX_NOTES: usize = 24;

/// Ceiling on findings.
pub const MAX_FINDINGS: usize = 60;

/// State carried across turns.
#[derive(Debug)]
pub struct Working {
    /// What the planner wrote down for itself.
    pub notes: Vec<String>,
    /// What readers found in chunks.
    pub findings: Vec<String>,
    /// Every step so far, by the label of its operator and what came back.
    pub recent: Vec<(String, String)>,
}

/// What the state holds.
#[verifier::ext_equal]
pub struct WorkingView {
    pub notes: Seq<Seq<char>>,
    pub findings: Seq<Seq<char>>,
    pub recent: Seq<(Seq<char>, Seq<char>)>,
}

/// What a list of steps holds.
pub open spec fn step_pairs(v: Seq<(String, String)>) -> Seq<(Seq<char>, Seq<char>)> {
    Seq::new(v.len(), |i: int| (v[i].0@, v[i].1@))
}

impl View for Working {
    type V = WorkingView;

    open spec fn view(&self) -> WorkingView {
        WorkingView {
            notes: text::views(self.notes@),
            findings: text::views(self.findings@),
            recent: step_pairs(self.recent@),
        }
    }
}

/// The notes, one to a line.
pub open spec fn note_rows(notes: Seq<Seq<char>>) -> Seq<char>
    decreases notes.len(),
{
    if notes.len() == 0 {
        seq![]
    } else {
        note_rows(notes.drop_last()) + "- "@ + notes.last() + "\n"@
    }
}

/// The findings, one after the other.
pub open spec fn finding_rows(findings: Seq<Seq<char>>) -> Seq<char>
    decreases findings.len(),
{
    if findings.len() == 0 {
        seq![]
    } else {
        finding_rows(findings.drop_last()) + findings.last() + "\n"@
    }
}

/// The first line of a text.
pub open spec fn first_line(s: Seq<char>) -> Seq<char> {
    if text::lines(s).len() == 0 {
        ""@
    } else {
        text::lines(s)[0]
    }
}

/// A step as it is shown: in full where it is recent, else by the first line
/// of what came back.
pub open spec fn step_row(place: nat, step: (Seq<char>, Seq<char>), in_full: bool) -> Seq<char> {
    if in_full {
        text::decimal(place) + ". "@ + step.0 + " →\n"@ + step.1 + "\n\n"@
    } else {
        text::decimal(place) + ". "@ + step.0 + " → "@ + first_line(step.1) + "\n"@
    }
}

/// The first `n` steps as they are shown.
pub open spec fn step_rows(recent: Seq<(Seq<char>, Seq<char>)>, n: nat) -> Seq<char>
    decreases n,
{
    if n == 0 {
        seq![]
    } else {
        step_rows(recent, (n - 1) as nat) + step_row(
            n,
            recent[n - 1],
            n + RECENT_IN_FULL > recent.len(),
        )
    }
}

impl WorkingView {
    /// The notes block of a prompt.
    pub open spec fn notes_block(self) -> Seq<char> {
        if self.notes.len() == 0 {
            seq![]
        } else {
            "## Your notes\n"@ + note_rows(self.notes) + "\n"@
        }
    }

    /// The findings block of a prompt.
    pub open spec fn findings_block(self) -> Seq<char> {
        if self.findings.len() == 0 {
            seq![]
        } else {
            "## Findings so far (from chunks you have read)\n"@ + finding_rows(self.findings)
                + "\n"@
        }
    }

    /// The steps block of a prompt.
    pub open spec fn steps_block(self) -> Seq<char> {
        if self.recent.len() == 0 {
            seq![]
        } else {
            "## Recent steps\n"@ + step_rows(self.recent, self.recent.len())
        }
    }

    /// The state as a prompt shows it.
    pub open spec fn rendered(self) -> Seq<char> {
        self.notes_block() + self.findings_block() + self.steps_block()
    }

    /// A note was taken, unless there are too many.
    pub open spec fn noted(self, note: Seq<char>) -> WorkingView {
        if self.notes.len() < MAX_NOTES {
            WorkingView { notes: self.notes.push(note), ..self }
        } else {
            self
        }
    }

    /// Findings were added, as many as there is room for.
    pub open spec fn found(self, lines: Seq<Seq<char>>) -> WorkingView
        decreases lines.len(),
    {
        if lines.len() == 0 {
            self
        } else {
            let before = self.found(lines.drop_last());
            if before.findings.len() < MAX_FINDINGS {
                WorkingView { findings: before.findings.push(lines.last()), ..before }
            } else {
                before
            }
        }
    }

    /// A step was taken.
    pub open spec fn stepped(self, label: Seq<char>, observation: Seq<char>) -> WorkingView {
        WorkingView { recent: self.recent.push((label, observation)), ..self }
    }

    /// No slot is over its ceiling.
    pub open spec fn bounded(self) -> bool {
        self.notes.len() <= MAX_NOTES && self.findings.len() <= MAX_FINDINGS
    }
}

impl Working {
    /// Nothing yet.
    pub fn new() -> (w: Working)
        ensures
            w@ == (WorkingView { notes: seq![], findings: seq![], recent: seq![] }),
    {
        let w = Working { notes: Vec::new(), findings: Vec::new(), recent: Vec::new() };
        assert(w@ =~= (WorkingView { notes: seq![], findings: seq![], recent: seq![] }));
        w
    }

    fn show_notes(&self) -> (r: String)
        ensures
            r@ == self@.notes_block(),
    {
        let ghost v = self@.notes;
        if self.notes.len() == 0 {
            let none = String::new();
            assert(none@ =~= seq![]);
            return none;
        }
        let mut rows = String::new();
        let mut i: usize = 0;
        assert(v.take(0) =~= seq![]);
        assert(rows@ =~= seq![]);
        while i < self.notes.len()
            invariant
                i <= self.notes@.len(),
                v == self@.notes,
                rows@ == note_rows(v.take(i as int)),
            decreases self.notes@.len() - i,
        {
            assert(v.take(i as int + 1).drop_last() =~= v.take(i as int));
            rows.append("- ");
            rows.append(self.notes[i].as_str());
            rows.append("\n");
            i = i + 1;
        }
        assert(v.take(i as int) =~= v);
        let mut out = "## Your notes\n".to_owned();
        out.append(rows.as_str());
        out.append("\n");
        out
    }

    fn show_findings(&self) -> (r: String)
        ensures
            r@ == self@.findings_block(),
    {
        let ghost v = self@.findings;
        if self.findings.len() == 0 {
            let none = String::new();
            assert(none@ =~= seq![]);
            return none;
        }
        let mut rows = String::new();
        let mut i: usize = 0;
        assert(v.take(0) =~= seq![]);
        assert(rows@ =~= seq![]);
        while i < self.findings.len()
            invariant
                i <= self.findings@.len(),
                v == self@.findings,
                rows@ == finding_rows(v.take(i as int)),
            decreases self.findings@.len() - i,
        {
            assert(v.take(i as int + 1).drop_last() =~= v.take(i as int));
            rows.append(self.findings[i].as_str());
            rows.append("\n");
            i = i + 1;
        }
        assert(v.take(i as int) =~= v);
        let mut out = "## Findings so far (from chunks you have read)\n".to_owned();
        out.append(rows.as_str());
        out.append("\n");
        out
    }

    fn show_steps(&self) -> (r: String)
        ensures
            r@ == self@.steps_block(),
    {
        let ghost v = self@.recent;
        let n: usize = self.recent.len();
        if n == 0 {
            let none = String::new();
            assert(none@ =~= seq![]);
            return none;
        }
        let split: usize = if n > RECENT_IN_FULL {
            n - RECENT_IN_FULL
        } else {
            0
        };
        let mut rows = String::new();
        let mut i: usize = 0;
        assert(rows@ =~= seq![]);
        while i < n
            invariant
                n == self.recent@.len(),
                i <= n,
                split == (if n > RECENT_IN_FULL {
                    n - RECENT_IN_FULL
                } else {
                    0
                }),
                v == self@.recent,
                rows@ == step_rows(v, i as nat),
            decreases n - i,
        {
            let (op, obs) = &self.recent[i];
            let mut row = text::show(i + 1);
            row.append(". ");
            row.append(op.as_str());
            if i < split {
                row.append(" → ");
                let ls = text::lines_of(obs.as_str());
                assert(text::lines(v[i as int].1).len() == ls@.len());
                if ls.len() == 0 {
                    row.append("");
                } else {
                    row.append(ls[0].as_str());
                }
                row.append("\n");
            } else {
                row.append(" →\n");
                row.append(obs.as_str());
                row.append("\n\n");
            }
            assert(row@ == step_row(i as nat + 1, v[i as int], i + 1 + RECENT_IN_FULL > v.len()));
            rows.append(row.as_str());
            i = i + 1;
        }
        let mut out = "## Recent steps\n".to_owned();
        out.append(rows.as_str());
        out
    }

    /// The state as a prompt shows it.
    pub fn render(&self) -> (r: String)
        ensures
            r@ == self@.rendered(),
    {
        let mut out = self.show_notes();
        out.append(self.show_findings().as_str());
        out.append(self.show_steps().as_str());
        out
    }

    /// Takes a note, unless there are too many.
    pub fn note(&mut self, note: &str) -> (taken: bool)
        ensures
            final(self)@ == old(self)@.noted(note@),
            taken == (old(self)@.notes.len() < MAX_NOTES),
    {
        if self.notes.len() < MAX_NOTES {
            let ghost was = self.notes@;
            self.notes.push(note.to_owned());
            assert(text::views(self.notes@) =~= text::views(was).push(note@));
            true
        } else {
            false
        }
    }

    /// Adds findings, as many as there is room for.
    pub fn find(&mut self, lines: &Vec<String>)
        ensures
            final(self)@ == old(self)@.found(text::views(lines@)),
    {
        let ghost v = text::views(lines@);
        let ghost was = self@;
        let mut i: usize = 0;
        assert(v.take(0) =~= seq![]);
        while i < lines.len()
            invariant
                i <= lines@.len(),
                v == text::views(lines@),
                self@ == was.found(v.take(i as int)),
            decreases lines@.len() - i,
        {
            assert(v.take(i as int + 1).drop_last() =~= v.take(i as int));
            if self.findings.len() < MAX_FINDINGS {
                let ghost before = self.findings@;
                self.findings.push(lines[i].clone());
                assert(text::views(self.findings@) =~= text::views(before).push(v[i as int]));
            }
            i = i + 1;
        }
        assert(v.take(i as int) =~= v);
    }

    /// Records a step.
    pub fn push_recent(&mut self, label: &str, observation: &str)
        ensures
            final(self)@ == old(self)@.stepped(label@, observation@),
    {
        let ghost was = self.recent@;
        self.recent.push((label.to_owned(), observation.to_owned()));
        assert(step_pairs(self.recent@) =~= step_pairs(was).push((label@, observation@)));
    }
}

/// The slots keep to their ceilings, whatever is put in them.
pub proof fn law_the_slots_stay_bounded(
    w: WorkingView,
    note: Seq<char>,
    lines: Seq<Seq<char>>,
    label: Seq<char>,
    observation: Seq<char>,
)
    requires
        w.bounded(),
    ensures
        w.noted(note).bounded(),
        w.found(lines).bounded(),
        w.stepped(label, observation).bounded(),
    decreases lines.len(),
{
    if lines.len() > 0 {
        law_the_slots_stay_bounded(w, note, lines.drop_last(), label, observation);
    }
}

/// Findings that were taken stay, in order, at the front.
pub proof fn law_findings_are_kept(w: WorkingView, lines: Seq<Seq<char>>)
    ensures
        w.findings.is_prefix_of(w.found(lines).findings),
        w.found(lines).notes == w.notes,
        w.found(lines).recent == w.recent,
        w.findings.len() + lines.len() <= MAX_FINDINGS ==> w.found(lines).findings == w.findings
            + lines,
    decreases lines.len(),
{
    if lines.len() > 0 {
        law_findings_are_kept(w, lines.drop_last());
        let before = w.found(lines.drop_last());
        if w.findings.len() + lines.len() <= MAX_FINDINGS {
            assert(before.findings.push(lines.last()) =~= w.findings + lines);
        }
    } else {
        assert(w.findings + lines =~= w.findings);
    }
}

/// Of a step that is no longer recent, a prompt shows the label and the first
/// line and nothing else: two states that differ in no more than that are
/// shown alike.
pub proof fn law_older_steps_are_shown_by_their_first_line(a: WorkingView, b: WorkingView)
    requires
        a.notes == b.notes,
        a.findings == b.findings,
        a.recent.len() == b.recent.len(),
        forall|i: int|
            0 <= i < a.recent.len() ==> (#[trigger] a.recent[i]).0 == b.recent[i].0 && if i
                + RECENT_IN_FULL < a.recent.len() {
                first_line(a.recent[i].1) == first_line(b.recent[i].1)
            } else {
                a.recent[i].1 == b.recent[i].1
            },
    ensures
        a.rendered() == b.rendered(),
{
    lemma_rows_alike(a.recent, b.recent, a.recent.len());
}

proof fn lemma_rows_alike(
    a: Seq<(Seq<char>, Seq<char>)>,
    b: Seq<(Seq<char>, Seq<char>)>,
    n: nat,
)
    requires
        n <= a.len() == b.len(),
        forall|i: int|
            0 <= i < a.len() ==> (#[trigger] a[i]).0 == b[i].0 && if i + RECENT_IN_FULL < a.len() {
                first_line(a[i].1) == first_line(b[i].1)
            } else {
                a[i].1 == b[i].1
            },
    ensures
        step_rows(a, n) == step_rows(b, n),
    decreases n,
{
    if n > 0 {
        lemma_rows_alike(a, b, (n - 1) as nat);
        assert(a[n - 1].0 == b[n - 1].0);
        if n - 1 + RECENT_IN_FULL >= a.len() {
            assert(a[n - 1] == b[n - 1]);
        }
    }
}

/// How many characters the first `n` steps take up when they are shown, at most.
pub open spec fn rows_bound(recent: Seq<(Seq<char>, Seq<char>)>, n: nat) -> nat
    decreases n,
{
    if n == 0 {
        0
    } else {
        rows_bound(recent, (n - 1) as nat) + 27 + recent[n - 1].0.len() + (if n + RECENT_IN_FULL
            > recent.len() {
            recent[n - 1].1.len()
        } else {
            first_line(recent[n - 1].1).len()
        })
    }
}

/// The steps block grows by the first lines of older steps, not by what came
/// back from them.
pub proof fn law_the_steps_block_is_bounded(w: WorkingView)
    requires
        w.recent.len() <= u64::MAX,
    ensures
        w.steps_block().len() <= 16 + rows_bound(w.recent, w.recent.len()),
{
    reveal_strlit("## Recent steps\n");
    lemma_rows_bound(w.recent, w.recent.len());
}

proof fn lemma_rows_bound(recent: Seq<(Seq<char>, Seq<char>)>, n: nat)
    requires
        n <= recent.len() <= u64::MAX,
    ensures
        step_rows(recent, n).len() <= rows_bound(recent, n),
    decreases n,
{
    if n > 0 {
        lemma_rows_bound(recent, (n - 1) as nat);
        text::lemma_word_len(n);
        reveal_strlit(". ");
        reveal_strlit(" →\n");
        reveal_strlit(" → ");
        reveal_strlit("\n\n");
        reveal_strlit("\n");
    }
}

/// A note stands in every prompt in full, however many steps came after it.
pub proof fn law_a_note_is_never_collapsed(w: WorkingView, i: int)
    requires
        0 <= i < w.notes.len(),
    ensures
        text::has(w.rendered(), "- "@ + w.notes[i] + "\n"@),
{
    let note = "- "@ + w.notes[i] + "\n"@;
    let at = lemma_note_row_at(w.notes, i);
    let rows = note_rows(w.notes);
    let head = "## Your notes\n"@;
    let all = w.rendered();
    let place = head.len() + at;
    assert(all.subrange(place as int, (place + note.len()) as int) =~= rows.subrange(
        at,
        at + note.len(),
    ));
    assert(text::stands_at(all, note, place as int));
}

proof fn lemma_note_row_at(notes: Seq<Seq<char>>, i: int) -> (at: int)
    requires
        0 <= i < notes.len(),
    ensures
        0 <= at,
        at + ("- "@ + notes[i] + "\n"@).len() <= note_rows(notes).len(),
        note_rows(notes).subrange(at, at + ("- "@ + notes[i] + "\n"@).len()) == "- "@ + notes[i]
            + "\n"@,
    decreases notes.len(),
{
    let front = note_rows(notes.drop_last());
    let note = "- "@ + notes[i] + "\n"@;
    let all = note_rows(notes);
    if i == notes.len() - 1 {
        assert(all =~= front + note);
        assert(all.subrange(front.len() as int, (front.len() + note.len()) as int) =~= note);
        front.len() as int
    } else {
        let at = lemma_note_row_at(notes.drop_last(), i);
        assert(all.subrange(at, at + note.len()) =~= front.subrange(at, at + note.len()));
        at
    }
}

/// How much a planner keeps: 24 notes, 60 findings, and four steps in full.
pub proof fn law_the_slots_have_their_ceilings()
    ensures
        MAX_NOTES == 24,
        MAX_FINDINGS == 60,
        RECENT_IN_FULL == 4,
{
}

/// Findings are taken in order until there is no room: what is held after is
/// what was held before, and as many of the new as fit.
pub proof fn law_findings_are_taken_until_there_is_no_room(w: WorkingView, lines: Seq<Seq<char>>)
    requires
        w.findings.len() <= 60,
    ensures
        w.found(lines).findings == (if w.findings.len() + lines.len() <= 60 {
            w.findings + lines
        } else {
            w.findings + lines.take(60 - w.findings.len())
        }),
    decreases lines.len(),
{
    if lines.len() == 0 {
        assert(w.findings + lines =~= w.findings);
    } else {
        let front = lines.drop_last();
        law_findings_are_taken_until_there_is_no_room(w, front);
        if w.findings.len() + lines.len() <= 60 {
            assert((w.findings + front).push(lines.last()) =~= w.findings + lines);
        } else if w.findings.len() + front.len() <= 60 {
            assert(w.findings + front =~= w.findings + lines.take(60 - w.findings.len()));
        } else {
            assert(front.take(60 - w.findings.len()) =~= lines.take(60 - w.findings.len()));
        }
    }
}

proof fn lemma_finding_row_at(findings: Seq<Seq<char>>, i: int) -> (at: int)
    requires
        0 <= i < findings.len(),
    ensures
        text::stands_at(finding_rows(findings), findings[i] + "\n"@, at),
    decreases findings.len(),
{
    let front = finding_rows(findings.drop_last());
    let row = findings[i] + "\n"@;
    let all = finding_rows(findings);
    if i == findings.len() - 1 {
        assert(all =~= front + row);
        assert(all.subrange(front.len() as int, (front.len() + row.len()) as int) =~= row);
        front.len() as int
    } else {
        let at = lemma_finding_row_at(findings.drop_last(), i);
        assert(findings.drop_last()[i] == findings[i]);
        assert(all.subrange(at, at + row.len()) =~= front.subrange(at, at + row.len()));
        at
    }
}

/// Every finding stands in every prompt.
pub proof fn law_every_finding_is_shown(w: WorkingView, i: int)
    requires
        0 <= i < w.findings.len(),
    ensures
        text::has(w.rendered(), w.findings[i] + "\n"@),
{
    let row = w.findings[i] + "\n"@;
    let rows = finding_rows(w.findings);
    let at = lemma_finding_row_at(w.findings, i);
    let head = w.notes_block() + "## Findings so far (from chunks you have read)\n"@;
    let all = w.rendered();
    assert(all.subrange(head.len() + at, head.len() + at + row.len()) =~= rows.subrange(
        at,
        at + row.len(),
    ));
    assert(text::stands_at(all, row, head.len() + at));
}

proof fn lemma_step_row_at(recent: Seq<(Seq<char>, Seq<char>)>, n: nat, i: int) -> (at: int)
    requires
        0 <= i < n <= recent.len(),
    ensures
        text::stands_at(
            step_rows(recent, n),
            step_row((i + 1) as nat, recent[i], i + 1 + RECENT_IN_FULL > recent.len()),
            at,
        ),
    decreases n,
{
    let row = step_row((i + 1) as nat, recent[i], i + 1 + RECENT_IN_FULL > recent.len());
    let front = step_rows(recent, (n - 1) as nat);
    let all = step_rows(recent, n);
    if i == n - 1 {
        assert(all.subrange(front.len() as int, (front.len() + row.len()) as int) =~= row);
        front.len() as int
    } else {
        let at = lemma_step_row_at(recent, (n - 1) as nat, i);
        assert(all.subrange(at, at + row.len()) =~= front.subrange(at, at + row.len()));
        at
    }
}

/// Every step stands in every prompt, with its number and its operator: one of
/// the last four with all that came back, and an older one with the first line
/// of it.
pub proof fn law_every_step_is_shown(w: WorkingView, i: int)
    requires
        0 <= i < w.recent.len(),
    ensures
        i + 4 >= w.recent.len() ==> text::has(
            w.rendered(),
            text::decimal((i + 1) as nat) + ". "@ + w.recent[i].0 + " →\n"@ + w.recent[i].1
                + "\n\n"@,
        ),
        i + 4 < w.recent.len() ==> text::has(
            w.rendered(),
            text::decimal((i + 1) as nat) + ". "@ + w.recent[i].0 + " → "@ + first_line(
                w.recent[i].1,
            ) + "\n"@,
        ),
{
    let row = step_row((i + 1) as nat, w.recent[i], i + 1 + RECENT_IN_FULL > w.recent.len());
    let rows = step_rows(w.recent, w.recent.len());
    let at = lemma_step_row_at(w.recent, w.recent.len(), i);
    let head = w.notes_block() + w.findings_block() + "## Recent steps\n"@;
    let all = w.rendered();
    assert(all.subrange(head.len() + at, head.len() + at + row.len()) =~= rows.subrange(
        at,
        at + row.len(),
    ));
    assert(text::stands_at(all, row, head.len() + at));
}

/// The first line of a text is what stands before its first line feed.
pub proof fn law_a_first_line_ends_at_the_line_feed(a: Seq<char>, b: Seq<char>)
    requires
        forall|i: int| 0 <= i < a.len() ==> #[trigger] a[i] != '\n',
        a.len() == 0 || a.last() != '\r',
    ensures
        first_line(a + seq!['\n'] + b) == a,
        first_line(a) == a,
{
    text::law_a_line_feed_ends_a_line(a, b);
    assert(text::lines(a + seq!['\n'] + b)[0] == a);
    reveal_strlit("");
    if a.len() == 0 {
        assert(a =~= ""@);
    }
}

} // verus!
