//! The boundary of what may be read from disk, and the walk that stays within
//! it.
//!
//! A path is judged on where it lands: it is made canonical first, and held
//! against the configured roots next, part by part. Nothing is matched against
//! a list of bad names, so there is nothing to slip past.
use vstd::prelude::*;
use vstd::string::*;

use crate::chunk;
use crate::chunk::Document;
use crate::order;
use crate::text;

verus! {

/// Ceiling on the files of one load.
pub const MAX_FILES: usize = 5_000;

/// Ceiling on the characters of one file. What is over it is cut, with a mark:
/// a corpus that quietly left something out would be sure that it is not there.
pub const MAX_FILE_CHARS: usize = 4_000_000;

/// A canonical path: no link and no relative part is left in it.
#[derive(Debug)]
pub struct CanonicalPath {
    /// Its parts, from the root of the file system down.
    pub parts: Vec<Vec<u8>>,
    /// How it is shown.
    pub display: String,
    /// By which whoever walks the file system finds it again.
    pub handle: usize,
}

/// What a path holds.
#[verifier::ext_equal]
pub struct PathView {
    pub parts: Seq<Seq<u8>>,
    pub display: Seq<char>,
    pub handle: nat,
}

/// What a list of parts holds.
pub open spec fn part_views(v: Seq<Vec<u8>>) -> Seq<Seq<u8>> {
    Seq::new(v.len(), |i: int| v[i]@)
}

impl View for CanonicalPath {
    type V = PathView;

    open spec fn view(&self) -> PathView {
        PathView {
            parts: part_views(self.parts@),
            display: self.display@,
            handle: self.handle as nat,
        }
    }
}

/// What a list of paths holds.
pub open spec fn path_views(v: Seq<CanonicalPath>) -> Seq<PathView> {
    Seq::new(v.len(), |i: int| v[i]@)
}

/// Is the path the root, or below it?
pub open spec fn under(path: PathView, root: PathView) -> bool {
    root.parts.is_prefix_of(path.parts)
}

/// Is the path under one of the roots?
pub open spec fn allowed(roots: Seq<PathView>, path: PathView) -> bool {
    exists|i: int| 0 <= i < roots.len() && under(path, #[trigger] roots[i])
}

fn same_bytes(a: &Vec<u8>, b: &Vec<u8>) -> (r: bool)
    ensures
        r == (a@ == b@),
{
    if a.len() != b.len() {
        return false;
    }
    let mut i: usize = 0;
    while i < a.len()
        invariant
            i <= a@.len(),
            a@.len() == b@.len(),
            forall|k: int| 0 <= k < i ==> #[trigger] a@[k] == b@[k],
        decreases a@.len() - i,
    {
        if a[i] != b[i] {
            return false;
        }
        i = i + 1;
    }
    assert(a@ =~= b@);
    true
}

fn is_under(path: &CanonicalPath, root: &CanonicalPath) -> (r: bool)
    ensures
        r == under(path@, root@),
{
    let ghost p = path@.parts;
    let ghost q = root@.parts;
    if root.parts.len() > path.parts.len() {
        assert(q.len() > p.len());
        return false;
    }
    let mut i: usize = 0;
    while i < root.parts.len()
        invariant
            i <= root.parts@.len() <= path.parts@.len(),
            p == path@.parts,
            q == root@.parts,
            forall|k: int| 0 <= k < i ==> #[trigger] p[k] == q[k],
        decreases root.parts@.len() - i,
    {
        if !same_bytes(&path.parts[i], &root.parts[i]) {
            assert(p[i as int] != q[i as int]);
            assert(!q.is_prefix_of(p)) by {
                if q.is_prefix_of(p) {
                    assert(p.subrange(0, q.len() as int)[i as int] == p[i as int]);
                }
            }
            return false;
        }
        assert(p[i as int] == q[i as int]);
        i = i + 1;
    }
    assert(p.subrange(0, q.len() as int) =~= q);
    true
}

/// The configured boundary.
#[derive(Debug)]
pub struct Roots(pub Vec<CanonicalPath>);

impl View for Roots {
    type V = Seq<PathView>;

    open spec fn view(&self) -> Seq<PathView> {
        path_views(self.0@)
    }
}

/// How paths are shown.
pub open spec fn displays(paths: Seq<PathView>) -> Seq<Seq<char>> {
    Seq::new(paths.len(), |i: int| paths[i].display)
}

/// What is told of a path that cannot be made canonical.
pub open spec fn unreadable(candidate: Seq<char>) -> Seq<char> {
    "cannot read "@ + candidate
}

/// What is told of a path outside every root.
pub open spec fn outside(roots: Seq<PathView>, path: PathView) -> Seq<char> {
    path.display + " is outside every configured context root ("@ + text::joined(
        displays(roots),
        ", "@,
    ) + "). Set RYU_RLM_ROOTS to widen the boundary deliberately."@
}

/// What a path that a caller named, and what it is when made canonical, come
/// to: the canonical path, or why it is refused.
pub open spec fn resolved(
    roots: Seq<PathView>,
    candidate: Seq<char>,
    full: Option<PathView>,
) -> Result<PathView, Seq<char>> {
    match full {
        None => Err(unreadable(candidate)),
        Some(full) => if allowed(roots, full) {
            Ok(full)
        } else {
            Err(outside(roots, full))
        },
    }
}

/// What is behind an optional path.
pub open spec fn opt_path(p: Option<CanonicalPath>) -> Option<PathView> {
    match p {
        Some(p) => Some(p@),
        None => None,
    }
}

impl Roots {
    /// How the roots are shown.
    pub fn display(&self) -> (r: Vec<String>)
        ensures
            text::views(r@) == displays(self@),
    {
        let mut out: Vec<String> = Vec::new();
        let mut i: usize = 0;
        while i < self.0.len()
            invariant
                i <= self.0@.len(),
                out@.len() == i,
                forall|k: int| 0 <= k < i ==> (#[trigger] out@[k])@ == self@[k].display,
            decreases self.0@.len() - i,
        {
            out.push(self.0[i].display.clone());
            i = i + 1;
        }
        assert(text::views(out@) =~= displays(self@));
        out
    }

    /// Is the path under one of the roots?
    pub fn allows(&self, path: &CanonicalPath) -> (r: bool)
        ensures
            r == allowed(self@, path@),
    {
        let mut i: usize = 0;
        while i < self.0.len()
            invariant
                i <= self.0@.len(),
                forall|k: int| 0 <= k < i ==> !under(path@, #[trigger] self@[k]),
            decreases self.0@.len() - i,
        {
            if is_under(path, &self.0[i]) {
                assert(under(path@, self@[i as int]));
                return true;
            }
            assert(self@[i as int] == self.0@[i as int]@);
            i = i + 1;
        }
        false
    }

    /// Resolves a path that a caller named, or refuses it. What it is when made
    /// canonical comes from the file system.
    pub fn resolve(&self, candidate: &str, full: Option<CanonicalPath>) -> (r: Result<
        CanonicalPath,
        String,
    >)
        ensures
            match r {
                Ok(p) => resolved(self@, candidate@, opt_path(full)) == Ok::<
                    PathView,
                    Seq<char>,
                >(p@),
                Err(e) => resolved(self@, candidate@, opt_path(full)) == Err::<
                    PathView,
                    Seq<char>,
                >(e@),
            },
    {
        match full {
            None => {
                let mut e = "cannot read ".to_owned();
                e.append(candidate);
                Err(e)
            },
            Some(full) => {
                if self.allows(&full) {
                    return Ok(full);
                }
                let shown = self.display();
                let mut e = full.display.clone();
                e.append(" is outside every configured context root (");
                e.append(text::join(&shown, 0, shown.len(), ", ").as_str());
                e.append("). Set RYU_RLM_ROOTS to widen the boundary deliberately.");
                assert(text::views(shown@).subrange(0, shown@.len() as int) =~= displays(self@));
                Err(e)
            },
        }
    }
}

/// Does a walk step over an entry with the name? Hidden entries hold keys and
/// credentials, and the default root is a whole home directory. `node_modules`
/// is a matter of size alone. What has no name in Unicode is walked.
pub open spec fn stepped_over(name: Option<Seq<char>>) -> bool {
    match name {
        Some(n) => text::begins(n, "."@) || n == "node_modules"@,
        None => false,
    }
}

/// Does a walk step over an entry with the name?
pub fn skip_when_walking(name: Option<&str>) -> (b: bool)
    ensures
        b == stepped_over(
            match name {
                Some(n) => Some(n@),
                None => None,
            },
        ),
{
    match name {
        Some(n) => text::starts_with(n, ".") || text::same(n, "node_modules"),
        None => false,
    }
}

// ---------------------------------------------------------------------- load
/// A path to be looked at: how it was named, what it is called within its
/// directory, and what it is when made canonical.
#[derive(Debug)]
pub struct Entry {
    pub candidate: String,
    pub name: Option<String>,
    pub full: Option<CanonicalPath>,
}

/// What an entry holds.
#[verifier::ext_equal]
pub struct EntryView {
    pub candidate: Seq<char>,
    pub name: Option<Seq<char>>,
    pub full: Option<PathView>,
}

impl View for Entry {
    type V = EntryView;

    open spec fn view(&self) -> EntryView {
        EntryView {
            candidate: self.candidate@,
            name: crate::context::opt_text(self.name),
            full: opt_path(self.full),
        }
    }
}

/// What a list of entries holds.
pub open spec fn entry_views(v: Seq<Entry>) -> Seq<EntryView> {
    Seq::new(v.len(), |i: int| v[i]@)
}

/// What a path turned out to be.
#[derive(Debug)]
pub enum Found {
    /// Not to be read, with the reason.
    Unreadable(String),
    /// A directory, with what is in it.
    Directory(Vec<Entry>),
    /// A file of text.
    Text(String),
}

/// What a find holds.
pub enum FoundView {
    Unreadable(Seq<char>),
    Directory(Seq<EntryView>),
    Text(Seq<char>),
}

impl View for Found {
    type V = FoundView;

    open spec fn view(&self) -> FoundView {
        match *self {
            Found::Unreadable(e) => FoundView::Unreadable(e@),
            Found::Directory(v) => FoundView::Directory(entry_views(v@)),
            Found::Text(s) => FoundView::Text(s@),
        }
    }
}

/// A load under way.
#[derive(Debug)]
pub struct Load {
    /// What is still to be looked at; the last comes first.
    pub queue: Vec<CanonicalPath>,
    /// What was read.
    pub docs: Vec<Document>,
    /// What was not, and why.
    pub skipped: Vec<String>,
}

/// What a load holds.
#[verifier::ext_equal]
pub struct LoadView {
    pub queue: Seq<PathView>,
    pub docs: Seq<chunk::DocumentView>,
    pub skipped: Seq<Seq<char>>,
}

impl View for Load {
    type V = LoadView;

    open spec fn view(&self) -> LoadView {
        LoadView {
            queue: path_views(self.queue@),
            docs: chunk::doc_views(self.docs@),
            skipped: text::views(self.skipped@),
        }
    }
}

/// The text of a file as it is held.
pub open spec fn held_text(s: Seq<char>) -> Seq<char> {
    if s.len() > MAX_FILE_CHARS {
        s.take(MAX_FILE_CHARS as int) + "\n\n[truncated by ryu-rlm at the per-file ceiling]"@
    } else {
        s
    }
}

/// The document that a file of text becomes.
pub open spec fn file_doc(path: PathView, s: Seq<char>) -> chunk::DocumentView {
    chunk::DocumentView { source: path.display, text: held_text(s), first_line: 1 }
}

/// What is told when there are too many files.
pub open spec fn too_many_files() -> Seq<char> {
    "stopped at the "@ + text::decimal(MAX_FILES as nat) + "-file ceiling"@
}

impl LoadView {
    /// A candidate was resolved.
    pub open spec fn considered(self, roots: Seq<PathView>, e: EntryView) -> LoadView {
        match resolved(roots, e.candidate, e.full) {
            Ok(p) => LoadView { queue: self.queue.push(p), ..self },
            Err(why) => LoadView { skipped: self.skipped.push(why), ..self },
        }
    }

    /// Paths that a caller named were resolved, whatever they are called.
    pub open spec fn named(self, roots: Seq<PathView>, entries: Seq<EntryView>) -> LoadView
        decreases entries.len(),
    {
        if entries.len() == 0 {
            self
        } else {
            self.named(roots, entries.drop_last()).considered(roots, entries.last())
        }
    }

    /// What is in a directory was resolved, but for what a walk steps over.
    pub open spec fn walked(self, roots: Seq<PathView>, entries: Seq<EntryView>) -> LoadView
        decreases entries.len(),
    {
        if entries.len() == 0 {
            self
        } else {
            let before = self.walked(roots, entries.drop_last());
            if stepped_over(entries.last().name) {
                before
            } else {
                before.considered(roots, entries.last())
            }
        }
    }

    /// A path was looked at.
    pub open spec fn looked(
        self,
        roots: Seq<PathView>,
        path: PathView,
        found: FoundView,
    ) -> LoadView {
        match found {
            FoundView::Unreadable(e) => LoadView {
                skipped: self.skipped.push(path.display + ": "@ + e),
                ..self
            },
            FoundView::Directory(entries) => self.walked(roots, entries),
            FoundView::Text(s) => LoadView { docs: self.docs.push(file_doc(path, s)), ..self },
        }
    }

    /// The next path to look at, and the load without it; nothing where there
    /// is none, or there are too many files.
    pub open spec fn following(self) -> (LoadView, Option<PathView>) {
        if self.queue.len() == 0 {
            (self, None)
        } else if self.docs.len() >= MAX_FILES {
            (
                LoadView {
                    queue: seq![],
                    skipped: self.skipped.push(too_many_files()),
                    ..self
                },
                None,
            )
        } else {
            (
                LoadView { queue: self.queue.drop_last(), ..self },
                Some(self.queue.last()),
            )
        }
    }
}

/// A load before anything was looked at.
pub open spec fn begun(roots: Seq<PathView>, entries: Seq<EntryView>) -> LoadView {
    (LoadView { queue: seq![], docs: seq![], skipped: seq![] }).named(roots, entries)
}

/// Documents by their sources.
pub open spec fn by_source(docs: Seq<chunk::DocumentView>) -> Seq<(Seq<char>, chunk::DocumentView)> {
    Seq::new(docs.len(), |i: int| (docs[i].source, docs[i]))
}

/// Documents in the order of their sources.
pub open spec fn in_order(docs: Seq<chunk::DocumentView>) -> Seq<chunk::DocumentView> {
    let s = order::sorted(by_source(docs), false);
    Seq::new(s.len(), |i: int| s[i].1)
}

impl Load {
    fn consider(&mut self, roots: &Roots, e: Entry)
        ensures
            final(self)@ == old(self)@.considered(roots@, e@),
    {
        match roots.resolve(e.candidate.as_str(), e.full) {
            Ok(p) => {
                let ghost was = self.queue@;
                let ghost v = p@;
                self.queue.push(p);
                assert(path_views(self.queue@) =~= path_views(was).push(v));
            },
            Err(why) => {
                let ghost was = self.skipped@;
                let ghost v = why@;
                self.skipped.push(why);
                assert(text::views(self.skipped@) =~= text::views(was).push(v));
            },
        }
    }

    /// A load of the paths that a caller named.
    pub fn begin(roots: &Roots, entries: Vec<Entry>) -> (r: Load)
        ensures
            r@ == begun(roots@, entry_views(entries@)),
    {
        let ghost v = entry_views(entries@);
        let mut load = Load { queue: Vec::new(), docs: Vec::new(), skipped: Vec::new() };
        let ghost start = LoadView { queue: seq![], docs: seq![], skipped: seq![] };
        assert(load@ =~= start);
        let mut left = reversed(entries);
        let ghost mut done: int = 0;
        assert(v.take(0) =~= seq![]);
        while left.len() > 0
            invariant
                0 <= done <= v.len(),
                left@.len() == v.len() - done,
                forall|k: int|
                    0 <= k < left@.len() ==> (#[trigger] left@[k])@ == v[v.len() - 1 - k],
                load@ == start.named(roots@, v.take(done)),
            decreases left@.len(),
        {
            if let Some(e) = left.pop() {
                proof {
                    assert(e@ == v[done]);
                    assert(v.take(done + 1).drop_last() =~= v.take(done));
                    done = done + 1;
                }
                load.consider(roots, e);
            }
        }
        assert(v.take(done) =~= v);
        load
    }

    fn walk(&mut self, roots: &Roots, entries: Vec<Entry>)
        ensures
            final(self)@ == old(self)@.walked(roots@, entry_views(entries@)),
    {
        let ghost v = entry_views(entries@);
        let ghost start = self@;
        let mut left = reversed(entries);
        let ghost mut done: int = 0;
        assert(v.take(0) =~= seq![]);
        while left.len() > 0
            invariant
                0 <= done <= v.len(),
                left@.len() == v.len() - done,
                forall|k: int|
                    0 <= k < left@.len() ==> (#[trigger] left@[k])@ == v[v.len() - 1 - k],
                self@ == start.walked(roots@, v.take(done)),
            decreases left@.len(),
        {
            if let Some(e) = left.pop() {
                proof {
                    assert(e@ == v[done]);
                    assert(v.take(done + 1).drop_last() =~= v.take(done));
                    done = done + 1;
                }
                let skip = match &e.name {
                    Some(n) => skip_when_walking(Some(n.as_str())),
                    None => skip_when_walking(None),
                };
                if !skip {
                    self.consider(roots, e);
                }
            }
        }
        assert(v.take(done) =~= v);
    }

    /// The next path to look at, if any.
    pub fn next_path(&mut self) -> (r: Option<CanonicalPath>)
        ensures
            (final(self)@, opt_path(r)) == old(self)@.following(),
    {
        let ghost was = self@;
        assert(self.queue@.len() == was.queue.len());
        if self.queue.len() == 0 {
            return None;
        }
        assert(self.docs@.len() == was.docs.len());
        if self.docs.len() >= MAX_FILES {
            let mut told = "stopped at the ".to_owned();
            told.append(text::show(MAX_FILES).as_str());
            told.append("-file ceiling");
            let ghost before = self.skipped@;
            self.skipped.push(told);
            assert(text::views(self.skipped@) =~= text::views(before).push(told@));
            self.queue.clear();
            assert(path_views(self.queue@) =~= seq![]);
            return None;
        }
        let ghost before = self.queue@;
        let r = self.queue.pop();
        assert(path_views(self.queue@) =~= path_views(before).drop_last());
        r
    }

    /// Takes in what a path turned out to be.
    pub fn look(&mut self, roots: &Roots, path: &CanonicalPath, found: Found)
        ensures
            final(self)@ == old(self)@.looked(roots@, path@, found@),
    {
        match found {
            Found::Unreadable(e) => {
                let mut told = path.display.clone();
                told.append(": ");
                told.append(e.as_str());
                let ghost was = self.skipped@;
                self.skipped.push(told);
                assert(text::views(self.skipped@) =~= text::views(was).push(told@));
            },
            Found::Directory(entries) => {
                self.walk(roots, entries);
            },
            Found::Text(s) => {
                let ghost was = self.docs@;
                let doc = if s.as_str().unicode_len() > MAX_FILE_CHARS {
                    let mut held = text::first_chars(s.as_str(), MAX_FILE_CHARS);
                    held.append("\n\n[truncated by ryu-rlm at the per-file ceiling]");
                    Document::new(path.display.as_str(), held.as_str())
                } else {
                    Document::new(path.display.as_str(), s.as_str())
                };
                let ghost v = doc@;
                self.docs.push(doc);
                assert(chunk::doc_views(self.docs@) =~= chunk::doc_views(was).push(v));
            },
        }
    }

    /// What was read, in the order of the sources, and what was not. Without
    /// the order the ids of the chunks of one directory would differ from load
    /// to load.
    pub fn finish(self) -> (r: (Vec<Document>, Vec<String>))
        ensures
            chunk::doc_views(r.0@) == in_order(self@.docs),
            text::views(r.1@) == self@.skipped,
            (forall|i: int| 0 <= i < self.docs@.len() ==> (#[trigger] self.docs@[i])@.fits())
                ==> (forall|i: int| 0 <= i < r.0@.len() ==> (#[trigger] r.0@[i])@.fits()),
    {
        let ghost docs = self.docs@;
        let ghost n = docs.len();
        let mut left = reversed(self.docs);
        let mut pairs: Vec<(String, Document)> = Vec::new();
        while left.len() > 0
            invariant
                n == docs.len(),
                pairs@.len() + left@.len() == n,
                forall|k: int|
                    0 <= k < left@.len() ==> #[trigger] left@[k] == docs[n - 1 - k],
                forall|k: int|
                    0 <= k < pairs@.len() ==> (#[trigger] pairs@[k]).0@ == docs[k]@.source
                        && pairs@[k].1 == docs[k],
            decreases left@.len(),
        {
            if let Some(d) = left.pop() {
                pairs.push((d.source.clone(), d));
            }
        }
        let ghost keyed = order::keyed(pairs@);
        let sorted = order::sort(pairs, false);
        let ghost out_pairs = order::keyed(sorted@);
        let ghost m = sorted@.len();
        let mut left = reversed(sorted);
        let mut out: Vec<Document> = Vec::new();
        while left.len() > 0
            invariant
                out@.len() + left@.len() == m,
                m == out_pairs.len(),
                forall|k: int|
                    0 <= k < left@.len() ==> (#[trigger] left@[k]).1 == out_pairs[m - 1 - k].1,
                forall|k: int| 0 <= k < out@.len() ==> #[trigger] out@[k] == out_pairs[k].1,
            decreases left@.len(),
        {
            if let Some(p) = left.pop() {
                out.push(p.1);
            }
        }
        proof {
            let f = |d: Document| d@;
            order::law_sorting_goes_by_key(keyed, f, false);
            assert(order::exchanged(keyed, f) =~= by_source(chunk::doc_views(docs)));
            assert(chunk::doc_views(out@) =~= in_order(chunk::doc_views(docs)));
            if forall|i: int| 0 <= i < docs.len() ==> (#[trigger] docs[i])@.fits() {
                assert forall|i: int| 0 <= i < out@.len() implies (#[trigger] out@[i])@.fits() by {
                    order::law_sorted_items_went_in(keyed, false, i);
                    let k = choose|k: int| 0 <= k < keyed.len() && keyed[k] == out_pairs[i];
                    assert(out@[i] == docs[k]);
                }
            }
        }
        (out, self.skipped)
    }
}

fn reversed<T>(v: Vec<T>) -> (r: Vec<T>)
    ensures
        r@.len() == v@.len(),
        forall|k: int| 0 <= k < r@.len() ==> #[trigger] r@[k] == v@[v@.len() - 1 - k],
{
    let ghost all = v@;
    let mut left = v;
    let mut out: Vec<T> = Vec::new();
    while left.len() > 0
        invariant
            out@.len() + left@.len() == all.len(),
            left@ == all.take(left@.len() as int),
            forall|k: int| 0 <= k < out@.len() ==> #[trigger] out@[k] == all[all.len() - 1 - k],
        decreases left@.len(),
    {
        let ghost n = left@.len();
        let ghost was = left@;
        if let Some(x) = left.pop() {
            proof {
                assert(was[n - 1] == all.take(n as int)[n - 1]);
                assert(left@ =~= all.take(n - 1));
            }
            out.push(x);
        }
    }
    out
}

// -------------------------------------------------------------- configuration
/// The parts of a setting that say something.
pub open spec fn told_parts(parts: Seq<Seq<char>>) -> Seq<Seq<char>>
    decreases parts.len(),
{
    if parts.len() == 0 {
        seq![]
    } else {
        let before = told_parts(parts.drop_last());
        let part = text::trim(parts.last());
        if part.len() > 0 {
            before.push(part)
        } else {
            before
        }
    }
}

/// The roots that a setting lists, with a separator between them.
pub fn listed_roots(setting: &str, separator: char) -> (r: Vec<String>)
    ensures
        text::views(r@) == told_parts(text::split(setting@, separator)),
{
    let parts = text::split_on(setting, separator);
    let ghost v = text::views(parts@);
    let mut out: Vec<String> = Vec::new();
    let mut i: usize = 0;
    assert(v.take(0) =~= seq![]);
    assert(text::views(out@) =~= seq![]);
    while i < parts.len()
        invariant
            i <= parts@.len(),
            v == text::views(parts@),
            text::views(out@) == told_parts(v.take(i as int)),
        decreases parts@.len() - i,
    {
        assert(v.take(i as int + 1).drop_last() =~= v.take(i as int));
        let part = text::trimmed(parts[i].as_str());
        if part.as_str().unicode_len() > 0 {
            let ghost was = out@;
            let ghost p = part@;
            out.push(part);
            assert(text::views(out@) =~= text::views(was).push(p));
        }
        i = i + 1;
    }
    assert(v.take(i as int) =~= v);
    out
}

/// Where a directory is found from.
#[derive(Debug, PartialEq)]
pub enum Base {
    /// A directory that is configured.
    Given(String),
    /// The user's home directory.
    Home,
    /// The present directory.
    Here,
}

/// The directories that paths may be under: those that the setting lists, and
/// where it lists none the user's home directory, if the user has one.
pub fn chosen_roots(setting: &str, separator: char, has_home: bool) -> (r: Vec<Base>)
    ensures
        ({
            let listed = told_parts(text::split(setting@, separator));
            if listed.len() == 0 {
                r@ == (if has_home {
                    seq![Base::Home]
                } else {
                    seq![]
                })
            } else {
                &&& r@.len() == listed.len()
                &&& forall|i: int|
                    0 <= i < listed.len() ==> (#[trigger] r@[i]) is Given && r@[i]->Given_0@
                        == listed[i]
            }
        }),
{
    let listed = listed_roots(setting, separator);
    let ghost v = text::views(listed@);
    let mut out: Vec<Base> = Vec::new();
    if listed.len() == 0 {
        if has_home {
            out.push(Base::Home);
        }
        assert(out@ =~= (if has_home {
            seq![Base::Home]
        } else {
            seq![]
        }));
        return out;
    }
    let mut i: usize = 0;
    while i < listed.len()
        invariant
            i <= listed@.len(),
            v == text::views(listed@),
            out@.len() == i,
            forall|k: int|
                0 <= k < i ==> (#[trigger] out@[k]) is Given && out@[k]->Given_0@ == v[k],
        decreases listed@.len() - i,
    {
        out.push(Base::Given(listed[i].clone()));
        i = i + 1;
    }
    out
}

/// Where data is kept: below `rlm` of the node's own directory where one is
/// configured, else below `.ryu/rlm` of the user's home, or of the present
/// directory where the user has none.
pub fn data_dir(ryu_dir: Option<String>, has_home: bool) -> (r: (Base, Vec<String>))
    ensures
        match ryu_dir {
            Some(dir) => dir@.len() > 0 ==> r.0 == Base::Given(dir) && text::views(r.1@)
                == seq!["rlm"@],
            None => true,
        },
        ryu_dir is None || ryu_dir->0@.len() == 0 ==> r.0 == (if has_home {
            Base::Home
        } else {
            Base::Here
        }) && text::views(r.1@) == seq![".ryu"@, "rlm"@],
{
    let mut below: Vec<String> = Vec::new();
    if let Some(dir) = ryu_dir {
        if dir.as_str().unicode_len() > 0 {
            below.push("rlm".to_owned());
            assert(text::views(below@) =~= seq!["rlm"@]);
            return (Base::Given(dir), below);
        }
    }
    below.push(".ryu".to_owned());
    below.push("rlm".to_owned());
    assert(text::views(below@) =~= seq![".ryu"@, "rlm"@]);
    if has_home {
        (Base::Home, below)
    } else {
        (Base::Here, below)
    }
}

// ----------------------------------------------------------------------- laws
/// A path is let through if and only if it lands under a root. How it was
/// written does not come into it, so a link is judged on its target.
pub proof fn law_a_path_is_judged_on_where_it_lands(
    roots: Seq<PathView>,
    candidate: Seq<char>,
    full: PathView,
)
    ensures
        resolved(roots, candidate, Some(full)) is Ok <==> allowed(roots, full),
        resolved(roots, candidate, Some(full)) is Ok ==> resolved(roots, candidate, Some(full))
            == Ok::<PathView, Seq<char>>(full),
        resolved(roots, candidate, None) is Err,
{
}

impl LoadView {
    /// Everything that is to be looked at is under a root.
    pub open spec fn within(self, roots: Seq<PathView>) -> bool {
        forall|i: int| 0 <= i < self.queue.len() ==> allowed(roots, #[trigger] self.queue[i])
    }
}

proof fn lemma_considered_within(l: LoadView, roots: Seq<PathView>, e: EntryView)
    requires
        l.within(roots),
    ensures
        l.considered(roots, e).within(roots),
{
    let after = l.considered(roots, e);
    assert forall|i: int| 0 <= i < after.queue.len() implies allowed(
        roots,
        #[trigger] after.queue[i],
    ) by {
        if i < l.queue.len() {
            assert(after.queue[i] == l.queue[i]);
        }
    }
}

proof fn lemma_named_within(l: LoadView, roots: Seq<PathView>, entries: Seq<EntryView>)
    requires
        l.within(roots),
    ensures
        l.named(roots, entries).within(roots),
        l.walked(roots, entries).within(roots),
        l.named(roots, entries).docs == l.docs,
        l.walked(roots, entries).docs == l.docs,
    decreases entries.len(),
{
    if entries.len() > 0 {
        let front = entries.drop_last();
        lemma_named_within(l, roots, front);
        lemma_considered_within(l.named(roots, front), roots, entries.last());
        lemma_considered_within(l.walked(roots, front), roots, entries.last());
    }
}

/// A load never leaves its roots: whatever a caller names and whatever turns
/// up on the way, every path that is looked at is under a root.
pub proof fn law_a_load_stays_within_its_roots(
    l: LoadView,
    roots: Seq<PathView>,
    entries: Seq<EntryView>,
    path: PathView,
    found: FoundView,
)
    requires
        l.within(roots),
    ensures
        begun(roots, entries).within(roots),
        l.looked(roots, path, found).within(roots),
        l.following().0.within(roots),
        l.following().1 matches Some(p) ==> allowed(roots, p),
{
    lemma_named_within(
        LoadView { queue: seq![], docs: seq![], skipped: seq![] },
        roots,
        entries,
    );
    match found {
        FoundView::Directory(inside) => {
            lemma_named_within(l, roots, inside);
        },
        _ => {},
    }
    if l.queue.len() > 0 {
        let rest = l.queue.drop_last();
        assert forall|i: int| 0 <= i < rest.len() implies allowed(roots, #[trigger] rest[i]) by {
            assert(rest[i] == l.queue[i]);
        }
        assert(allowed(roots, l.queue[l.queue.len() - 1]));
    }
}

/// A walk treats a directory as if what it steps over were not there.
pub proof fn law_a_walk_steps_over_hidden_entries(
    l: LoadView,
    roots: Seq<PathView>,
    entries: Seq<EntryView>,
)
    ensures
        l.walked(roots, entries) == l.named(
            roots,
            entries.filter(|e: EntryView| !stepped_over(e.name)),
        ),
    decreases entries.len(),
{
    reveal(Seq::filter);
    let f = |e: EntryView| !stepped_over(e.name);
    if entries.len() > 0 {
        let front = entries.drop_last();
        law_a_walk_steps_over_hidden_entries(l, roots, front);
        if f(entries.last()) {
            let kept = front.filter(f).push(entries.last());
            assert(kept.drop_last() =~= front.filter(f));
            assert(entries.filter(f) == kept);
        }
    }
}

/// A path that a caller names is taken whatever it is called: the rule on
/// names is one on walking.
pub proof fn law_a_named_path_is_taken_whatever_its_name(
    l: LoadView,
    roots: Seq<PathView>,
    entries: Seq<EntryView>,
    e: EntryView,
    name: Option<Seq<char>>,
)
    ensures
        l.named(roots, entries.push(e)) == l.named(
            roots,
            entries.push(EntryView { name, ..e }),
        ),
{
    let other = EntryView { name, ..e };
    assert(entries.push(e).drop_last() =~= entries);
    assert(entries.push(other).drop_last() =~= entries);
}

/// No load holds more files than its ceiling, and a file that is too long says
/// so.
pub proof fn law_a_load_is_bounded(
    l: LoadView,
    roots: Seq<PathView>,
    path: PathView,
    found: FoundView,
)
    requires
        l.docs.len() <= MAX_FILES,
        l.following().1 is Some,
        l.within(roots),
    ensures
        l.following().0.looked(roots, path, found).docs.len() <= MAX_FILES,
        found matches FoundView::Text(s) ==> held_text(s).len() <= MAX_FILE_CHARS + 48,
        found matches FoundView::Text(s) ==> (s.len() <= MAX_FILE_CHARS ==> held_text(s) == s),
{
    reveal_strlit("\n\n[truncated by ryu-rlm at the per-file ceiling]");
    law_a_load_stays_within_its_roots(l, roots, seq![], path, found);
    match found {
        FoundView::Directory(inside) => {
            lemma_named_within(l.following().0, roots, inside);
        },
        _ => {},
    }
}

// -------------------------------------------------------------- a whole load
impl LoadView {
    /// The load after a history: at each turn it gave a path, and this is what
    /// stood there.
    pub open spec fn after(self, roots: Seq<PathView>, finds: Seq<FoundView>) -> LoadView
        decreases finds.len(),
    {
        if finds.len() == 0 {
            self
        } else {
            let before = self.after(roots, finds.drop_last()).following();
            before.0.looked(roots, before.1->0, finds.last())
        }
    }

    /// At each turn of a history the load had a path to give.
    pub open spec fn gave(self, roots: Seq<PathView>, finds: Seq<FoundView>) -> bool
        decreases finds.len(),
    {
        finds.len() == 0 || {
            &&& self.gave(roots, finds.drop_last())
            &&& self.after(roots, finds.drop_last()).following().1 is Some
        }
    }

    /// The path that the load gave at a turn.
    pub open spec fn given(self, roots: Seq<PathView>, finds: Seq<FoundView>, i: int) -> PathView {
        self.after(roots, finds.take(i)).following().1->0
    }

    /// The documents of a history: one for each file of text, under the path
    /// that was given.
    pub open spec fn read(self, roots: Seq<PathView>, finds: Seq<FoundView>) -> Seq<
        chunk::DocumentView,
    >
        decreases finds.len(),
    {
        if finds.len() == 0 {
            seq![]
        } else {
            let before = self.read(roots, finds.drop_last());
            match finds.last() {
                FoundView::Text(s) => before.push(
                    file_doc(self.given(roots, finds, finds.len() - 1), s),
                ),
                _ => before,
            }
        }
    }
}

/// The entry is the path.
pub open spec fn leads_to(e: EntryView, path: PathView) -> bool {
    e.full == Some(path)
}

/// The path was named.
pub open spec fn was_named(entries: Seq<EntryView>, path: PathView) -> bool {
    exists|i: int| 0 <= i < entries.len() && leads_to(#[trigger] entries[i], path)
}

/// The path was in a directory, under a name that a walk does not step over.
pub open spec fn was_inside(entries: Seq<EntryView>, path: PathView) -> bool {
    exists|i: int|
        0 <= i < entries.len() && leads_to(#[trigger] entries[i], path) && !stepped_over(
            entries[i].name,
        )
}

/// The path was in one of the directories that were found.
pub open spec fn was_found(finds: Seq<FoundView>, path: PathView) -> bool {
    exists|i: int|
        0 <= i < finds.len() && (#[trigger] finds[i]) is Directory && was_inside(
            finds[i]->Directory_0,
            path,
        )
}

proof fn lemma_named_queue(l: LoadView, roots: Seq<PathView>, entries: Seq<EntryView>, k: int)
    requires
        0 <= k < l.named(roots, entries).queue.len(),
    ensures
        l.queue.contains(l.named(roots, entries).queue[k]) || was_named(
            entries,
            l.named(roots, entries).queue[k],
        ),
    decreases entries.len(),
{
    let p = l.named(roots, entries).queue[k];
    if entries.len() == 0 {
        assert(l.queue[k] == p);
    } else {
        let front = entries.drop_last();
        let before = l.named(roots, front);
        if k < before.queue.len() {
            lemma_named_queue(l, roots, front, k);
            if was_named(front, p) {
                let i = choose|i: int| 0 <= i < front.len() && leads_to(#[trigger] front[i], p);
                assert(leads_to(entries[i], p));
            }
        } else {
            assert(leads_to(entries[entries.len() - 1], p));
        }
    }
}

proof fn lemma_walked_queue(l: LoadView, roots: Seq<PathView>, entries: Seq<EntryView>, k: int)
    requires
        0 <= k < l.walked(roots, entries).queue.len(),
    ensures
        l.queue.contains(l.walked(roots, entries).queue[k]) || was_inside(
            entries,
            l.walked(roots, entries).queue[k],
        ),
    decreases entries.len(),
{
    let p = l.walked(roots, entries).queue[k];
    if entries.len() == 0 {
        assert(l.queue[k] == p);
    } else {
        let front = entries.drop_last();
        let before = l.walked(roots, front);
        if k < before.queue.len() {
            lemma_walked_queue(l, roots, front, k);
            if was_inside(front, p) {
                let i = choose|i: int|
                    0 <= i < front.len() && leads_to(#[trigger] front[i], p) && !stepped_over(
                        front[i].name,
                    );
                assert(leads_to(entries[i], p));
            }
        } else {
            assert(leads_to(entries[entries.len() - 1], p));
        }
    }
}

proof fn lemma_found_later(finds: Seq<FoundView>, n: int, path: PathView)
    requires
        0 <= n <= finds.len(),
        was_found(finds.take(n), path),
    ensures
        was_found(finds, path),
{
    let front = finds.take(n);
    let i = choose|i: int|
        0 <= i < front.len() && (#[trigger] front[i]) is Directory && was_inside(
            front[i]->Directory_0,
            path,
        );
    assert(finds[i] == front[i]);
}

/// Whatever is to be looked at was named, or was found on the way.
proof fn lemma_queue_origin(
    roots: Seq<PathView>,
    entries: Seq<EntryView>,
    finds: Seq<FoundView>,
    k: int,
)
    requires
        begun(roots, entries).gave(roots, finds),
        0 <= k < begun(roots, entries).after(roots, finds).queue.len(),
    ensures
        ({
            let p = begun(roots, entries).after(roots, finds).queue[k];
            was_named(entries, p) || was_found(finds, p)
        }),
    decreases finds.len(),
{
    let l = begun(roots, entries);
    let p = l.after(roots, finds).queue[k];
    if finds.len() == 0 {
        lemma_named_queue(
            LoadView { queue: seq![], docs: seq![], skipped: seq![] },
            roots,
            entries,
            k,
        );
    } else {
        let front = finds.drop_last();
        let n = finds.len() - 1;
        let before = l.after(roots, front);
        let rest = before.following().0;
        assert(rest.queue == before.queue.drop_last());
        if let FoundView::Directory(inside) = finds.last() {
            lemma_walked_queue(rest, roots, inside, k);
            if was_inside(inside, p) {
                assert(finds[n] is Directory);
            }
        } else {
            assert(rest.queue[k] == p);
        }
        if rest.queue.contains(p) {
            let j = choose|j: int| 0 <= j < rest.queue.len() && rest.queue[j] == p;
            assert(before.queue[j] == p);
            lemma_queue_origin(roots, entries, front, j);
            if was_found(front, p) {
                assert(front =~= finds.take(n));
                lemma_found_later(finds, n, p);
            }
        }
    }
}

/// A history up to an earlier turn is a history.
proof fn lemma_gave_before(l: LoadView, roots: Seq<PathView>, finds: Seq<FoundView>, n: int)
    requires
        l.gave(roots, finds),
        0 <= n <= finds.len(),
    ensures
        l.gave(roots, finds.take(n)),
        n < finds.len() ==> l.after(roots, finds.take(n)).following().1 is Some,
    decreases finds.len(),
{
    if n == finds.len() {
        assert(finds.take(n) =~= finds);
    } else {
        let front = finds.drop_last();
        assert(front.take(n) =~= finds.take(n));
        lemma_gave_before(l, roots, front, n);
        if n == finds.len() - 1 {
            assert(finds.take(n) =~= front);
        }
    }
}

proof fn lemma_a_whole_load(roots: Seq<PathView>, entries: Seq<EntryView>, finds: Seq<FoundView>)
    requires
        begun(roots, entries).gave(roots, finds),
    ensures
        begun(roots, entries).after(roots, finds).within(roots),
        begun(roots, entries).after(roots, finds).docs.len() <= MAX_FILES,
        begun(roots, entries).after(roots, finds).docs == begun(roots, entries).read(roots, finds),
    decreases finds.len(),
{
    let l = begun(roots, entries);
    let empty = LoadView { queue: seq![], docs: seq![], skipped: seq![] };
    if finds.len() == 0 {
        lemma_named_within(empty, roots, entries);
    } else {
        let front = finds.drop_last();
        lemma_a_whole_load(roots, entries, front);
        let before = l.after(roots, front);
        let p = before.following().1->0;
        assert(finds.take(finds.len() - 1) =~= front);
        law_a_load_stays_within_its_roots(before, roots, entries, p, finds.last());
        law_a_load_stays_within_its_roots(
            before.following().0,
            roots,
            entries,
            p,
            finds.last(),
        );
        law_a_load_is_bounded(before, roots, p, finds.last());
        if let FoundView::Directory(inside) = finds.last() {
            lemma_named_within(before.following().0, roots, inside);
        }
    }
}

/// Whatever the file system answers, a load reads only under its roots. Every
/// path that it gives out is under a root, and is one that the caller named or
/// that stood in a directory on the way under a name that is not stepped over.
/// What it holds in the end is what was read at those paths, each under the
/// path it was read at, and no more than the ceiling on files.
pub proof fn law_a_whole_load_reads_what_it_may(
    roots: Seq<PathView>,
    entries: Seq<EntryView>,
    finds: Seq<FoundView>,
)
    requires
        begun(roots, entries).gave(roots, finds),
    ensures
        forall|i: int|
            0 <= i < finds.len() ==> allowed(
                roots,
                #[trigger] begun(roots, entries).given(roots, finds, i),
            ),
        forall|i: int|
            0 <= i < finds.len() ==> {
                let p = #[trigger] begun(roots, entries).given(roots, finds, i);
                was_named(entries, p) || was_found(finds.take(i), p)
            },
        begun(roots, entries).after(roots, finds).docs == begun(roots, entries).read(roots, finds),
        begun(roots, entries).after(roots, finds).docs.len() <= MAX_FILES,
{
    let l = begun(roots, entries);
    lemma_a_whole_load(roots, entries, finds);
    assert forall|i: int| 0 <= i < finds.len() implies allowed(
        roots,
        #[trigger] l.given(roots, finds, i),
    ) && (was_named(entries, l.given(roots, finds, i)) || was_found(
        finds.take(i),
        l.given(roots, finds, i),
    )) by {
        lemma_gave_before(l, roots, finds, i);
        lemma_a_whole_load(roots, entries, finds.take(i));
        let at = l.after(roots, finds.take(i));
        assert(at.queue[at.queue.len() - 1] == l.given(roots, finds, i));
        lemma_queue_origin(roots, entries, finds.take(i), at.queue.len() - 1);
    }
}

/// Every document of a load has the source of a path that the load gave out,
/// which is under a root, and holds the text that stood there.
pub proof fn law_every_document_was_read_under_a_root(
    roots: Seq<PathView>,
    entries: Seq<EntryView>,
    finds: Seq<FoundView>,
    k: int,
) -> (i: int)
    requires
        begun(roots, entries).gave(roots, finds),
        0 <= k < begun(roots, entries).after(roots, finds).docs.len(),
    ensures
        0 <= i < finds.len(),
        finds[i] is Text,
        begun(roots, entries).after(roots, finds).docs[k] == file_doc(
            begun(roots, entries).given(roots, finds, i),
            finds[i]->Text_0,
        ),
        allowed(roots, begun(roots, entries).given(roots, finds, i)),
{
    law_a_whole_load_reads_what_it_may(roots, entries, finds);
    lemma_read_at(begun(roots, entries), roots, finds, k)
}

proof fn lemma_read_at(l: LoadView, roots: Seq<PathView>, finds: Seq<FoundView>, k: int) -> (i: int)
    requires
        0 <= k < l.read(roots, finds).len(),
    ensures
        0 <= i < finds.len(),
        finds[i] is Text,
        l.read(roots, finds)[k] == file_doc(l.given(roots, finds, i), finds[i]->Text_0),
    decreases finds.len(),
{
    let front = finds.drop_last();
    if k < l.read(roots, front).len() {
        let i = lemma_read_at(l, roots, front, k);
        assert(front.take(i) =~= finds.take(i));
        i
    } else {
        finds.len() - 1
    }
}

/// What was read comes out in the order of its sources, all of it, and nothing
/// else.
pub proof fn law_documents_come_out_in_order(docs: Seq<chunk::DocumentView>)
    ensures
        in_order(docs).len() == docs.len(),
        forall|i: int, j: int|
            0 <= i < j < docs.len() ==> !order::less(
                (#[trigger] in_order(docs)[j]).source,
                (#[trigger] in_order(docs)[i]).source,
            ),
        forall|i: int| 0 <= i < docs.len() ==> docs.contains(#[trigger] in_order(docs)[i]),
{
    let pairs = by_source(docs);
    let s = order::sorted(pairs, false);
    order::law_sorting_orders(pairs, false);
    assert forall|i: int| 0 <= i < s.len() implies s[i].0 == (#[trigger] s[i]).1.source
        && docs.contains(s[i].1) by {
        order::law_sorted_items_went_in(pairs, false, i);
        let k = choose|k: int| 0 <= k < pairs.len() && pairs[k] == s[i];
        assert(docs[k] == s[i].1);
    }
    assert forall|i: int, j: int| 0 <= i < j < docs.len() implies !order::less(
        (#[trigger] in_order(docs)[j]).source,
        (#[trigger] in_order(docs)[i]).source,
    ) by {
        assert(!order::ahead(s[j].0, s[i].0, false));
    }
    assert forall|i: int| 0 <= i < docs.len() implies docs.contains(
        #[trigger] in_order(docs)[i],
    ) by {
        assert(docs.contains(s[i].1));
    }
}

/// A walk steps over a name that begins with a dot, over `node_modules`, and over
/// nothing else.
pub proof fn law_a_walk_steps_over_these_names_alone(name: Seq<char>)
    ensures
        stepped_over(Some(name)) <==> name.len() > 0 && name[0] == '.' || name == "node_modules"@,
        !stepped_over(None),
{
    reveal_strlit(".");
    if name.len() > 0 && name[0] == '.' {
        assert(name.subrange(0, 1) =~= "."@);
    }
    if text::begins(name, "."@) {
        assert(name.subrange(0, 1)[0] == name[0]);
    }
}

/// A path is under a root if and only if its first parts are the root's, all of
/// them.
pub proof fn law_under_is_part_by_part(path: PathView, root: PathView)
    ensures
        under(path, root) <==> root.parts.len() <= path.parts.len() && forall|k: int|
            0 <= k < root.parts.len() ==> #[trigger] path.parts[k] == root.parts[k],
{
    if root.parts.is_prefix_of(path.parts) {
        assert forall|k: int| 0 <= k < root.parts.len() implies #[trigger] path.parts[k]
            == root.parts[k] by {
            assert(path.parts.subrange(0, root.parts.len() as int)[k] == path.parts[k]);
        }
    }
    if root.parts.len() <= path.parts.len() && forall|k: int|
        0 <= k < root.parts.len() ==> #[trigger] path.parts[k] == root.parts[k] {
        assert(root.parts =~= path.parts.subrange(0, root.parts.len() as int));
    }
}

/// A file of no more than 4000000 characters is held whole; of a longer one the
/// first 4000000 are, and a mark.
pub proof fn law_a_file_is_held_as_far_as_it_goes(s: Seq<char>)
    ensures
        MAX_FILES == 5_000,
        s.len() <= 4_000_000 ==> held_text(s) == s,
        s.len() > 4_000_000 ==> held_text(s) == s.take(4_000_000)
            + "\n\n[truncated by ryu-rlm at the per-file ceiling]"@,
{
}

proof fn lemma_considered_takes(l: LoadView, roots: Seq<PathView>, e: EntryView)
    ensures
        l.queue.is_prefix_of(l.considered(roots, e).queue),
        l.skipped.is_prefix_of(l.considered(roots, e).skipped),
        match e.full {
            Some(p) => if allowed(roots, p) {
                l.considered(roots, e).queue.contains(p)
            } else {
                l.considered(roots, e).skipped.contains(outside(roots, p))
            },
            None => l.considered(roots, e).skipped.contains("cannot read "@ + e.candidate),
        },
{
    let after = l.considered(roots, e);
    match e.full {
        Some(p) => if allowed(roots, p) {
            assert(after.queue[after.queue.len() - 1] == p);
        } else {
            assert(after.skipped[after.skipped.len() - 1] == outside(roots, p));
        },
        None => {
            assert(after.skipped[after.skipped.len() - 1] == "cannot read "@ + e.candidate);
        },
    }
}

/// What is in a list is in every list that it begins.
proof fn lemma_prefix_has<A>(a: Seq<A>, b: Seq<A>, x: A)
    requires
        a.is_prefix_of(b),
        a.contains(x),
    ensures
        b.contains(x),
{
    let i = choose|i: int| 0 <= i < a.len() && a[i] == x;
    assert(b.subrange(0, a.len() as int)[i] == b[i]);
}

proof fn lemma_prefix_on<A>(a: Seq<A>, b: Seq<A>, c: Seq<A>)
    requires
        a.is_prefix_of(b),
        b.is_prefix_of(c),
    ensures
        a.is_prefix_of(c),
{
    assert(a =~= c.subrange(0, a.len() as int)) by {
        assert(b =~= c.subrange(0, b.len() as int));
        assert(a =~= b.subrange(0, a.len() as int));
    }
}

/// An entry was taken up: it is to be looked at where it is under a root, and is
/// told where it is not.
pub open spec fn taken_up(l: LoadView, roots: Seq<PathView>, e: EntryView) -> bool {
    match e.full {
        Some(p) => if allowed(roots, p) {
            l.queue.contains(p)
        } else {
            l.skipped.contains(outside(roots, p))
        },
        None => l.skipped.contains("cannot read "@ + e.candidate),
    }
}

proof fn lemma_taken_up_stays(a: LoadView, b: LoadView, roots: Seq<PathView>, e: EntryView)
    requires
        taken_up(a, roots, e),
        a.queue.is_prefix_of(b.queue),
        a.skipped.is_prefix_of(b.skipped),
    ensures
        taken_up(b, roots, e),
{
    match e.full {
        Some(p) => if allowed(roots, p) {
            lemma_prefix_has(a.queue, b.queue, p);
        } else {
            lemma_prefix_has(a.skipped, b.skipped, outside(roots, p));
        },
        None => {
            lemma_prefix_has(a.skipped, b.skipped, "cannot read "@ + e.candidate);
        },
    }
}

proof fn lemma_named_takes(l: LoadView, roots: Seq<PathView>, entries: Seq<EntryView>)
    ensures
        l.queue.is_prefix_of(l.named(roots, entries).queue),
        l.skipped.is_prefix_of(l.named(roots, entries).skipped),
        forall|i: int|
            0 <= i < entries.len() ==> taken_up(
                l.named(roots, entries),
                roots,
                #[trigger] entries[i],
            ),
    decreases entries.len(),
{
    if entries.len() > 0 {
        let front = entries.drop_last();
        lemma_named_takes(l, roots, front);
        let before = l.named(roots, front);
        let all = l.named(roots, entries);
        lemma_considered_takes(before, roots, entries.last());
        lemma_prefix_on(l.queue, before.queue, all.queue);
        lemma_prefix_on(l.skipped, before.skipped, all.skipped);
        assert forall|i: int| 0 <= i < entries.len() implies taken_up(
            all,
            roots,
            #[trigger] entries[i],
        ) by {
            if i < front.len() {
                assert(front[i] == entries[i]);
                lemma_taken_up_stays(before, all, roots, entries[i]);
            }
        }
    }
}

proof fn lemma_walked_takes(l: LoadView, roots: Seq<PathView>, entries: Seq<EntryView>)
    ensures
        l.queue.is_prefix_of(l.walked(roots, entries).queue),
        l.skipped.is_prefix_of(l.walked(roots, entries).skipped),
        forall|i: int|
            0 <= i < entries.len() && !stepped_over((#[trigger] entries[i]).name) ==> taken_up(
                l.walked(roots, entries),
                roots,
                entries[i],
            ),
    decreases entries.len(),
{
    if entries.len() > 0 {
        let front = entries.drop_last();
        lemma_walked_takes(l, roots, front);
        let before = l.walked(roots, front);
        let all = l.walked(roots, entries);
        lemma_considered_takes(before, roots, entries.last());
        assert(before.queue.is_prefix_of(all.queue));
        assert(before.skipped.is_prefix_of(all.skipped));
        lemma_prefix_on(l.queue, before.queue, all.queue);
        lemma_prefix_on(l.skipped, before.skipped, all.skipped);
        assert forall|i: int|
            0 <= i < entries.len() && !stepped_over(
                (#[trigger] entries[i]).name,
            ) implies taken_up(all, roots, entries[i]) by {
            if i < front.len() {
                assert(front[i] == entries[i]);
                lemma_taken_up_stays(before, all, roots, entries[i]);
            }
        }
    }
}

/// Looking at a path takes nothing off what is to be looked at, nor off what is
/// told.
proof fn lemma_looked_keeps(l: LoadView, roots: Seq<PathView>, path: PathView, found: FoundView)
    ensures
        l.queue.is_prefix_of(l.looked(roots, path, found).queue),
        l.skipped.is_prefix_of(l.looked(roots, path, found).skipped),
        found matches FoundView::Directory(inside) ==> forall|i: int|
            0 <= i < inside.len() && !stepped_over((#[trigger] inside[i]).name) ==> taken_up(
                l.looked(roots, path, found),
                roots,
                inside[i],
            ),
        found matches FoundView::Unreadable(e) ==> l.looked(roots, path, found).skipped.contains(
            path.display + ": "@ + e,
        ),
{
    match found {
        FoundView::Directory(inside) => {
            lemma_walked_takes(l, roots, inside);
        },
        FoundView::Unreadable(e) => {
            let s = l.looked(roots, path, found).skipped;
            assert(s[s.len() - 1] == path.display + ": "@ + e);
        },
        _ => {},
    }
}

/// The path was given out at one of the turns from `n` on.
pub open spec fn was_given(
    l: LoadView,
    roots: Seq<PathView>,
    finds: Seq<FoundView>,
    n: int,
    path: PathView,
) -> bool {
    exists|j: int| n <= j < finds.len() && #[trigger] l.given(roots, finds, j) == path
}

/// What is to be looked at is given out in time, or is still to be.
proof fn lemma_queued_is_given(
    l: LoadView,
    roots: Seq<PathView>,
    finds: Seq<FoundView>,
    n: int,
    path: PathView,
)
    requires
        l.gave(roots, finds),
        0 <= n <= finds.len(),
        l.after(roots, finds.take(n)).queue.contains(path),
    ensures
        l.after(roots, finds).queue.contains(path) || was_given(l, roots, finds, n, path),
    decreases finds.len(),
{
    if n == finds.len() {
        assert(finds.take(n) =~= finds);
    } else {
        let front = finds.drop_last();
        assert(front.take(n) =~= finds.take(n));
        lemma_queued_is_given(l, roots, front, n, path);
        let before = l.after(roots, front);
        let last = finds.len() - 1;
        assert(finds.take(last) =~= front);
        if was_given(l, roots, front, n, path) {
            let j = choose|j: int|
                n <= j < front.len() && #[trigger] l.given(roots, front, j) == path;
            assert(front.take(j) =~= finds.take(j));
            assert(l.given(roots, finds, j) == path);
        } else {
            let i = choose|i: int| 0 <= i < before.queue.len() && before.queue[i] == path;
            let rest = before.following().0;
            if i == before.queue.len() - 1 {
                assert(l.given(roots, finds, last) == path);
            } else {
                assert(rest.queue[i] == path);
                assert(rest.queue.contains(path));
                lemma_looked_keeps(rest, roots, before.following().1->0, finds.last());
                lemma_prefix_has(rest.queue, l.after(roots, finds).queue, path);
            }
        }
    }
}

/// What is told stays told.
proof fn lemma_skipped_stays(l: LoadView, roots: Seq<PathView>, finds: Seq<FoundView>, n: int)
    requires
        l.gave(roots, finds),
        0 <= n <= finds.len(),
    ensures
        l.after(roots, finds.take(n)).skipped.is_prefix_of(l.after(roots, finds).skipped),
    decreases finds.len(),
{
    if n == finds.len() {
        assert(finds.take(n) =~= finds);
    } else {
        let front = finds.drop_last();
        assert(front.take(n) =~= finds.take(n));
        lemma_skipped_stays(l, roots, front, n);
        let before = l.after(roots, front);
        lemma_looked_keeps(
            before.following().0,
            roots,
            before.following().1->0,
            finds.last(),
        );
        lemma_prefix_on(
            l.after(roots, finds.take(n)).skipped,
            before.skipped,
            l.after(roots, finds).skipped,
        );
    }
}

/// An entry came to its end: it was given out where it is under a root, and is
/// told with the reason where it is not.
pub open spec fn came_to_its_end(
    l: LoadView,
    roots: Seq<PathView>,
    finds: Seq<FoundView>,
    e: EntryView,
) -> bool {
    match e.full {
        Some(p) => if allowed(roots, p) {
            was_given(l, roots, finds, 0, p)
        } else {
            l.after(roots, finds).skipped.contains(outside(roots, p))
        },
        None => l.after(roots, finds).skipped.contains("cannot read "@ + e.candidate),
    }
}

proof fn lemma_came_to_its_end(
    l: LoadView,
    roots: Seq<PathView>,
    finds: Seq<FoundView>,
    n: int,
    e: EntryView,
)
    requires
        l.gave(roots, finds),
        0 <= n <= finds.len(),
        taken_up(l.after(roots, finds.take(n)), roots, e),
        l.after(roots, finds).queue.len() == 0,
    ensures
        came_to_its_end(l, roots, finds, e),
{
    lemma_skipped_stays(l, roots, finds, n);
    let at = l.after(roots, finds.take(n));
    let end = l.after(roots, finds);
    match e.full {
        Some(p) => if allowed(roots, p) {
            lemma_queued_is_given(l, roots, finds, n, p);
            let j = choose|j: int|
                n <= j < finds.len() && #[trigger] l.given(roots, finds, j) == p;
            assert(l.given(roots, finds, j) == p);
        } else {
            lemma_prefix_has(at.skipped, end.skipped, outside(roots, p));
        },
        None => {
            lemma_prefix_has(at.skipped, end.skipped, "cannot read "@ + e.candidate);
        },
    }
}

/// A load passes nothing over. When it has nothing more to give out, and not for
/// its ceiling, every path that the caller named was given out or is told with
/// the reason; so was everything in the directories on the way, but for what is
/// stepped over; and whatever could not be read is told.
pub proof fn law_a_whole_load_passes_nothing_over(
    roots: Seq<PathView>,
    entries: Seq<EntryView>,
    finds: Seq<FoundView>,
)
    requires
        begun(roots, entries).gave(roots, finds),
        begun(roots, entries).after(roots, finds).following().1 is None,
        begun(roots, entries).after(roots, finds).docs.len() < 5_000,
    ensures
        forall|i: int|
            0 <= i < entries.len() ==> came_to_its_end(
                begun(roots, entries),
                roots,
                finds,
                #[trigger] entries[i],
            ),
        forall|t: int, i: int|
            0 <= t < finds.len() && finds[t] is Directory && 0 <= i < finds[t]->Directory_0.len()
                && !stepped_over(finds[t]->Directory_0[i].name) ==> came_to_its_end(
                begun(roots, entries),
                roots,
                finds,
                #[trigger] finds[t]->Directory_0[i],
            ),
        forall|t: int|
            0 <= t < finds.len() && (#[trigger] finds[t]) is Unreadable ==> begun(
                roots,
                entries,
            ).after(roots, finds).skipped.contains(
                begun(roots, entries).given(roots, finds, t).display + ": "@
                    + finds[t]->Unreadable_0,
            ),
        forall|t: int|
            0 <= t < finds.len() && (#[trigger] finds[t]) is Text ==> begun(roots, entries).after(
                roots,
                finds,
            ).docs.contains(
                file_doc(begun(roots, entries).given(roots, finds, t), finds[t]->Text_0),
            ),
{
    let l = begun(roots, entries);
    let end = l.after(roots, finds);
    assert(end.queue.len() == 0);
    assert(finds.take(0) =~= seq![]);
    lemma_named_takes(
        LoadView { queue: seq![], docs: seq![], skipped: seq![] },
        roots,
        entries,
    );
    assert forall|i: int| 0 <= i < entries.len() implies came_to_its_end(
        l,
        roots,
        finds,
        #[trigger] entries[i],
    ) by {
        lemma_came_to_its_end(l, roots, finds, 0, entries[i]);
    }
    assert forall|t: int, i: int|
        0 <= t < finds.len() && finds[t] is Directory && 0 <= i < finds[t]->Directory_0.len()
            && !stepped_over(finds[t]->Directory_0[i].name) implies came_to_its_end(
        l,
        roots,
        finds,
        #[trigger] finds[t]->Directory_0[i],
    ) by {
        lemma_after_turn(l, roots, finds, t);
        let at = l.after(roots, finds.take(t)).following();
        lemma_looked_keeps(at.0, roots, at.1->0, finds[t]);
        lemma_came_to_its_end(l, roots, finds, t + 1, finds[t]->Directory_0[i]);
    }
    assert forall|t: int|
        0 <= t < finds.len() && (#[trigger] finds[t]) is Unreadable implies end.skipped.contains(
        l.given(roots, finds, t).display + ": "@ + finds[t]->Unreadable_0,
    ) by {
        lemma_after_turn(l, roots, finds, t);
        let at = l.after(roots, finds.take(t)).following();
        lemma_looked_keeps(at.0, roots, at.1->0, finds[t]);
        lemma_skipped_stays(l, roots, finds, t + 1);
        lemma_prefix_has(
            l.after(roots, finds.take(t + 1)).skipped,
            end.skipped,
            l.given(roots, finds, t).display + ": "@ + finds[t]->Unreadable_0,
        );
    }
    lemma_a_whole_load(roots, entries, finds);
    assert forall|t: int|
        0 <= t < finds.len() && (#[trigger] finds[t]) is Text implies end.docs.contains(
        file_doc(l.given(roots, finds, t), finds[t]->Text_0),
    ) by {
        lemma_text_is_read(l, roots, finds, t);
    }
}

proof fn lemma_after_turn(l: LoadView, roots: Seq<PathView>, finds: Seq<FoundView>, t: int)
    requires
        0 <= t < finds.len(),
        l.gave(roots, finds),
    ensures
        ({
            let at = l.after(roots, finds.take(t)).following();
            &&& l.after(roots, finds.take(t + 1)) == at.0.looked(roots, at.1->0, finds[t])
            &&& at.1 == Some(l.given(roots, finds, t))
        }),
{
    assert(finds.take(t + 1).drop_last() =~= finds.take(t));
    assert(finds.take(t + 1).last() == finds[t]);
    lemma_gave_before(l, roots, finds, t);
}

proof fn lemma_text_is_read(l: LoadView, roots: Seq<PathView>, finds: Seq<FoundView>, t: int)
    requires
        0 <= t < finds.len(),
        finds[t] is Text,
    ensures
        l.read(roots, finds).contains(file_doc(l.given(roots, finds, t), finds[t]->Text_0)),
    decreases finds.len(),
{
    let all = l.read(roots, finds);
    let d = file_doc(l.given(roots, finds, t), finds[t]->Text_0);
    if t == finds.len() - 1 {
        assert(all[all.len() - 1] == d);
    } else {
        let front = finds.drop_last();
        lemma_text_is_read(l, roots, front, t);
        assert(front.take(t) =~= finds.take(t));
        let before = l.read(roots, front);
        let i = choose|i: int| 0 <= i < before.len() && before[i] == d;
        assert(all[i] == d);
    }
}

/// A load that stops for its ceiling says so.
pub proof fn law_a_load_that_stops_says_so(l: LoadView)
    requires
        l.queue.len() > 0,
    ensures
        l.docs.len() >= 5_000 <==> l.following().1 is None,
        l.docs.len() >= 5_000 ==> l.following().0.skipped.last() == "stopped at the "@
            + text::decimal(5_000) + "-file ceiling"@,
        l.docs.len() < 5_000 ==> l.following().1 == Some(l.queue.last()),
        l.following().0.docs == l.docs,
{
}

/// What was read comes out, all of it.
pub proof fn law_no_document_is_lost_in_order(docs: Seq<chunk::DocumentView>)
    ensures
        in_order(docs).to_multiset() == docs.to_multiset(),
{
    let pairs = by_source(docs);
    let s = order::sorted(pairs, false);
    order::law_sorting_keeps_the_items(pairs, false);
    lemma_docs_multiset(pairs, s, docs, in_order(docs));
}

proof fn lemma_docs_multiset(
    a: Seq<(Seq<char>, chunk::DocumentView)>,
    b: Seq<(Seq<char>, chunk::DocumentView)>,
    x: Seq<chunk::DocumentView>,
    y: Seq<chunk::DocumentView>,
)
    requires
        a.to_multiset() == b.to_multiset(),
        a.len() == x.len(),
        b.len() == y.len(),
        forall|i: int| 0 <= i < a.len() ==> (#[trigger] a[i]).1 == x[i],
        forall|i: int| 0 <= i < b.len() ==> (#[trigger] b[i]).1 == y[i],
    ensures
        x.to_multiset() == y.to_multiset(),
    decreases a.len(),
{
    broadcast use vstd::seq_lib::group_to_multiset_ensures;

    assert(a.to_multiset().len() == a.len() && b.to_multiset().len() == b.len());
    if a.len() == 0 {
        assert(x =~= y);
    } else {
        let last = a.last();
        assert(a.to_multiset().count(last) > 0) by {
            assert(a.contains(last));
        }
        assert(b.contains(last));
        let k = choose|k: int| 0 <= k < b.len() && b[k] == last;
        let a2 = a.drop_last();
        let b2 = b.remove(k);
        let x2 = x.drop_last();
        let y2 = y.remove(k);
        assert(a2 =~= a.remove(a.len() - 1));
        assert(x2 =~= x.remove(x.len() - 1));
        assert(a2.to_multiset() =~= a.to_multiset().remove(last));
        assert(b2.to_multiset() =~= b.to_multiset().remove(last));
        assert forall|i: int| 0 <= i < a2.len() implies (#[trigger] a2[i]).1 == x2[i] by {
            assert(a2[i] == a[i]);
        }
        assert forall|i: int| 0 <= i < b2.len() implies (#[trigger] b2[i]).1 == y2[i] by {
            let m = if i < k {
                i
            } else {
                i + 1
            };
            assert(b2[i] == b[m]);
        }
        lemma_docs_multiset(a2, b2, x2, y2);
        assert(x[x.len() - 1] == last.1);
        assert(b[k].1 == y[k]);
        assert(x2.to_multiset() =~= x.to_multiset().remove(last.1));
        assert(y2.to_multiset() =~= y.to_multiset().remove(last.1));
        assert(x.to_multiset() =~= x2.to_multiset().insert(last.1)) by {
            assert(x =~= x2.push(last.1));
        }
        assert(y.contains(last.1)) by {
            assert(y[k] == last.1);
        }
        assert(y.to_multiset() =~= y2.to_multiset().insert(last.1));
    }
}

/// Without roots nothing is let through, and one root more lets through what is
/// under it and nothing else that was not.
pub proof fn law_a_root_lets_through_what_is_under_it(
    roots: Seq<PathView>,
    root: PathView,
    path: PathView,
)
    ensures
        !allowed(Seq::<PathView>::empty(), path),
        allowed(roots.push(root), path) <==> allowed(roots, path) || root.parts.is_prefix_of(
            path.parts,
        ),
{
    let more = roots.push(root);
    if allowed(roots, path) {
        let i = choose|i: int| 0 <= i < roots.len() && under(path, #[trigger] roots[i]);
        assert(under(path, more[i]));
    }
    if root.parts.is_prefix_of(path.parts) {
        assert(under(path, more[roots.len() as int]));
    }
    if allowed(more, path) {
        let i = choose|i: int| 0 <= i < more.len() && under(path, #[trigger] more[i]);
        if i < roots.len() {
            assert(under(path, roots[i]));
        }
    }
}

/// Of a list in a setting every part that is not blank is taken, in order,
/// without the white space around it.
pub proof fn law_every_part_of_a_setting_is_taken(parts: Seq<Seq<char>>)
    ensures
        told_parts(parts) == parts.filter(|p: Seq<char>| !text::is_blank(p)).map_values(
            |p: Seq<char>| text::trim(p),
        ),
    decreases parts.len(),
{
    reveal(Seq::filter);
    let f = |p: Seq<char>| !text::is_blank(p);
    let g = |p: Seq<char>| text::trim(p);
    if parts.len() == 0 {
        assert(told_parts(parts) =~= parts.filter(f).map_values(g));
    } else {
        let front = parts.drop_last();
        law_every_part_of_a_setting_is_taken(front);
        let last = parts.last();
        let span = text::law_trimming_takes_white_space_off_the_ends(last);
        if f(last) {
            assert(parts.filter(f) == front.filter(f).push(last));
            assert(told_parts(parts) =~= parts.filter(f).map_values(g));
        } else {
            assert(parts.filter(f) == front.filter(f));
        }
    }
}

/// A file makes a document from its first line, under the path it stands at.
pub proof fn law_a_file_is_a_document_from_its_first_line(path: PathView, s: Seq<char>)
    ensures
        file_doc(path, s).source == path.display,
        file_doc(path, s).first_line == 1,
        s.len() <= 4_000_000 ==> file_doc(path, s).text == s,
{
    law_a_file_is_held_as_far_as_it_goes(s);
}

} // verus!
