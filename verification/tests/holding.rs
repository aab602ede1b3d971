use ryu_rlm::chunk::Document;
use ryu_rlm::context::{ContextRecord, MAX_CONTEXT_CHARS};
use ryu_rlm::engine::{Budget, Event, Run, RunRecord};
use ryu_rlm::host::RunQuota;
use ryu_rlm::order::{is_less, sort};
use ryu_rlm::roots::{
    chosen_roots, data_dir, skip_when_walking, Base, CanonicalPath, Entry, Found, Load, Roots,
    MAX_FILES, MAX_FILE_CHARS,
};
use ryu_rlm::stamp::Stamp;
use ryu_rlm::store::Store;

fn doc(source: &str, text: &str) -> Document {
    Document::new(source, text)
}

fn path(parts: &[&str], handle: usize) -> CanonicalPath {
    CanonicalPath {
        parts: parts.iter().map(|p| p.as_bytes().to_vec()).collect(),
        display: "/".to_owned() + &parts.join("/"),
        handle,
    }
}

fn entry(full: CanonicalPath) -> Entry {
    let name = full
        .parts
        .last()
        .map(|p| String::from_utf8(p.clone()).unwrap());
    Entry {
        candidate: full.display.clone(),
        name,
        full: Some(full),
    }
}

fn roots() -> Roots {
    Roots(vec![path(&["home", "u"], 0)])
}

#[test]
fn a_path_outside_every_root_is_refused() {
    let err = roots()
        .resolve("../outside/secret.txt", Some(path(&["outside", "secret.txt"], 1)))
        .expect_err("a path outside the root must be refused");
    assert!(err.contains("outside every configured context root"));
    assert_eq!(
        err,
        "/outside/secret.txt is outside every configured context root (/home/u). Set RYU_RLM_ROOTS to widen the boundary deliberately."
    );
}

#[test]
fn a_symlink_is_judged_on_where_it_lands_not_where_it_sits() {
    let r = roots();
    assert!(
        r.resolve("/home/u/innocent.txt", Some(path(&["outside", "secret.txt"], 1)))
            .is_err(),
        "a symlink out of the root must be refused on its target"
    );
    assert!(r
        .resolve("/elsewhere/link", Some(path(&["home", "u", "notes.md"], 2)))
        .is_ok());
}

#[test]
fn a_path_inside_a_root_resolves() {
    let r = roots();
    assert!(r.resolve("notes.md", Some(path(&["home", "u", "notes.md"], 1))).is_ok());
    assert!(r.resolve("~", Some(path(&["home", "u"], 1))).is_ok());
    assert!(
        r.resolve("x", Some(path(&["home", "user2"], 1))).is_err(),
        "parts are compared whole"
    );
    assert_eq!(
        r.resolve("gone.txt", None).unwrap_err(),
        "cannot read gone.txt"
    );
    assert_eq!(r.display(), vec!["/home/u"]);
}

fn walked(entries: Vec<Entry>, found: fn(&CanonicalPath) -> Found) -> (Vec<Document>, Vec<String>) {
    let r = roots();
    let mut load = Load::begin(&r, entries);
    while let Some(p) = load.next_path() {
        let what = found(&p);
        load.look(&r, &p, what);
    }
    load.finish()
}

#[test]
fn directory_loads_are_ordered_so_chunk_ids_are_reproducible() {
    let (docs, skipped) = walked(vec![entry(path(&["home", "u"], 0))], |p| {
        if p.parts.len() == 2 {
            Found::Directory(
                ["c.txt", "a.txt", "b.txt"]
                    .iter()
                    .map(|n| entry(path(&["home", "u", n], 1)))
                    .collect(),
            )
        } else {
            Found::Text(format!("body of {}", p.display))
        }
    });
    let names: Vec<&str> = docs
        .iter()
        .map(|d| d.source.rsplit('/').next().unwrap())
        .collect();
    assert_eq!(names, vec!["a.txt", "b.txt", "c.txt"]);
    assert!(skipped.is_empty());
}

#[test]
fn a_whole_load_reads_only_under_its_roots() {
    let (docs, skipped) = walked(
        vec![entry(path(&["home", "u"], 0)), entry(path(&["etc"], 0))],
        |p| match p.parts.len() {
            2 => Found::Directory(vec![
                entry(path(&["home", "u", "in"], 1)),
                entry(path(&["etc", "shadow"], 2)),
                entry(path(&["home", "u", "bad"], 3)),
            ]),
            _ if p.display.ends_with("bad") => Found::Unreadable("no".into()),
            _ if p.display.ends_with("in") => {
                Found::Directory(vec![entry(path(&["home", "u", "in", "f"], 4))])
            }
            _ => Found::Text(format!("at {}", p.display)),
        },
    );
    let read: Vec<(&str, &str)> = docs
        .iter()
        .map(|d| (d.source.as_str(), d.text.as_str()))
        .collect();
    assert_eq!(read, vec![("/home/u/in/f", "at /home/u/in/f")]);
    assert_eq!(skipped.len(), 3);
    assert!(skipped[0].starts_with("/etc is outside every configured context root"));
    assert!(skipped[1].starts_with("/etc/shadow is outside"));
    assert_eq!(skipped[2], "/home/u/bad: no");
}

#[test]
fn a_recursive_walk_steps_over_hidden_directories() {
    let (docs, _) = walked(vec![entry(path(&["home", "u"], 0))], |p| {
        if p.parts.len() == 2 {
            Found::Directory(
                [".ssh", "node_modules", "notes.md"]
                    .iter()
                    .map(|n| entry(path(&["home", "u", n], 1)))
                    .collect(),
            )
        } else {
            Found::Text("real content".into())
        }
    });
    let sources: Vec<&str> = docs.iter().map(|d| d.source.as_str()).collect();
    assert_eq!(sources.len(), 1, "got {sources:?}");
    assert!(sources[0].ends_with("notes.md"));
}

#[test]
fn an_explicitly_named_hidden_file_is_still_loaded() {
    let (docs, _) = walked(
        vec![entry(path(&["home", "u", ".config", "app.toml"], 1))],
        |_| Found::Text("key = 1".into()),
    );
    assert_eq!(docs.len(), 1);
}

#[test]
fn a_walk_does_not_follow_a_link_out() {
    let (docs, skipped) = walked(vec![entry(path(&["home", "u"], 0))], |p| {
        if p.parts.len() == 2 {
            Found::Directory(vec![
                Entry {
                    candidate: "/home/u/link".into(),
                    name: Some("link".into()),
                    full: Some(path(&["etc", "shadow"], 1)),
                },
                Entry {
                    candidate: "/home/u/broken".into(),
                    name: Some("broken".into()),
                    full: None,
                },
                entry(path(&["home", "u", "bin"], 2)),
            ])
        } else {
            Found::Unreadable("stream did not contain valid UTF-8".into())
        }
    });
    assert!(docs.is_empty());
    assert_eq!(skipped.len(), 3);
    assert!(skipped[0].starts_with("/etc/shadow is outside"));
    assert_eq!(skipped[1], "cannot read /home/u/broken");
    assert_eq!(
        skipped[2],
        "/home/u/bin: stream did not contain valid UTF-8"
    );
}

#[test]
fn names_that_a_walk_steps_over() {
    assert!(skip_when_walking(Some(".git")));
    assert!(skip_when_walking(Some("node_modules")));
    assert!(!skip_when_walking(Some("node_modules2")));
    assert!(!skip_when_walking(Some("a.b")));
    assert!(!skip_when_walking(None));
}

#[test]
fn a_load_stops_at_its_ceiling() {
    let r = roots();
    let entries = (0..MAX_FILES + 2)
        .map(|i| entry(path(&["home", "u", &format!("f{i}")], i)))
        .collect();
    let mut load = Load::begin(&r, entries);
    let mut n = 0;
    while let Some(p) = load.next_path() {
        n += 1;
        load.look(&r, &p, Found::Text("x".into()));
    }
    assert_eq!(n, MAX_FILES);
    let (docs, skipped) = load.finish();
    assert_eq!(docs.len(), MAX_FILES);
    assert_eq!(skipped, vec!["stopped at the 5000-file ceiling"]);
}

#[test]
fn a_long_file_is_cut_with_a_mark() {
    let r = roots();
    let mut load = Load::begin(&r, vec![entry(path(&["home", "u", "big"], 1))]);
    let p = load.next_path().unwrap();
    assert_eq!(p.handle, 1);
    load.look(&r, &p, Found::Text("é".repeat(MAX_FILE_CHARS + 1)));
    let (docs, _) = load.finish();
    assert!(docs[0]
        .text
        .ends_with("é\n\n[truncated by ryu-rlm at the per-file ceiling]"));
    assert_eq!(docs[0].text.chars().count(), MAX_FILE_CHARS + 48);
}

#[test]
fn data_dir_is_under_the_node_directory() {
    let (base, below) = data_dir(Some("/tmp/ryu-rlm-probe".into()), true);
    assert_eq!(base, Base::Given("/tmp/ryu-rlm-probe".into()));
    assert_eq!(below, vec!["rlm"]);
    let (base, below) = data_dir(Some("".into()), true);
    assert_eq!(base, Base::Home);
    assert_eq!(below, vec![".ryu", "rlm"]);
    let (base, below) = data_dir(None, false);
    assert_eq!(base, Base::Here);
    assert_eq!(below, vec![".ryu", "rlm"]);
}

#[test]
fn roots_are_listed_or_the_home_directory() {
    assert_eq!(
        chosen_roots(" /a :: /b/c:", ':', true),
        vec![Base::Given("/a".into()), Base::Given("/b/c".into())]
    );
    assert_eq!(chosen_roots(" : ", ':', true), vec![Base::Home]);
    assert_eq!(chosen_roots("", ':', false), vec![]);
    assert_eq!(
        chosen_roots("C:\\x;D:\\y", ';', true),
        vec![Base::Given("C:\\x".into()), Base::Given("D:\\y".into())]
    );
}

#[test]
fn an_oversized_context_is_refused_rather_than_degraded() {
    let mut store = Store::new();
    let huge = "x".repeat(MAX_CONTEXT_CHARS + 1);
    let err = store.create("huge", vec![doc("big.txt", &huge)], None, None);
    assert!(err.is_err());
    assert_eq!(
        err.unwrap_err(),
        "context is 40000001 characters, over the 40000000 ceiling; split it or narrow the paths"
    );
    assert!(store.list().is_empty());
}

#[test]
fn an_empty_context_is_refused() {
    let mut store = Store::new();
    assert_eq!(
        store.create("e", vec![], None, None).unwrap_err(),
        "a context needs at least one document"
    );
    assert_eq!(
        store
            .create("e", vec![doc("a", " \n\n")], None, None)
            .unwrap_err(),
        "every document was empty after chunking"
    );
    assert_eq!(
        ContextRecord::ephemeral("e", vec![]).unwrap_err(),
        "a sub-context needs at least one document"
    );
    assert_eq!(
        ContextRecord::ephemeral("e", vec![doc("a", "\n")]).unwrap_err(),
        "the selected chunks were empty"
    );
    let sub = ContextRecord::ephemeral("e", vec![doc("a", "x"), doc("a", "y")]).unwrap();
    assert!(sub.id.starts_with("ephemeral:"));
    assert_eq!(sub.sources, vec!["a"]);
    assert_eq!(sub.total_chars, 2);
}

#[test]
fn the_outline_grows_with_chunk_count_not_corpus_size() {
    let mut store = Store::new();
    let body = "# Section\n".to_owned() + &"filler line\n".repeat(2_000);
    let ctx = store.create("doc", vec![doc("d.md", &body)], None, None).unwrap();
    let outline = ctx.outline();
    assert_eq!(outline.lines().count(), ctx.chunks.len());
    assert!(
        outline.chars().count() < ctx.total_chars / 4,
        "the outline must be far smaller than the corpus, or the root model is \
         reading the corpus after all"
    );
}

#[test]
fn a_context_is_got_back_until_it_is_let_go() {
    let mut store = Store::new();
    let a = store
        .create("a", vec![doc("a.md", "alpha")], None, None)
        .unwrap();
    let b = store
        .create("b", vec![doc("b.md", "beta")], Some(a.id.clone()), None)
        .unwrap();
    assert_eq!(store.get(&a.id).unwrap().name, "a");
    assert_eq!(
        store.get(&b.id).unwrap().parent.as_deref(),
        Some(a.id.as_str())
    );
    assert!(store.get("none").is_none());
    assert_eq!(store.list().len(), 2);
    assert!(store.delete(&a.id));
    assert!(!store.delete(&a.id));
    assert!(store.get(&a.id).is_none());
    assert!(store.get(&b.id).is_some());
    assert_eq!(store.purge(), 1);
    assert!(store.get(&b.id).is_none());
}

fn context(id: &str, at: &str) -> ContextRecord {
    ContextRecord::created_as(
        id.into(),
        at.into(),
        "n",
        vec![doc("s.md", "some words")],
        None,
        None,
    )
    .unwrap()
}

#[test]
fn contexts_are_listed_newest_first_without_their_text() {
    let mut store = Store::new();
    store.insert(context("b", "2026-01-02"));
    store.insert(context("c", "2026-01-01"));
    store.insert(context("a", "2026-01-02"));
    store.insert(context("c", "2026-01-03"));
    let rows = store.list();
    let ids: Vec<&str> = rows
        .iter()
        .map(|r| r.get("id").unwrap().as_str().unwrap())
        .collect();
    assert_eq!(ids, vec!["c", "a", "b"]);
    assert_eq!(rows[0].get("chunks").unwrap().as_u64(), Some(1));
    assert_eq!(rows[0].get("total_chars").unwrap().as_u64(), Some(10));
    assert!(rows[0].get("text").is_none());
}

fn finished(id: &str, context_id: &str, at: &str) -> RunRecord {
    let ctx = context(context_id, "t");
    let quota = RunQuota::new(0, 1, 0);
    let stamp = Stamp {
        id: id.into(),
        at: at.into(),
    };
    let spare = Stamp {
        id: "s".into(),
        at: "s".into(),
    };
    Run::new(&ctx, "q", Budget::default(), 0, stamp, &quota, 0)
        .advance(&ctx, Event::Start, spare, &quota, 3)
        .0
        .rec
}

#[test]
fn runs_are_kept_and_listed_by_context() {
    let mut store = Store::new();
    store.save_run(&finished("r1", "c1", "2026-01-01"));
    store.save_run(&finished("r2", "c2", "2026-01-03"));
    store.save_run(&finished("r3", "c1", "2026-01-02"));
    let ids = |rows: Vec<ryu_rlm::json::Json>| -> Vec<String> {
        rows.iter()
            .map(|r| r.get("id").unwrap().as_str().unwrap().to_owned())
            .collect()
    };
    assert_eq!(ids(store.list_runs(None)), vec!["r2", "r3", "r1"]);
    assert_eq!(ids(store.list_runs(Some("c1"))), vec!["r3", "r1"]);
    assert!(store.list_runs(Some("c9")).is_empty());
    let r = store.run("r1").unwrap();
    assert_eq!((r.context_id.as_str(), r.elapsed_ms), ("c1", 3));
    assert!(store.run("none").is_none());
    assert_eq!(store.purge(), 0);
    assert!(store.run("r1").is_none());
}

#[test]
fn a_record_that_cannot_be_numbered_is_not_sound() {
    let mut c = context("x", "t");
    assert!(c.is_sound());
    c.chunks[0].start_line = usize::MAX;
    assert!(c.is_sound());
    c.chunks[0].text = "two\nlines".into();
    assert!(!c.is_sound());
    c.chunks[0].start_line = 1;
    c.chunks[0].id = usize::MAX;
    assert!(!c.is_sound());
}

#[test]
fn a_context_is_told_in_one_line() {
    let c = context("x", "t");
    assert_eq!(
        c.stats_line(),
        "1 chunks across 1 source(s), 10 characters total (~2 tokens). You have NOT been shown any of it."
    );
    assert!(c.chunk(0).is_some());
    assert!(c.chunk(1).is_none());
}

#[test]
fn sorting_is_stable_in_both_directions() {
    let items = || {
        vec![
            ("b".to_owned(), 1),
            ("a".to_owned(), 2),
            ("b".to_owned(), 3),
            ("".to_owned(), 4),
        ]
    };
    let numbers = |v: Vec<(String, i32)>| -> Vec<i32> { v.into_iter().map(|p| p.1).collect() };
    assert_eq!(numbers(sort(items(), false)), vec![4, 2, 1, 3]);
    assert_eq!(numbers(sort(items(), true)), vec![1, 3, 2, 4]);
    assert!(is_less("a", "ab"));
    assert!(is_less("Z", "a"));
    assert!(is_less("z", "é"));
    assert!(!is_less("a", "a"));
}
