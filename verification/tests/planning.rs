use ryu_rlm::chunk::Document;
use ryu_rlm::context::ContextRecord;
use ryu_rlm::engine::{
    last_word_of, plan, plan_of, Action, Budget, Event, Run, RunRecord, STATUS_BUDGET,
    STATUS_ERROR, STATUS_OK,
};
use ryu_rlm::fold::{fold_map, map_requests, LeafOutcome};
use ryu_rlm::host::{CompleteError, RunQuota, Tier};
use ryu_rlm::json::{parse, Json};
use ryu_rlm::ops::Op;
use ryu_rlm::prompts::{root_system, LEAF_NOTHING, LEAF_SYSTEM};
use ryu_rlm::stamp::Stamp;
use ryu_rlm::store::Store;
use ryu_rlm::working::{Working, MAX_FINDINGS, MAX_NOTES};

fn stamp() -> Stamp {
    Stamp {
        id: "id".into(),
        at: "at".into(),
    }
}

fn corpus() -> std::sync::Arc<ContextRecord> {
    let mut store = Store::new();
    store
        .create(
            "notes",
            vec![
                Document::new("a.md", "# Alpha\nthe refund window is 30 days"),
                Document::new("b.md", "beta"),
                Document::new("c.md", "gamma"),
            ],
            None,
            None,
        )
        .unwrap()
}

fn small() -> Budget {
    Budget {
        max_steps: 3,
        max_model_calls: 10,
        max_depth: 2,
        wall_secs: 60,
    }
}

fn started(ctx: &ContextRecord, budget: Budget, quota: &RunQuota) -> (Run, Action) {
    Run::new(ctx, "when?", budget, 0, stamp(), quota, 0).advance(
        ctx,
        Event::Start,
        stamp(),
        quota,
        0,
    )
}

fn replied(run: Run, ctx: &ContextRecord, text: &str, quota: &RunQuota) -> (Run, Action) {
    run.advance(ctx, Event::Planned(Ok(text.into())), stamp(), quota, 10)
}

fn prompt_of(a: &Action) -> String {
    match a {
        Action::Ask { prompt, .. } => prompt.clone(),
        _ => panic!("not a question"),
    }
}

#[test]
fn a_caller_cannot_ask_for_an_unbounded_budget() {
    let wild = Budget {
        max_steps: 100_000,
        max_model_calls: 1_000_000,
        max_depth: 99,
        wall_secs: 86_400,
    }
    .sanitize();
    assert_eq!(wild.max_steps, 40);
    assert_eq!(wild.max_model_calls, 2_000);
    assert_eq!(wild.max_depth, 3);
    assert_eq!(wall_hours(wild.wall_secs), 1);
}

fn wall_hours(secs: u64) -> u64 {
    secs / 3_600
}

#[test]
fn a_zero_budget_still_clamps_to_something_runnable() {
    let tiny = Budget {
        max_steps: 0,
        max_model_calls: 0,
        max_depth: 0,
        wall_secs: 0,
    }
    .sanitize();
    assert_eq!(tiny.max_steps, 1);
    assert_eq!(tiny.max_model_calls, 1);
    assert_eq!(tiny.max_depth, 0, "depth 0 is legal: no recursion at all");
    assert_eq!(tiny.wall_secs, 10);
}

#[test]
fn the_default_budget_is_left_as_it_is() {
    let b = Budget::default();
    assert_eq!(
        (b.max_steps, b.max_model_calls, b.max_depth, b.wall_secs),
        (14, 400, 2, 600)
    );
    assert_eq!(b.sanitize(), b);
}

#[test]
fn older_observations_collapse_so_the_prompt_cannot_grow_without_limit() {
    let mut work = Working::new();
    for i in 0..20 {
        work.recent.push((
            format!("grep{i}"),
            format!("line one of {i}\n{}", "x".repeat(3_000)),
        ));
    }
    let rendered = work.render();
    let full_size = 20 * 3_000;
    assert!(
        rendered.chars().count() < full_size / 3,
        "expected collapse, got {} chars",
        rendered.chars().count()
    );
    assert!(
        rendered.contains("grep19"),
        "the most recent step stays in full"
    );
    assert!(
        rendered.contains("grep0"),
        "older steps stay listed, one line each"
    );
}

#[test]
fn notes_are_never_collapsed_because_they_are_the_planners_only_memory() {
    let mut work = Working::new();
    work.notes.push("the refund window is 30 days".into());
    for i in 0..20 {
        work.recent.push((format!("op{i}"), "x".repeat(3_000)));
    }
    assert!(work.render().contains("the refund window is 30 days"));
}

#[test]
fn the_state_is_rendered_block_by_block() {
    let mut work = Working::new();
    assert_eq!(work.render(), "");
    assert!(work.note("n1"));
    work.find(&vec!["[0] a:1-2 — f".into()]);
    for i in 0..5 {
        work.push_recent(&format!("op{i}"), &format!("first {i}\nsecond"));
    }
    assert_eq!(
        work.render(),
        "## Your notes\n- n1\n\n## Findings so far (from chunks you have read)\n[0] a:1-2 — f\n\n## Recent steps\n1. op0 → first 0\n2. op1 →\nfirst 1\nsecond\n\n3. op2 →\nfirst 2\nsecond\n\n4. op3 →\nfirst 3\nsecond\n\n5. op4 →\nfirst 4\nsecond\n\n"
    );
}

#[test]
fn notes_and_findings_have_ceilings() {
    let mut work = Working::new();
    for i in 0..MAX_NOTES {
        assert!(work.note(&format!("{i}")));
    }
    assert!(!work.note("one more"));
    assert_eq!(work.notes.len(), MAX_NOTES);
    let lines: Vec<String> = (0..100).map(|i| format!("{i}")).collect();
    work.find(&lines);
    assert_eq!(work.findings.len(), MAX_FINDINGS);
    assert_eq!(work.findings[59], "59");
}

#[test]
fn the_planner_is_told_not_to_answer_from_its_own_knowledge() {
    let sys = root_system(0, &Budget::default());
    assert!(sys.contains("Answer ONLY from what the operators returned"));
    assert!(sys.contains("Never fill a gap from your own knowledge"));
    assert!(sys.ends_with("You are at recursion depth 0 of 2. You have 14 planning steps."));
    assert!(sys.contains("\n{\"op\":\"peek\",\"chunk\":<id>,\"start\":0,\"len\":2000}\n"));
}

#[test]
fn the_leaf_prompt_gives_an_explicit_way_to_say_nothing() {
    assert!(LEAF_SYSTEM.contains(LEAF_NOTHING));
}

#[test]
fn a_run_asks_looks_and_answers() {
    let ctx = corpus();
    let quota = RunQuota::new(10, 60_000, 0);
    let (run, first) = started(&ctx, small(), &quota);
    let prompt = prompt_of(&first);
    assert!(prompt.starts_with("# Question\nwhen?\n\n# Corpus\n3 chunks across 3 source(s), "));
    assert!(prompt.contains("## Outline\n[0] a.md:1-2 (36 chars) Alpha\n"));
    assert!(prompt.ends_with("\n# Your next operator\n"));
    assert!(!prompt.contains("refund"), "the corpus is not shown");

    let (run, second) = replied(run, &ctx, "{\"op\":\"grep\",\"pattern\":\"refund\"}", &quota);
    assert!(prompt_of(&second).contains("1. grep →\n1 hit(s) in chunks [0]\n"));
    let (run, last) = replied(
        run,
        &ctx,
        "Done: {\"op\":\"final\",\"answer\":\"30 days\",\"cites\":[0]}",
        &quota,
    );
    assert!(matches!(last, Action::Done));
    assert_eq!(run.rec.status, STATUS_OK);
    assert_eq!(run.rec.answer, "30 days");
    assert_eq!(run.rec.cites.len(), 1);
    assert_eq!(run.rec.cites[0].source, "a.md");
    assert_eq!((run.rec.cites[0].start_line, run.rec.cites[0].end_line), (1, 2));
    let ops: Vec<&str> = run.rec.trace.iter().map(|s| s.op.as_str()).collect();
    assert_eq!(ops, vec!["grep", "final"]);
    assert_eq!(run.rec.trace[1].index, 1);
    assert_eq!(run.rec.trace[1].elapsed_ms, 0);
    assert_eq!(
        run.rec.trace[0].args,
        Op::Grep {
            pattern: "refund".into(),
            max: None,
            context: None
        }
        .to_json()
    );
    assert_eq!(run.rec.elapsed_ms, 10);
}

#[test]
fn a_reply_without_an_operator_is_told_and_may_be_mended() {
    let ctx = corpus();
    let quota = RunQuota::new(10, 60_000, 0);
    let (run, _) = started(&ctx, small(), &quota);
    let long = "no idea ".repeat(100);
    let (run, next) = replied(run, &ctx, &long, &quota);
    assert!(prompt_of(&next).contains(
        "1. invalid →\nno JSON operator in the reply. Reply with one JSON object.\n"
    ));
    assert_eq!(run.rec.trace[0].op, "invalid");
    let kept = run.rec.trace[0].args.get("reply").unwrap().as_str().unwrap();
    assert_eq!(kept.chars().count(), 401);
    assert!(run.rec.trace[0].error.is_some());
    let (run, next) = replied(run, &ctx, "{\"op\":\"peek\",\"chunk\":7}", &quota);
    assert!(prompt_of(&next).contains("chunk 7 does not exist (this context has 3"));
    assert_eq!(run.rec.trace.len(), 2);
    assert_eq!(run.rec.status, STATUS_BUDGET);
}

#[test]
fn out_of_steps_leaves_one_last_word_and_the_label() {
    let ctx = corpus();
    let quota = RunQuota::new(10, 60_000, 0);
    let mut budget = small();
    budget.max_steps = 1;
    let (run, _) = started(&ctx, budget, &quota);
    let (run, forced) = replied(run, &ctx, "{\"op\":\"note\",\"text\":\"look\"}", &quota);
    let prompt = prompt_of(&forced);
    assert!(prompt.contains("## Your notes\n- look\n"));
    assert!(prompt.ends_with("\n# Out of steps\nAnswer now from your notes and findings alone. State plainly what you could not establish. Reply with the `final` operator.\n"));
    let (run, last) = replied(
        run,
        &ctx,
        "{\"op\":\"final\",\"answer\":\"unsure\",\"cites\":[1,9]}",
        &quota,
    );
    assert!(matches!(last, Action::Done));
    assert_eq!(run.rec.status, STATUS_BUDGET);
    assert_eq!(run.rec.answer, "unsure");
    assert_eq!(run.rec.cites.len(), 1);
    assert_eq!(run.rec.trace.last().unwrap().op, "final(forced)");
    assert_eq!(
        run.rec.trace.last().unwrap().args.get("reason").unwrap().as_str(),
        Some("step budget exhausted")
    );
}

#[test]
fn a_last_word_that_is_no_answer_leaves_the_default_one() {
    let ctx = corpus();
    let quota = RunQuota::new(10, 60_000, 0);
    let mut budget = small();
    budget.max_steps = 0;
    let (run, forced) = started(&ctx, budget, &quota);
    assert!(prompt_of(&forced).contains("# Out of steps"));
    let (run, last) = replied(run, &ctx, "{\"op\":\"outline\"}", &quota);
    assert!(matches!(last, Action::Done));
    assert_eq!(
        run.rec.answer,
        "No answer: the run ended before anything was read from the corpus."
    );
    assert!(run.rec.trace.is_empty());
}

#[test]
fn a_host_that_fails_is_an_error_and_a_budget_is_not() {
    let ctx = corpus();
    let quota = RunQuota::new(10, 60_000, 0);
    let (run, _) = started(&ctx, small(), &quota);
    let (run, last) = run.advance(
        &ctx,
        Event::Planned(Err(CompleteError::Host("not granted (HTTP 403)".into()))),
        stamp(),
        &quota,
        5,
    );
    assert!(matches!(last, Action::Done));
    assert_eq!(run.rec.status, STATUS_ERROR);
    assert_eq!(
        run.rec.answer,
        "The planner could not reach a model: not granted (HTTP 403)"
    );
    assert_eq!(run.rec.trace[0].op, "plan");
    assert_eq!(run.rec.trace[0].args, Json::Null);

    let mut spent = RunQuota::new(1, 60_000, 0);
    let (run, _) = started(&ctx, small(), &spent);
    assert!(spent.reserve_call(1).is_ok());
    let (run, last) = run.advance(
        &ctx,
        Event::Planned(Err(CompleteError::CallBudget)),
        stamp(),
        &spent,
        5,
    );
    assert!(matches!(last, Action::Done));
    assert_eq!(run.rec.status, STATUS_BUDGET);
    assert_eq!(run.rec.model_calls, 1);
    assert_eq!(
        run.rec.trace[0].error.as_deref(),
        Some("root model-call budget exhausted")
    );
}

#[test]
fn nothing_is_asked_when_the_quota_is_spent_or_the_time_is_up() {
    let ctx = corpus();
    let none = RunQuota::new(0, 60_000, 0);
    let (run, a) = started(&ctx, small(), &none);
    assert!(matches!(a, Action::Done));
    assert_eq!(run.rec.status, STATUS_BUDGET);
    let late = RunQuota::new(5, 0, 0);
    let (_, a) = started(&ctx, small(), &late);
    assert!(matches!(a, Action::Done));
}

#[test]
fn a_map_asks_a_reader_per_chunk_and_folds() {
    let ctx = corpus();
    let mut quota = RunQuota::new(10, 60_000, 0);
    let (run, _) = started(&ctx, small(), &quota);
    let (run, leaves) = replied(
        run,
        &ctx,
        "{\"op\":\"map\",\"prompt\":\"how long?\",\"chunks\":[0,1,2]}",
        &quota,
    );
    match &leaves {
        Action::AskLeaves { system, prompts } => {
            assert_eq!(system, LEAF_SYSTEM);
            assert_eq!(prompts.len(), 3);
            assert_eq!(prompts[1], "# Question\nhow long?\n\n# Excerpt\nbeta");
        }
        _ => panic!("expected readers"),
    }
    for _ in 0..3 {
        assert!(quota.reserve_call(20).is_ok());
    }
    let outcomes = vec![
        LeafOutcome::Answered(" 30 days \n".into()),
        LeafOutcome::Answered("nothing".into()),
        LeafOutcome::Failed,
    ];
    assert!(run.awaits(&Event::Leaves(vec![])));
    assert!(!run.awaits(&Event::Start));
    let (run, next) = run.advance(&ctx, Event::Leaves(outcomes), stamp(), &quota, 30);
    assert!(prompt_of(&next).contains("[0] a.md:1-2 — 30 days\n"));
    assert_eq!(run.work.findings, vec!["[0] a.md:1-2 — 30 days"]);
    let step = &run.rec.trace[0];
    assert_eq!(step.op, "map");
    assert_eq!(
        step.observation,
        "read 3 chunk(s), 1 relevant, 1 failed:\n[0] a.md:1-2 — 30 days"
    );
    assert_eq!(step.model_calls, 3);
    assert_eq!(step.elapsed_ms, 30);
}

#[test]
fn a_fold_of_nothing_says_so() {
    let ctx = corpus();
    let (lines, o) = fold_map(
        &ctx,
        &vec![0, 1],
        &vec![LeafOutcome::Answered("NOTHING".into()), LeafOutcome::Lost],
    );
    assert!(lines.is_empty());
    assert_eq!(
        o.text,
        "read 1 chunk(s); none of them bore on that question (1 failed)"
    );
    let (_, o) = fold_map(&ctx, &vec![0], &vec![LeafOutcome::Answered("  ".into())]);
    assert_eq!(
        o.text,
        "read 1 chunk(s); none of them bore on that question"
    );
    let (_, o) = fold_map(&ctx, &vec![0, 1], &vec![]);
    assert_eq!(
        o.text,
        "read 0 chunk(s); none of them bore on that question (2 failed)"
    );
    assert_eq!(map_requests(&ctx, "q", &vec![7]), Vec::<String>::new());
}

fn nested_record(status: &str) -> RunRecord {
    let ctx = corpus();
    let quota = RunQuota::new(10, 60_000, 0);
    let (run, _) = Run::new(&ctx, "sub?", small(), 1, stamp(), &quota, 0).advance(
        &ctx,
        Event::Start,
        stamp(),
        &quota,
        0,
    );
    let (run, _) = replied(run, &ctx, "{\"op\":\"outline\"}", &quota);
    let (run, _) = replied(
        run,
        &ctx,
        "{\"op\":\"final\",\"answer\":\"inner\"}",
        &quota,
    );
    assert_eq!(run.rec.status, status);
    run.rec
}

#[test]
fn a_nested_run_becomes_part_of_the_tree() {
    let ctx = corpus();
    let quota = RunQuota::new(10, 60_000, 0);
    let (run, _) = started(&ctx, small(), &quota);
    let (run, _) = replied(run, &ctx, "{\"op\":\"note\",\"text\":\"n\"}", &quota);
    let (run, a) = replied(
        run,
        &ctx,
        "{\"op\":\"recurse\",\"query\":\"sub?\",\"chunks\":[0,2]}",
        &quota,
    );
    match &a {
        Action::Recurse {
            query,
            sub,
            budget,
            depth,
        } => {
            assert_eq!(query, "sub?");
            assert_eq!(sub.id, "ephemeral:id");
            assert_eq!(sub.name, "notes ▸ recursion");
            assert_eq!(sub.created_at, "at");
            assert_eq!(sub.sources, vec!["a.md", "c.md"]);
            assert_eq!(sub.chunks.len(), 2);
            assert_eq!(sub.chunks[1].source, "c.md");
            assert_eq!(budget.max_steps, 3);
            assert_eq!(*depth, 1);
        }
        _ => panic!("expected a nested run"),
    }
    let (run, next) = run.advance(
        &ctx,
        Event::Nested(nested_record(STATUS_OK)),
        stamp(),
        &quota,
        40,
    );
    assert!(prompt_of(&next).contains("2. recurse →\nrecursion over 2 chunk(s) (ok): inner\n"));
    let shape: Vec<(usize, usize, Option<usize>, &str)> = run
        .rec
        .trace
        .iter()
        .map(|s| (s.index, s.depth, s.parent, s.op.as_str()))
        .collect();
    assert_eq!(
        shape,
        vec![
            (0, 0, None, "note"),
            (1, 1, Some(3), "outline"),
            (2, 1, Some(3), "final"),
            (3, 0, None, "recurse"),
        ]
    );
}

#[test]
fn a_plan_asks_the_root_tier_and_a_map_the_leaf_tier() {
    let ctx = corpus();
    let quota = RunQuota::new(10, 60_000, 0);
    let (run, first) = started(&ctx, small(), &quota);
    assert_eq!(first.tier(), Some(Tier::Root));
    let (run, map) = replied(
        run,
        &ctx,
        "{\"op\":\"map\",\"prompt\":\"p\",\"chunks\":[0,1]}",
        &quota,
    );
    assert!(matches!(map, Action::AskLeaves { .. }));
    assert_eq!(map.tier(), Some(Tier::Leaf));
    let (run, next) = run.advance(
        &ctx,
        Event::Leaves(vec![LeafOutcome::Failed, LeafOutcome::Failed]),
        stamp(),
        &quota,
        20,
    );
    assert_eq!(next.tier(), Some(Tier::Root));
    let (run, nested) = replied(
        run,
        &ctx,
        "{\"op\":\"recurse\",\"query\":\"sub?\",\"chunks\":[0]}",
        &quota,
    );
    assert_eq!(nested.tier(), None);
    let (run, next) = run.advance(
        &ctx,
        Event::Nested(nested_record(STATUS_OK)),
        stamp(),
        &quota,
        40,
    );
    assert_eq!(next.tier(), Some(Tier::Root));
    let (_, done) = replied(run, &ctx, "{\"op\":\"final\",\"answer\":\"a\"}", &quota);
    assert!(matches!(done, Action::Done));
    assert_eq!(done.tier(), None);
}

#[test]
fn recursion_is_refused_past_its_depth() {
    let ctx = corpus();
    let quota = RunQuota::new(10, 60_000, 0);
    let mut flat = small();
    flat.max_depth = 0;
    let (run, _) = started(&ctx, flat, &quota);
    let (run, next) = replied(
        run,
        &ctx,
        "{\"op\":\"recurse\",\"query\":\"sub?\",\"chunks\":[0]}",
        &quota,
    );
    assert!(prompt_of(&next).contains("recursion refused: already at depth 0 of 0. Use map instead."));
    assert_eq!(run.rec.trace[0].op, "recurse");
}

#[test]
fn at_depth_two_a_run_may_recurse_and_its_nested_run_may_not() {
    let ctx = corpus();
    let quota = RunQuota::new(10, 60_000, 0);
    let wish = "{\"op\":\"recurse\",\"query\":\"sub?\",\"chunks\":[0]}";
    for (depth, max_depth, refused) in [
        (0, 1, true),
        (0, 2, false),
        (1, 2, true),
        (1, 3, false),
        (2, 3, true),
    ] {
        let mut budget = small();
        budget.max_depth = max_depth;
        let (run, _) = Run::new(&ctx, "when?", budget, depth, stamp(), &quota, 0).advance(
            &ctx,
            Event::Start,
            stamp(),
            &quota,
            0,
        );
        let (run, a) = replied(run, &ctx, wish, &quota);
        if refused {
            assert!(run.rec.trace[0].observation.starts_with("recursion refused"));
            assert!(prompt_of(&a).contains(&format!(
                "recursion refused: already at depth {depth} of {max_depth}. Use map instead."
            )));
        } else {
            assert!(matches!(a, Action::Recurse { depth: d, .. } if d == depth + 1));
        }
    }
}

#[test]
fn a_nested_run_gets_no_more_steps_than_its_share() {
    let ctx = corpus();
    let quota = RunQuota::new(10, 60_000, 0);
    let (run, _) = started(&ctx, Budget::default(), &quota);
    let (_, a) = replied(
        run,
        &ctx,
        "{\"op\":\"recurse\",\"query\":\"sub?\",\"chunks\":[0]}",
        &quota,
    );
    match a {
        Action::Recurse { budget, .. } => assert_eq!(budget.max_steps, 8),
        _ => panic!("expected a nested run"),
    }
}

#[test]
fn what_was_found_stands_in_for_an_answer() {
    let ctx = corpus();
    let quota = RunQuota::new(10, 60_000, 0);
    let mut budget = small();
    budget.max_steps = 1;
    let (run, _) = started(&ctx, budget, &quota);
    let (run, _) = replied(
        run,
        &ctx,
        "{\"op\":\"map\",\"prompt\":\"p\",\"chunks\":[0,1]}",
        &quota,
    );
    let (run, _) = run.advance(
        &ctx,
        Event::Leaves(vec![
            LeafOutcome::Answered("one".into()),
            LeafOutcome::Answered("two".into()),
        ]),
        stamp(),
        &quota,
        30,
    );
    let (run, last) = run.advance(
        &ctx,
        Event::Planned(Err(CompleteError::Deadline)),
        stamp(),
        &quota,
        40,
    );
    assert!(matches!(last, Action::Done));
    assert_eq!(
        run.rec.answer,
        "No answer was reached within the budget. What had been found:\n[0] a.md:1-2 — one\n[1] b.md:1-1 — two"
    );
}

#[test]
fn a_plan_is_read_from_what_was_found() {
    let ctx = corpus();
    assert_eq!(
        plan("{\"op\":\"outline\"}", &ctx),
        Ok(Op::Outline { source: None })
    );
    assert_eq!(
        plan_of(None, &ctx),
        Err("no JSON operator in the reply. Reply with one JSON object.".into())
    );
    assert_eq!(
        plan_of(parse("{\"op\":\"grep\",\"pattern\":\"\"}"), &ctx),
        Err("grep needs a pattern".into())
    );
    assert_eq!(
        last_word_of(parse("{\"op\":\"final\",\"answer\":\"a\",\"cites\":[4]}")),
        Some(("a".into(), vec![4]))
    );
    assert_eq!(last_word_of(parse("{\"op\":\"outline\"}")), None);
    assert_eq!(last_word_of(None), None);
}

#[test]
fn fresh_stamps_differ_and_have_their_form() {
    let a = Stamp::fresh();
    let b = Stamp::fresh();
    assert_ne!(a.id, b.id);
    assert_eq!(a.id.len(), 36);
    assert_eq!(a.id.as_bytes()[14], b'4');
    assert!(a.at.ends_with("+00:00"));
    assert!(a.at.starts_with("20"));
}
