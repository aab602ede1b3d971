use ryu_rlm::api::{
    capability_descriptor, create_context, create_from_paths, delete_context, documents,
    error_reply, get_context, get_outline, get_run, health, list_contexts, list_runs,
    loaded_reply, made_reply, post_grep, post_peek, post_purge, refuse_query, run_reply,
    unauthorized, QueryBody,
};
use ryu_rlm::chunk::Document;
use ryu_rlm::context::ContextRecord;
use ryu_rlm::engine::{Budget, Event, Run, RunRecord};
use ryu_rlm::host::RunQuota;
use ryu_rlm::json::{parse, Json};
use ryu_rlm::mcp::{
    answer_call, frame_line, load_documents, load_text, on_frame, on_line, plan_tool,
    show_answer, show_loaded, text_result, tool_list, tool_result, Frame, ToolStep,
};
use ryu_rlm::roots::{CanonicalPath, Roots};
use ryu_rlm::stamp::Stamp;
use ryu_rlm::store::Store;

fn at<'a>(j: &'a Json, keys: &[&str]) -> &'a Json {
    let mut j = j;
    for k in keys {
        j = j.get(k).unwrap_or_else(|| panic!("no field {k}"));
    }
    j
}

fn items(j: &Json) -> &Vec<Json> {
    match j {
        Json::Array(v) => v,
        _ => panic!("not a list"),
    }
}

fn context(id: &str) -> ContextRecord {
    ContextRecord::created_as(
        id.into(),
        "2026-01-01".into(),
        "n",
        vec![
            Document::new("a.md", "# Alpha\nfirst words"),
            Document::new("b.md", "second"),
        ],
        None,
        None,
    )
    .unwrap()
}

fn holding(id: &str) -> Store {
    let mut s = Store::new();
    s.insert(context(id));
    s
}

fn a_run(id: &str) -> RunRecord {
    let ctx = context("c1");
    let quota = RunQuota::new(5, 60_000, 0);
    let stamp = |id: &str| Stamp {
        id: id.into(),
        at: "2026-02-02".into(),
    };
    let (run, _) = Run::new(&ctx, "q?", Budget::default(), 0, stamp(id), &quota, 0).advance(
        &ctx,
        Event::Start,
        stamp("s"),
        &quota,
        0,
    );
    let (run, _) = run.advance(
        &ctx,
        Event::Planned(Ok("nonsense".into())),
        stamp("s"),
        &quota,
        2,
    );
    let (run, _) = run.advance(
        &ctx,
        Event::Planned(Ok("{\"op\":\"final\",\"answer\":\"yes\",\"cites\":[1]}".into())),
        stamp("s"),
        &quota,
        7,
    );
    run.rec
}

#[test]
fn an_omitted_budget_field_inherits_the_node_default() {
    let base = Budget::default();
    let body = QueryBody {
        context_id: "c".into(),
        query: "q".into(),
        max_steps: Some(3),
        max_model_calls: None,
        max_depth: None,
        wall_secs: None,
    };
    let b = body.budget(base);
    assert_eq!(b.max_steps, 3);
    assert_eq!(b.max_model_calls, base.max_model_calls);
    assert_eq!(b.max_depth, base.max_depth);
}

#[test]
fn a_caller_supplied_budget_is_still_clamped() {
    let body = QueryBody {
        context_id: "c".into(),
        query: "q".into(),
        max_steps: Some(999),
        max_model_calls: Some(999_999),
        max_depth: Some(9),
        wall_secs: Some(999_999),
    };
    let b = body.budget(Budget::default());
    assert_eq!(b.max_steps, 40);
    assert_eq!(b.max_model_calls, 2_000);
    assert_eq!(b.max_depth, 3);
}

#[test]
fn the_capability_descriptor_says_when_model_calls_are_unavailable() {
    let roots = Roots(vec![CanonicalPath {
        parts: vec![b"home".to_vec()],
        display: "/home".into(),
        handle: 0,
    }]);
    let d = capability_descriptor(false, &roots);
    assert_eq!(at(&d, &["model_calls_available"]), &Json::Bool(false));
    assert_eq!(at(&d, &["capability"]).as_str(), Some("rlm.query"));
    assert_eq!(items(at(&d, &["context_roots"])), &vec![Json::str("/home")]);
    assert_eq!(
        at(&d, &["limits", "max_context_chars"]).as_u64(),
        Some(40_000_000)
    );
    assert_eq!(at(&d, &["limits", "max_map_fanout"]).as_u64(), Some(64));
    assert_eq!(items(at(&d, &["operators"])).len(), 7);
    assert_eq!(
        at(&capability_descriptor(true, &roots), &["model_calls_available"]),
        &Json::Bool(true)
    );
}

#[test]
fn contexts_are_told_without_their_text() {
    let store = holding("c1");
    let r = get_context(&store, "c1");
    assert_eq!(r.status, 200);
    assert_eq!(at(&r.body, &["parent"]), &Json::Null);
    let chunks = items(at(&r.body, &["chunks"]));
    assert_eq!(chunks.len(), 2);
    assert_eq!(at(&chunks[0], &["label"]).as_str(), Some("Alpha"));
    assert_eq!(at(&chunks[0], &["end_line"]).as_u64(), Some(2));
    assert!(chunks[0].get("text").is_none());
    assert_eq!(get_context(&store, "c2").status, 404);
    assert_eq!(
        at(&get_context(&store, "c2").body, &["error"]).as_str(),
        Some("no such context")
    );
    assert_eq!(items(at(&list_contexts(&store).body, &["contexts"])).len(), 1);
}

#[test]
fn looking_needs_no_model() {
    let store = holding("c1");
    let o = get_outline(&store, "c1");
    assert!(at(&o.body, &["outline"]).as_str().unwrap().starts_with("[0] a.md:1-2"));
    assert!(at(&o.body, &["stats"]).as_str().unwrap().starts_with("2 chunks"));
    let p = post_peek(&store, "c1", 1, 0, None);
    assert!(at(&p.body, &["text"]).as_str().unwrap().ends_with("\nsecond"));
    assert_eq!(at(&p.body, &["truncated"]), &Json::Bool(false));
    let g = post_grep(&store, "c1", "FIRST", None, None);
    assert!(at(&g.body, &["text"])
        .as_str()
        .unwrap()
        .starts_with("1 hit(s) in chunks [0]"));
    assert_eq!(get_outline(&store, "x").status, 404);
    assert_eq!(post_peek(&store, "x", 0, 0, None).status, 404);
    assert_eq!(post_grep(&store, "x", "a", None, None).status, 404);
}

#[test]
fn what_is_let_go_is_told() {
    let mut store = holding("c1");
    store.save_run(&a_run("r1"));
    assert_eq!(
        delete_context(&mut store, "c1").body,
        parse("{\"deleted\":true}").unwrap()
    );
    assert_eq!(
        delete_context(&mut store, "c1").body,
        parse("{\"deleted\":false}").unwrap()
    );
    assert_eq!(get_run(&store, "r1").status, 200);
    store.insert(context("c3"));
    store.insert(context("c4"));
    assert_eq!(
        post_purge(&mut store).body,
        parse("{\"deleted_contexts\":2}").unwrap()
    );
    assert_eq!(get_context(&store, "c3").status, 404);
    assert_eq!(get_run(&store, "r1").status, 200, "past runs are kept");
    assert_eq!(
        post_purge(&mut store).body,
        parse("{\"deleted_contexts\":0}").unwrap()
    );
}

#[test]
fn a_run_is_told_with_its_trace() {
    let mut store = Store::new();
    store.save_run(&a_run("r1"));
    let r = get_run(&store, "r1");
    assert_eq!(r.body, run_reply(&a_run("r1")).body);
    assert_eq!(at(&r.body, &["status"]).as_str(), Some("ok"));
    assert_eq!(at(&r.body, &["budget", "max_steps"]).as_u64(), Some(14));
    let steps = items(at(&r.body, &["trace"]));
    assert_eq!(steps.len(), 2);
    assert!(steps[0].get("error").is_some());
    assert!(steps[0].get("parent").is_none());
    assert!(steps[1].get("error").is_none());
    assert_eq!(at(&steps[1], &["args", "op"]).as_str(), Some("final"));
    let cites = items(at(&r.body, &["cites"]));
    assert_eq!(at(&cites[0], &["source"]).as_str(), Some("b.md"));
    let rows = list_runs(&store);
    let row = &items(at(&rows.body, &["runs"]))[0];
    assert_eq!(at(row, &["steps"]).as_u64(), Some(2));
    assert_eq!(at(row, &["answer"]), at(&r.body, &["answer"]));
    assert_ne!(at(row, &["answer"]).as_str(), Some(""));
    let header = &store.list_runs(None)[0];
    assert_eq!(at(header, &["steps"]).as_u64(), Some(2));
    assert!(header.get("answer").is_none());
}

#[test]
fn a_query_that_cannot_be_run_is_refused() {
    let gone = refuse_query(false, true, "q").unwrap();
    assert_eq!(gone.status, 404);
    let none = refuse_query(true, false, "q").unwrap();
    assert_eq!(none.status, 503);
    assert!(at(&none.body, &["error"])
        .as_str()
        .unwrap()
        .contains("granted hook:side-model"));
    let blank = refuse_query(true, true, " \t").unwrap();
    assert_eq!(blank.status, 400);
    assert_eq!(at(&blank.body, &["error"]).as_str(), Some("query is empty"));
    assert!(refuse_query(true, true, "q").is_none());
}

#[test]
fn a_context_is_made_from_what_a_request_carries() {
    let docs = documents(&vec![("a".into(), "x y".into()), ("b".into(), "z".into())]);
    let c = create_context(None, docs, Some("p".into()), None)
        .unwrap_or_else(|_| panic!("refused"));
    assert_eq!(c.name, "context");
    assert_eq!(c.parent.as_deref(), Some("p"));
    let r = made_reply(&c);
    assert_eq!(at(&r.body, &["chunks"]).as_u64(), Some(2));
    assert_eq!(at(&r.body, &["total_chars"]).as_u64(), Some(4));
    let e = create_context(Some("n"), vec![], None, None)
        .err()
        .expect("refused");
    assert_eq!(e.status, 400);
    let l = loaded_reply(&c, &vec!["s".into()]);
    assert_eq!(items(at(&l.body, &["skipped"])), &vec![Json::str("s")]);
}

#[test]
fn an_empty_load_says_what_was_refused() {
    let told = |skipped: Vec<String>| {
        let e = create_from_paths(None, vec![], &skipped, None)
            .err()
            .expect("refused");
        assert_eq!(e.status, 400);
        at(&e.body, &["error"]).as_str().unwrap().to_owned()
    };
    assert_eq!(
        told(vec![]),
        "nothing readable was loaded. Refused or unreadable: (none reported)"
    );
    assert_eq!(
        told(vec!["one".into(), "two".into()]),
        "nothing readable was loaded. Refused or unreadable: one; two"
    );
    let c = create_from_paths(None, vec![Document::new("f", "t")], &vec![], None)
        .unwrap_or_else(|_| panic!("refused"));
    assert_eq!(c.name, "files");
}

#[test]
fn small_replies_have_their_form() {
    assert_eq!(
        health(),
        parse("{\"ok\":true,\"service\":\"ryu-rlm\"}").unwrap()
    );
    let u = unauthorized();
    assert_eq!((u.status, u.body), (401, parse("{\"error\":\"unauthorized\"}").unwrap()));
    assert_eq!(error_reply(418, "tea").status, 418);
}

#[test]
fn tool_names_are_bare_so_core_can_prefix_them() {
    let tools = tool_list();
    for tool in items(&tools) {
        let name = tool.get("name").unwrap().as_str().unwrap();
        assert!(
            !name.starts_with("rlm"),
            "{name} is self-prefixed and would register as rlm.{name}"
        );
    }
}

#[test]
fn every_tool_declares_an_object_input_schema() {
    let tools = tool_list();
    assert_eq!(items(&tools).len(), 6);
    for tool in items(&tools) {
        assert_eq!(
            at(tool, &["inputSchema", "type"]).as_str(),
            Some("object"),
            "{:?} has no object input schema",
            tool.get("name")
        );
        assert!(
            tool.get("description")
                .unwrap()
                .as_str()
                .is_some_and(|d| d.len() > 40),
            "{:?} needs a description an agent can select on",
            tool.get("name")
        );
    }
}

#[test]
fn the_deterministic_tools_are_advertised_as_needing_no_model() {
    let tools = tool_list();
    let grep = items(&tools)
        .iter()
        .find(|t| t.get("name").unwrap().as_str() == Some("grep"))
        .unwrap();
    assert!(grep
        .get("description")
        .unwrap()
        .as_str()
        .unwrap()
        .contains("NO model call"));
}

#[test]
fn the_tools_say_what_they_take() {
    let tools = tool_list();
    let ask = &items(&tools)[0];
    assert_eq!(
        at(ask, &["inputSchema", "required"]),
        &Json::Array(vec![Json::str("paths"), Json::str("query")])
    );
    assert_eq!(
        at(ask, &["inputSchema", "properties", "paths", "items", "type"]).as_str(),
        Some("string")
    );
    assert_eq!(
        at(
            ask,
            &[
                "inputSchema",
                "properties",
                "evidence_policy",
                "properties",
                "minimum_citations",
                "minimum"
            ]
        )
        .as_u64(),
        Some(0)
    );
    let load = &items(&tools)[1];
    assert!(at(load, &["inputSchema"]).get("required").is_none());
}

fn answer(f: Frame) -> Json {
    match f {
        Frame::Answer(j) => j,
        _ => panic!("no answer"),
    }
}

#[test]
fn frames_are_answered_under_their_ids() {
    let hello = answer(on_line(
        " {\"jsonrpc\":\"2.0\",\"id\":1,\"method\":\"initialize\"} ",
        "0.1.0",
    ));
    assert_eq!(at(&hello, &["id"]).as_u64(), Some(1));
    assert_eq!(
        at(&hello, &["result", "protocolVersion"]).as_str(),
        Some("2024-11-05")
    );
    assert_eq!(
        at(&hello, &["result", "serverInfo", "version"]).as_str(),
        Some("0.1.0")
    );
    let ping = answer(on_line("{\"id\":\"x\",\"method\":\"ping\"}", "v"));
    assert_eq!(
        ping,
        parse("{\"id\":\"x\",\"jsonrpc\":\"2.0\",\"result\":{}}").map(|j| reordered(&ping, j)).unwrap()
    );
    let tools = answer(on_line("{\"id\":null,\"method\":\"tools/list\"}", "v"));
    assert_eq!(items(at(&tools, &["result", "tools"])).len(), 6);
    let odd = answer(on_line("{\"id\":7,\"method\":\"nope\"}", "v"));
    assert_eq!(
        at(&odd, &["error", "message"]).as_str(),
        Some("unknown method 'nope'")
    );
    assert_eq!(
        at(&odd, &["error", "code"]),
        &Json::Number("-32601".into())
    );
}

/// The same object with its fields in the order of the first.
fn reordered(like: &Json, j: Json) -> Json {
    match (like, &j) {
        (Json::Object(a), Json::Object(b)) => {
            assert_eq!(a.len(), b.len());
            Json::Object(
                a.iter()
                    .map(|(k, _)| (k.clone(), j.get(k).unwrap().clone()))
                    .collect(),
            )
        }
        _ => j,
    }
}

#[test]
fn what_cannot_be_answered_is_not() {
    for line in [
        "",
        "  ",
        "not json",
        "{\"method\":\"ping\"}",
        "[1]",
        "\"ping\"",
    ] {
        assert!(matches!(on_line(line, "v"), Frame::Ignored), "{line}");
    }
    assert!(matches!(on_frame(None, "v"), Frame::Ignored));
}

#[test]
fn a_call_names_its_tool_and_arguments() {
    let call = on_frame(
        parse("{\"id\":2,\"method\":\"tools/call\",\"params\":{\"name\":\"grep\",\"arguments\":{\"pattern\":\"x\"}}}"),
        "v",
    );
    match call {
        Frame::Call { id, name, args } => {
            assert_eq!(id, Json::UInt(2));
            assert_eq!(name, "grep");
            assert_eq!(at(&args, &["pattern"]).as_str(), Some("x"));
        }
        _ => panic!("not a call"),
    }
    match on_frame(parse("{\"id\":2,\"method\":\"tools/call\"}"), "v") {
        Frame::Call { name, args, .. } => {
            assert_eq!(name, "");
            assert_eq!(args, Json::Object(vec![]));
        }
        _ => panic!("not a call"),
    }
}

fn refused(store: &Store, has_host: bool, name: &str, args: &str) -> String {
    match plan_tool(store, has_host, Budget::default(), name, &parse(args).unwrap()) {
        ToolStep::Refused(e) => e,
        _ => panic!("{name} was not refused"),
    }
}

#[test]
fn a_call_that_cannot_be_carried_out_is_refused() {
    let s = holding("c1");
    assert_eq!(refused(&s, true, "nope", "{}"), "unknown tool 'nope'");
    assert_eq!(
        refused(&s, true, "load", "{\"paths\":[1]}"),
        "give either `paths` or `text`"
    );
    assert_eq!(refused(&s, true, "grep", "{}"), "context_id is required");
    assert_eq!(
        refused(&s, true, "grep", "{\"context_id\":\"zz\"}"),
        "no context with the id 'zz' — call `contexts` to list them"
    );
    assert_eq!(
        refused(&s, true, "grep", "{\"context_id\":\"c1\"}"),
        "pattern is required"
    );
    assert_eq!(
        refused(&s, true, "peek", "{\"context_id\":\"c1\",\"chunk\":\"1\"}"),
        "chunk is required"
    );
    assert_eq!(refused(&s, true, "ask", "{}"), "query is required");
    assert!(refused(&s, false, "ask", "{\"query\":\"q\",\"paths\":[\"p\"]}")
        .starts_with("no model callback is available"));
    assert_eq!(
        refused(&s, true, "ask", "{\"query\":\"q\"}"),
        "`ask` needs `paths`; use `query` for a loaded context"
    );
    assert_eq!(
        refused(&s, true, "query", "{\"query\":\"q\"}"),
        "context_id is required"
    );
    assert!(refused(
        &s,
        true,
        "query",
        "{\"query\":\"q\",\"context_id\":\"c1\",\"evidence_policy\":{\"minimum_citations\":1}}"
    )
    .starts_with("evidence_policy cannot be honoured"));
    assert!(refused(
        &s,
        true,
        "ask",
        "{\"query\":\"q\",\"paths\":[\"p\"],\"evidence_policy\":null}"
    )
    .starts_with("evidence_policy cannot be honoured"));
    assert_eq!(
        refused(&s, true, "query", "{\"query\":\"q\",\"evidence_policy\":{}}"),
        "context_id is required"
    );
}

#[test]
fn a_call_comes_to_a_result_or_to_work() {
    let s = holding("c1");
    let step = |name: &str, args: &str| {
        plan_tool(&s, true, Budget::default(), name, &parse(args).unwrap())
    };
    match step("grep", "{\"context_id\":\"c1\",\"pattern\":\"second\"}") {
        ToolStep::Done(j) => assert!(at(&j, &["text"])
            .as_str()
            .unwrap()
            .starts_with("1 hit(s) in chunks [1]")),
        _ => panic!("grep"),
    }
    match step("peek", "{\"context_id\":\"c1\",\"chunk\":1,\"start\":3,\"len\":2}") {
        ToolStep::Done(j) => assert!(at(&j, &["text"]).as_str().unwrap().ends_with("\non")),
        _ => panic!("peek"),
    }
    match step("contexts", "{}") {
        ToolStep::Done(j) => assert_eq!(items(at(&j, &["contexts"])).len(), 1),
        _ => panic!("contexts"),
    }
    match step("load", "{\"text\":\"t\",\"paths\":[\"p\"]}") {
        ToolStep::LoadText { name, text } => {
            assert_eq!((name.as_str(), text.as_str()), ("corpus", "t"))
        }
        _ => panic!("load text"),
    }
    match step("load", "{\"name\":\"n\",\"paths\":[\"p\",3,\"q\"]}") {
        ToolStep::LoadPaths { name, paths } => {
            assert_eq!(name, "n");
            assert_eq!(paths, vec!["p", "q"]);
        }
        _ => panic!("load paths"),
    }
    match step("ask", "{\"query\":\"q\",\"paths\":[\"p\"],\"max_steps\":99}") {
        ToolStep::Ask { paths, query, budget } => {
            assert_eq!(paths, vec!["p"]);
            assert_eq!(query, "q");
            assert_eq!(budget.max_steps, 40);
            assert_eq!(budget.wall_secs, 600);
        }
        _ => panic!("ask"),
    }
    match step(
        "query",
        "{\"query\":\"q\",\"context_id\":\"c1\",\"wall_secs\":20,\"evidence_policy\":{}}",
    ) {
        ToolStep::Query {
            context_id, budget, ..
        } => {
            assert_eq!(context_id, "c1");
            assert_eq!(budget.wall_secs, 20);
        }
        _ => panic!("query"),
    }
}

#[test]
fn tools_tell_what_they_did() {
    let c = context("c1");
    let loaded = show_loaded(&c);
    assert_eq!(at(&loaded, &["context_id"]).as_str(), Some("c1"));
    assert_eq!(at(&loaded, &["outline"]).as_str(), Some(c.outline().as_str()));
    let told = show_answer(&a_run("r1"), &c);
    assert_eq!(at(&told, &["run_id"]).as_str(), Some("r1"));
    assert_eq!(at(&told, &["cost", "corpus_chars"]).as_u64(), Some(25));
    assert!(told.get("trace").is_none());
    let r = tool_result(&parse("{\"b\":[1],\"a\":{}}").unwrap(), true);
    assert_eq!(at(&r, &["isError"]), &Json::Bool(true));
    assert_eq!(
        at(&items(at(&r, &["content"]))[0], &["text"]).as_str(),
        Some("{\n  \"a\": {},\n  \"b\": [\n    1\n  ]\n}")
    );
    assert_eq!(text_of(&text_result("as it is", false)), "as it is");
}

fn text_of(result: &Json) -> &str {
    at(&items(at(result, &["content"]))[0], &["text"])
        .as_str()
        .unwrap()
}

#[test]
fn a_call_is_answered_with_what_came_of_it() {
    let good = answer_call(&Json::UInt(7), Ok(Json::str("done")));
    assert_eq!(at(&good, &["id"]), &Json::UInt(7));
    assert_eq!(at(&good, &["result", "isError"]), &Json::Bool(false));
    assert_eq!(text_of(at(&good, &["result"])), "\"done\"");
    let bad = answer_call(&Json::str("x"), Err("no\nway".into()));
    assert_eq!(at(&bad, &["result", "isError"]), &Json::Bool(true));
    assert_eq!(
        text_of(at(&bad, &["result"])),
        "{\n  \"error\": \"no\\nway\"\n}"
    );
}

#[test]
fn a_frame_goes_out_as_one_line_and_reads_back() {
    let frame = answer_call(&Json::UInt(7), Err("two\nlines".into()));
    let line = frame_line(&frame);
    assert!(line.ends_with('\n'));
    assert_eq!(line.matches('\n').count(), 1);
    assert!(line.starts_with("{\"id\":7,\"jsonrpc\":\"2.0\",\"result\":{"));
    let back = parse(line.trim()).unwrap();
    assert_eq!(text_of(at(&back, &["result"])), text_of(at(&frame, &["result"])));
    let id = "9.313225746154785e-10";
    let asked = on_line(
        &format!("{{\"id\":{id},\"method\":\"tools/call\",\"params\":{{\"name\":\"grep\"}}}}"),
        "v",
    );
    match asked {
        Frame::Call { id: read, name, .. } => {
            assert_eq!(name, "grep");
            let line = frame_line(&answer_call(&read, Ok(Json::Null)));
            assert!(line.starts_with(&format!("{{\"id\":{id},")), "{line}");
        }
        _ => panic!("a call"),
    }
    let unknown = answer(on_line("{\"id\":1,\"method\":\"x\"}", "v"));
    assert_eq!(
        frame_line(&unknown),
        "{\"error\":{\"code\":-32601,\"message\":\"unknown method 'x'\"},\"id\":1,\"jsonrpc\":\"2.0\"}\n"
    );
}

#[test]
fn a_load_without_anything_readable_is_refused() {
    let skipped = vec!["/etc: outside".to_owned(), "x: gone".to_owned()];
    assert_eq!(
        load_documents("n", vec![], &skipped).err().unwrap(),
        "nothing readable was loaded. Refused or unreadable: /etc: outside; x: gone"
    );
    assert_eq!(
        load_documents("n", vec![], &vec![]).err().unwrap(),
        "nothing readable was loaded. Refused or unreadable: "
    );
    let c = load_documents("n", vec![Document::new("a.md", "words")], &skipped)
        .unwrap_or_else(|e| panic!("{e}"));
    assert_eq!((c.name.as_str(), c.chunks.len()), ("n", 1));
    let t = load_text("corpus", "some text").unwrap_or_else(|e| panic!("{e}"));
    assert_eq!(t.sources, vec!["text"]);
    assert_eq!(t.chunks[0].text, "some text");
}
