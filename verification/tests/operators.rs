use ryu_rlm::chunk::Document;
use ryu_rlm::context::ContextRecord;
use ryu_rlm::json::{parse, Json};
use ryu_rlm::observe::grep_report;
use ryu_rlm::ops::{
    grep, outline, parse_op, peek, Observation, Op, MAX_GREP_HITS, MAX_MAP_FANOUT,
    MAX_OBSERVATION_CHARS,
};
use ryu_rlm::store::Store;

fn ctx_of(docs: Vec<Document>) -> std::sync::Arc<ContextRecord> {
    let mut store = Store::new();
    store.create("t", docs, None, Some(500)).unwrap()
}

fn doc(source: &str, text: &str) -> Document {
    Document::new(source, text)
}

fn object(fields: Vec<(&str, Json)>) -> Json {
    Json::Object(
        fields
            .into_iter()
            .map(|(k, v)| (k.to_owned(), v))
            .collect(),
    )
}

#[test]
fn an_out_of_range_chunk_is_an_error_not_an_empty_result() {
    let ctx = ctx_of(vec![doc("a.md", "alpha")]);
    let op = Op::MapOver {
        prompt: "what?".into(),
        chunks: vec![0, 99],
    };
    let err = op.validate(&ctx).expect_err("must reject");
    assert!(err.contains("chunk 99 does not exist"));
    assert_eq!(
        err,
        "chunk 99 does not exist (this context has 1, numbered 0..0)"
    );
}

#[test]
fn a_context_without_chunks_has_none_to_name() {
    let empty = ContextRecord {
        id: "c".into(),
        name: "n".into(),
        parent: None,
        created_at: "t".into(),
        sources: vec![],
        total_chars: 0,
        chunks: vec![],
    };
    let peek = Op::Peek {
        chunk: 0,
        start: 0,
        len: None,
    };
    assert_eq!(
        peek.validate(&empty),
        Err("chunk 0 does not exist (this context has 0)".to_owned())
    );
    let map = Op::MapOver {
        prompt: "q".into(),
        chunks: vec![3],
    };
    assert_eq!(
        map.validate(&empty),
        Err("chunk 3 does not exist (this context has 0)".to_owned())
    );
    assert_eq!(Op::Outline { source: None }.validate(&empty), Ok(()));
}

#[test]
fn map_refuses_a_fan_out_that_is_really_a_scan() {
    let body = ("p".repeat(600) + "\n\n").repeat(100);
    let ctx = ctx_of(vec![doc("big.md", &body)]);
    let all: Vec<usize> = (0..ctx.chunks.len()).collect();
    assert!(
        all.len() > MAX_MAP_FANOUT,
        "fixture must exceed the ceiling"
    );
    let err = Op::MapOver {
        prompt: "q".into(),
        chunks: all,
    }
    .validate(&ctx)
    .expect_err("must refuse");
    assert!(err.contains("fan-out ceiling"));
}

#[test]
fn an_observation_says_so_when_it_truncates() {
    let obs = Observation::new(&"y".repeat(MAX_OBSERVATION_CHARS * 2));
    assert!(obs.truncated);
    assert!(obs.text.contains("truncated"));
}

#[test]
fn an_observation_at_the_ceiling_is_whole() {
    let text = "y".repeat(MAX_OBSERVATION_CHARS);
    let obs = Observation::new(&text);
    assert!(!obs.truncated);
    assert_eq!(obs.text, text);
    let over = Observation::new(&(text.clone() + "z"));
    assert_eq!(
        over.text,
        text + "\n\n[… truncated: 4000 of 4001 characters shown. Narrow the range, or map over the chunk instead of reading it.]"
    );
}

#[test]
fn peek_cannot_be_used_to_exceed_the_observation_cap() {
    let ctx = ctx_of(vec![doc("a.md", &"z".repeat(20_000))]);
    let obs = peek(&ctx, 0, 0, Some(1_000_000));
    assert!(obs.text.chars().count() < MAX_OBSERVATION_CHARS + 500);
}

#[test]
fn peek_shows_a_window_with_where_it_is() {
    let ctx = ctx_of(vec![doc("a.md", "alpha beta"), doc("b.md", "gamma")]);
    let obs = peek(&ctx, 0, 6, Some(3));
    assert_eq!(
        obs.text,
        "[0] a.md:1-1 (offset 6 of 10 chars; adjacent chunks: [1])\nbet"
    );
    assert_eq!(peek(&ctx, 9, 0, None).text, "chunk 9 does not exist");
    assert_eq!(
        peek(&ctx, 1, 5, None).text,
        "chunk 1 is 5 characters; offset 5 is past its end"
    );
}

#[test]
fn grep_reports_the_chunk_ids_first_so_truncation_cannot_eat_them() {
    let ctx = ctx_of(vec![doc("a.md", "nothing\nrefund policy here\nnothing")]);
    let obs = grep(&ctx, "refund", None, Some(0));
    assert!(obs.text.starts_with("1 hit(s) in chunks [0]"));
    assert!(obs.text.contains("a.md:2"), "line numbers must be true");
}

#[test]
fn grep_line_numbers_are_absolute_in_the_source_not_relative_to_the_chunk() {
    let body = "filler\n".repeat(300) + "the magic word\n";
    let ctx = ctx_of(vec![doc("d.txt", &body)]);
    let obs = grep(&ctx, "magic", None, Some(0));
    assert!(
        obs.text.contains("d.txt:301"),
        "expected absolute line 301, got: {}",
        obs.text
    );
}

#[test]
fn a_bad_regex_is_reported_not_panicked() {
    let ctx = ctx_of(vec![doc("a.md", "x")]);
    let obs = grep(&ctx, "((((", None, None);
    assert!(obs.text.starts_with("bad pattern:"));
    assert!(obs.text.contains("unclosed group"));
}

#[test]
fn a_pattern_is_a_regular_expression_and_case_does_not_count() {
    let ctx = ctx_of(vec![doc("a.md", "First line\nsecond LINE\nthird row")]);
    let obs = grep(&ctx, "^s.*line$", None, None);
    assert!(obs.text.starts_with("1 hit(s) in chunks [0]"));
    assert!(obs.text.contains("second LINE"));
    assert!(!obs.text.contains("third"));
    assert_eq!(
        grep(&ctx, "no \"such\" thing", None, None).text,
        "no match for \"no \\\"such\\\" thing\" anywhere in the corpus"
    );
}

#[test]
fn a_pattern_too_large_to_compile_is_reported() {
    let ctx = ctx_of(vec![doc("a.md", "x")]);
    let obs = grep(&ctx, "(?:\\w{1000}){1000}", None, None);
    assert!(obs.text.starts_with("bad pattern:"));
}

#[test]
fn grep_stops_at_its_ceiling_and_says_so() {
    let body = "hit\n".repeat(500);
    let ctx = ctx_of(vec![doc("h.txt", &body)]);
    let obs = grep(&ctx, "hit", Some(1_000), None);
    assert!(obs
        .text
        .starts_with(&format!("{MAX_GREP_HITS} hit(s) in chunks [")));
    let two = grep(&ctx, "hit", Some(2), None);
    assert!(two.text.starts_with("2 hit(s) in chunks [0]"));
    assert!(two.text.contains("[… stopped at the 2-hit ceiling]"));
}

#[test]
fn a_ceiling_of_none_shows_no_hit_and_says_that_it_stopped() {
    let ctx = ctx_of(vec![doc("a.md", "hit\nhit")]);
    let none = grep(&ctx, "hit", Some(0), None);
    assert_eq!(
        none.text,
        "0 hit(s) in chunks []\n[… stopped at the 0-hit ceiling]\n"
    );
    assert_eq!(
        grep(&ctx, "absent", Some(0), None).text,
        "no match for \"absent\" anywhere in the corpus"
    );
    let one = grep(&ctx, "hit", Some(1), None);
    assert!(one.text.starts_with("1 hit(s) in chunks [0]"));
    assert!(!one.text.contains("a.md:2"));
    assert!(one.text.ends_with("[… stopped at the 1-hit ceiling]\n"));
}

#[test]
fn grep_shows_lines_around_a_hit() {
    let ctx = ctx_of(vec![doc("a.md", "one\ntwo\nthree\nfour")]);
    let obs = grep(&ctx, "three", None, Some(1));
    assert!(obs.text.contains("a.md:2"));
    assert!(obs.text.contains("two"));
    assert!(obs.text.contains("four"));
    assert!(!obs.text.contains("one"));
}

#[test]
fn a_report_is_made_of_the_hits_it_is_given() {
    let ctx = ctx_of(vec![doc("a.md", "one\ntwo\nthree"), doc("b.md", "four")]);
    let obs = grep_report(&ctx, "x", true, &vec![(0, 1), (1, 0)], 60, 0);
    assert!(obs.text.starts_with("2 hit(s) in chunks [0, 1]"));
    assert!(obs.text.contains("a.md:2"));
    assert!(obs.text.contains("b.md:1"));
    let none = grep_report(&ctx, "x", false, &vec![], 60, 0);
    assert_eq!(none.text, "no match for \"x\" anywhere in the corpus");
}

#[test]
fn an_outline_can_be_narrowed_to_sources() {
    let ctx = ctx_of(vec![doc("src/a.rs", "alpha"), doc("docs/b.md", "# Beta")]);
    assert_eq!(
        outline(&ctx, None).text,
        "[0] src/a.rs:1-1 (5 chars) alpha\n[1] docs/b.md:1-1 (6 chars) Beta\n"
    );
    assert_eq!(
        outline(&ctx, Some("docs/")).text,
        "[1] docs/b.md:1-1 (6 chars) Beta\n"
    );
}

#[test]
fn a_misspelled_op_is_rejected_rather_than_coerced() {
    let err = parse_op(&object(vec![
        ("op", Json::str("peeek")),
        ("chunk", Json::UInt(0)),
    ]));
    assert!(err.is_err());
    assert_eq!(
        err.unwrap_err(),
        "not a valid operator (unknown variant `peeek`, expected one of `outline`, `peek`, `grep`, `map`, `recurse`, `note`, `final`). Reply with one JSON object using an \"op\" of outline, peek, grep, map, recurse, note or final."
    );
}

#[test]
fn every_op_round_trips_through_its_tagged_form() {
    for op in [
        Op::Outline { source: None },
        Op::Peek {
            chunk: 1,
            start: 0,
            len: None,
        },
        Op::Grep {
            pattern: "x".into(),
            max: None,
            context: None,
        },
        Op::MapOver {
            prompt: "p".into(),
            chunks: vec![0],
        },
        Op::Recurse {
            query: "q".into(),
            chunks: vec![0],
        },
        Op::Note { text: "n".into() },
        Op::Final {
            answer: "a".into(),
            cites: vec![],
        },
    ] {
        let json = op.to_json();
        assert_eq!(
            parse_op(&json).unwrap(),
            op,
            "round trip failed for {}",
            op.label()
        );
    }
}

#[test]
fn full_ops_round_trip_too() {
    for op in [
        Op::Outline {
            source: Some("s".into()),
        },
        Op::Peek {
            chunk: 7,
            start: 3,
            len: Some(9),
        },
        Op::Grep {
            pattern: "x".into(),
            max: Some(4),
            context: Some(2),
        },
        Op::Final {
            answer: "a".into(),
            cites: vec![3, 1, 3],
        },
    ] {
        assert_eq!(parse_op(&op.to_json()).unwrap(), op);
    }
}

#[test]
fn fields_that_may_be_left_out_are_filled_in() {
    assert_eq!(
        parse_op(&object(vec![
            ("op", Json::str("peek")),
            ("chunk", Json::UInt(4)),
            ("extra", Json::Bool(true)),
        ])),
        Ok(Op::Peek {
            chunk: 4,
            start: 0,
            len: None
        })
    );
    assert_eq!(
        parse_op(&object(vec![
            ("op", Json::str("final")),
            ("answer", Json::str("a")),
        ])),
        Ok(Op::Final {
            answer: "a".into(),
            cites: vec![]
        })
    );
}

fn reason(value: &Json) -> String {
    let e = parse_op(value).unwrap_err();
    let rest = e.strip_prefix("not a valid operator (").unwrap();
    rest.split_once("). Reply with").unwrap().0.to_owned()
}

#[test]
fn a_value_of_another_kind_is_worded_as_serde_json_words_it() {
    for text in [
        "1.5", "1e30", "-2.5e-9", "1e16", "123456789012345680000", "-0.0", "-7", "null", "true",
        "\"x\"", "[1]", "{}",
    ] {
        let value: serde_json::Value = serde_json::from_str(text).unwrap();
        let worded = serde_json::from_value::<usize>(value).unwrap_err().to_string();
        let op = object(vec![
            ("op", Json::str("peek")),
            ("chunk", parse(text).unwrap()),
        ]);
        assert_eq!(reason(&op), worded);
    }
    let value: serde_json::Value = serde_json::from_str("1e30").unwrap();
    let worded = serde_json::from_value::<String>(value).unwrap_err().to_string();
    let op = object(vec![("op", Json::str("note")), ("text", parse("1e30").unwrap())]);
    assert_eq!(reason(&op), worded);
}

#[test]
fn what_is_wrong_with_an_operator_is_told() {
    assert_eq!(
        reason(&Json::str("outline")),
        "invalid type: string \"outline\", expected internally tagged enum Op"
    );
    assert_eq!(reason(&object(vec![])), "missing field `op`");
    assert_eq!(
        reason(&object(vec![("op", Json::Null)])),
        "invalid type: null, expected variant identifier"
    );
    assert_eq!(
        reason(&object(vec![("op", Json::str("peek"))])),
        "missing field `chunk`"
    );
    assert_eq!(
        reason(&object(vec![
            ("op", Json::str("peek")),
            ("chunk", Json::str("x")),
        ])),
        "invalid type: string \"x\", expected usize"
    );
    assert_eq!(
        reason(&object(vec![
            ("op", Json::str("peek")),
            ("chunk", Json::Number("-1".into())),
        ])),
        "invalid value: integer `-1`, expected usize"
    );
    assert_eq!(
        reason(&object(vec![
            ("op", Json::str("peek")),
            ("chunk", Json::Number("1.5".into())),
        ])),
        "invalid type: floating point `1.5`, expected usize"
    );
    assert_eq!(
        reason(&object(vec![
            ("op", Json::str("map")),
            ("prompt", Json::str("p")),
            ("chunks", Json::Array(vec![Json::UInt(1), Json::Bool(true)])),
        ])),
        "invalid type: boolean `true`, expected usize"
    );
    assert_eq!(
        reason(&object(vec![
            ("op", Json::str("map")),
            ("prompt", Json::UInt(3)),
            ("chunks", Json::Array(vec![])),
        ])),
        "invalid type: integer `3`, expected a string"
    );
    assert_eq!(
        reason(&object(vec![
            ("op", Json::str("recurse")),
            ("query", Json::str("q")),
            ("chunks", object(vec![])),
        ])),
        "invalid type: map, expected a sequence"
    );
    assert_eq!(
        reason(&object(vec![("op", Json::str("note"))])),
        "missing field `text`"
    );
    assert_eq!(
        reason(&object(vec![
            ("op", Json::str("grep")),
            ("pattern", Json::Array(vec![])),
        ])),
        "invalid type: sequence, expected a string"
    );
}

#[test]
fn operators_that_say_nothing_are_refused() {
    let ctx = ctx_of(vec![doc("a.md", "alpha")]);
    let cases = [
        (
            Op::MapOver {
                prompt: " ".into(),
                chunks: vec![0],
            },
            "map needs a prompt to ask of each chunk",
        ),
        (
            Op::MapOver {
                prompt: "p".into(),
                chunks: vec![],
            },
            "no chunks named; pick ids from the outline",
        ),
        (
            Op::Recurse {
                query: "\n".into(),
                chunks: vec![0],
            },
            "recurse needs a query",
        ),
        (
            Op::Grep {
                pattern: "".into(),
                max: None,
                context: None,
            },
            "grep needs a pattern",
        ),
        (
            Op::Final {
                answer: "  ".into(),
                cites: vec![],
            },
            "final needs an answer",
        ),
        (
            Op::Final {
                answer: "a".into(),
                cites: vec![0, 3],
            },
            "cited chunk 3 does not exist",
        ),
        (
            Op::Peek {
                chunk: 1,
                start: 0,
                len: None,
            },
            "chunk 1 does not exist (this context has 1, numbered 0..0)",
        ),
    ];
    for (op, why) in cases {
        assert_eq!(op.validate(&ctx), Err(why.to_owned()));
    }
    assert_eq!(Op::Note { text: "".into() }.validate(&ctx), Ok(()));
    assert_eq!(Op::Outline { source: None }.validate(&ctx), Ok(()));
}
