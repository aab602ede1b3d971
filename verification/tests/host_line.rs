use ryu_rlm::host::{
    balanced_end, completion_request, extract_json, listen_port, parse_port, read_reply,
    render_result, CompleteError, HostConfig, RunQuota, Tier,
};
use ryu_rlm::json::{from_value, parse, to_pretty_text, to_text, to_value, Json, RAW_MARK};

fn object(fields: Vec<(&str, Json)>) -> Json {
    Json::Object(
        fields
            .into_iter()
            .map(|(k, v)| (k.to_owned(), v))
            .collect(),
    )
}

#[test]
fn the_two_tiers_resolve_to_different_preference_keys() {
    assert_ne!(Tier::Root.pref_key(), Tier::Leaf.pref_key());
    assert_eq!(Tier::Root.pref_key(), "rlm-root-model");
    assert_eq!(Tier::Leaf.pref_key(), "rlm-leaf-model");
}

#[test]
fn a_bare_string_result_and_a_wrapped_one_render_the_same() {
    assert_eq!(render_result(&Json::str("hi")), "hi");
    assert_eq!(render_result(&object(vec![("text", Json::str("hi"))])), "hi");
    assert_eq!(
        render_result(&object(vec![("content", Json::str("hi"))])),
        "hi"
    );
    assert_eq!(
        render_result(&Json::Array(vec![
            object(vec![("text", Json::str("a"))]),
            object(vec![("text", Json::str("b"))]),
        ])),
        "ab"
    );
}

#[test]
fn a_result_without_text_renders_as_nothing() {
    assert_eq!(render_result(&Json::UInt(3)), "");
    assert_eq!(render_result(&object(vec![("other", Json::str("x"))])), "");
    assert_eq!(
        render_result(&object(vec![(
            "output",
            object(vec![("content", Json::Array(vec![Json::str("deep")]))])
        )])),
        "deep"
    );
    assert_eq!(
        render_result(&object(vec![
            ("content", Json::str("second")),
            ("text", Json::str("first")),
        ])),
        "first"
    );
}

#[test]
fn json_is_recovered_from_a_fenced_or_chatty_completion() {
    let v = extract_json("Sure! ```json\n{\"op\":\"peek\",\"chunk\":3}\n``` hope that helps")
        .expect("payload");
    assert_eq!(v.get("op").unwrap().as_str(), Some("peek"));
    assert_eq!(v.get("chunk").unwrap().as_u64(), Some(3));
}

#[test]
fn a_brace_inside_a_quoted_excerpt_does_not_unbalance_the_scan() {
    let v = extract_json(r#"{"op":"note","text":"the config was { broken }"}"#).expect("payload");
    assert_eq!(
        v.get("text").unwrap().as_str(),
        Some("the config was { broken }")
    );
}

#[test]
fn no_json_at_all_is_none_rather_than_a_panic() {
    assert!(extract_json("I could not answer that.").is_none());
}

#[test]
fn a_span_that_is_no_json_is_passed_over() {
    let v = extract_json("use {braces} and [brackets], as in [1, {\"a\": 2}] — fine").unwrap();
    assert_eq!(
        v,
        Json::Array(vec![
            Json::UInt(1),
            object(vec![("a", Json::UInt(2))])
        ])
    );
    assert!(extract_json("an open { brace").is_none());
    let escaped = extract_json("{\"t\":\"say \\\"}\\\" loud\"}").unwrap();
    assert_eq!(escaped.get("t").unwrap().as_str(), Some("say \"}\" loud"));
}

#[test]
fn a_bracket_closes_where_its_depth_is_back_to_nothing() {
    let chars: Vec<char> = "{a{b}c}d".chars().collect();
    assert_eq!(balanced_end(&chars, 0), Some(6));
    assert_eq!(balanced_end(&chars, 2), Some(4));
    assert_eq!(balanced_end(&chars, 1), None);
    let quoted: Vec<char> = "[\"]\\\"]\", 1]".chars().collect();
    assert_eq!(balanced_end(&quoted, 0), Some(quoted.len() - 1));
}

#[test]
fn json_text_is_read_as_values() {
    assert_eq!(
        parse(" {\"b\": [true, null, -3, 2.5, \"x\\n\"], \"a\": 18446744073709551615} "),
        Some(object(vec![
            ("a", Json::UInt(u64::MAX)),
            (
                "b",
                Json::Array(vec![
                    Json::Bool(true),
                    Json::Null,
                    Json::Number("-3".into()),
                    Json::Number("2.5".into()),
                    Json::str("x\n"),
                ])
            ),
        ]))
    );
    assert_eq!(parse("{\"a\":}"), None);
    assert_eq!(parse("{} {}"), None);
    let deep = "[".repeat(100) + &"]".repeat(100);
    assert!(parse(&deep).is_some());
    let deepest = "[".repeat(127) + &"]".repeat(127);
    assert!(parse(&deepest).is_some());
    let just_over = "[".repeat(128) + &"]".repeat(128);
    assert!(parse(&just_over).is_none());
    let too_deep = "[".repeat(200) + &"]".repeat(200);
    assert!(parse(&too_deep).is_none());
}

#[test]
fn a_fraction_is_read_the_same_at_any_depth() {
    for text in ["2.5", "0.1", "0.000011234567890123457", "123456789.12345679", "-0.3", "5.0507837461e-27"] {
        let bare = parse(text).unwrap();
        let nested = parse(&format!("{{\"id\":[[{text}]]}}")).unwrap();
        assert_eq!(to_text(&bare), text, "and written the same");
        assert_eq!(
            nested,
            object(vec![("id", Json::Array(vec![Json::Array(vec![bare])]))])
        );
        assert_eq!(to_text(&nested), format!("{{\"id\":[[{text}]]}}"));
    }
}

#[test]
fn what_was_written_is_recovered_from_prose() {
    let v = object(vec![
        ("a", Json::Array(vec![Json::UInt(1), Json::Null, Json::Array(vec![])])),
        ("b", Json::str("a \"}\" and a \\ and\na ] line \u{1} é 🦀")),
        ("c", object(vec![("{", Json::Bool(true)), ("}", Json::Number("-12".into())), ("~", Json::Number("0.1".into()))])),
    ]);
    let s = to_text(&v);
    assert!(!s.contains('\n'));
    assert_eq!(parse(&s), Some(v.copy()));
    for (before, after) in [("", ""), ("Sure: ", " hope } that [ helps"), ("]} ", "{\"op\":1}")] {
        assert_eq!(
            extract_json(&format!("{before}{s}{after}")),
            Some(v.copy()),
            "between {before:?} and {after:?}"
        );
    }
}

#[test]
fn an_object_that_starts_with_the_mark_of_a_raw_value_is_read_as_that_value() {
    let marked = object(vec![(RAW_MARK, Json::str("[1]"))]);
    assert_eq!(parse(&to_text(&marked)), Some(Json::Array(vec![Json::UInt(1)])));
    let later = object(vec![("#", Json::Null), (RAW_MARK, Json::str("[1]"))]);
    assert_eq!(parse(&to_text(&later)), Some(later.copy()));
    let number = object(vec![("$serde_json::private::Number", Json::str("1"))]);
    assert_eq!(parse(&to_text(&number)), Some(number.copy()));
}

#[test]
fn a_value_is_written_with_its_fields_in_order_and_each_name_once() {
    let v = object(vec![
        ("b", Json::UInt(1)),
        ("a", Json::Number("not a number".into())),
        ("b", Json::UInt(2)),
        ("B", Json::Number("2.50".into())),
    ]);
    assert_eq!(to_text(&v), "{\"B\":2.5,\"a\":\"not a number\",\"b\":1}");
    assert_eq!(
        to_pretty_text(&Json::Array(vec![Json::UInt(1), Json::str("x")])),
        "[\n  1,\n  \"x\"\n]"
    );
    let back = from_value(&to_value(&v));
    assert_eq!(
        back,
        object(vec![
            ("B", Json::Number("2.5".into())),
            ("a", Json::str("not a number")),
            ("b", Json::UInt(1)),
        ])
    );
}

#[test]
fn a_quota_grants_what_it_holds_and_no_more() {
    let mut q = RunQuota::new(2, 1_000, 5_000);
    assert_eq!(q.calls_remaining(), 2);
    assert!(q.reserve_call(5_000).is_ok());
    assert!(q.reserve_call(5_999).is_ok());
    assert_eq!(q.reserve_call(5_999), Err(CompleteError::CallBudget));
    assert_eq!(q.calls(), 2);
    assert_eq!(q.calls_remaining(), 0);
}

#[test]
fn a_quota_is_closed_when_its_time_is_up() {
    let mut q = RunQuota::new(2, 1_000, 5_000);
    assert!(!q.deadline_elapsed(5_999));
    assert_eq!(q.remaining_time(5_400), Some(600));
    assert!(q.deadline_elapsed(6_000));
    assert_eq!(q.reserve_call(6_000), Err(CompleteError::Deadline));
    assert_eq!(q.calls(), 0);
    assert_eq!(q.enter(6_001), Err(CompleteError::Deadline));
    assert_eq!(q.enter(5_500), Ok(500));
    assert_eq!(q.calls(), 1);
}

#[test]
fn a_prompt_is_counted_in_characters_when_it_is_sent() {
    let mut q = RunQuota::new(2, 1_000, 0);
    assert_eq!(q.dispatch(10, "héé", "wörld"), Ok(990));
    assert_eq!(q.prompt_chars(), 8);
    assert_eq!(q.dispatch(1_000, "a", ""), Err(CompleteError::Deadline));
    assert_eq!(q.prompt_chars(), 9);
}

#[test]
fn errors_are_told_in_words() {
    assert_eq!(
        CompleteError::CallBudget.message(),
        "root model-call budget exhausted"
    );
    assert_eq!(
        CompleteError::Deadline.message(),
        "root wall-clock deadline exhausted"
    );
    assert_eq!(CompleteError::Host("gone".into()).message(), "gone");
}

#[test]
fn a_request_names_the_preference_of_its_tier() {
    assert_eq!(
        completion_request(Tier::Leaf, "s", "p"),
        object(vec![
            ("system", Json::str("s")),
            ("prompt", Json::str("p")),
            ("model_pref_key", Json::str("rlm-leaf-model")),
        ])
    );
}

#[test]
fn a_reply_is_a_text_or_an_error() {
    let good = object(vec![("result", object(vec![("text", Json::str(" yes "))]))]);
    assert_eq!(read_reply(200, "200 OK", Some(&good)), Ok(" yes ".into()));
    assert_eq!(
        read_reply(200, "200 OK", None),
        Err(CompleteError::Host(
            "host model callback returned a non-JSON body".into()
        ))
    );
    let blank = object(vec![("result", Json::str(" \n"))]);
    assert_eq!(
        read_reply(204, "204 No Content", Some(&blank)),
        Err(CompleteError::Host(
            "the model returned an empty completion".into()
        ))
    );
    let denied = object(vec![("error", Json::str("not granted"))]);
    assert_eq!(
        read_reply(403, "403 Forbidden", Some(&denied)),
        Err(CompleteError::Host("not granted (HTTP 403 Forbidden)".into()))
    );
    assert_eq!(
        read_reply(500, "500 Internal Server Error", Some(&Json::Null)),
        Err(CompleteError::Host(
            "host model callback failed (HTTP 500 Internal Server Error)".into()
        ))
    );
}

#[test]
fn the_line_to_the_host_needs_all_of_its_settings() {
    let c = HostConfig::from_vars(Some("t".into()), Some("p".into()), Some("8080".into()))
        .expect("all are there");
    assert_eq!(c.base, "http://127.0.0.1:8080");
    assert_eq!(c.plugin_id, "p");
    assert_eq!(c.token, "t");
    assert_eq!(
        c.complete_url(),
        "http://127.0.0.1:8080/api/host/model/complete"
    );
    assert!(HostConfig::from_vars(Some("".into()), Some("p".into()), Some("1".into())).is_none());
    assert!(HostConfig::from_vars(Some("t".into()), None, Some("1".into())).is_none());
    assert!(HostConfig::from_vars(Some("t".into()), Some("p".into()), None).is_none());
    assert!(
        HostConfig::from_vars(Some("t".into()), Some("p".into()), Some("65536".into())).is_none()
    );
}

#[test]
fn a_port_is_read_as_a_number() {
    assert_eq!(parse_port("+0080"), Some(80));
    assert_eq!(parse_port("65535"), Some(65_535));
    assert_eq!(parse_port("65536"), None);
    assert_eq!(parse_port(""), None);
    assert_eq!(parse_port("+"), None);
    assert_eq!(parse_port("8o"), None);
    assert_eq!(listen_port(None), 8014);
    assert_eq!(listen_port(Some("nope")), 8014);
    assert_eq!(listen_port(Some("9000")), 9000);
}
