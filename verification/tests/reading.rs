use guardrail::domain::decode::{decode_response, ModelOutput};
use guardrail::domain::lenient::{lenient_leading, lenient_whole};
use guardrail::domain::pythonic::parse_pythonic_calls;
use guardrail::domain::rescue::{looks_like_tool_call, prose_beside_call, rescue};
use guardrail::domain::retry::{tool_error_followup, ErrorTracker};
use guardrail::domain::sse::{assemble_stream, AssembledResponse, ChatAssembler, StreamItem};
use guardrail::json::{parse, parse_float, parse_leading, render, Json, JsonObject};
use guardrail::names::NameMap;
use guardrail::text::{push_lowercase, sorts_before, to_lowered, trimmed_text};

fn json(text: &str) -> Json {
    parse(text).expect("valid JSON")
}

// ── JSON ────────────────────────────────────────────────────────────────────

#[test]
fn json_is_read_and_written() {
    let value = json(r#" {"b": [1, -2, 2.5, null, true], "a": "xé\n"} "#);
    assert_eq!(render(&value), "{\"a\":\"xé\\n\",\"b\":[1,-2,2.5,null,true]}");
    assert_eq!(json(&render(&value)), value);
    assert_eq!(parse("{} {}"), None);
    assert_eq!(parse(""), None);
}

#[test]
fn json_numbers_keep_their_kind() {
    assert!(matches!(json("18446744073709551615"), Json::Unsigned(u64::MAX)));
    assert!(matches!(json("-9223372036854775808"), Json::Signed(i64::MIN)));
    assert!(matches!(json("1.0"), Json::Real(_)));
    assert_eq!(render(&json("1.0")), "1.0");
    assert_eq!(json("3").as_u64(), Some(3));
    assert_eq!(json("-3").as_u64(), None);
}

#[test]
fn a_leading_value_is_read_before_other_text() {
    assert_eq!(parse_leading(r#"{"a": 1} and more"#), Some(json(r#"{"a": 1}"#)));
    assert_eq!(parse_leading("nothing"), None);
}

#[test]
fn a_float_is_read_from_its_text() {
    assert_eq!(render(&parse_float("1.5e3").unwrap()), "1500.0");
    assert!(parse_float("abc").is_none());
}

#[test]
fn the_last_of_two_members_stands() {
    assert_eq!(json(r#"{"a": 1, "a": 2}"#), json(r#"{"a": 2}"#));
    let object = JsonObject::new().with("a", json("1")).with("b", json("2")).with("a", json("3"));
    assert_eq!(object.len(), 2);
    assert_eq!(object.get("a"), Some(&json("3")));
    assert!(object.without("a").get("a").is_none());
}

// ── texts ───────────────────────────────────────────────────────────────────

#[test]
fn letters_are_lowered_as_they_are_asked_to() {
    assert_eq!(to_lowered("ÀBC-Ω"), "Àbc-Ω");
    let mut text = String::new();
    push_lowercase(&mut text, 'À');
    push_lowercase(&mut text, 'İ');
    assert_eq!(text, "ài\u{307}");
}

#[test]
fn texts_are_ordered_by_their_characters() {
    assert!(sorts_before("", "a"));
    assert!(sorts_before("a", "ab"));
    assert!(sorts_before("Z", "a"));
    assert!(!sorts_before("a", "a"));
    assert_eq!(trimmed_text(" \u{a0}x y\t\n"), "x y");
}

#[test]
fn a_map_lists_its_names_in_order() {
    let mut map: NameMap<u32> = NameMap::new();
    map.insert("b", 1);
    map.insert("a", 2);
    map.insert("b", 3);
    assert_eq!(map.len(), 2);
    assert_eq!(map.entry(0), ("a", 2));
    assert_eq!(map.entry(1), ("b", 3));
    map.remove("a");
    assert_eq!(map.get("a"), None);
    assert_eq!(map.get("b"), Some(3));
}

// ── almost JSON ─────────────────────────────────────────────────────────────

#[test]
fn almost_json_is_repaired() {
    for (broken, meant) in [
        ("{'a': 'it'}", r#"{"a": "it"}"#),
        ("{a: 1}", r#"{"a": 1}"#),
        ("{\"a\": \"one\ntwo\"}", r#"{"a": "one\ntwo"}"#),
        ("{\"a\": [1, 2,],}", r#"{"a": [1, 2]}"#),
        ("{\"a\": {\"b\": [1, 2", r#"{"a": {"b": [1, 2]}}"#),
    ] {
        assert_eq!(lenient_whole(broken), Some(json(meant)), "{broken}");
        assert_eq!(lenient_leading(broken), Some(json(meant)), "{broken}");
    }
    assert_eq!(lenient_whole("plain words"), None);
}

#[test]
fn a_broken_call_is_rescued() {
    let text = "<tool_call>{'name': 'get_weather', arguments: {'city': 'Paris',}}</tool_call>";
    let (parser, calls) = rescue(text).unwrap();
    assert_eq!(parser, "qwen");
    assert_eq!(calls[0].name, "get_weather");
    assert_eq!(calls[0].arguments, r#"{"city":"Paris"}"#);
}

#[test]
fn prose_is_kept_apart_from_the_call_beside_it() {
    let text = "Checking.\n<tool_call>{\"name\": \"f\", \"arguments\": {}}</tool_call>";
    assert_eq!(prose_beside_call(text).as_deref(), Some("Checking."));
    assert!(looks_like_tool_call(text));
    assert!(!looks_like_tool_call("Just a sentence."));
}

#[test]
fn calls_in_python_are_read() {
    let calls = parse_pythonic_calls("[f(a=1), g(b=[True, None])]").unwrap();
    assert_eq!(calls.len(), 2);
    assert_eq!(calls[1].arguments, r#"{"b":[true,null]}"#);
    assert!(parse_pythonic_calls("f(1)").is_none());
    assert!(parse_pythonic_calls("f(a=1) trailing").is_none());
}

// ── answers ─────────────────────────────────────────────────────────────────

#[test]
fn an_answer_is_decoded() {
    let body = json(
        r#"{"choices": [{"message": {"tool_calls": [
            {"id": "c", "function": {"name": "f", "arguments": {"a": 1}}}]}}]}"#,
    );
    match decode_response(&body) {
        ModelOutput::ToolCalls(calls) => {
            assert_eq!(calls[0].name, "f");
            assert_eq!(calls[0].arguments, r#"{"a":1}"#);
        }
        other => panic!("expected calls, got {other:?}"),
    }
    match decode_response(&json(r#"{"choices": [{"message": {"content": "hi"}}]}"#)) {
        ModelOutput::Text(text) => assert_eq!(text, "hi"),
        other => panic!("expected text, got {other:?}"),
    }
}

#[test]
fn a_stream_that_breaks_off_is_told_from_one_that_ends() {
    let line =
        StreamItem::Line(r#"data: {"choices": [{"delta": {"content": "Hel"}}]}"#.to_string());
    let (whole, _, complete, _) = assemble_stream(&[line, StreamItem::Eof]);
    assert!(!complete.is_truncated());
    assert!(matches!(whole, AssembledResponse::Text { .. }));

    let line =
        StreamItem::Line(r#"data: {"choices": [{"delta": {"content": "Hel"}}]}"#.to_string());
    let (_, _, broken, _) = assemble_stream(&[line, StreamItem::Failed("reset".to_string())]);
    assert!(broken.is_truncated());
    let (_, _, silent, _) = assemble_stream(&[]);
    assert!(silent.is_truncated());
}

#[test]
fn text_is_passed_on_as_it_arrives() {
    let mut assembler = ChatAssembler::new();
    let line = r#"data: {"choices": [{"delta": {"content": "Hi"}}]}"#;
    assert_eq!(assembler.push_line(line, true), Some(format!("{line}\n\n")));
    let call = r#"data: {"choices": [{"delta": {"tool_calls": [{"index": 0}]}}]}"#;
    assert_eq!(assembler.push_line(call, true), None);
}

#[test]
fn retries_are_counted() {
    let mut tracker = ErrorTracker::new(1);
    assert!(tracker.can_retry());
    tracker.record_retry();
    assert_eq!(tracker.attempts(), 1);
    assert!(!tracker.can_retry());
    let turns = tool_error_followup(&[], "Try again.");
    assert_eq!(turns.last().unwrap().get("content").unwrap().as_str(), Some("Try again."));
}
