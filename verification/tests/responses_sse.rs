use guardrail::domain::responses_sse::{
    assemble_responses_stream, AssembledResponses, ResponsesAssembler,
};
use guardrail::domain::sse::StreamItem;
use guardrail::json::Json;

fn at(value: &Json, path: &str) -> Json {
    let mut here = value.clone();
    for step in path.split('/') {
        let next = match step.parse::<usize>() {
            Ok(i) => here.as_array().and_then(|a| a.get(i)).cloned(),
            Err(_) => here.get(step).cloned(),
        };
        here = next.unwrap_or(Json::Null);
    }
    here
}

fn text(s: &str) -> Json {
    Json::Str(s.to_string())
}

fn assemble(lines: &[&str]) -> (AssembledResponses, String) {
    let mut items: Vec<StreamItem> =
        lines.iter().map(|line| StreamItem::Line((*line).to_string())).collect();
    items.push(StreamItem::Eof);
    let (assembled, _, completion, forwarded) = assemble_responses_stream(&items);
    assert!(!completion.is_truncated());
    (assembled, forwarded.concat())
}

#[test]
fn text_deltas_are_forwarded_live_and_accumulated() {
    let (assembled, forwarded) = assemble(&[
        r#"data: {"type":"response.output_text.delta","delta":"Hel"}"#,
        r#"data: {"type":"response.output_text.delta","delta":"lo"}"#,
    ]);

    match assembled {
        AssembledResponses::Text { text, .. } => assert_eq!(text, "Hello"),
        other => panic!("expected text, got {other:?}"),
    }
    assert!(forwarded.contains("Hel"), "text must reach the client live");
}

#[test]
fn a_function_call_is_assembled_across_events_and_not_forwarded() {
    let (assembled, forwarded) = assemble(&[
        r#"data: {"type":"response.output_item.added","output_index":0,"item":{"type":"function_call","call_id":"call_1","name":"get_weather"}}"#,
        r#"data: {"type":"response.function_call_arguments.delta","output_index":0,"delta":"{\"city\":"}"#,
        r#"data: {"type":"response.function_call_arguments.delta","output_index":0,"delta":"\"Paris\"}"}"#,
    ]);

    match assembled {
        AssembledResponses::ToolCalls { calls, .. } => {
            assert_eq!(calls.len(), 1);
            assert_eq!(calls[0].name, "get_weather");
            assert_eq!(calls[0].arguments, r#"{"city":"Paris"}"#);
            assert_eq!(calls[0].id.as_deref(), Some("call_1"));
        }
        other => panic!("expected tool calls, got {other:?}"),
    }
    assert!(
        !forwarded.contains("get_weather"),
        "an unchecked tool call must not reach the client: {forwarded}"
    );
}

#[test]
fn the_done_event_wins_over_accumulated_deltas() {
    let (assembled, _) = assemble(&[
        r#"data: {"type":"response.output_item.added","output_index":0,"item":{"type":"function_call","call_id":"c","name":"f"}}"#,
        r#"data: {"type":"response.function_call_arguments.delta","output_index":0,"delta":"{\"a\":"}"#,
        r#"data: {"type":"response.function_call_arguments.done","output_index":0,"arguments":"{\"a\":1}"}"#,
    ]);

    match assembled {
        AssembledResponses::ToolCalls { calls, .. } => {
            assert_eq!(calls[0].arguments, r#"{"a":1}"#);
        }
        other => panic!("expected tool calls, got {other:?}"),
    }
}

#[test]
fn several_calls_are_kept_apart_by_output_index() {
    let (assembled, _) = assemble(&[
        r#"data: {"type":"response.output_item.added","output_index":0,"item":{"type":"function_call","call_id":"c0","name":"first"}}"#,
        r#"data: {"type":"response.output_item.added","output_index":1,"item":{"type":"function_call","call_id":"c1","name":"second"}}"#,
        r#"data: {"type":"response.function_call_arguments.delta","output_index":1,"delta":"{\"b\":2}"}"#,
        r#"data: {"type":"response.function_call_arguments.delta","output_index":0,"delta":"{\"a\":1}"}"#,
    ]);

    match assembled {
        AssembledResponses::ToolCalls { calls, .. } => {
            assert_eq!(calls.len(), 2);
            assert_eq!(calls[0].name, "first");
            assert_eq!(calls[0].arguments, r#"{"a":1}"#);
            assert_eq!(calls[1].name, "second");
            assert_eq!(calls[1].arguments, r#"{"b":2}"#);
        }
        other => panic!("expected two calls, got {other:?}"),
    }
}

#[test]
fn the_completed_event_supplies_the_template() {
    let (assembled, _) = assemble(&[
        r#"data: {"type":"response.output_item.added","output_index":0,"item":{"type":"function_call","call_id":"c","name":"f"}}"#,
        r#"data: {"type":"response.completed","response":{"id":"resp_9","model":"m","output":[]}}"#,
    ]);

    match assembled {
        AssembledResponses::ToolCalls { template, .. } => {
            assert_eq!(at(&template, "id"), text("resp_9"));
            assert_eq!(at(&template, "model"), text("m"));
        }
        other => panic!("expected tool calls, got {other:?}"),
    }
}

#[test]
fn a_tool_call_written_into_text_is_rescued() {
    let (assembled, _) = assemble(&[
        r#"data: {"type":"response.output_text.delta","delta":"<tool_call>{\"name\": \"get_weather\", \"arguments\": {\"city\": \"Paris\"}}</tool_call>"}"#,
    ]);

    match assembled {
        AssembledResponses::Rescued { calls, .. } => {
            assert_eq!(calls[0].name, "get_weather");
        }
        other => panic!("expected a rescue, got {other:?}"),
    }
}

#[test]
fn the_kind_signal_reports_a_tool_call_before_the_stream_ends() {
    let mut assembler = ResponsesAssembler::new();
    let _ = assembler.push_line(r#"data: {"type":"response.output_item.added","output_index":0,"item":{"type":"function_call","call_id":"c","name":"f"}}"#);
    assert_eq!(assembler.kind(), Some(false), "false = not plain text");
}

#[test]
fn unrecognised_events_pass_through_on_a_text_stream() {
    let (_, forwarded) = assemble(&[
        r#"data: {"type":"response.created","response":{"id":"r"}}"#,
        r#"data: {"type":"response.output_text.delta","delta":"hi"}"#,
    ]);
    assert!(forwarded.contains("response.created"));
}
