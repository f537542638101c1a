use guardrail::domain::sse::{assemble, assemble_with_usage, AssembledResponse};
use guardrail::json::{parse, render, Json};

fn json(text: &str) -> Json {
    parse(text).expect("valid JSON")
}

/// A text as a JSON string.
fn quoted(s: &str) -> String {
    render(&Json::Str(s.to_string()))
}

fn text_chunks(content_pieces: &[&str]) -> String {
    let mut out = String::new();
    for (i, piece) in content_pieces.iter().enumerate() {
        let content = quoted(piece);
        let chunk = json(&format!(
            r#"{{"id": "chatcmpl-1", "object": "chat.completion.chunk",
                "choices": [{{"index": 0, "delta": {{"content": {content}}}, "finish_reason": null}}]}}"#
        ));
        out.push_str(&format!("data: {}\n\n", render(&chunk)));
        if i == content_pieces.len() - 1 {
            let done_chunk = json(r#"{
                "id": "chatcmpl-1", "object": "chat.completion.chunk",
                "choices": [{"index": 0, "delta": {}, "finish_reason": "stop"}]
            }"#);
            out.push_str(&format!("data: {}\n\n", render(&done_chunk)));
        }
    }
    out.push_str("data: [DONE]\n\n");
    out
}

fn tool_call_chunks(id: &str, name: &str, args_pieces: &[&str]) -> String {
    let mut out = String::new();
    let arguments = quoted(args_pieces.first().unwrap_or(&""));
    let chunk = json(&format!(
        r#"{{"id": "chatcmpl-1", "object": "chat.completion.chunk",
            "choices": [{{"index": 0, "delta": {{
                "tool_calls": [{{"index": 0, "id": "{id}", "type": "function",
                    "function": {{"name": "{name}", "arguments": {arguments}}}}}]
            }}, "finish_reason": null}}]}}"#
    ));
    out.push_str(&format!("data: {}\n\n", render(&chunk)));
    for piece in args_pieces.iter().skip(1) {
        let arguments = quoted(piece);
        let chunk = json(&format!(
            r#"{{"id": "chatcmpl-1", "object": "chat.completion.chunk",
                "choices": [{{"index": 0, "delta": {{
                    "tool_calls": [{{"index": 0, "function": {{"arguments": {arguments}}}}}]
                }}, "finish_reason": null}}]}}"#
        ));
        out.push_str(&format!("data: {}\n\n", render(&chunk)));
    }
    let finish = json(r#"{
        "id": "chatcmpl-1", "object": "chat.completion.chunk",
        "choices": [{"index": 0, "delta": {}, "finish_reason": "tool_calls"}]
    }"#);
    out.push_str(&format!("data: {}\n\n", render(&finish)));
    out.push_str("data: [DONE]\n\n");
    out
}

#[test]
fn text_stream_is_forwarded_and_returns_text() {
    let sse = text_chunks(&["Hello", ", world", "!"]);
    let (result, forwarded) = assemble(&sse);
    assert!(matches!(result, AssembledResponse::Text { .. }));
    assert_eq!(forwarded.iter().filter(|l| l.contains("Hello")).count(), 1);
    assert_eq!(forwarded.iter().filter(|l| l.contains(", world")).count(), 1);
    assert_eq!(forwarded.iter().filter(|l| l.contains('!')).count(), 1);
}

#[test]
fn tool_call_stream_is_assembled_and_not_forwarded() {
    let sse = tool_call_chunks("call_1", "get_weather", &["{\"city\":", "\"Paris\"}"]);
    let (result, forwarded) = assemble(&sse);
    let AssembledResponse::ToolCalls { calls, .. } = result else { panic!("expected ToolCalls") };
    assert!(!forwarded.iter().any(|l| l.contains("get_weather")));
    assert_eq!(calls.len(), 1);
    assert_eq!(calls[0].id.as_deref(), Some("call_1"));
    assert_eq!(calls[0].name, "get_weather");
    assert_eq!(calls[0].arguments, "{\"city\":\"Paris\"}");
}

#[test]
fn multiple_tool_calls_assembled() {
    let mut sse = String::new();
    for chunk in [
        json(r#"{"id":"c1","object":"chat.completion.chunk","choices":[{"index":0,"delta":{"tool_calls":[{"index":0,"id":"id0","type":"function","function":{"name":"foo","arguments":"{\"a\":"}}]},"finish_reason":null}]}"#),
        json(r#"{"id":"c1","object":"chat.completion.chunk","choices":[{"index":0,"delta":{"tool_calls":[{"index":1,"id":"id1","type":"function","function":{"name":"bar","arguments":"{\"b\":"}}]},"finish_reason":null}]}"#),
        json(r#"{"id":"c1","object":"chat.completion.chunk","choices":[{"index":0,"delta":{"tool_calls":[{"index":0,"function":{"arguments":"1}"}}]},"finish_reason":null}]}"#),
        json(r#"{"id":"c1","object":"chat.completion.chunk","choices":[{"index":0,"delta":{"tool_calls":[{"index":1,"function":{"arguments":"2}"}}]},"finish_reason":"tool_calls"}]}"#),
    ] {
        sse.push_str(&format!("data: {}\n\n", render(&chunk)));
    }
    sse.push_str("data: [DONE]\n\n");
    let AssembledResponse::ToolCalls { calls, .. } = assemble(&sse).0 else { panic!("expected ToolCalls") };
    assert_eq!(calls.len(), 2);
    assert_eq!(calls[0].name, "foo");
    assert_eq!(calls[0].arguments, "{\"a\":1}");
    assert_eq!(calls[1].name, "bar");
    assert_eq!(calls[1].arguments, "{\"b\":2}");
}

#[test]
fn empty_arguments_defaults_to_empty_object() {
    let sse = tool_call_chunks("id0", "list_files", &[""]);
    let AssembledResponse::ToolCalls { calls, .. } = assemble(&sse).0 else { panic!("expected ToolCalls") };
    assert_eq!(calls[0].arguments, "{}");
}

#[test]
fn done_sentinel_is_not_parsed_as_chunk() {
    let sse = "data: [DONE]\n\n";
    let (result, _) = assemble(sse);
    assert!(matches!(result, AssembledResponse::Text { .. }));
}

#[test]
fn tool_calls_carries_content_emitted_alongside_native_calls() {
    let mut sse = String::new();
    let content_chunk = json(r#"{
        "id": "c1", "object": "chat.completion.chunk",
        "choices": [{"index": 0, "delta": {
            "content": "<function=bash><parameter=command>ls</parameter></function>"
        }, "finish_reason": null}]
    }"#);
    sse.push_str(&format!("data: {}\n\n", render(&content_chunk)));
    let tc_chunk = json(r#"{
        "id": "c1", "object": "chat.completion.chunk",
        "choices": [{"index": 0, "delta": {
            "tool_calls": [{"index": 0, "id": "call_1", "type": "function",
                "function": {"name": "root", "arguments": "{}"}}]
        }, "finish_reason": "tool_calls"}]
    }"#);
    sse.push_str(&format!("data: {}\n\n", render(&tc_chunk)));
    sse.push_str("data: [DONE]\n\n");

    let (result, _) = assemble(&sse);
    let AssembledResponse::ToolCalls { calls, content, .. } = result else {
        panic!("expected ToolCalls");
    };
    assert_eq!(calls[0].name, "root");
    assert!(content.contains("<function=bash>"), "content should carry the XML text");
}

#[test]
fn usage_is_read_off_a_trailing_usage_only_chunk() {
    let mut sse = String::new();
    let content = json(r#"{
        "id": "c1", "object": "chat.completion.chunk",
        "choices": [{"index": 0, "delta": {"content": "hi"}, "finish_reason": "stop"}]
    }"#);
    sse.push_str(&format!("data: {}\n\n", render(&content)));
    let usage_chunk = json(r#"{
        "id": "c1", "object": "chat.completion.chunk", "choices": [],
        "usage": {
            "prompt_tokens": 12, "completion_tokens": 4,
            "prompt_tokens_details": {"cached_tokens": 8}
        }
    }"#);
    sse.push_str(&format!("data: {}\n\n", render(&usage_chunk)));
    sse.push_str("data: [DONE]\n\n");

    let (_, usage, _) = assemble_with_usage(&sse);
    let usage = usage.expect("usage from the trailing chunk");
    assert_eq!(usage.prompt_tokens, 12);
    assert_eq!(usage.completion_tokens, 4);
    assert_eq!(usage.cached_tokens, 8);
    assert_eq!(usage.attempts, 1);
}

#[test]
fn usage_is_captured_on_tool_call_streams_too() {
    let mut sse = String::new();
    let tc = json(r#"{
        "id": "c1", "object": "chat.completion.chunk",
        "choices": [{"index": 0, "delta": {
            "tool_calls": [{"index": 0, "id": "call_1", "type": "function",
                "function": {"name": "get_weather", "arguments": "{}"}}]
        }, "finish_reason": "tool_calls"}],
        "usage": {"prompt_tokens": 30, "completion_tokens": 6}
    }"#);
    sse.push_str(&format!("data: {}\n\ndata: [DONE]\n\n", render(&tc)));

    let (assembled, usage, _) = assemble_with_usage(&sse);
    assert!(matches!(assembled, AssembledResponse::ToolCalls { .. }));
    let usage = usage.expect("usage on a tool-call stream");
    assert_eq!(usage.prompt_tokens, 30);
    assert_eq!(usage.completion_tokens, 6);
}

#[test]
fn a_zeroed_terminal_report_does_not_erase_the_real_one() {
    let mut sse = String::new();
    let real = json(r#"{
        "id": "c1", "object": "chat.completion.chunk",
        "choices": [{"index": 0, "delta": {"content": "hi"}}],
        "usage": {"prompt_tokens": 40, "completion_tokens": 9}
    }"#);
    sse.push_str(&format!("data: {}\n\n", render(&real)));
    let zeroed = json(r#"{
        "id": "c1", "object": "chat.completion.chunk", "choices": [],
        "usage": {"prompt_tokens": 0, "completion_tokens": 0}
    }"#);
    sse.push_str(&format!("data: {}\n\ndata: [DONE]\n\n", render(&zeroed)));

    let (_, usage, _) = assemble_with_usage(&sse);
    let usage = usage.expect("the real report must survive");
    assert_eq!(usage.prompt_tokens, 40);
    assert_eq!(usage.completion_tokens, 9);
}

#[test]
fn a_stream_without_usage_reports_none() {
    let sse = text_chunks(&["Hello"]);
    let (_, usage, _) = assemble_with_usage(&sse);
    assert_eq!(usage, None, "no usage block means no measurement");
}

#[test]
fn rescue_format_in_text_stream_is_detected() {
    let content = "<tool_call>{\"name\": \"get_weather\", \"arguments\": {\"city\": \"Paris\"}}</tool_call>";
    let content = quoted(content);
    let chunk = json(&format!(
        r#"{{"id": "c1", "object": "chat.completion.chunk",
            "choices": [{{"index": 0, "delta": {{"content": {content}}}, "finish_reason": "stop"}}]}}"#
    ));
    let sse = format!("data: {}\n\ndata: [DONE]\n\n", render(&chunk));
    let AssembledResponse::Rescued { parser, calls, .. } = assemble(&sse).0 else {
        panic!("expected Rescued");
    };
    assert_eq!(parser, "qwen");
    assert_eq!(calls[0].name, "get_weather");
}
