use guardrail::domain::decode::ToolCall;
use guardrail::domain::model::{Tool, ToolFunction};
use guardrail::domain::responses::{text, tool_calls, with_text, with_tool_calls, ResponsesRequest};
use guardrail::json::{parse, Json, JsonObject};

fn json(text: &str) -> Json {
    parse(text).expect("valid JSON")
}

fn at(value: &Json, path: &str) -> Json {
    let mut here = value.clone();
    for step in path.split('/') {
        let next = match step.parse::<usize>() {
            Ok(i) => here.as_array().and_then(|a| a.get(i)).cloned(),
            Err(_) => here.get(step).cloned(),
        };
        here = next.unwrap_or(Json::Null);
    }
    here
}

fn string(s: &str) -> Json {
    Json::Str(s.to_string())
}

fn request_of(v: Json) -> ResponsesRequest {
    ResponsesRequest::from_json(&v).expect("parse")
}

#[test]
fn reads_tool_calls_out_of_output_items() {
    let body = json(r#"{
        "id": "resp_1",
        "output": [
            {"type": "reasoning", "id": "rs_1", "content": []},
            {"type": "function_call", "id": "fc_1", "call_id": "call_abc",
             "name": "get_weather", "arguments": "{\"city\":\"Paris\"}"}
        ]
    }"#);
    let calls = tool_calls(&body);
    assert_eq!(calls.len(), 1, "reasoning items must not be read as calls");
    assert_eq!(calls[0].name, "get_weather");
    assert_eq!(calls[0].arguments, "{\"city\":\"Paris\"}");
    assert_eq!(calls[0].id.as_deref(), Some("call_abc"));
}

#[test]
fn a_body_with_no_tool_call_yields_none() {
    let body = json(r#"{"output": [{"type": "message", "content": [
        {"type": "output_text", "text": "hello"}
    ]}]}"#);
    assert!(tool_calls(&body).is_empty());
    assert_eq!(text(&body), "hello");
}

#[test]
fn text_concatenates_parts_and_skips_reasoning() {
    let body = json(r#"{"output": [
        {"type": "reasoning", "content": [{"type": "reasoning_text", "text": "hmm"}]},
        {"type": "message", "content": [
            {"type": "output_text", "text": "Hello"},
            {"type": "output_text", "text": ", world"}
        ]}
    ]}"#);
    assert_eq!(text(&body), "Hello, world");
}

#[test]
fn a_flat_responses_tool_is_lifted_for_the_validator() {
    let request = request_of(json(r#"{
        "model": "m",
        "input": "hi",
        "tools": [{
            "type": "function",
            "name": "Edit",
            "parameters": {"type": "object", "required": ["filePath"]}
        }]
    }"#));
    let tools = request.normalized_tools();
    assert_eq!(tools.len(), 1);
    assert_eq!(tools[0].function.name, "Edit");
    assert!(tools[0].function.rest.contains_key("parameters"));
}

#[test]
fn a_chat_shaped_tool_is_also_accepted() {
    let request = request_of(json(r#"{
        "model": "m",
        "tools": [{"type": "function", "function": {
            "name": "Edit", "parameters": {"type": "object"}
        }}]
    }"#));
    let tools = request.normalized_tools();
    assert_eq!(tools[0].function.name, "Edit");
    assert!(tools[0].function.rest.contains_key("parameters"));
}

#[test]
fn pushing_a_tool_produces_the_flat_shape() {
    let mut request = request_of(json(r#"{"model": "m", "input": "hi"}"#));
    request.push_tool(Tool {
        kind: "function".into(),
        function: ToolFunction {
            name: "respond".into(),
            rest: JsonObject::new().with("parameters", json(r#"{"type": "object"}"#)),
        },
        rest: JsonObject::new(),
    });
    let tools = request.tools.unwrap();
    assert_eq!(at(&tools[0], "name"), string("respond"));
    assert_eq!(at(&tools[0], "type"), string("function"));
    assert!(tools[0].get("function").is_none(), "must not nest");
    assert!(tools[0].get("parameters").is_some());
}

#[test]
fn a_string_input_is_promoted_before_turns_are_appended() {
    let mut request = request_of(json(r#"{"model": "m", "input": "original"}"#));
    request.extend_input(vec![json(r#"{"role": "user", "content": "nudge"}"#)]);

    let input = request.rest.get("input").unwrap().as_array().unwrap();
    assert_eq!(input.len(), 2);
    assert_eq!(at(&input[0], "content"), string("original"));
    assert_eq!(at(&input[1], "content"), string("nudge"));
}

#[test]
fn re_emitted_tool_calls_carry_their_call_id() {
    let template = json(r#"{"id": "resp_1", "model": "m", "object": "response"}"#);
    let calls = vec![ToolCall {
        id: Some("call_abc".into()),
        name: "get_weather".into(),
        arguments: "{}".into(),
    }];
    let body = with_tool_calls(&template, &calls);

    assert_eq!(at(&body, "id"), string("resp_1"), "the envelope is preserved");
    assert_eq!(at(&body, "output/0/type"), string("function_call"));
    assert_eq!(at(&body, "output/0/call_id"), string("call_abc"));
    assert_eq!(at(&body, "output/0/name"), string("get_weather"));
}

#[test]
fn a_call_without_an_id_gets_a_deterministic_one() {
    let body = with_tool_calls(
        &json(r#"{"id": "r"}"#),
        &[ToolCall { id: None, name: "f".into(), arguments: "{}".into() }],
    );
    assert_eq!(at(&body, "output/0/call_id"), string("call_0"));
}

#[test]
fn a_text_response_round_trips_through_the_output_shape() {
    let body = with_text(&json(r#"{"id": "resp_1"}"#), "the answer");
    assert_eq!(at(&body, "output/0/type"), string("message"));
    assert_eq!(at(&body, "output/0/content/0/text"), string("the answer"));
    assert_eq!(text(&body), "the answer");
}

#[test]
fn rebuilding_replaces_the_previous_output() {
    let template = json(r#"{
        "id": "resp_1",
        "output": [{"type": "function_call", "name": "wrong", "arguments": "{}"}]
    }"#);
    let body = with_tool_calls(
        &template,
        &[ToolCall { id: None, name: "right".into(), arguments: "{}".into() }],
    );
    assert_eq!(at(&body, "output").as_array().unwrap().len(), 1);
    assert_eq!(at(&body, "output/0/name"), string("right"));
}

#[test]
fn unknown_request_fields_round_trip() {
    let original = json(r#"{
        "model": "m",
        "input": "hi",
        "temperature": 0.5,
        "reasoning": {"effort": "high"},
        "something_new": true
    }"#);
    let request = request_of(original.clone());
    let back = request.to_json();
    assert_eq!(back, original);
}

#[test]
fn a_request_is_sent_with_its_model_and_tools_first() {
    let v = json(
        r#"{"input": "hi", "tools": [{"type": "function", "name": "f"}], "model": "m", "a": 1}"#,
    );
    let text = request_of(v.clone()).to_text();
    assert_eq!(
        text,
        r#"{"model":"m","tools":[{"name":"f","type":"function"}],"a":1,"input":"hi"}"#
    );
    assert_eq!(json(&text), v);
    assert_eq!(request_of(json(r#"{"model": "m"}"#)).to_text(), r#"{"model":"m"}"#);
}
