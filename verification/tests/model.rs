use guardrail::domain::model::ChatRequest;
use guardrail::json::{parse, Json};

fn json(text: &str) -> Json {
    parse(text).expect("valid JSON")
}

fn assert_round_trips(v: Json) {
    let req = ChatRequest::from_json(&v).expect("parse");
    let back = req.to_json();
    assert_eq!(back, v, "round-trip changed the request body");
}

#[test]
fn plain_chat_request_round_trips() {
    assert_round_trips(json(r#"{
        "model": "local-model",
        "messages": [{"role": "user", "content": "hi"}],
        "temperature": 0.7,
        "top_p": 0.95,
        "stream": false
    }"#));
}

#[test]
fn tool_request_round_trips_with_unknown_fields() {
    assert_round_trips(json(r#"{
        "model": "org/exact-model-id",
        "messages": [{"role": "user", "content": "weather?"}],
        "tool_choice": "auto",
        "future_openai_field": {"nested": [1, 2, 3]},
        "tools": [
            {
                "type": "function",
                "strict": true,
                "function": {
                    "name": "get_weather",
                    "description": "Look up weather",
                    "parameters": {
                        "type": "object",
                        "properties": {"city": {"type": "string"}},
                        "required": ["city"]
                    }
                }
            }
        ]
    }"#));
}

#[test]
fn request_without_stream_does_not_gain_one() {
    let v = json(r#"{
        "model": "m",
        "messages": []
    }"#);
    let req = ChatRequest::from_json(&v).unwrap();
    assert!(!req.stream());
    let back = req.to_json();
    assert_eq!(back.get("stream"), None);
    assert_eq!(back, v);
}

#[test]
fn accessors_read_touched_fields() {
    let req = ChatRequest::from_json(&json(r#"{
        "model": "m",
        "messages": [],
        "stream": true,
        "tools": [
            {"type": "function", "function": {"name": "a"}},
            {"type": "function", "function": {"name": "b"}}
        ]
    }"#))
    .unwrap();

    assert!(req.stream());
    assert!(req.has_tools());
    assert_eq!(req.tool_names(), vec!["a", "b"]);
}

#[test]
fn no_tools_means_passthrough() {
    let req = ChatRequest::from_json(&json(r#"{
        "model": "m",
        "messages": [{"role": "user", "content": "hi"}]
    }"#))
    .unwrap();

    assert!(!req.has_tools());
    assert!(req.tool_names().is_empty());
}

#[test]
fn model_id_is_preserved_verbatim() {
    let req = ChatRequest::from_json(&json(r#"{
        "model": "lmstudio-community/Qwen2.5-Coder-7B-Instruct-GGUF",
        "messages": []
    }"#))
    .unwrap();
    assert_eq!(
        req.model,
        "lmstudio-community/Qwen2.5-Coder-7B-Instruct-GGUF"
    );
}

#[test]
fn a_request_is_sent_with_the_members_that_are_read_of_it_first() {
    let v = json(
        r#"{"temperature": 0.5, "a": "\u00e9\"", "model": "m", "messages": [{"role": "user", "content": "hi"}],
            "tools": [{"x": 1, "function": {"description": "d", "name": "f", "a": []}, "type": "function"}]}"#,
    );
    let request = ChatRequest::from_json(&v).unwrap();
    let text = request.to_text();
    assert_eq!(
        text,
        [
            r#"{"messages":[{"content":"hi","role":"user"}],"#,
            r#""tools":[{"type":"function","function":{"name":"f","a":[],"description":"d"},"x":1}],"#,
            r#""model":"m","a":"é\"","temperature":0.5}"#,
        ]
        .concat()
    );
    assert_eq!(json(&text), v);
}

#[test]
fn a_request_without_tools_is_sent_without_them() {
    let v = json(r#"{"messages": [], "model": ""}"#);
    let request = ChatRequest::from_json(&v).unwrap();
    assert_eq!(request.to_text(), r#"{"messages":[],"model":""}"#);
    let v = json(r#"{"messages": [], "tools": [], "model": ""}"#);
    let request = ChatRequest::from_json(&v).unwrap();
    assert_eq!(request.to_text(), r#"{"messages":[],"tools":[],"model":""}"#);
}
