use guardrail::domain::decode::ToolCall;
use guardrail::domain::respond::{is_respond, message_text, respond_tool, RESPOND};

fn call(name: &str, arguments: &str) -> ToolCall {
    ToolCall {
        id: None,
        name: name.into(),
        arguments: arguments.into(),
    }
}

#[test]
fn respond_tool_is_a_valid_named_function() {
    let tool = respond_tool();
    assert_eq!(tool.kind, "function");
    assert_eq!(tool.function.name, RESPOND);
}

#[test]
fn detects_respond_call() {
    assert!(is_respond(&call("respond", "{}")));
    assert!(!is_respond(&call("get_weather", "{}")));
}

#[test]
fn extracts_message_and_aliases() {
    assert_eq!(
        message_text(&call("respond", "{\"message\":\"hi\"}")).as_deref(),
        Some("hi")
    );
    assert_eq!(
        message_text(&call("respond", "{\"content\":\"yo\"}")).as_deref(),
        Some("yo")
    );
    assert_eq!(
        message_text(&call("respond", "{\"text\":\"sup\"}")).as_deref(),
        Some("sup")
    );
}

#[test]
fn missing_or_bad_arguments_yield_none() {
    assert_eq!(message_text(&call("respond", "{}")), None);
    assert_eq!(message_text(&call("respond", "not json")), None);
}
