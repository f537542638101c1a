use guardrail::domain::decode::{canonical_tool_calls, ToolCall};
use guardrail::domain::rescue::{
    rescue, BareJson, FencedJson, Hermes, Lfm, Llama, Mistral, Qwen, QwenCoder, Rehearsal, RescueParser,
};
use guardrail::json::{parse, Json};

fn json(text: &str) -> Json {
    parse(text).expect("valid JSON")
}

fn at(value: &Json, path: &str) -> Json {
    let mut here = value.clone();
    for step in path.split('/') {
        let next = match step.parse::<usize>() {
            Ok(i) => here.as_array().and_then(|a| a.get(i)).cloned(),
            Err(_) => here.get(step).cloned(),
        };
        here = next.unwrap_or(Json::Null);
    }
    here
}

fn text(s: &str) -> Json {
    Json::Str(s.to_string())
}

fn one(calls: &[ToolCall]) -> (&str, &str) {
    (calls[0].name.as_str(), calls[0].arguments.as_str())
}

#[test]
fn lfm_pythonic_single_call() {
    let text = "<|tool_call_start|>[get_weather(location=\"Paris\")]<|tool_call_end|>Checking the weather in Paris.<|im_end|>";
    let calls = Lfm.try_parse(text).unwrap();
    assert_eq!(one(&calls), ("get_weather", "{\"location\":\"Paris\"}"));
}

#[test]
fn lfm_pythonic_multiple_calls() {
    let text =
        "<|tool_call_start|>[get_weather(location=\"Paris\"), get_time(zone=\"UTC\")]<|tool_call_end|>";
    let calls = Lfm.try_parse(text).unwrap();
    assert_eq!(calls.len(), 2);
    assert_eq!(calls[0].name, "get_weather");
    assert_eq!(calls[0].arguments, "{\"location\":\"Paris\"}");
    assert_eq!(calls[1].name, "get_time");
    assert_eq!(calls[1].arguments, "{\"zone\":\"UTC\"}");
}

#[test]
fn lfm_pythonic_single_call_without_list_brackets() {
    let text = "<|tool_call_start|>get_weather(location=\"Paris\")<|tool_call_end|>";
    let calls = Lfm.try_parse(text).unwrap();
    assert_eq!(one(&calls), ("get_weather", "{\"location\":\"Paris\"}"));
}

#[test]
fn lfm_pythonic_coerces_argument_types() {
    let text = "<|tool_call_start|>[f(n=3, ratio=1.5, ok=True, off=False, nothing=None, tags=[\"a\", \"b\"], opts={\"deep\": 1})]<|tool_call_end|>";
    let calls = Lfm.try_parse(text).unwrap();
    let args = json(&calls[0].arguments);
    assert_eq!(at(&args, "n"), json(r#"3"#));
    assert_eq!(at(&args, "ratio"), json(r#"1.5"#));
    assert_eq!(at(&args, "ok"), json(r#"true"#));
    assert_eq!(at(&args, "off"), json(r#"false"#));
    assert_eq!(at(&args, "nothing"), Json::Null);
    assert_eq!(at(&args, "tags"), json(r#"["a", "b"]"#));
    assert_eq!(at(&args, "opts"), json(r#"{"deep": 1}"#));
}

#[test]
fn lfm_pythonic_trailing_commas() {
    let text =
        "<|tool_call_start|>[f(x=1,), g(items=[\"a\",], opts={\"k\": 1,}),]<|tool_call_end|>";
    let calls = Lfm.try_parse(text).unwrap();
    assert_eq!(calls.len(), 2);
    assert_eq!(calls[0].name, "f");
    assert_eq!(calls[0].arguments, "{\"x\":1}");
    let args = json(&calls[1].arguments);
    assert_eq!(at(&args, "items"), json(r#"["a"]"#));
    assert_eq!(at(&args, "opts"), json(r#"{"k": 1}"#));
}

#[test]
fn lfm_pythonic_no_args() {
    let text = "<|tool_call_start|>[list_files()]<|tool_call_end|>";
    let calls = Lfm.try_parse(text).unwrap();
    assert_eq!(one(&calls), ("list_files", "{}"));
}

#[test]
fn lfm_pythonic_single_quoted_string_with_escape() {
    let text = "<|tool_call_start|>[say(text='it\\'s fine')]<|tool_call_end|>";
    let calls = Lfm.try_parse(text).unwrap();
    assert_eq!(one(&calls), ("say", "{\"text\":\"it's fine\"}"));
}

#[test]
fn lfm_json_mode() {
    let text = "<|tool_call_start|>[{\"name\": \"get_weather\", \"arguments\": {\"location\": \"Paris\"}}]<|tool_call_end|>";
    let calls = Lfm.try_parse(text).unwrap();
    assert_eq!(one(&calls), ("get_weather", "{\"location\":\"Paris\"}"));
}

#[test]
fn lfm_tolerates_missing_end_token() {
    let text = "<|tool_call_start|>[get_weather(location=\"Paris\")]<|im_end|>";
    let calls = Lfm.try_parse(text).unwrap();
    assert_eq!(one(&calls), ("get_weather", "{\"location\":\"Paris\"}"));
}

#[test]
fn lfm_absent_token_is_not_rescued() {
    assert!(Lfm
        .try_parse("Just some prose about get_weather(location).")
        .is_none());
}

#[test]
fn lfm_malformed_payload_is_not_fabricated() {
    let text = "<|tool_call_start|>[get_weather(location=<|tool_call_end|>";
    assert!(Lfm.try_parse(text).is_none());
}

#[test]
fn rescue_dispatches_lfm() {
    let (parser, calls) =
        rescue("<|tool_call_start|>[get_weather(location=\"Paris\")]<|tool_call_end|>")
            .unwrap();
    assert_eq!(parser, "lfm");
    assert_eq!(calls[0].name, "get_weather");
}

#[test]
fn mistral_json_array() {
    let text =
        "[TOOL_CALLS][{\"name\": \"get_weather\", \"arguments\": {\"city\": \"Paris\"}}]";
    let calls = Mistral.try_parse(text).unwrap();
    assert_eq!(one(&calls), ("get_weather", "{\"city\":\"Paris\"}"));
}

#[test]
fn mistral_name_brace_args() {
    let text = "[TOOL_CALLS]get_weather{\"city\": \"Paris\"}";
    let calls = Mistral.try_parse(text).unwrap();
    assert_eq!(one(&calls), ("get_weather", "{\"city\":\"Paris\"}"));
}

#[test]
fn qwen_single_and_multiple() {
    let text = "<tool_call>{\"name\": \"a\", \"arguments\": {\"x\": 1}}</tool_call>\n\
                <tool_call>{\"name\": \"b\", \"arguments\": {}}</tool_call>";
    let calls = Qwen.try_parse(text).unwrap();
    assert_eq!(calls.len(), 2);
    assert_eq!(calls[0].name, "a");
    assert_eq!(calls[1].name, "b");
}

#[test]
fn hermes_function_call() {
    let text = "sure!<function_call>{\"name\": \"search\", \"arguments\": {\"q\": \"rust\"}}</function_call>";
    let calls = Hermes.try_parse(text).unwrap();
    assert_eq!(one(&calls), ("search", "{\"q\":\"rust\"}"));
}

#[test]
fn llama_python_tag_with_parameters_and_eom() {
    let text = "<|python_tag|>{\"name\": \"get_weather\", \"parameters\": {\"city\": \"Paris\"}}<|eom_id|>";
    let calls = Llama.try_parse(text).unwrap();
    assert_eq!(one(&calls), ("get_weather", "{\"city\":\"Paris\"}"));
}

#[test]
fn fenced_json_with_lang_tag() {
    let text = "Here you go:\n```json\n{\"name\": \"f\", \"arguments\": {\"a\": 1}}\n```";
    let calls = FencedJson.try_parse(text).unwrap();
    assert_eq!(one(&calls), ("f", "{\"a\":1}"));
}

#[test]
fn fenced_json_without_lang_tag() {
    let text = "```\n{\"name\": \"f\", \"arguments\": {}}\n```";
    let calls = FencedJson.try_parse(text).unwrap();
    assert_eq!(calls[0].name, "f");
}

#[test]
fn bare_json_openai_function_shape() {
    let text = "{\"type\": \"function\", \"function\": {\"name\": \"f\", \"arguments\": \"{\\\"a\\\":1}\"}}";
    let calls = BareJson.try_parse(text).unwrap();
    assert_eq!(one(&calls), ("f", "{\"a\":1}"));
}

#[test]
fn bare_json_forge_tool_args_shape() {
    let calls = BareJson
        .try_parse("{\"tool\": \"get_weather\", \"args\": {\"city\": \"Paris\"}}")
        .unwrap();
    assert_eq!(one(&calls), ("get_weather", "{\"city\":\"Paris\"}"));
}

#[test]
fn rehearsal_name_args_marker() {
    let calls = Rehearsal
        .try_parse("thinking... get_weather[ARGS]{\"city\": \"Paris\"}")
        .unwrap();
    assert_eq!(one(&calls), ("get_weather", "{\"city\":\"Paris\"}"));
}

#[test]
fn qwen_coder_function_parameter_xml() {
    let text = "<function=get_weather><parameter=city>Paris</parameter><parameter=days>3</parameter></function>";
    let calls = QwenCoder.try_parse(text).unwrap();
    assert_eq!(calls[0].name, "get_weather");
    assert_eq!(calls[0].arguments, "{\"city\":\"Paris\",\"days\":3}");
}

#[test]
fn qwen_coder_parameter_without_closing_tag() {
    let text = "<function=f><parameter=x>hello</function>";
    let calls = QwenCoder.try_parse(text).unwrap();
    assert_eq!(calls[0].arguments, "{\"x\":\"hello\"}");
}

#[test]
fn rescue_prefers_qwen_coder_over_bare_json() {
    let (parser, _) =
        rescue("<function=get_weather><parameter=city>Paris</parameter></function>").unwrap();
    assert_eq!(parser, "qwen_coder");
}

#[test]
fn rescue_dispatches_and_reports_parser() {
    let (parser, calls) =
        rescue("<tool_call>{\"name\": \"a\", \"arguments\": {}}</tool_call>").unwrap();
    assert_eq!(parser, "qwen");
    assert_eq!(calls[0].name, "a");
}

#[test]
fn plain_prose_is_not_rescued() {
    assert!(rescue("I'm not sure which tool to use, can you clarify?").is_none());
    assert!(rescue("").is_none());
}

#[test]
fn json_without_a_name_is_not_a_tool_call() {
    assert!(BareJson.try_parse("{\"city\": \"Paris\"}").is_none());
}

#[test]
fn arguments_as_object_round_trip_through_canonical() {
    let calls = Qwen
        .try_parse("<tool_call>{\"name\": \"f\", \"arguments\": {\"a\": 1}}</tool_call>")
        .unwrap();
    let canonical = canonical_tool_calls(&calls);
    assert_eq!(at(&canonical, "0/function/name"), text("f"));
    assert_eq!(at(&canonical, "0/function/arguments"), text("{\"a\":1}"));
}
