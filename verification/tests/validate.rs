use guardrail::domain::decode::ToolCall;
use guardrail::domain::model::Tool;
use guardrail::domain::validate::{coerce_arguments, repair_argument_names, validate, Validation};
use guardrail::json::{parse, render, Json};

fn json(text: &str) -> Json {
    parse(text).expect("valid JSON")
}

fn call(name: &str, arguments: &str) -> ToolCall {
    ToolCall {
        id: None,
        name: name.into(),
        arguments: arguments.into(),
    }
}

fn tool(name: &str, required: &[&str]) -> Tool {
    let required: Vec<String> = required.iter().map(|r| format!("\"{r}\"")).collect();
    let required = required.join(",");
    Tool::from_json(&json(&format!(
        r#"{{"type": "function", "function": {{"name": "{name}",
            "parameters": {{"type": "object", "required": [{required}]}}}}}}"#
    )))
    .unwrap()
}

#[test]
fn valid_when_name_known_and_args_object() {
    let calls = [call("get_weather", "{\"city\":\"Paris\"}")];
    assert_eq!(
        validate(&calls, &[tool("get_weather", &[])]),
        Validation::Valid
    );
}

#[test]
fn empty_calls_are_vacuously_valid() {
    assert_eq!(
        validate(&[], &[tool("get_weather", &[])]),
        Validation::Valid
    );
}

#[test]
fn unknown_tool_needs_retry_and_lists_options() {
    let calls = [call("get_wether", "{}")];
    let tools = [tool("get_weather", &[]), tool("search", &[])];
    let Validation::NeedsRetry { nudge, .. } = validate(&calls, &tools) else {
        panic!("expected NeedsRetry");
    };
    assert!(nudge.contains("get_wether"));
    assert!(nudge.contains("get_weather"));
    assert!(nudge.contains("search"));
}

#[test]
fn non_object_arguments_need_retry() {
    for bad in ["\"just a string\"", "[1,2,3]", "42", "not json"] {
        let calls = [call("get_weather", bad)];
        assert!(
            matches!(
                validate(&calls, &[tool("get_weather", &[])]),
                Validation::NeedsRetry { .. }
            ),
            "expected NeedsRetry for arguments {bad:?}"
        );
    }
}

#[test]
fn missing_required_argument_needs_retry() {
    let calls = [call(
        "Edit",
        "{\"oldString\":\"old\",\"newString\":\"new\"}",
    )];
    let Validation::NeedsRetry { nudge, .. } = validate(
        &calls,
        &[tool("Edit", &["filePath", "oldString", "newString"])],
    ) else {
        panic!("expected NeedsRetry");
    };
    assert!(nudge.contains("filePath"));
}

#[test]
fn wrong_argument_type_needs_retry() {
    let typed_tool = Tool::from_json(&json(r#"{
        "type": "function",
        "function": {
            "name": "Edit",
            "parameters": {
                "type": "object",
                "properties": {"filePath": {"type": "string"}},
                "required": ["filePath"]
            }
        }
    }"#))
    .unwrap();

    let tools = [typed_tool];

    let calls = [call("Edit", "{\"filePath\":123}")];
    let Validation::NeedsRetry { nudge, .. } = validate(&calls, &tools) else {
        panic!("expected NeedsRetry");
    };
    assert!(nudge.contains("filePath"));
    assert!(nudge.contains("string"));

    let calls = [call("Edit", "{\"filePath\":\"/tmp/x.rs\"}")];
    assert_eq!(validate(&calls, &tools), Validation::Valid);
}

#[test]
fn first_problem_wins() {
    let calls = [call("bad_name", "{}"), call("get_weather", "not json")];
    let Validation::NeedsRetry { nudge, .. } = validate(&calls, &[tool("get_weather", &[])])
    else {
        panic!("expected NeedsRetry");
    };
    assert!(nudge.contains("bad_name"));
}

#[test]
fn offending_index_points_at_the_failing_call_not_the_first() {
    let calls = [
        call("get_weather", "{\"city\":\"Paris\"}"),
        call("unknown_tool", "{}"),
    ];
    let Validation::NeedsRetry { offending, .. } =
        validate(&calls, &[tool("get_weather", &[])])
    else {
        panic!("expected NeedsRetry");
    };
    assert_eq!(offending, 1);
}


fn typed_tool(properties: Json) -> Tool {
    let properties = render(&properties);
    Tool::from_json(&json(&format!(
        r#"{{"type": "function", "function": {{"name": "f",
            "parameters": {{"type": "object", "properties": {properties}}}}}}}"#
    )))
    .unwrap()
}

#[test]
fn coerces_stringified_scalars_and_makes_validation_pass() {
    let tools = [typed_tool(json(r#"{
        "count": {"type": "integer"},
        "ratio": {"type": "number"},
        "enabled": {"type": "boolean"}
    }"#))];
    let mut calls = vec![call(
        "f",
        "{\"count\":\"3\",\"ratio\":\"1.5\",\"enabled\":\"true\"}",
    )];

    assert!(matches!(
        validate(&calls, &tools),
        Validation::NeedsRetry { .. }
    ));

    assert!(coerce_arguments(&mut calls, &tools));
    assert_eq!(
        calls[0].arguments,
        "{\"count\":3,\"enabled\":true,\"ratio\":1.5}"
    );
    assert_eq!(validate(&calls, &tools), Validation::Valid);
}

#[test]
fn coerces_scalar_to_declared_string() {
    let tools = [typed_tool(json(r#"{"id": {"type": "string"}}"#))];
    let mut calls = vec![call("f", "{\"id\":123}")];
    assert!(coerce_arguments(&mut calls, &tools));
    assert_eq!(calls[0].arguments, "{\"id\":\"123\"}");
    assert_eq!(validate(&calls, &tools), Validation::Valid);
}

#[test]
fn coercion_reports_no_change_when_types_already_match() {
    let tools = [typed_tool(json(r#"{"count": {"type": "integer"}}"#))];
    let mut calls = vec![call("f", "{\"count\":3}")];
    assert!(!coerce_arguments(&mut calls, &tools));
}

#[test]
fn coercion_leaves_unparseable_and_container_values_alone() {
    let tools = [typed_tool(json(r#"{
        "count": {"type": "integer"},
        "items": {"type": "string"}
    }"#))];
    let mut calls = vec![call("f", "{\"count\":\"abc\",\"items\":[1,2]}")];
    assert!(!coerce_arguments(&mut calls, &tools));
    assert!(matches!(
        validate(&calls, &tools),
        Validation::NeedsRetry { .. }
    ));
}

#[test]
fn coercion_skips_unknown_tools_and_non_object_arguments() {
    let tools = [typed_tool(json(r#"{"count": {"type": "integer"}}"#))];
    let mut calls = vec![call("other", "{\"count\":\"3\"}"), call("f", "not json")];
    assert!(!coerce_arguments(&mut calls, &tools));
}


fn typed_tool_req(properties: Json, required: &[&str]) -> Tool {
    let properties = render(&properties);
    let required: Vec<String> = required.iter().map(|r| format!("\"{r}\"")).collect();
    let required = required.join(",");
    Tool::from_json(&json(&format!(
        r#"{{"type": "function", "function": {{"name": "f",
            "parameters": {{"type": "object", "properties": {properties}, "required": [{required}]}}}}}}"#
    )))
    .unwrap()
}

#[test]
fn repairs_snake_case_key_to_declared_camel_case() {
    let tools = [typed_tool_req(
        json(r#"{"filePath": {"type": "string"}}"#),
        &["filePath"],
    )];
    let mut calls = vec![call("f", "{\"file_path\":\"/tmp/x.rs\"}")];

    assert!(matches!(
        validate(&calls, &tools),
        Validation::NeedsRetry { .. }
    ));

    assert!(repair_argument_names(&mut calls, &tools));
    assert_eq!(calls[0].arguments, "{\"filePath\":\"/tmp/x.rs\"}");
    assert_eq!(validate(&calls, &tools), Validation::Valid);
}

#[test]
fn repairs_case_and_separator_variants() {
    for variant in [
        "file_path",
        "FilePath",
        "File-Path",
        "filepath",
        "FILE_PATH",
    ] {
        let tools = [typed_tool_req(
            json(r#"{"filePath": {"type": "string"}}"#),
            &["filePath"],
        )];
        let mut calls = vec![call("f", &format!("{{\"{variant}\":\"/x\"}}"))];
        assert!(
            repair_argument_names(&mut calls, &tools),
            "expected repair for {variant:?}"
        );
        assert_eq!(calls[0].arguments, "{\"filePath\":\"/x\"}");
    }
}

#[test]
fn does_not_touch_an_already_valid_call() {
    let tools = [typed_tool_req(
        json(r#"{"filePath": {"type": "string"}}"#),
        &["filePath"],
    )];
    let mut calls = vec![call("f", "{\"filePath\":\"/x\",\"note\":\"hi\"}")];
    assert!(!repair_argument_names(&mut calls, &tools));
}

#[test]
fn does_not_overwrite_a_present_required_key() {
    let tools = [typed_tool_req(
        json(r#"{"filePath": {"type": "string"}}"#),
        &["filePath"],
    )];
    let mut calls = vec![call(
        "f",
        "{\"filePath\":\"/right\",\"file_path\":\"/wrong\"}",
    )];
    assert!(!repair_argument_names(&mut calls, &tools));
}

#[test]
fn abstains_when_two_unknown_keys_compete_for_one_property() {
    let tools = [typed_tool_req(
        json(r#"{"filePath": {"type": "string"}}"#),
        &["filePath"],
    )];
    let mut calls = vec![call("f", "{\"file_path\":\"/a\",\"filepath\":\"/b\"}")];
    assert!(!repair_argument_names(&mut calls, &tools));
    assert!(matches!(
        validate(&calls, &tools),
        Validation::NeedsRetry { .. }
    ));
}

#[test]
fn does_not_repair_a_non_required_property() {
    let tools = [typed_tool_req(
        json(r#"{"query": {"type": "string"}, "limit": {"type": "integer"}}"#),
        &["query"],
    )];
    let mut calls = vec![call("f", "{\"query\":\"x\",\"lim_it\":5}")];
    assert!(!repair_argument_names(&mut calls, &tools));
}

#[test]
fn name_repair_then_coercion_compose() {
    let tools = [typed_tool_req(
        json(r#"{"maxItems": {"type": "integer"}}"#),
        &["maxItems"],
    )];
    let mut calls = vec![call("f", "{\"max_items\":\"5\"}")];
    assert!(repair_argument_names(&mut calls, &tools));
    assert!(coerce_arguments(&mut calls, &tools));
    assert_eq!(calls[0].arguments, "{\"maxItems\":5}");
    assert_eq!(validate(&calls, &tools), Validation::Valid);
}

#[test]
fn name_repair_reports_no_change_when_nothing_matches() {
    let tools = [typed_tool_req(
        json(r#"{"filePath": {"type": "string"}}"#),
        &["filePath"],
    )];
    let mut calls = vec![call("f", "{\"destination\":\"/x\"}")];
    assert!(!repair_argument_names(&mut calls, &tools));
}

#[test]
fn a_second_coercion_changes_nothing() {
    let tools = [typed_tool(json(r#"{
        "count": {"type": "integer"},
        "ratio": {"type": "number"},
        "id": {"type": "string"}
    }"#))];
    let mut calls = vec![
        call("f", "{\"count\":\" 3 \",\"ratio\":\"1.5\",\"id\":7}"),
        call("f", "{\"count\":\"x\",\"ratio\":\"2\"}"),
    ];
    assert!(coerce_arguments(&mut calls, &tools));
    assert_eq!(json(&calls[0].arguments), json(r#"{"count": 3, "id": "7", "ratio": 1.5}"#));
    assert_eq!(json(&calls[1].arguments), json(r#"{"count": "x", "ratio": 2}"#));
    let settled: Vec<String> = calls.iter().map(|c| c.arguments.clone()).collect();

    assert!(!coerce_arguments(&mut calls, &tools));
    let again: Vec<String> = calls.iter().map(|c| c.arguments.clone()).collect();
    assert_eq!(again, settled);
    // What could not be coerced is all that is left.
    assert_eq!(validate(&calls[..1], &tools), Validation::Valid);
    assert!(matches!(validate(&calls, &tools), Validation::NeedsRetry { offending: 1, .. }));
}

#[test]
fn the_text_of_a_mended_call_reads_as_the_mended_arguments() {
    let tools = [typed_tool_req(json(r#"{"filePath": {"type": "string"}}"#), &["filePath"])];
    let mut calls = vec![call("f", r#"{"file_path": "a\"b\n", "rest": [1, {"k": null}]}"#)];
    assert!(repair_argument_names(&mut calls, &tools));
    assert_eq!(
        json(&calls[0].arguments),
        json(r#"{"filePath": "a\"b\n", "rest": [1, {"k": null}]}"#)
    );
}
