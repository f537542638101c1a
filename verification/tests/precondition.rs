use guardrail::domain::decode::ToolCall;
use guardrail::domain::precondition::{
    check, edit_tools, paths_of, PathKind, Precondition, Transcript,
};
use guardrail::json::{parse, render, Json};

fn json(text: &str) -> Json {
    parse(text).expect("valid JSON")
}

const EXISTING: &str = "/etc/hosts";
const MISSING: &str = "/tmp/guardrail_test_nonexistent_xyz.txt";

fn call(name: &str, arguments: &str) -> ToolCall {
    ToolCall {
        id: None,
        name: name.to_string(),
        arguments: arguments.to_string(),
    }
}

fn assistant_call(name: &str, arguments: Json) -> Json {
    let arguments = quoted(&arguments);
    json(&format!(
        r#"{{"role": "assistant", "content": null, "tool_calls": [{{"id": "call_1",
            "type": "function", "function": {{"name": "{name}", "arguments": {arguments}}}}}]}}"#
    ))
}

fn responses_call(name: &str, arguments: Json) -> Json {
    let arguments = quoted(&arguments);
    json(&format!(
        r#"{{"type": "function_call", "call_id": "call_1", "name": "{name}",
            "arguments": {arguments}}}"#
    ))
}

/// What the tests suppose to stand on disk.
fn kind_of(path: &str) -> PathKind {
    match path {
        "/etc/hosts" | "/etc/passwd" => PathKind::File,
        "/tmp" => PathKind::Directory,
        _ => PathKind::Missing,
    }
}

fn ruling(calls: &[ToolCall], transcript: &Transcript) -> Precondition {
    let kinds: Vec<PathKind> = paths_of(calls)
        .iter()
        .map(|path| path.as_deref().map_or(PathKind::Missing, kind_of))
        .collect();
    check(calls, transcript, &kinds)
}

/// JSON text as a JSON string.
fn quoted(value: &Json) -> String {
    render(&Json::Str(render(value)))
}

fn none() -> Transcript {
    Transcript::unavailable()
}


#[test]
fn non_write_tool_always_passes() {
    let calls = vec![call("Read", r#"{"file_path":"/etc/passwd"}"#)];
    assert!(matches!(ruling(&calls, &none()), Precondition::Passed));
}

#[test]
fn write_tool_on_nonexistent_file_passes() {
    let calls = vec![call(
        "Write",
        &format!(r#"{{"file_path":"{MISSING}","content":"hi"}}"#),
    )];
    assert!(matches!(ruling(&calls, &none()), Precondition::Passed));
}

#[test]
fn write_tool_on_existing_file_fails() {
    let calls = vec![call("Write", r#"{"file_path":"/etc/hosts","content":"x"}"#)];
    assert!(matches!(
        ruling(&calls, &none()),
        Precondition::Failed { .. }
    ));
}

#[test]
fn case_insensitive_tool_name_match() {
    let calls = vec![call("WRITE", r#"{"file_path":"/etc/hosts","content":"x"}"#)];
    assert!(matches!(
        ruling(&calls, &none()),
        Precondition::Failed { .. }
    ));
}

#[test]
fn path_key_accepted_as_alternative() {
    let calls = vec![call("create", r#"{"path":"/etc/hosts","content":"x"}"#)];
    assert!(matches!(
        ruling(&calls, &none()),
        Precondition::Failed { .. }
    ));
}

#[test]
fn nudge_mentions_file_and_edit() {
    let calls = vec![call("write", r#"{"file_path":"/etc/hosts","content":"x"}"#)];
    let Precondition::Failed { nudge } = ruling(&calls, &none()) else {
        panic!("expected Failed");
    };
    assert!(nudge.contains("/etc/hosts"));
    assert!(nudge.contains("edit"));
}

#[test]
fn write_to_directory_gives_directory_nudge() {
    let calls = vec![call("Write", r#"{"file_path":"/tmp","content":"x"}"#)];
    let Precondition::Failed { nudge } = ruling(&calls, &none()) else {
        panic!("expected Failed");
    };
    assert!(nudge.contains("directory"));
    assert!(nudge.contains("/tmp"));
}

#[test]
fn write_to_new_file_passes_even_with_a_legible_transcript() {
    let messages = vec![assistant_call("Read", json(r#"{"file_path": "/etc/passwd"}"#))];
    let calls = vec![call(
        "Write",
        &format!(r#"{{"file_path":"{MISSING}","content":"x"}}"#),
    )];
    assert!(matches!(
        ruling(&calls, &Transcript::of(&messages)),
        Precondition::Passed
    ));
}


#[test]
fn edit_without_a_prior_read_fails() {
    let messages = vec![assistant_call("Grep", json(r#"{"pattern": "fn main"}"#))];
    let calls = vec![call(
        "Edit",
        r#"{"file_path":"/etc/hosts","old_string":"a","new_string":"b"}"#,
    )];
    let Precondition::Failed { nudge } = ruling(&calls, &Transcript::of(&messages)) else {
        panic!("expected Failed");
    };
    assert!(nudge.contains("/etc/hosts"));
    assert!(nudge.contains("not been read"));
}

#[test]
fn edit_after_reading_the_same_path_passes() {
    let messages = vec![
        assistant_call("Read", json(r#"{"file_path": "/etc/hosts"}"#)),
        json(r#"{"role": "tool", "tool_call_id": "call_1", "content": "127.0.0.1 localhost"}"#),
    ];
    let calls = vec![call(
        "Edit",
        r#"{"file_path":"/etc/hosts","old_string":"a","new_string":"b"}"#,
    )];
    assert!(matches!(
        ruling(&calls, &Transcript::of(&messages)),
        Precondition::Passed
    ));
}

#[test]
fn reading_a_different_path_does_not_license_the_edit() {
    let messages = vec![assistant_call("Read", json(r#"{"file_path": "/etc/passwd"}"#))];
    let calls = vec![call(
        "Edit",
        r#"{"file_path":"/etc/hosts","old_string":"a","new_string":"b"}"#,
    )];
    assert!(matches!(
        ruling(&calls, &Transcript::of(&messages)),
        Precondition::Failed { .. }
    ));
}

#[test]
fn grep_does_not_count_as_a_read() {
    let messages = vec![assistant_call(
        "Grep",
        json(r#"{"path": "/etc/hosts", "pattern": "x"}"#),
    )];
    let calls = vec![call(
        "Edit",
        r#"{"file_path":"/etc/hosts","old_string":"a","new_string":"b"}"#,
    )];
    assert!(matches!(
        ruling(&calls, &Transcript::of(&messages)),
        Precondition::Failed { .. }
    ));
}

#[test]
fn responses_function_call_items_are_scanned() {
    let messages = vec![responses_call("read", json(r#"{"path": "/etc/hosts"}"#))];
    let calls = vec![call(
        "edit",
        r#"{"path":"/etc/hosts","old_string":"a","new_string":"b"}"#,
    )];
    assert!(matches!(
        ruling(&calls, &Transcript::of(&messages)),
        Precondition::Passed
    ));
}

#[test]
fn every_edit_family_tool_is_guarded() {
    let messages = vec![assistant_call("Grep", json(r#"{"pattern": "x"}"#))];
    let transcript = Transcript::of(&messages);
    for tool in edit_tools() {
        let calls = vec![call(tool, r#"{"file_path":"/etc/hosts","old_string":"a"}"#)];
        assert!(
            matches!(ruling(&calls, &transcript), Precondition::Failed { .. }),
            "{tool} was not guarded"
        );
    }
}


#[test]
fn edit_passes_when_the_transcript_is_unavailable() {
    let calls = vec![call(
        "Edit",
        r#"{"file_path":"/etc/hosts","old_string":"a","new_string":"b"}"#,
    )];
    assert!(matches!(ruling(&calls, &none()), Precondition::Passed));
}

#[test]
fn edit_passes_when_the_transcript_shows_no_tool_traffic() {
    let messages = vec![
        json(r#"{"role": "system", "content": "You are a helpful assistant."}"#),
        json(r#"{"role": "user", "content": "fix the hosts file"}"#),
    ];
    let transcript = Transcript::of(&messages);
    assert!(!transcript.legible());
    let calls = vec![call(
        "Edit",
        r#"{"file_path":"/etc/hosts","old_string":"a","new_string":"b"}"#,
    )];
    assert!(matches!(ruling(&calls, &transcript), Precondition::Passed));
}

#[test]
fn any_recognised_tool_call_makes_the_transcript_legible() {
    let messages = vec![assistant_call("Bash", json(r#"{"command": "ls"}"#))];
    assert!(Transcript::of(&messages).legible());
}

#[test]
fn edit_of_a_missing_file_is_left_to_the_harness() {
    let messages = vec![assistant_call("Grep", json(r#"{"pattern": "x"}"#))];
    let calls = vec![call(
        "Edit",
        &format!(r#"{{"file_path":"{MISSING}","old_string":"a"}}"#),
    )];
    assert!(matches!(
        ruling(&calls, &Transcript::of(&messages)),
        Precondition::Passed
    ));
}

#[test]
fn a_call_with_no_path_argument_is_ignored() {
    let messages = vec![assistant_call("Bash", json(r#"{"command": "ls"}"#))];
    let calls = vec![call("Edit", r#"{"old_string":"a","new_string":"b"}"#)];
    assert!(matches!(
        ruling(&calls, &Transcript::of(&messages)),
        Precondition::Passed
    ));
}

#[test]
fn unparseable_arguments_are_ignored() {
    let messages = vec![assistant_call("Bash", json(r#"{"command": "ls"}"#))];
    let calls = vec![call("Edit", "{not json")];
    assert!(matches!(
        ruling(&calls, &Transcript::of(&messages)),
        Precondition::Passed
    ));
}


#[test]
fn several_calls_in_one_assistant_turn_are_all_scanned() {
    let first = quoted(&json(r#"{"file_path": "/etc/passwd"}"#));
    let second = quoted(&json(r#"{"file_path": "/etc/hosts"}"#));
    let messages = vec![json(&format!(
        r#"{{"role": "assistant", "content": null, "tool_calls": [
            {{"id": "a", "type": "function", "function": {{"name": "Read", "arguments": {first}}}}},
            {{"id": "b", "type": "function", "function": {{"name": "Read", "arguments": {second}}}}}
        ]}}"#
    ))];
    let transcript = Transcript::of(&messages);
    assert!(transcript.has_read("/etc/passwd"));
    assert!(transcript.has_read(EXISTING));
}

#[test]
fn malformed_transcript_entries_are_skipped_not_fatal() {
    let messages = vec![
        json(r#""just a string""#),
        json(r#"{"role": "assistant", "tool_calls": "not an array"}"#),
        json(r#"{"role": "assistant", "tool_calls": [{"id": "x"}]}"#),
        assistant_call("Read", json(r#"{"file_path": "/etc/hosts"}"#)),
    ];
    let transcript = Transcript::of(&messages);
    assert!(transcript.legible());
    assert!(transcript.has_read(EXISTING));
}
