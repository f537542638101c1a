use guardrail::application::chat::{self, ChatSession};
use guardrail::application::models::{
    dispatch_chat, dispatch_responses, hidden_model_body, merge_models, read_models, rewrite_model,
    Dispatch,
};
use guardrail::application::plan::{plan_chat, plan_responses, Plan};
use guardrail::application::responses::{self, ResponsesSession};
use guardrail::application::ruling::{passthrough_record, Failure, Step};
use guardrail::application::wire::{
    completed_line, event_line, failure_line, json_to_sse, responses_sse_to_json, sse_chunks_to_json,
    to_sse_chunk, value_line,
};
use guardrail::domain::guardrails::Guardrails;
use guardrail::domain::metrics::{Outcome, OutcomeRecord};
use guardrail::domain::model::ChatRequest;
use guardrail::domain::precondition::PathKind;
use guardrail::domain::provider::Provider;
use guardrail::domain::registry::Registry;
use guardrail::domain::responses::ResponsesRequest;
use guardrail::domain::responses_sse::assemble_responses_stream;
use guardrail::domain::sse::{assemble_stream, end_at, parse_sse_line, Completion, StreamItem};
use guardrail::domain::validate::ErrorCategory;
use guardrail::json::{parse, render, Json};

fn json(text: &str) -> Json {
    parse(text).expect("valid JSON")
}

fn at(value: &Json, path: &str) -> Json {
    let mut here = value.clone();
    for step in path.split('/') {
        let next = match step.parse::<usize>() {
            Ok(i) => here.as_array().and_then(|a| a.get(i)).cloned(),
            Err(_) => here.get(step).cloned(),
        };
        here = next.unwrap_or(Json::Null);
    }
    here
}

fn string(s: &str) -> Json {
    Json::Str(s.to_string())
}

fn quoted(s: &str) -> String {
    render(&string(s))
}

const TOOLS: &str = r#"[{"type": "function", "function": {"name": "get_weather", "parameters": {
    "type": "object",
    "properties": {"city": {"type": "string"}, "days": {"type": "integer"}},
    "required": ["city"]}}},
    {"type": "function", "function": {"name": "Write", "parameters": {"type": "object"}}}]"#;

fn chat_request(rest: &str) -> ChatRequest {
    ChatRequest::from_json(&json(&format!(
        r#"{{"model": "m", "messages": [{{"role": "user", "content": "hi"}}], "tools": {TOOLS}{rest}}}"#
    )))
    .expect("a request")
}

fn session(max_retries: u32) -> ChatSession {
    ChatSession::new(
        chat_request(""),
        "default",
        Guardrails { max_retries, match_conversations: false },
    )
}

/// The stream of an answer that calls one tool.
fn call_stream(name: &str, arguments: &str) -> Vec<StreamItem> {
    let arguments = quoted(arguments);
    lines(&[&format!(
        r#"data: {{"id": "c1", "choices": [{{"index": 0, "delta": {{"tool_calls": [{{"index": 0,
            "id": "call_1", "type": "function",
            "function": {{"name": "{name}", "arguments": {arguments}}}}}]}}}}],
            "usage": {{"prompt_tokens": 10, "completion_tokens": 2}}}}"#
    )
    .replace('\n', " ")])
}

/// The stream of an answer in text.
fn text_stream(text: &str) -> Vec<StreamItem> {
    let content = quoted(text);
    lines(&[&format!(
        r#"data: {{"id": "c1", "choices": [{{"index": 0, "delta": {{"content": {content}}}}}]}}"#
    )])
}

fn lines(list: &[&str]) -> Vec<StreamItem> {
    let mut items: Vec<StreamItem> =
        list.iter().map(|line| StreamItem::Line(line.to_string())).collect();
    items.push(StreamItem::Line("data: [DONE]".to_string()));
    items.push(StreamItem::Eof);
    items
}

fn answer(session: &mut ChatSession, items: &[StreamItem], native: bool, kind: PathKind) -> Step {
    let (assembled, usage, completion, _) = assemble_stream(items);
    let kinds = vec![kind; chat::calls_in_answer(&assembled).len()];
    session.on_answer(assembled, usage, &completion, native, &kinds, "2026-08-22T10:00:00.000Z")
}

fn done(step: Step) -> (OutcomeRecord, Json) {
    match step {
        Step::Done { record, body } => (record, body.expect("a body")),
        other => panic!("expected an end, got {other:?}"),
    }
}

#[test]
fn a_valid_native_call_is_sent_on() {
    let mut session = session(2);
    let step =
        answer(&mut session, &call_stream("get_weather", r#"{"city":"Paris"}"#), true, PathKind::Missing);
    let (record, body) = done(step);
    assert_eq!(record.outcome, Outcome::NativeValid);
    assert_eq!(record.tool_name.as_deref(), Some("get_weather"));
    assert_eq!(record.usage.unwrap().prompt_tokens, 10);
    assert_eq!(record.retries, 0);
    let call = at(&body, "choices/0/message/tool_calls/0");
    assert_eq!(at(&call, "id"), string("call_1"));
    assert_eq!(at(&call, "function/arguments"), string(r#"{"city":"Paris"}"#));
}

#[test]
fn a_mistyped_argument_is_repaired() {
    let mut session = session(2);
    let items = call_stream("get_weather", r#"{"City":"Paris","days":"3"}"#);
    let (record, body) = done(answer(&mut session, &items, true, PathKind::Missing));
    assert_eq!(record.outcome, Outcome::Repaired);
    assert_eq!(
        at(&body, "choices/0/message/tool_calls/0/function/arguments"),
        string(r#"{"city":"Paris","days":3}"#)
    );
}

#[test]
fn a_call_written_as_text_is_rescued() {
    let mut session = session(2);
    let items = text_stream(
        "Let me look.\n<tool_call>{\"name\": \"get_weather\", \"arguments\": {\"city\": \"Paris\"}}</tool_call>",
    );
    let (record, body) = done(answer(&mut session, &items, false, PathKind::Missing));
    assert_eq!(record.outcome, Outcome::Rescued);
    assert_eq!(record.parser.as_deref(), Some("qwen"));
    assert_eq!(at(&body, "choices/0/message/tool_calls/0/function/name"), string("get_weather"));
    assert_eq!(at(&body, "choices/0/message/content"), string("Let me look."));
}

#[test]
fn an_invalid_call_is_retried_and_then_given_up() {
    let mut session = session(1);
    let bad = call_stream("get_weather", r#"{"place":"secret-city"}"#);
    assert!(matches!(answer(&mut session, &bad, true, PathKind::Missing), Step::Again));
    let body = json(&session.body());
    let messages = at(&body, "messages");
    assert_eq!(messages.as_array().unwrap().len(), 3, "two turns were added");
    assert!(render(&messages).contains("city"));

    let (record, body) = done(answer(&mut session, &bad, true, PathKind::Missing));
    assert_eq!(record.outcome, Outcome::RetriesExhausted);
    assert_eq!(record.error_category, Some(ErrorCategory::MissingArgument));
    assert_eq!(record.retries, 1);
    assert_eq!(record.usage.unwrap().prompt_tokens, 20, "both attempts are billed");
    assert_eq!(record.usage.unwrap().attempts, 2);
    let detail = record.detail.unwrap();
    assert!(detail.contains("| args: {place: <str:11>}"), "got: {detail}");
    assert!(!detail.contains("secret-city"));
    let content = at(&body, "choices/0/message/content");
    assert!(content.as_str().unwrap().starts_with("The tool call could not be completed after"));
}

#[test]
fn a_retry_that_succeeds_is_recorded_as_such() {
    let mut session = session(2);
    let bad = call_stream("get_weather", "{}");
    assert!(matches!(answer(&mut session, &bad, true, PathKind::Missing), Step::Again));
    assert!(!session.forwards_text(true), "nothing is passed on live after a retry");
    let good = call_stream("get_weather", r#"{"city":"Rome"}"#);
    let (record, _) = done(answer(&mut session, &good, true, PathKind::Missing));
    assert_eq!(record.outcome, Outcome::RecoveredAfterRetry);
    assert_eq!(record.retries, 1);
}

#[test]
fn the_respond_tool_carries_the_final_text() {
    let mut session = session(2);
    let sent = json(&session.body());
    assert_eq!(at(&sent, "tools/2/function/name"), string("respond"));
    assert_eq!(at(&sent, "stream"), json("true"));
    let items = call_stream("respond", r#"{"message":"All done."}"#);
    let (record, body) = done(answer(&mut session, &items, true, PathKind::Missing));
    assert_eq!(record.outcome, Outcome::RespondIntercept);
    assert_eq!(at(&body, "choices/0/message/content"), string("All done."));
}

#[test]
fn a_write_onto_an_existing_file_is_refused() {
    let mut session = session(2);
    let items = call_stream("Write", r#"{"file_path":"/etc/hosts","content":"x"}"#);
    let (record, body) = done(answer(&mut session, &items, true, PathKind::File));
    assert_eq!(record.outcome, Outcome::WriteRefused);
    assert!(!record.outcome.fixed());
    let content = at(&body, "choices/0/message/content");
    assert!(content.as_str().unwrap().contains("/etc/hosts"));
}

#[test]
fn text_that_was_not_passed_on_live_is_sent_at_the_end() {
    let mut buffered = session(2);
    let (record, body) =
        done(answer(&mut buffered, &text_stream("Hello"), false, PathKind::Missing));
    assert_eq!(record.outcome, Outcome::PassthroughNoCalls);
    assert_eq!(at(&body, "choices/0/message/content"), string("Hello"));

    let mut live = session(2);
    match answer(&mut live, &text_stream("Hello"), true, PathKind::Missing) {
        Step::Done { body, .. } => assert!(body.is_none(), "it was passed on live"),
        other => panic!("expected an end, got {other:?}"),
    }
}

#[test]
fn a_call_in_the_text_beside_an_unknown_one_is_recovered() {
    let mut session = session(2);
    let content = quoted("<tool_call>{\"name\": \"get_weather\", \"arguments\": {\"city\": \"Oslo\"}}</tool_call>");
    let items = lines(&[
        &format!(r#"data: {{"id": "c1", "choices": [{{"index": 0, "delta": {{"content": {content}}}}}]}}"#),
        r#"data: {"id": "c1", "choices": [{"index": 0, "delta": {"tool_calls": [{"index": 0, "id": "x", "function": {"name": "root", "arguments": "{}"}}]}}]}"#,
    ]);
    let (record, body) = done(answer(&mut session, &items, false, PathKind::Missing));
    assert_eq!(record.outcome, Outcome::Rescued);
    assert_eq!(at(&body, "choices/0/message/tool_calls/0/function/name"), string("get_weather"));
}

#[test]
fn conversations_are_hashed_only_where_they_are_matched() {
    let items = text_stream("Hello");
    let mut off = session(2);
    let (record, _) = done(answer(&mut off, &items, false, PathKind::Missing));
    assert!(record.prefix_chain.is_none());
    let mut on = ChatSession::new(
        chat_request(""),
        "default",
        Guardrails { max_retries: 2, match_conversations: true },
    );
    let (record, _) = done(answer(&mut on, &items, false, PathKind::Missing));
    assert_eq!(record.prefix_chain.unwrap().len(), 1);
}

#[test]
fn failures_are_told_apart() {
    let session = session(2);
    let ts = "2026-08-22T10:00:00.000Z";
    let refused = session.on_failure(&Failure::Refused { status: "429 Too Many Requests".into() }, ts);
    assert_eq!(refused.outcome, Outcome::InternalError);
    assert_eq!(refused.detail.as_deref(), Some("backend returned 429 Too Many Requests"));
    let silent = session.on_failure(&Failure::NoAnswer { status: "502 Bad Gateway".into() }, ts);
    assert_eq!(silent.outcome, Outcome::BackendError);
    let strange = session.on_failure(&Failure::NotJson, ts);
    assert_eq!(strange.outcome, Outcome::NonJson);
    assert_eq!(strange.detail, None);
    assert_eq!(strange.ts, ts);
}

/// A stream whose end is replaced by a failure.
fn broken(mut items: Vec<StreamItem>) -> Vec<StreamItem> {
    while !matches!(items.last(), Some(StreamItem::Line(line)) if line != "data: [DONE]") {
        items.pop();
    }
    items.push(StreamItem::Failed("connection reset".to_string()));
    items
}

#[test]
fn half_a_call_is_no_call() {
    let mut session = session(2);
    let items = broken(call_stream("get_weather", r#"{"city":"Paris"}"#));
    match answer(&mut session, &items, true, PathKind::Missing) {
        Step::Broken { record, event } => {
            assert_eq!(record.outcome, Outcome::BackendError);
            assert_eq!(record.detail.as_deref(), Some("backend stream failed: connection reset"));
            assert_eq!(record.usage.unwrap().prompt_tokens, 10, "the attempt is billed");
            assert_eq!(at(&event, "error/type"), string("upstream_error"));
            let line = event_line(&event);
            assert_eq!(parse_sse_line(line.trim_end()), Some(event));
        }
        other => panic!("expected a failure, got {other:?}"),
    }
}

#[test]
fn half_a_sentence_is_no_answer() {
    let mut buffered = session(2);
    let items = broken(text_stream("The answer is"));
    assert!(matches!(answer(&mut buffered, &items, false, PathKind::Missing), Step::Broken { .. }));
    let mut responses = responses_session(1);
    let items = broken(lines(&[r#"data: {"type":"response.output_text.delta","delta":"Hel"}"#]));
    match responses_answer(&mut responses, &items) {
        Step::Broken { record, .. } => assert!(record.conversation.is_none()),
        other => panic!("expected a failure, got {other:?}"),
    }
}

#[test]
fn a_stream_goes_on_until_it_is_told_to_end() {
    assert_eq!(end_at(Some(&StreamItem::Line(String::new()))), None);
    assert_eq!(end_at(Some(&StreamItem::Eof)), Some(Completion::Complete));
    assert_eq!(
        end_at(Some(&StreamItem::Failed("x".into()))),
        Some(Completion::Truncated("x".into()))
    );
    assert!(end_at(None).unwrap().is_truncated());
}

// ── responses ───────────────────────────────────────────────────────────────

fn responses_session(max_retries: u32) -> ResponsesSession {
    let request = ResponsesRequest::from_json(&json(
        r#"{"model": "m", "input": "hi", "previous_response_id": "resp_0", "tools": [
            {"type": "function", "name": "get_weather", "parameters": {"type": "object",
             "properties": {"city": {"type": "string"}}, "required": ["city"]}}]}"#,
    ))
    .unwrap();
    ResponsesSession::new(
        request,
        "default",
        Guardrails { max_retries, match_conversations: true },
    )
}

fn responses_call(arguments: &str, id: &str) -> Vec<StreamItem> {
    let arguments = quoted(arguments);
    lines(&[
        r#"data: {"type":"response.output_item.added","output_index":0,"item":{"type":"function_call","call_id":"call_1","name":"get_weather"}}"#,
        &format!(r#"data: {{"type":"response.function_call_arguments.delta","output_index":0,"delta":{arguments}}}"#),
        &format!(r#"data: {{"type":"response.completed","response":{{"id":"{id}","output":[],"usage":{{"input_tokens":5,"output_tokens":1}}}}}}"#),
    ])
}

fn responses_answer(session: &mut ResponsesSession, items: &[StreamItem]) -> Step {
    let (assembled, usage, completion, _) = assemble_responses_stream(items);
    let kinds = vec![PathKind::Missing; responses::calls_in_answer(&assembled).len()];
    session.on_answer(assembled, usage, &completion, &kinds, "2026-08-22T10:00:00.000Z")
}

#[test]
fn a_responses_call_is_guarded_and_chained() {
    let mut session = responses_session(1);
    let step = responses_answer(&mut session, &responses_call("{}", "resp_1"));
    assert!(matches!(step, Step::Again));
    let sent = json(&session.body());
    assert_eq!(at(&sent, "input").as_array().unwrap().len(), 3);
    assert_eq!(at(&sent, "input/0/content"), string("hi"));
    assert_eq!(at(&sent, "tools/1/name"), string("respond"));

    let items = responses_call(r#"{"city":"Paris"}"#, "resp_2");
    let (record, body) = done(responses_answer(&mut session, &items));
    assert_eq!(record.outcome, Outcome::RecoveredAfterRetry);
    let conversation = record.conversation.unwrap();
    assert_eq!(conversation.id, "resp_2", "the id of the answer that was delivered");
    assert_eq!(conversation.parent.as_deref(), Some("resp_0"));
    assert!(record.prefix_chain.is_none(), "the API names its own turns");
    assert_eq!(record.usage.unwrap().prompt_tokens, 10);
    assert_eq!(at(&body, "output/0/arguments"), string(r#"{"city":"Paris"}"#));
}

#[test]
fn a_responses_text_is_answered_by_its_own_lines() {
    let mut session = responses_session(1);
    let items = lines(&[
        r#"data: {"type":"response.output_text.delta","delta":"Hello"}"#,
        r#"data: {"type":"response.completed","response":{"id":"resp_1","output":[]}}"#,
    ]);
    match responses_answer(&mut session, &items) {
        Step::Done { record, body } => {
            assert_eq!(record.outcome, Outcome::PassthroughNoCalls);
            assert_eq!(record.conversation.unwrap().id, "resp_1");
            assert_eq!(body, None);
        }
        _ => panic!("the session ends on a plain text"),
    }

    // A client that asked for no stream gets what the lines add up to.
    let gathered = responses_sse_to_json(
        "data: {\"type\":\"response.output_text.delta\",\"delta\":\"Hello\"}\n\n",
    );
    assert_eq!(at(&gathered, "output/0/content/0/text"), string("Hello"));
    assert_eq!(at(&gathered, "id"), string("guardrail-0"));
}

// ── the wire ────────────────────────────────────────────────────────────────

#[test]
fn a_response_becomes_a_chunk_and_back() {
    let body = json(
        r#"{"id": "c1", "object": "chat.completion", "choices": [{"index": 0, "message": {
            "role": "assistant", "content": null, "tool_calls": [{"id": "call_1",
            "type": "function", "function": {"name": "f", "arguments": "{}"}}]}}]}"#,
    );
    let line = to_sse_chunk(&body);
    assert!(line.starts_with("data: ") && line.ends_with("\n\n"));
    let chunk = parse_sse_line(line.trim_end()).unwrap();
    assert_eq!(at(&chunk, "object"), string("chat.completion.chunk"));
    assert_eq!(at(&chunk, "choices/0/delta/tool_calls/0/index"), json("0"));

    let back = sse_chunks_to_json(&line);
    assert_eq!(at(&back, "object"), string("chat.completion"));
    assert_eq!(at(&back, "choices/0/message/tool_calls/0/function/name"), string("f"));
}

#[test]
fn text_of_all_chunks_is_gathered() {
    let sse = "data: {\"id\":\"c\",\"choices\":[{\"delta\":{\"content\":\"Hel\"}}]}\n\n\
               data: {\"id\":\"c\",\"choices\":[{\"delta\":{\"content\":\"lo\"}}]}\n\ndata: [DONE]\n\n";
    let body = sse_chunks_to_json(sse);
    assert_eq!(at(&body, "choices/0/message/content"), string("Hello"));
    assert_eq!(sse_chunks_to_json("data: [DONE]\n\n"), Json::Null);
}

#[test]
fn a_value_that_is_no_response_makes_a_blank_chunk() {
    let line = value_line(&Json::Null);
    let chunk = parse_sse_line(line.trim_end()).unwrap();
    assert_eq!(at(&chunk, "id"), string("guardrail-0"));
    assert_eq!(at(&chunk, "choices"), json("[]"));
}

#[test]
fn a_failure_is_told_inside_the_stream() {
    let line = failure_line("429 Too Many Requests", 429);
    let event = parse_sse_line(line.trim_end()).unwrap();
    assert_eq!(
        at(&event, "error/message"),
        string("The upstream provider returned 429 Too Many Requests.")
    );
    assert_eq!(at(&event, "error/type"), string("upstream_error"));
    assert_eq!(at(&event, "error/code"), json("429"));
}

#[test]
fn a_json_answer_becomes_a_stream() {
    let sse = json_to_sse(r#"{"id": "c", "choices": [{"message": {"content": "hi"}}]}"#);
    let first = sse.lines().next().unwrap();
    let chunk = parse_sse_line(first).unwrap();
    assert_eq!(at(&chunk, "choices/0/delta/content"), string("hi"));
    assert!(sse.ends_with("data: [DONE]\n\n"));
    assert_eq!(json_to_sse("not json"), "data: [DONE]\n\n");
}

#[test]
fn the_last_completed_response_is_returned() {
    let mut sse = completed_line(&json(r#"{"id": "first"}"#));
    sse.push_str(&completed_line(&json(r#"{"id": "second"}"#)));
    assert_eq!(at(&responses_sse_to_json(&sse), "id"), string("second"));
    let deltas = "data: {\"type\":\"response.output_text.delta\",\"delta\":\"a\"}\n\n\
                  data: {\"type\":\"response.output_text.delta\",\"delta\":\"b\"}\n\n";
    assert_eq!(at(&responses_sse_to_json(deltas), "output/0/content/0/text"), string("ab"));
}

// ── models ──────────────────────────────────────────────────────────────────

fn registry() -> Registry {
    let mut registry = Registry::new(vec![
        Provider::new("alpha", "http://127.0.0.1:1"),
        Provider::new("beta", "http://127.0.0.1:2"),
    ])
    .unwrap();
    registry.route("m", "alpha");
    registry.hide_model("secret", "beta");
    registry
}

#[test]
fn requests_are_dispatched_by_model_and_tools() {
    let registry = registry();
    assert_eq!(dispatch_chat(&registry, None), Dispatch::Relay);
    assert_eq!(dispatch_chat(&registry, Some(&chat_request(""))), Dispatch::Guard);
    let plain = ChatRequest::from_json(&json(
        r#"{"model": "m", "messages": [], "stream": true, "tools": []}"#,
    ))
    .unwrap();
    assert_eq!(dispatch_chat(&registry, Some(&plain)), Dispatch::Forward { streams: true });
    let hidden = ResponsesRequest::from_json(&json(r#"{"model": "secret", "input": "x"}"#)).unwrap();
    assert_eq!(dispatch_responses(&registry, Some(&hidden)), Dispatch::Refuse);
    assert_eq!(
        at(&hidden_model_body("secret"), "error/message"),
        string("The model `secret` is not exposed by this proxy.")
    );
    let record = passthrough_record("2026-08-22T10:00:00.000Z", "alpha", "m", true);
    assert_eq!(record.outcome, Outcome::StreamedPassthrough);
    let record = passthrough_record("2026-08-22T10:00:00.000Z", "alpha", "m", false);
    assert_eq!(record.outcome, Outcome::NonToolPassthrough);
}

#[test]
fn models_are_merged_without_hidden_or_repeated_ones() {
    let registry = registry();
    let models = |text: &str| read_models(text);
    let answers = vec![
        ("alpha".to_string(), models(r#"{"data": [{"id": "m"}, {"id": "n"}]}"#)),
        ("beta".to_string(), models(r#"{"data": [{"id": "m"}, {"id": "secret"}, {"id": "o"}]}"#)),
    ];
    let body = merge_models(&registry, &answers).unwrap();
    let listed: Vec<(String, String)> = at(&body, "data")
        .as_array()
        .unwrap()
        .iter()
        .map(|m| {
            let id = m.get("id").unwrap().as_str().unwrap().to_string();
            (id, m.get("provider").unwrap().as_str().unwrap().to_string())
        })
        .collect();
    let expected = [("m", "alpha"), ("n", "alpha"), ("o", "beta")];
    let expected: Vec<(String, String)> =
        expected.iter().map(|(a, b)| (a.to_string(), b.to_string())).collect();
    assert_eq!(listed, expected);

    let none = vec![("alpha".to_string(), models("oops")), ("beta".to_string(), models("{}"))];
    assert!(merge_models(&registry, &none).is_none());
}

fn ids_listed(registry: &Registry, answers: &[(&str, &str)]) -> Vec<(String, String)> {
    let answers: Vec<(String, Option<Vec<Json>>)> =
        answers.iter().map(|(name, body)| (name.to_string(), read_models(body))).collect();
    let body = merge_models(registry, &answers).unwrap();
    at(&body, "data")
        .as_array()
        .unwrap()
        .iter()
        .map(|m| {
            let text = |name: &str| m.get(name).unwrap().as_str().unwrap().to_string();
            (text("id"), text("provider"))
        })
        .collect()
}

#[test]
fn an_id_that_would_be_refused_is_not_listed() {
    let mut registry = Registry::new(vec![
        Provider::new("alpha", "http://127.0.0.1:1"),
        Provider::new("beta", "http://127.0.0.1:2"),
    ])
    .unwrap();
    registry.hide_model("x", "alpha");
    assert!(registry.is_hidden("x"));
    let list = r#"{"data": [{"id": "x"}]}"#;
    assert!(ids_listed(&registry, &[("alpha", list), ("beta", list)]).is_empty());
}

#[test]
fn an_id_is_listed_under_the_provider_that_serves_it() {
    let mut registry = Registry::new(vec![
        Provider::new("alpha", "http://127.0.0.1:1"),
        Provider::new("beta", "http://127.0.0.1:2"),
    ])
    .unwrap();
    registry.route("x", "beta");
    assert_eq!(registry.resolve(Some("x")).name(), "beta");
    let list = r#"{"data": [{"id": "x"}]}"#;
    let served = vec![("x".to_string(), "beta".to_string())];
    assert_eq!(ids_listed(&registry, &[("alpha", list), ("beta", list)]), served);
    assert_eq!(
        ids_listed(&registry, &[("alpha", list), ("beta", r#"{"data": []}"#)]),
        vec![("x".to_string(), "alpha".to_string())],
        "it is not lost where its own provider does not list it"
    );
}

#[test]
fn a_qualified_model_is_rewritten_for_its_provider() {
    let body = json(r#"{"model": "beta/m", "temperature": 0.5}"#);
    let out = rewrite_model(&body, "m");
    assert_eq!(out, json(r#"{"model": "m", "temperature": 0.5}"#));
}

#[test]
fn a_request_is_planned_from_its_body() {
    let registry = registry();
    let ts = "2026-08-22T10:00:00.000Z";
    let tools = format!(r#"{{"model": "beta/x", "messages": [], "stream": true, "tools": {TOOLS}}}"#);
    match plan_chat(&registry, true, &tools, ts) {
        Plan::Guard { provider, request, streams } => {
            assert_eq!(provider.name(), "beta");
            assert_eq!(request.model, "x", "the qualifier is the proxy's own");
            assert!(streams);
        }
        other => panic!("expected a guarded request, got {other:?}"),
    }
    match plan_chat(&registry, true, r#"{"model": "beta/x", "messages": []}"#, ts) {
        Plan::Forward { provider, body, record } => {
            assert_eq!(provider.name(), "beta");
            assert_eq!(body.as_deref(), Some(r#"{"messages":[],"model":"x"}"#));
            assert_eq!(record.model, "x");
            assert_eq!(record.outcome, Outcome::NonToolPassthrough);
        }
        other => panic!("expected a forwarded request, got {other:?}"),
    }
    match plan_chat(&registry, true, r#"{"model": "m", "messages": []}"#, ts) {
        Plan::Forward { body, .. } => assert_eq!(body, None, "it goes as it arrived"),
        other => panic!("expected a forwarded request, got {other:?}"),
    }
    match plan_responses(&registry, true, r#"{"model": "secret", "input": "x"}"#, ts) {
        Plan::Refuse { told } => assert_eq!(at(&told, "error/code"), string("model_not_found")),
        other => panic!("expected a refusal, got {other:?}"),
    }
    for (posted, body) in [(false, r#"{"model": "secret", "input": "x"}"#), (true, "not json")] {
        match plan_responses(&registry, posted, body, ts) {
            Plan::Relay { provider } => assert_eq!(provider.name(), "alpha"),
            other => panic!("expected a relay, got {other:?}"),
        }
    }
}

#[test]
fn a_body_that_names_a_member_twice_is_no_request() {
    let registry = registry();
    let ts = "2026-08-22T10:00:00.000Z";
    for body in [
        r#"{"model": "secret", "messages": [], "model": "m"}"#,
        r#"{"model": "m", "messages": [], "mod\u0065l": "m"}"#,
        r#" {"messages":[{"a":"}, \"model\": {"}],"messages":[],"model":"m"} "#,
        r#"{"model": "m", "messages": [], "tools": null, "tools": []}"#,
        r#"{"model": "m", "messages": [], "tools": [{"type": "function", "type": "function", "function": {"name": "f"}}]}"#,
        r#"{"model": "m", "messages": [], "tools": [{"type": "function", "function": {"name": "f", "name": "g"}}]}"#,
    ] {
        assert!(matches!(plan_chat(&registry, true, body, ts), Plan::Relay { .. }), "{body}");
    }
    for body in [
        r#"{"model": "m", "messages": [{"model": 1, "model": 2}], "x": {"model": 3}, "x": 4}"#,
        r#"{"model": "m", "messages": [], "user": "\"model\": \"m\", \"model\": \"m\""}"#,
    ] {
        assert!(matches!(plan_chat(&registry, true, body, ts), Plan::Forward { .. }), "{body}");
    }
    let twice = r#"{"model": "m", "input": "x", "model": "m"}"#;
    assert!(matches!(plan_responses(&registry, true, twice, ts), Plan::Relay { .. }));
    let input = r#"{"model": "m", "input": "x", "input": "y"}"#;
    assert!(matches!(plan_responses(&registry, true, input, ts), Plan::Forward { .. }));
}
