//! Tool calls as the guardrails see them, and the Chat Completions shape they
//! are read from and written to.
use vstd::prelude::*;

use super::rescue::arguments_text;
use crate::json::{
    field, field_of, items_in, items_of_value, render, seen, text_in, text_of_value, views, Json,
    JsonObject, JsonView,
};
use crate::text::{decimal, decimal_text};

verus! {

/// One tool call, in neither API's wire shape.
#[derive(Debug, PartialEq, Eq)]
pub struct ToolCall {
    pub id: Option<String>,
    pub name: String,
    /// The arguments as JSON text.
    pub arguments: String,
}

/// A tool call by the views of its texts.
#[verifier::ext_equal]
pub struct CallView {
    pub id: Option<Seq<char>>,
    pub name: Seq<char>,
    pub arguments: Seq<char>,
}

/// An optional owned text by its view.
pub open spec fn owned_text(text: Option<String>) -> Option<Seq<char>> {
    match text {
        Some(t) => Some(t@),
        None => None,
    }
}

/// An equal optional text.
pub fn copy_text(text: &Option<String>) -> (copy: Option<String>)
    ensures
        owned_text(copy) == owned_text(*text),
{
    match text {
        Some(t) => Some(t.clone()),
        None => None,
    }
}

/// An optional borrowed text, owned.
pub fn own_text(text: Option<&str>) -> (copy: Option<String>)
    ensures
        owned_text(copy) == crate::json::seen_text(text),
{
    match text {
        Some(t) => Some(t.to_owned()),
        None => None,
    }
}

impl View for ToolCall {
    type V = CallView;

    open spec fn view(&self) -> CallView {
        CallView { id: owned_text(self.id), name: self.name@, arguments: self.arguments@ }
    }
}

/// Calls by their views.
pub open spec fn call_views(calls: Seq<ToolCall>) -> Seq<CallView> {
    calls.map_values(|c: ToolCall| c@)
}

impl Clone for ToolCall {
    fn clone(&self) -> (copy: Self)
        ensures
            copy@ == self@,
    {
        ToolCall {
            id: copy_text(&self.id),
            name: self.name.clone(),
            arguments: self.arguments.clone(),
        }
    }
}

// ── the Chat Completions shape ──────────────────────────────────────────────

/// The id of the call at a position: its own, or one made of the position.
pub open spec fn call_id(call: CallView, i: int) -> Seq<char> {
    match call.id {
        Some(id) => id,
        None => "call_"@ + decimal(i as nat),
    }
}

/// The id of the call at a position: its own, or one made of the position.
pub fn id_of_call(call: &ToolCall, i: usize) -> (id: String)
    ensures
        id@ == call_id(call@, i as int),
{
    match &call.id {
        Some(id) => id.clone(),
        None => "call_".to_owned().concat(decimal_text(i as u64).as_str()),
    }
}

/// A call as an entry of `tool_calls`.
pub open spec fn call_json(call: CallView, i: int) -> JsonView {
    JsonView::Object(
        map![
            "id"@ => JsonView::Str(call_id(call, i)),
            "type"@ => JsonView::Str("function"@),
            "function"@ => JsonView::Object(
                map![
                    "name"@ => JsonView::Str(call.name),
                    "arguments"@ => JsonView::Str(call.arguments),
                ],
            ),
        ],
    )
}

/// Calls as the `tool_calls` of a message.
pub open spec fn calls_json(calls: Seq<CallView>) -> JsonView {
    JsonView::Array(Seq::new(calls.len(), |i: int| call_json(calls[i], i)))
}

/// Calls as the `tool_calls` of a message.
pub fn canonical_tool_calls(calls: &[ToolCall]) -> (json: Json)
    ensures
        json@ == calls_json(call_views(calls@)),
{
    broadcast use crate::json::array_view;

    let ghost all = call_views(calls@);
    let mut items: Vec<Json> = Vec::new();
    for i in 0..calls.len()
        invariant
            all == call_views(calls@),
            views(items@) == Seq::new(i as nat, |k: int| call_json(all[k], k)),
    {
        let ghost read = views(items@);
        let call = &calls[i];
        let function = JsonObject::new().with("name", Json::text(call.name.as_str())).with(
            "arguments",
            Json::text(call.arguments.as_str()),
        );
        let item = Json::Object(
            JsonObject::new().with("id", Json::Str(id_of_call(call, i))).with(
                "type",
                Json::text("function"),
            ).with("function", Json::Object(function)),
        );
        items.push(item);
        assert(item@ == call_json(all[i as int], i as int));
        assert(views(items@) =~= read.push(item@));
        assert(views(items@) =~= Seq::new((i + 1) as nat, |k: int| call_json(all[k], k)));
    }
    assert(views(items@) =~= Seq::new(all.len(), |k: int| call_json(all[k], k)));
    Json::Array(items)
}

/// What a model answered.
#[derive(Debug, PartialEq)]
pub enum ModelOutput {
    ToolCalls(Vec<ToolCall>),
    Text(String),
}

/// What a model answered, by views.
#[verifier::ext_equal]
pub enum OutputView {
    ToolCalls(Seq<CallView>),
    Text(Seq<char>),
}

impl View for ModelOutput {
    type V = OutputView;

    open spec fn view(&self) -> OutputView {
        match self {
            ModelOutput::ToolCalls(calls) => OutputView::ToolCalls(call_views(calls@)),
            ModelOutput::Text(text) => OutputView::Text(text@),
        }
    }
}

/// The call that an entry of `tool_calls` is; nothing where it names no tool.
pub open spec fn chat_call(item: JsonView) -> Option<CallView> {
    let function = item.get("function"@);
    match text_in(field(function, "name"@)) {
        Some(name) => Some(
            CallView {
                id: text_in(item.get("id"@)),
                name,
                arguments: arguments_text(field(function, "arguments"@)),
            },
        ),
        None => None,
    }
}

/// The calls among the first `n` entries.
pub open spec fn chat_calls(items: Seq<JsonView>, n: int) -> Seq<CallView>
    decreases n,
{
    if n <= 0 {
        Seq::empty()
    } else {
        match chat_call(items[n - 1]) {
            Some(call) => chat_calls(items, n - 1).push(call),
            None => chat_calls(items, n - 1),
        }
    }
}

/// The message of a response's first choice.
pub open spec fn first_message(body: JsonView) -> Option<JsonView> {
    match body.get("choices"@) {
        Some(choices) => field(choices.at(0), "message"@),
        None => None,
    }
}

/// What a Chat Completions response says: its tool calls, or its text where it
/// has none.
pub open spec fn decoded(body: JsonView) -> OutputView {
    let message = first_message(body);
    let calls = match items_in(field(message, "tool_calls"@)) {
        Some(items) => chat_calls(items, items.len() as int),
        None => Seq::empty(),
    };
    if calls.len() > 0 {
        OutputView::ToolCalls(calls)
    } else {
        OutputView::Text(
            match text_in(field(message, "content"@)) {
                Some(text) => text,
                None => Seq::empty(),
            },
        )
    }
}

/// The message of a response's first choice.
pub fn message_of(body: &Json) -> (message: Option<&Json>)
    ensures
        seen(message) == first_message(body@),
{
    match body.get("choices") {
        Some(choices) => field_of(choices.at(0), "message"),
        None => None,
    }
}

/// Reads what a Chat Completions response says.
pub fn decode_response(body: &Json) -> (output: ModelOutput)
    ensures
        output@ == decoded(body@),
{
    let message = message_of(body);
    let mut calls: Vec<ToolCall> = Vec::new();
    assert(call_views(calls@) =~= Seq::empty());
    if let Some(items) = items_of_value(field_of(message, "tool_calls")) {
        for i in 0..items.len()
            invariant
                call_views(calls@) == chat_calls(views(items@), i as int),
        {
            let ghost read = call_views(calls@);
            assert(views(items@)[i as int] == items@[i as int]@);
            let function = items[i].get("function");
            if let Some(name) = text_of_value(field_of(function, "name")) {
                let arguments = match field_of(function, "arguments") {
                    Some(Json::Str(text)) => text.clone(),
                    Some(other) => render(other),
                    None => "{}".to_owned(),
                };
                let call = ToolCall {
                    id: own_text(text_of_value(items[i].get("id"))),
                    name: name.to_owned(),
                    arguments,
                };
                calls.push(call);
                assert(call_views(calls@) =~= read.push(call@));
            }
        }
    }
    if calls.len() > 0 {
        return ModelOutput::ToolCalls(calls);
    }
    match text_of_value(field_of(message, "content")) {
        Some(text) => ModelOutput::Text(text.to_owned()),
        None => ModelOutput::Text(String::new()),
    }
}

/// A response's members apart from its choices: those of the template, if it is
/// an object.
pub open spec fn chat_envelope(template: JsonView) -> Map<Seq<char>, JsonView> {
    (match template {
        JsonView::Object(members) => members.remove("choices"@),
        _ => map!["id"@ => JsonView::Str("guardrail-0"@)],
    }).insert("object"@, JsonView::Str("chat.completion"@))
}

/// A response with one choice.
pub open spec fn chat_response(
    template: JsonView,
    message: Map<Seq<char>, JsonView>,
    reason: Seq<char>,
) -> JsonView {
    JsonView::Object(
        chat_envelope(template).insert(
            "choices"@,
            JsonView::Array(
                seq![
                    JsonView::Object(
                        map![
                            "index"@ => JsonView::Int(0),
                            "message"@ => JsonView::Object(message),
                            "finish_reason"@ => JsonView::Str(reason),
                        ],
                    ),
                ],
            ),
        ),
    )
}

/// A response that answers with text.
pub open spec fn text_response(template: JsonView, text: Seq<char>) -> JsonView {
    chat_response(
        template,
        map!["role"@ => JsonView::Str("assistant"@), "content"@ => JsonView::Str(text)],
        "stop"@,
    )
}

/// A response that answers with tool calls, and with text beside them where
/// there is any.
pub open spec fn calls_response(
    template: JsonView,
    calls: Seq<CallView>,
    text: Seq<char>,
) -> JsonView {
    chat_response(
        template,
        map![
            "role"@ => JsonView::Str("assistant"@),
            "content"@ => if text.len() == 0 {
                JsonView::Null
            } else {
                JsonView::Str(text)
            },
            "tool_calls"@ => calls_json(calls),
        ],
        "tool_calls"@,
    )
}

fn respond_with(template: &Json, message: JsonObject, reason: &str) -> (response: Json)
    ensures
        response@ == chat_response(template@, message@, reason@),
{
    broadcast use crate::json::array_view;

    let envelope = match template {
        Json::Object(members) => members.clone().without("choices"),
        _ => JsonObject::new().with("id", Json::text("guardrail-0")),
    }.with("object", Json::text("chat.completion"));
    let choice = JsonObject::new().with("index", Json::Unsigned(0)).with(
        "message",
        Json::Object(message),
    ).with("finish_reason", Json::text(reason));
    let mut choices: Vec<Json> = Vec::new();
    choices.push(Json::Object(choice));
    assert(views(choices@) =~= seq![JsonView::Object(choice@)]);
    Json::Object(envelope.with("choices", Json::Array(choices)))
}

/// A response shaped like `template` that answers with `text`.
pub fn response_with_text(template: &Json, text: &str) -> (response: Json)
    ensures
        response@ == text_response(template@, text@),
{
    let message = JsonObject::new().with("role", Json::text("assistant")).with(
        "content",
        Json::text(text),
    );
    respond_with(template, message, "stop")
}

/// A response shaped like `template` that answers with `calls`.
pub fn response_with_tool_calls(template: &Json, calls: &[ToolCall]) -> (response: Json)
    ensures
        response@ == calls_response(template@, call_views(calls@), Seq::empty()),
{
    proof {
        reveal_strlit("");
        assert(""@ =~= Seq::<char>::empty());
    }
    response_with_tool_calls_and_text(template, calls, "")
}

/// A response shaped like `template` that answers with `calls`, and with `text`
/// beside them where it is not empty.
pub fn response_with_tool_calls_and_text(
    template: &Json,
    calls: &[ToolCall],
    text: &str,
) -> (response: Json)
    ensures
        response@ == calls_response(template@, call_views(calls@), text@),
{
    let content = if text.is_empty() {
        Json::Null
    } else {
        Json::text(text)
    };
    let message = JsonObject::new().with("role", Json::text("assistant")).with(
        "content",
        content,
    ).with("tool_calls", canonical_tool_calls(calls));
    respond_with(template, message, "tool_calls")
}

// ── laws ────────────────────────────────────────────────────────────────────

/// Calls with every missing id filled in.
pub open spec fn with_ids(calls: Seq<CallView>) -> Seq<CallView> {
    Seq::new(
        calls.len(),
        |i: int|
            CallView {
                id: Some(call_id(calls[i], i)),
                name: calls[i].name,
                arguments: calls[i].arguments,
            },
    )
}

proof fn chat_calls_of_json(calls: Seq<CallView>, n: int)
    requires
        0 <= n <= calls.len(),
    ensures
        chat_calls(calls_json(calls)->Array_0, n) == with_ids(calls).take(n),
    decreases n,
{
    if n > 0 {
        chat_calls_of_json(calls, n - 1);
        reveal_strlit("id");
        reveal_strlit("type");
        reveal_strlit("function");
        reveal_strlit("name");
        reveal_strlit("arguments");
        assert("id"@.len() == 2 && "type"@.len() == 4 && "function"@.len() == 8);
        assert("name"@.len() == 4 && "arguments"@.len() == 9);
        assert(with_ids(calls).take(n) =~= with_ids(calls).take(n - 1).push(with_ids(calls)[n - 1]));
        assert(calls_json(calls)->Array_0[n - 1] == call_json(calls[n - 1], n - 1));
        assert(chat_call(call_json(calls[n - 1], n - 1)) == Some(with_ids(calls)[n - 1]));
    } else {
        assert(with_ids(calls).take(0) =~= Seq::empty());
    }
}

/// Reading back a response built from tool calls gives those calls, each with
/// an id, whatever the template was.
pub proof fn calls_round_trip(template: JsonView, calls: Seq<CallView>, text: Seq<char>)
    requires
        calls.len() > 0,
    ensures
        decoded(calls_response(template, calls, text)) == OutputView::ToolCalls(with_ids(calls)),
{
    reveal_strlit("role");
    reveal_strlit("content");
    reveal_strlit("tool_calls");
    reveal_strlit("index");
    reveal_strlit("message");
    reveal_strlit("finish_reason");
    assert("role"@.len() == 4 && "content"@.len() == 7 && "tool_calls"@.len() == 10);
    assert("index"@.len() == 5 && "message"@.len() == 7 && "finish_reason"@.len() == 13);
    let body = calls_response(template, calls, text);
    assert(body.get("choices"@) is Some);
    let message = first_message(body);
    assert(field(message, "tool_calls"@) == Some(calls_json(calls)));
    chat_calls_of_json(calls, calls.len() as int);
    assert(with_ids(calls).take(calls.len() as int) =~= with_ids(calls));
}

/// Reading back a response built from text gives that text, whatever the
/// template was.
pub proof fn text_round_trip(template: JsonView, text: Seq<char>)
    ensures
        decoded(text_response(template, text)) == OutputView::Text(text),
{
    reveal_strlit("role");
    reveal_strlit("content");
    reveal_strlit("tool_calls");
    reveal_strlit("index");
    reveal_strlit("message");
    reveal_strlit("finish_reason");
    assert("role"@.len() == 4 && "content"@.len() == 7 && "tool_calls"@.len() == 10);
    assert("index"@.len() == 5 && "message"@.len() == 7 && "finish_reason"@.len() == 13);
    let body = text_response(template, text);
    assert(body.get("choices"@) is Some);
    let message = first_message(body);
    assert(field(message, "tool_calls"@) is None);
    assert(field(message, "content"@) == Some(JsonView::Str(text)));
}

proof fn member_names_differ()
    ensures
        "role"@ != "content"@,
        "role"@ != "tool_calls"@,
        "content"@ != "tool_calls"@,
        "index"@ != "message"@,
        "index"@ != "finish_reason"@,
        "message"@ != "finish_reason"@,
        "id"@ != "type"@,
        "id"@ != "function"@,
        "type"@ != "function"@,
        "name"@ != "arguments"@,
        "choices"@ != "object"@,
        "id"@ != "object"@,
        "id"@ != "choices"@,
{
    reveal_strlit("role");
    reveal_strlit("content");
    reveal_strlit("tool_calls");
    reveal_strlit("index");
    reveal_strlit("message");
    reveal_strlit("finish_reason");
    reveal_strlit("id");
    reveal_strlit("type");
    reveal_strlit("function");
    reveal_strlit("name");
    reveal_strlit("arguments");
    reveal_strlit("choices");
    reveal_strlit("object");
    assert("role"@.len() == 4 && "content"@.len() == 7 && "tool_calls"@.len() == 10);
    assert("index"@.len() == 5 && "message"@.len() == 7 && "finish_reason"@.len() == 13);
    assert("id"@.len() == 2 && "type"@.len() == 4 && "function"@.len() == 8);
    assert("name"@.len() == 4 && "arguments"@.len() == 9);
    assert("choices"@.len() == 7 && "object"@.len() == 6);
}

/// Whether a response has one choice, with this message and this reason to end.
pub open spec fn answers_with(
    body: JsonView,
    message: Map<Seq<char>, JsonView>,
    reason: Seq<char>,
) -> bool {
    body.get("choices"@) matches Some(JsonView::Array(choices)) && choices.len() == 1
        && choices[0].get("index"@) == Some(JsonView::Int(0)) && choices[0].get("message"@) == Some(
        JsonView::Object(message),
    ) && choices[0].get("finish_reason"@) == Some(JsonView::Str(reason))
}

/// A response that is built has one choice, the assistant's: the text where there
/// is no call, and else the calls in their order with the text beside them, if
/// any. Why it ended follows from that.
pub proof fn answers_have_one_choice(
    template: JsonView,
    calls: Seq<CallView>,
    text: Seq<char>,
    i: int,
) -> (messages: (Map<Seq<char>, JsonView>, Map<Seq<char>, JsonView>))
    ensures
        answers_with(text_response(template, text), messages.0, "stop"@),
        messages.0.dom() =~= set!["role"@, "content"@],
        messages.0["role"@] == JsonView::Str("assistant"@),
        messages.0["content"@] == JsonView::Str(text),
        answers_with(calls_response(template, calls, text), messages.1, "tool_calls"@),
        messages.1.dom() =~= set!["role"@, "content"@, "tool_calls"@],
        messages.1["role"@] == JsonView::Str("assistant"@),
        text.len() > 0 ==> messages.1["content"@] == JsonView::Str(text),
        text.len() == 0 ==> messages.1["content"@] is Null,
        messages.1["tool_calls"@] matches JsonView::Array(items) && items.len() == calls.len() && (
        0 <= i < calls.len() ==> {
            &&& items[i].get("type"@) == Some(JsonView::Str("function"@))
            &&& items[i].get("id"@) == Some(
                JsonView::Str(
                    match calls[i].id {
                        Some(id) => id,
                        None => "call_"@ + decimal(i as nat),
                    },
                ),
            )
            &&& items[i].get("function"@) matches Some(function) && function.get("name"@) == Some(
                JsonView::Str(calls[i].name),
            ) && function.get("arguments"@) == Some(JsonView::Str(calls[i].arguments))
        }),
{
    member_names_differ();
    let plain =
        map!["role"@ => JsonView::Str("assistant"@), "content"@ => JsonView::Str(text)];
    let full =
        map![
            "role"@ => JsonView::Str("assistant"@),
            "content"@ => if text.len() == 0 {
                JsonView::Null
            } else {
                JsonView::Str(text)
            },
            "tool_calls"@ => calls_json(calls),
        ];
    let a = text_response(template, text)->Object_0["choices"@]->Array_0;
    let b = calls_response(template, calls, text)->Object_0["choices"@]->Array_0;
    assert(a.len() == 1 && b.len() == 1);
    assert(a[0].get("message"@) == Some(JsonView::Object(plain)));
    assert(b[0].get("message"@) == Some(JsonView::Object(full)));
    (plain, full)
}

/// A response that is built keeps every other member of its template: the id, the
/// model, the usage.
pub proof fn answers_keep_the_template(
    template: JsonView,
    calls: Seq<CallView>,
    text: Seq<char>,
    name: Seq<char>,
)
    requires
        name != "choices"@,
        name != "object"@,
    ensures
        template is Object ==> text_response(template, text).get(name) == template.get(name),
        template is Object ==> calls_response(template, calls, text).get(name) == template.get(name),
        text_response(template, text).get("object"@) == Some(JsonView::Str("chat.completion"@)),
        calls_response(template, calls, text).get("object"@) == Some(
            JsonView::Str("chat.completion"@),
        ),
        !(template is Object) ==> text_response(template, text).get("id"@) == Some(
            JsonView::Str("guardrail-0"@),
        ) && calls_response(template, calls, text).get("id"@) == Some(
            JsonView::Str("guardrail-0"@),
        ),
{
    member_names_differ();
}

/// Whether an entry of `tool_calls` is a call: its function has a name, and the
/// arguments are its text, the text of its JSON, or an empty object.
pub open spec fn entry_is(item: JsonView, call: CallView) -> bool {
    item.get("function"@) matches Some(function) && function.get("name"@) == Some(
        JsonView::Str(call.name),
    ) && (match function.get("arguments"@) {
        Some(JsonView::Str(text)) => call.arguments == text,
        Some(other) => call.arguments == crate::json::json_text(other),
        None => call.arguments == "{}"@,
    }) && (match item.get("id"@) {
        Some(JsonView::Str(id)) => call.id == Some(id),
        _ => call.id is None,
    })
}

/// The calls of a response are its entries that name a function, in their order;
/// its text is read only where there are none.
pub proof fn responses_are_read_entry_by_entry(
    items: Seq<JsonView>,
    item: JsonView,
    call: CallView,
)
    ensures
        chat_call(item) == Some(call) <==> entry_is(item, call),
        chat_calls(Seq::empty(), 0) == Seq::<CallView>::empty(),
        chat_calls(items.push(item), items.len() as int + 1) == (match chat_call(item) {
            Some(made) => chat_calls(items, items.len() as int).push(made),
            None => chat_calls(items, items.len() as int),
        }),
{
    chat_calls_of_prefix(items, items.push(item), items.len() as int);
}

proof fn chat_calls_of_prefix(a: Seq<JsonView>, b: Seq<JsonView>, n: int)
    requires
        0 <= n <= a.len(),
        n <= b.len(),
        forall|i: int| 0 <= i < n ==> #[trigger] a[i] == b[i],
    ensures
        chat_calls(a, n) == chat_calls(b, n),
    decreases n,
{
    if n > 0 {
        chat_calls_of_prefix(a, b, n - 1);
        assert(a[n - 1] == b[n - 1]);
    }
}

/// What a response says is what its first message says: the calls of its
/// `tool_calls`, or its `content` where there are none.
pub proof fn responses_say_what_the_first_message_says(body: JsonView, message: JsonView)
    requires
        body.get("choices"@) matches Some(JsonView::Array(choices)) && choices.len() > 0
            && choices[0].get("message"@) == Some(message),
    ensures
        match message.get("tool_calls"@) {
            Some(JsonView::Array(items)) => chat_calls(items, items.len() as int).len() > 0
                ==> decoded(body) == OutputView::ToolCalls(chat_calls(items, items.len() as int)),
            _ => match message.get("content"@) {
                Some(JsonView::Str(text)) => decoded(body) == OutputView::Text(text),
                _ => decoded(body) == OutputView::Text(Seq::empty()),
            },
        },
{
}

} // verus!
