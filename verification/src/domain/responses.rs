//! The Responses API, translated at the edges: the guardrails work on the same
//! tool calls and tools for both APIs.
use vstd::prelude::*;

use super::decode::{
    call_id, call_views, id_of_call, own_text, with_ids, CallView, ToolCall,
};
use super::model::{stream_in, tool_views, wants_stream, Tool, ToolFunction, ToolView};
use super::rescue::or_else;
use super::retry::{make_turn, turn};
use crate::json::{
    copy_items, items_in, items_of_value, json_text, lists, render, seen_text, sorted_keys, text_in,
    text_of_value, views, Json, JsonObject, JsonView,
};
use crate::text::{decimal, decimal_text, same_text, texts};
use crate::written::{
    each_name_once, member_text, member_texts, object_text, push_member, push_members, write_object, write_text,
};

verus! {

/// The type of an output item that is a tool call.
pub const FUNCTION_CALL: &'static str = "function_call";

/// The type of an output item that is assistant text.
pub const MESSAGE: &'static str = "message";

/// The type of a content part that holds assistant text.
pub const OUTPUT_TEXT: &'static str = "output_text";

// ── requests ────────────────────────────────────────────────────────────────

/// A `POST /v1/responses` body.
#[derive(Debug)]
pub struct ResponsesRequest {
    pub model: String,
    /// The tool definitions, flat rather than nested under `function`.
    pub tools: Option<Vec<Json>>,
    /// Every other member.
    pub rest: JsonObject,
}

/// A Responses request by views.
#[verifier::ext_equal]
pub struct ResponsesView {
    pub model: Seq<char>,
    pub tools: Option<Seq<JsonView>>,
    pub rest: Map<Seq<char>, JsonView>,
}

/// Optional values by their views.
pub open spec fn seen_items(items: Option<Vec<Json>>) -> Option<Seq<JsonView>> {
    match items {
        Some(list) => Some(views(list@)),
        None => None,
    }
}

impl View for ResponsesRequest {
    type V = ResponsesView;

    open spec fn view(&self) -> ResponsesView {
        ResponsesView { model: self.model@, tools: seen_items(self.tools), rest: self.rest@ }
    }
}

/// The tool definitions of a request body: none where the member is missing or
/// null, an error where it is not a list.
pub open spec fn flat_tools_member(v: JsonView) -> Option<Option<Seq<JsonView>>> {
    match v.get("tools"@) {
        None | Some(JsonView::Null) => Some(None),
        Some(JsonView::Array(items)) => Some(Some(items)),
        Some(_) => None,
    }
}

/// The Responses request that a JSON value is.
pub open spec fn responses_in(v: JsonView) -> Option<ResponsesView> {
    match (v, text_in(v.get("model"@)), flat_tools_member(v)) {
        (JsonView::Object(members), Some(model), Some(tools)) => Some(
            ResponsesView { model, tools, rest: members.remove("model"@).remove("tools"@) },
        ),
        _ => None,
    }
}

/// A Responses request as JSON.
pub open spec fn responses_json(request: ResponsesView) -> JsonView {
    let members = request.rest.insert("model"@, JsonView::Str(request.model));
    JsonView::Object(
        match request.tools {
            Some(tools) => members.insert("tools"@, JsonView::Array(tools)),
            None => members,
        },
    )
}

/// The tool that one definition lifts to: in the flat shape, or nested as Chat
/// Completions has it.
pub open spec fn lifted_tool(v: JsonView) -> Option<ToolView> {
    match v {
        JsonView::Object(members) => match v.get("function"@) {
            Some(JsonView::Object(function)) => match text_in(
                JsonView::Object(function).get("name"@),
            ) {
                Some(name) => Some(
                    ToolView {
                        kind: "function"@,
                        name,
                        function_rest: function.remove("name"@),
                        rest: Map::empty(),
                    },
                ),
                None => None,
            },
            _ => match text_in(v.get("name"@)) {
                Some(name) => Some(
                    ToolView {
                        kind: "function"@,
                        name,
                        function_rest: members.remove("name"@).remove("type"@),
                        rest: Map::empty(),
                    },
                ),
                None => None,
            },
        },
        _ => None,
    }
}

/// The tools that the first `n` definitions lift to; one that names no tool is
/// passed over.
pub open spec fn lifted_tools(items: Seq<JsonView>, n: int) -> Seq<ToolView>
    decreases n,
{
    if n <= 0 {
        Seq::empty()
    } else {
        match lifted_tool(items[n - 1]) {
            Some(tool) => lifted_tools(items, n - 1).push(tool),
            None => lifted_tools(items, n - 1),
        }
    }
}

/// The tools of a request as the validator takes them.
pub open spec fn tools_of(request: ResponsesView) -> Seq<ToolView> {
    match request.tools {
        Some(items) => lifted_tools(items, items.len() as int),
        None => Seq::empty(),
    }
}

/// The members of a flat definition after the first `n` of a tool's own.
pub open spec fn flat_members(
    base: Map<Seq<char>, JsonView>,
    rest: Map<Seq<char>, JsonView>,
    n: int,
) -> Map<Seq<char>, JsonView>
    decreases n,
{
    if n <= 0 {
        base
    } else {
        let key = sorted_keys(rest)[n - 1];
        flat_members(base, rest, n - 1).insert(key, rest[key])
    }
}

/// A tool in the flat shape.
pub open spec fn flat_tool(tool: ToolView) -> JsonView {
    JsonView::Object(
        flat_members(
            map!["type"@ => JsonView::Str("function"@), "name"@ => JsonView::Str(tool.name)],
            tool.function_rest,
            sorted_keys(tool.function_rest).len() as int,
        ),
    )
}

/// The turns that an `input` member stands for.
pub open spec fn input_turns(input: Option<JsonView>) -> Seq<JsonView> {
    match input {
        None | Some(JsonView::Null) => Seq::empty(),
        Some(JsonView::Array(items)) => items,
        Some(JsonView::Str(text)) => seq![turn("user"@, text)],
        Some(other) => seq![other],
    }
}

/// Lifts one tool definition.
pub fn tool_from_responses(value: &Json) -> (tool: Option<Tool>)
    ensures
        match tool {
            Some(t) => lifted_tool(value@) == Some(t@),
            None => lifted_tool(value@) is None,
        },
{
    let object = match value {
        Json::Object(object) => object,
        _ => {
            return None;
        },
    };
    if let Some(Json::Object(function)) = object.get("function") {
        return match function.get("name") {
            Some(Json::Str(name)) => Some(
                Tool {
                    kind: "function".to_owned(),
                    function: ToolFunction {
                        name: name.clone(),
                        rest: function.clone().without("name"),
                    },
                    rest: JsonObject::new(),
                },
            ),
            _ => None,
        };
    }
    match object.get("name") {
        Some(Json::Str(name)) => Some(
            Tool {
                kind: "function".to_owned(),
                function: ToolFunction {
                    name: name.clone(),
                    rest: object.clone().without("name").without("type"),
                },
                rest: JsonObject::new(),
            },
        ),
        _ => None,
    }
}

/// The members of a request as they are sent: what the guardrails touch, then
/// the rest.
pub open spec fn responses_members(request: ResponsesView) -> Seq<Seq<char>> {
    seq![member_text("model"@, json_text(JsonView::Str(request.model)))] + (match request.tools {
        Some(tools) => seq![member_text("tools"@, json_text(JsonView::Array(tools)))],
        None => Seq::empty(),
    }) + member_texts(request.rest)
}

/// The text that a request is sent as.
pub open spec fn responses_text(request: ResponsesView) -> Seq<char> {
    object_text(responses_members(request))
}

impl ResponsesRequest {
    /// Reads a Responses request.
    pub fn from_json(v: &Json) -> (request: Option<ResponsesRequest>)
        ensures
            match request {
                Some(r) => responses_in(v@) == Some(r@),
                None => responses_in(v@) is None,
            },
    {
        broadcast use crate::json::array_view;

        let members = match v {
            Json::Object(members) => members,
            _ => {
                return None;
            },
        };
        let model = match members.get("model") {
            Some(Json::Str(model)) => model.clone(),
            _ => {
                return None;
            },
        };
        let tools = match members.get("tools") {
            None => None,
            Some(Json::Null) => None,
            Some(Json::Array(items)) => Some(copy_items(items)),
            Some(_) => {
                return None;
            },
        };
        Some(
            ResponsesRequest {
                model,
                tools,
                rest: members.clone().without("model").without("tools"),
            },
        )
    }

    /// Writes a Responses request.
    pub fn to_json(&self) -> (json: Json)
        ensures
            json@ == responses_json(self@),
    {
        broadcast use crate::json::array_view;

        let members = self.rest.clone().with("model", Json::text(self.model.as_str()));
        match &self.tools {
            Some(tools) => Json::Object(members.with("tools", Json::Array(copy_items(tools)))),
            None => Json::Object(members),
        }
    }

    /// The text that the request is sent as.
    pub fn to_text(&self) -> (text: String)
        ensures
            text@ == responses_text(self@),
    {
        broadcast use crate::json::array_view;

        let mut members: Vec<String> = Vec::new();
        assert(texts(members@) =~= Seq::empty());
        push_member(&mut members, "model", write_text(self.model.as_str()).as_str());
        if let Some(tools) = &self.tools {
            let list = render(&Json::Array(copy_items(tools)));
            push_member(&mut members, "tools", list.as_str());
        }
        push_members(&mut members, &self.rest);
        assert(texts(members@) =~= responses_members(self@));
        write_object(&members)
    }

    /// Whether the client asked for a streamed response.
    pub fn stream(&self) -> (yes: bool)
        ensures
            yes == wants_stream(self@.rest),
    {
        stream_in(&self.rest)
    }

    /// Whether the request defines any tool.
    pub fn has_tools(&self) -> (yes: bool)
        ensures
            yes == (self@.tools matches Some(tools) && tools.len() > 0),
    {
        match &self.tools {
            Some(tools) => tools.len() > 0,
            None => false,
        }
    }

    /// The response that this turn continues, where the client names one.
    pub fn previous_response_id(&self) -> (id: Option<&str>)
        ensures
            seen_text(id) == text_in(JsonView::Object(self@.rest).get("previous_response_id"@)),
    {
        text_of_value(self.rest.get("previous_response_id"))
    }

    /// The tools as the validator takes them.
    pub fn normalized_tools(&self) -> (tools: Vec<Tool>)
        ensures
            tool_views(tools@) == tools_of(self@),
    {
        let mut tools: Vec<Tool> = Vec::new();
        assert(tool_views(tools@) =~= Seq::empty());
        if let Some(items) = &self.tools {
            for i in 0..items.len()
                invariant
                    tool_views(tools@) == lifted_tools(views(items@), i as int),
            {
                let ghost read = tool_views(tools@);
                assert(views(items@)[i as int] == items@[i as int]@);
                if let Some(tool) = tool_from_responses(&items[i]) {
                    tools.push(tool);
                    assert(tool_views(tools@) =~= read.push(tool@));
                }
            }
        }
        tools
    }

    /// Adds a tool after the others, in the flat shape.
    pub fn push_tool(&mut self, tool: Tool)
        ensures
            final(self)@ == (ResponsesView {
                tools: Some(
                    match old(self)@.tools {
                        Some(tools) => tools.push(flat_tool(tool@)),
                        None => seq![flat_tool(tool@)],
                    },
                ),
                ..old(self)@
            }),
    {
        let mut flat = JsonObject::new().with("type", Json::text("function")).with(
            "name",
            Json::text(tool.function.name.as_str()),
        );
        let ghost base = flat@;
        let rest = &tool.function.rest;
        let n: usize = rest.len();
        for i in 0..n
            invariant
                n == sorted_keys(rest@).len(),
                flat@ == flat_members(base, rest@, i as int),
        {
            let (key, value) = rest.entry(i);
            flat.insert(key, value.clone());
        }
        let mut tools: Vec<Json> = match self.tools.take() {
            Some(tools) => tools,
            None => Vec::new(),
        };
        let ghost read = views(tools@);
        tools.push(Json::Object(flat));
        assert(views(tools@) =~= read.push(flat_tool(tool@)));
        assert(Seq::<JsonView>::empty().push(flat_tool(tool@)) =~= seq![flat_tool(tool@)]);
        self.tools = Some(tools);
    }

    /// The `input` items, where the client sent a list of them; else none.
    pub fn input_items(&self) -> (items: &[Json])
        ensures
            views(items@) == (match JsonView::Object(self@.rest).get("input"@) {
                Some(JsonView::Array(items)) => items,
                _ => Seq::empty(),
            }),
    {
        broadcast use crate::json::array_view;

        match self.rest.get("input") {
            Some(Json::Array(items)) => items.as_slice(),
            _ => {
                let none: &[Json] = &[];
                assert(views(none@) =~= Seq::empty());
                none
            },
        }
    }

    /// Adds turns after those of `input`, which becomes a list of turns.
    pub fn extend_input(&mut self, turns: Vec<Json>)
        ensures
            final(self)@ == (ResponsesView {
                rest: old(self)@.rest.insert(
                    "input"@,
                    JsonView::Array(
                        input_turns(JsonView::Object(old(self)@.rest).get("input"@)) + views(
                            turns@,
                        ),
                    ),
                ),
                ..old(self)@
            }),
    {
        broadcast use crate::json::array_view;

        let mut items: Vec<Json> = match self.rest.get("input") {
            None => Vec::new(),
            Some(Json::Null) => Vec::new(),
            Some(Json::Array(items)) => copy_items(items),
            Some(Json::Str(text)) => {
                let mut first: Vec<Json> = Vec::new();
                first.push(make_turn("user", text.as_str()));
                assert(views(first@) =~= seq![turn("user"@, text@)]);
                first
            },
            Some(other) => {
                let mut first: Vec<Json> = Vec::new();
                first.push(other.clone());
                assert(views(first@) =~= seq![other@]);
                first
            },
        };
        let ghost before = views(items@);
        let mut more = turns;
        let ghost added = views(more@);
        assert(before =~= input_turns(JsonView::Object(old(self)@.rest).get("input"@)));
        items.append(&mut more);
        assert(views(items@) =~= before + added);
        self.rest.insert("input", Json::Array(items));
    }
}

// ── reading a response ──────────────────────────────────────────────────────

/// The call that an output item is.
pub open spec fn item_call(item: JsonView) -> Option<CallView> {
    match (text_in(item.get("type"@)), text_in(item.get("name"@))) {
        (Some(kind), Some(name)) => if kind == FUNCTION_CALL@ {
            Some(
                CallView {
                    id: text_in(or_else(item.get("call_id"@), item.get("id"@))),
                    name,
                    arguments: match text_in(item.get("arguments"@)) {
                        Some(arguments) => arguments,
                        None => "{}"@,
                    },
                },
            )
        } else {
            None
        },
        _ => None,
    }
}

/// The calls among the first `n` output items.
pub open spec fn item_calls(items: Seq<JsonView>, n: int) -> Seq<CallView>
    decreases n,
{
    if n <= 0 {
        Seq::empty()
    } else {
        match item_call(items[n - 1]) {
            Some(call) => item_calls(items, n - 1).push(call),
            None => item_calls(items, n - 1),
        }
    }
}

/// The calls that a response makes.
pub open spec fn response_calls(body: JsonView) -> Seq<CallView> {
    match items_in(body.get("output"@)) {
        Some(items) => item_calls(items, items.len() as int),
        None => Seq::empty(),
    }
}

/// The text of the first `n` content parts.
pub open spec fn parts_text(parts: Seq<JsonView>, n: int) -> Seq<char>
    decreases n,
{
    if n <= 0 {
        Seq::empty()
    } else {
        let before = parts_text(parts, n - 1);
        match (text_in(parts[n - 1].get("type"@)), text_in(parts[n - 1].get("text"@))) {
            (Some(kind), Some(text)) => if kind == OUTPUT_TEXT@ {
                before + text
            } else {
                before
            },
            _ => before,
        }
    }
}

/// The text that an output item says. An item without a type is taken for a
/// message.
pub open spec fn item_text(item: JsonView) -> Seq<char> {
    let is_message = match text_in(item.get("type"@)) {
        Some(kind) => kind == MESSAGE@,
        None => true,
    };
    match items_in(item.get("content"@)) {
        Some(parts) => if is_message {
            parts_text(parts, parts.len() as int)
        } else {
            Seq::empty()
        },
        None => Seq::empty(),
    }
}

/// The text of the first `n` output items.
pub open spec fn items_text(items: Seq<JsonView>, n: int) -> Seq<char>
    decreases n,
{
    if n <= 0 {
        Seq::empty()
    } else {
        items_text(items, n - 1) + item_text(items[n - 1])
    }
}

/// The text that a response says.
pub open spec fn response_text(body: JsonView) -> Seq<char> {
    match items_in(body.get("output"@)) {
        Some(items) => items_text(items, items.len() as int),
        None => Seq::empty(),
    }
}

/// Reads the tool calls out of a response.
pub fn tool_calls(body: &Json) -> (calls: Vec<ToolCall>)
    ensures
        call_views(calls@) == response_calls(body@),
{
    let mut calls: Vec<ToolCall> = Vec::new();
    assert(call_views(calls@) =~= Seq::empty());
    if let Some(items) = items_of_value(body.get("output")) {
        for i in 0..items.len()
            invariant
                call_views(calls@) == item_calls(views(items@), i as int),
        {
            let ghost read = call_views(calls@);
            let item = &items[i];
            assert(views(items@)[i as int] == item@);
            if let (Some(kind), Some(name)) = (
                text_of_value(item.get("type")),
                text_of_value(item.get("name")),
            ) {
                if same_text(kind, FUNCTION_CALL) {
                    let id = match item.get("call_id") {
                        Some(id) => Some(id),
                        None => item.get("id"),
                    };
                    let call = ToolCall {
                        id: own_text(text_of_value(id)),
                        name: name.to_owned(),
                        arguments: match text_of_value(item.get("arguments")) {
                            Some(arguments) => arguments.to_owned(),
                            None => "{}".to_owned(),
                        },
                    };
                    calls.push(call);
                    assert(call_views(calls@) =~= read.push(call@));
                }
            }
        }
    }
    calls
}

fn text_of_parts(parts: &Vec<Json>) -> (text: String)
    ensures
        text@ == parts_text(views(parts@), parts@.len() as int),
{
    let mut text = String::new();
    for i in 0..parts.len()
        invariant
            text@ == parts_text(views(parts@), i as int),
    {
        let part = &parts[i];
        assert(views(parts@)[i as int] == part@);
        if let (Some(kind), Some(piece)) = (
            text_of_value(part.get("type")),
            text_of_value(part.get("text")),
        ) {
            if same_text(kind, OUTPUT_TEXT) {
                text.append(piece);
            }
        }
    }
    text
}

/// Reads the assistant text out of a response, skipping reasoning and calls.
pub fn text(body: &Json) -> (text: String)
    ensures
        text@ == response_text(body@),
{
    let mut text = String::new();
    if let Some(items) = items_of_value(body.get("output")) {
        for i in 0..items.len()
            invariant
                text@ == items_text(views(items@), i as int),
        {
            let item = &items[i];
            assert(views(items@)[i as int] == item@);
            let is_message: bool = match text_of_value(item.get("type")) {
                Some(kind) => same_text(kind, MESSAGE),
                None => true,
            };
            if is_message {
                if let Some(parts) = items_of_value(item.get("content")) {
                    let said = text_of_parts(parts);
                    text.append(said.as_str());
                }
            }
            assert(text@ =~= items_text(views(items@), i + 1));
        }
    }
    text
}

// ── building a response ─────────────────────────────────────────────────────

/// A response's members apart from its output: those of the template, if it is
/// an object.
pub open spec fn envelope_of(template: JsonView) -> Map<Seq<char>, JsonView> {
    match template {
        JsonView::Object(members) => {
            let kept = members.remove("output"@);
            if kept.contains_key("object"@) {
                kept
            } else {
                kept.insert("object"@, JsonView::Str("response"@))
            }
        },
        _ => map![
            "id"@ => JsonView::Str("guardrail-0"@),
            "object"@ => JsonView::Str("response"@),
        ],
    }
}

/// A completed response with an output.
pub open spec fn completed(template: JsonView, output: Seq<JsonView>) -> JsonView {
    JsonView::Object(
        envelope_of(template).insert("output"@, JsonView::Array(output)).insert(
            "status"@,
            JsonView::Str("completed"@),
        ),
    )
}

/// An output item that says a text.
pub open spec fn message_item(text: Seq<char>) -> JsonView {
    JsonView::Object(
        map![
            "type"@ => JsonView::Str(MESSAGE@),
            "id"@ => JsonView::Str("msg_0"@),
            "role"@ => JsonView::Str("assistant"@),
            "status"@ => JsonView::Str("completed"@),
            "content"@ => JsonView::Array(
                seq![
                    JsonView::Object(
                        map![
                            "type"@ => JsonView::Str(OUTPUT_TEXT@),
                            "text"@ => JsonView::Str(text),
                            "annotations"@ => JsonView::Array(Seq::empty()),
                        ],
                    ),
                ],
            ),
        ],
    )
}

/// An output item that makes a call.
pub open spec fn call_item(call: CallView, i: int) -> JsonView {
    JsonView::Object(
        map![
            "type"@ => JsonView::Str(FUNCTION_CALL@),
            "id"@ => JsonView::Str("fc_"@ + decimal(i as nat)),
            "call_id"@ => JsonView::Str(call_id(call, i)),
            "name"@ => JsonView::Str(call.name),
            "arguments"@ => JsonView::Str(call.arguments),
            "status"@ => JsonView::Str("completed"@),
        ],
    )
}

/// Output items that make calls.
pub open spec fn call_items(calls: Seq<CallView>) -> Seq<JsonView> {
    Seq::new(calls.len(), |i: int| call_item(calls[i], i))
}

/// A response that answers with calls, and with a message before them where
/// there is text.
pub open spec fn calls_body(
    template: JsonView,
    calls: Seq<CallView>,
    text: Seq<char>,
) -> JsonView {
    completed(
        template,
        if text.len() > 0 {
            seq![message_item(text)] + call_items(calls)
        } else {
            call_items(calls)
        },
    )
}

/// A response that answers with text.
pub open spec fn text_body(template: JsonView, text: Seq<char>) -> JsonView {
    completed(template, seq![message_item(text)])
}

fn envelope(template: &Json) -> (members: JsonObject)
    ensures
        members@ == envelope_of(template@),
{
    match template {
        Json::Object(members) => {
            let kept = members.clone().without("output");
            if kept.contains_key("object") {
                kept
            } else {
                kept.with("object", Json::text("response"))
            }
        },
        _ => JsonObject::new().with("id", Json::text("guardrail-0")).with(
            "object",
            Json::text("response"),
        ),
    }
}

fn complete(template: &Json, output: Vec<Json>) -> (body: Json)
    ensures
        body@ == completed(template@, views(output@)),
{
    broadcast use crate::json::array_view;

    Json::Object(
        envelope(template).with("output", Json::Array(output)).with(
            "status",
            Json::text("completed"),
        ),
    )
}

fn make_message(text: &str) -> (item: Json)
    ensures
        item@ == message_item(text@),
{
    broadcast use crate::json::array_view;

    let annotations: Vec<Json> = Vec::new();
    assert(views(annotations@) =~= Seq::empty());
    let part = Json::Object(
        JsonObject::new().with("type", Json::text(OUTPUT_TEXT)).with(
            "text",
            Json::text(text),
        ).with("annotations", Json::Array(annotations)),
    );
    let mut content: Vec<Json> = Vec::new();
    content.push(part);
    assert(views(content@) =~= seq![part@]);
    Json::Object(
        JsonObject::new().with("type", Json::text(MESSAGE)).with("id", Json::text("msg_0")).with(
            "role",
            Json::text("assistant"),
        ).with("status", Json::text("completed")).with("content", Json::Array(content)),
    )
}

fn make_call(call: &ToolCall, i: usize) -> (item: Json)
    ensures
        item@ == call_item(call@, i as int),
{
    let id = "fc_".to_owned().concat(decimal_text(i as u64).as_str());
    Json::Object(
        JsonObject::new().with("type", Json::text(FUNCTION_CALL)).with("id", Json::Str(id)).with(
            "call_id",
            Json::Str(id_of_call(call, i)),
        ).with("name", Json::text(call.name.as_str())).with(
            "arguments",
            Json::text(call.arguments.as_str()),
        ).with("status", Json::text("completed")),
    )
}

/// A response shaped like `template` whose output is exactly `calls`.
pub fn with_tool_calls(template: &Json, calls: &[ToolCall]) -> (body: Json)
    ensures
        body@ == calls_body(template@, call_views(calls@), Seq::empty()),
{
    proof {
        reveal_strlit("");
        assert(""@ =~= Seq::<char>::empty());
    }
    with_tool_calls_and_text(template, calls, "")
}

/// A response shaped like `template` whose output is `calls`, after a message
/// that says `text` where it is not empty.
pub fn with_tool_calls_and_text(template: &Json, calls: &[ToolCall], text: &str) -> (body: Json)
    ensures
        body@ == calls_body(template@, call_views(calls@), text@),
{
    let ghost all = call_items(call_views(calls@));
    let mut output: Vec<Json> = Vec::new();
    if !text.is_empty() {
        output.push(make_message(text));
    }
    let ghost before = views(output@);
    assert(before =~= if text@.len() > 0 {
        seq![message_item(text@)]
    } else {
        Seq::empty()
    });
    assert(before + all.take(0) =~= before);
    for i in 0..calls.len()
        invariant
            all == call_items(call_views(calls@)),
            views(output@) == before + all.take(i as int),
    {
        let ghost read = views(output@);
        let item = make_call(&calls[i], i);
        output.push(item);
        assert(item@ == all[i as int]);
        assert(views(output@) =~= read.push(item@));
        assert(views(output@) =~= before + all.take(i + 1));
    }
    assert(all.take(all.len() as int) =~= all);
    assert(views(output@) =~= if text@.len() > 0 {
        seq![message_item(text@)] + all
    } else {
        all
    });
    complete(template, output)
}

/// A response shaped like `template` whose output is a message that says
/// `text`.
pub fn with_text(template: &Json, text: &str) -> (body: Json)
    ensures
        body@ == text_body(template@, text@),
{
    let mut output: Vec<Json> = Vec::new();
    output.push(make_message(text));
    assert(views(output@) =~= seq![message_item(text@)]);
    complete(template, output)
}

// ── laws ────────────────────────────────────────────────────────────────────

/// A request that is read is written back unchanged, members that nothing here
/// knows included; only a `tools` member that is null is left out.
pub proof fn responses_is_lossless(v: JsonView)
    requires
        v.get("tools"@) != Some(JsonView::Null),
    ensures
        responses_in(v) matches Some(request) ==> responses_json(request) == v,
{
    reveal_strlit("tools");
    reveal_strlit("model");
    assert("tools"@[0] != "model"@[0]);
    if let Some(request) = responses_in(v) {
        assert(responses_json(request)->Object_0 =~= v->Object_0);
    }
}

proof fn output_names()
    ensures
        "type"@ != "id"@,
        "type"@ != "role"@,
        "type"@ != "status"@,
        "type"@ != "content"@,
        "type"@ != "call_id"@,
        "type"@ != "name"@,
        "type"@ != "arguments"@,
        "type"@ != "text"@,
        "type"@ != "annotations"@,
        "name"@ != "id"@,
        "name"@ != "call_id"@,
        "name"@ != "arguments"@,
        "name"@ != "status"@,
        "name"@ != "role"@,
        "name"@ != "content"@,
        "arguments"@ != "status"@,
        "call_id"@ != "id"@,
        "call_id"@ != "status"@,
        "call_id"@ != "arguments"@,
        "text"@ != "annotations"@,
        "output"@ != "status"@,
        MESSAGE@ != FUNCTION_CALL@,
{
    reveal_strlit("type");
    reveal_strlit("id");
    reveal_strlit("role");
    reveal_strlit("status");
    reveal_strlit("content");
    reveal_strlit("call_id");
    reveal_strlit("name");
    reveal_strlit("arguments");
    reveal_strlit("text");
    reveal_strlit("annotations");
    reveal_strlit("output");
    reveal_strlit("message");
    reveal_strlit("function_call");
    assert("type"@[0] == 't' && "role"@[0] == 'r' && "name"@[0] == 'n');
    assert("type"@[1] == 'y' && "text"@[1] == 'e');
    assert("output"@[0] == 'o' && "status"@[0] == 's');
    assert("content"@[1] == 'o' && "call_id"@[1] == 'a');
    assert("message"@.len() == 7 && "function_call"@.len() == 13);
}

proof fn item_calls_of(items: Seq<JsonView>, calls: Seq<CallView>, skip: int, n: int)
    requires
        0 <= n <= calls.len(),
        0 <= skip,
        items.len() == skip + calls.len(),
        forall|i: int| 0 <= i < skip ==> item_call(#[trigger] items[i]) is None,
        forall|i: int| 0 <= i < calls.len() ==> #[trigger] items[skip + i] == call_item(calls[i], i),
    ensures
        item_calls(items, skip + n) == with_ids(calls).take(n),
    decreases n,
{
    if n == 0 {
        skipped_items(items, skip);
        assert(with_ids(calls).take(0) =~= Seq::empty());
    } else {
        item_calls_of(items, calls, skip, n - 1);
        output_names();
        assert(items[skip + (n - 1)] == call_item(calls[n - 1], n - 1));
        assert(item_call(call_item(calls[n - 1], n - 1)) == Some(with_ids(calls)[n - 1]));
        assert(with_ids(calls).take(n) =~= with_ids(calls).take(n - 1).push(with_ids(calls)[n - 1]));
    }
}

proof fn skipped_items(items: Seq<JsonView>, n: int)
    requires
        0 <= n <= items.len(),
        forall|i: int| 0 <= i < n ==> item_call(#[trigger] items[i]) is None,
    ensures
        item_calls(items, n) == Seq::<CallView>::empty(),
    decreases n,
{
    if n > 0 {
        skipped_items(items, n - 1);
        assert(item_call(items[n - 1]) is None);
    }
}

/// Reading the calls back out of a response built from calls gives those calls,
/// each with an id, whatever the template was and whatever text stands beside
/// them.
pub proof fn calls_survive(template: JsonView, calls: Seq<CallView>, text: Seq<char>)
    ensures
        response_calls(calls_body(template, calls, text)) == with_ids(calls),
{
    output_names();
    let body = calls_body(template, calls, text);
    let items = body.get("output"@)->0->Array_0;
    let skip: int = if text.len() > 0 {
        1
    } else {
        0
    };
    assert(item_call(message_item(text)) is None);
    assert forall|i: int| 0 <= i < skip implies item_call(#[trigger] items[i]) is None by {
        assert(items[0] == message_item(text));
    }
    item_calls_of(items, calls, skip, calls.len() as int);
    assert(with_ids(calls).take(calls.len() as int) =~= with_ids(calls));
}

/// Reading the text back out of a response built from text gives that text, and
/// no calls, whatever the template was.
pub proof fn text_survives(template: JsonView, text: Seq<char>)
    ensures
        response_text(text_body(template, text)) == text,
        response_calls(text_body(template, text)) == Seq::<CallView>::empty(),
{
    output_names();
    let body = text_body(template, text);
    let items = body.get("output"@)->0->Array_0;
    assert(items =~= seq![message_item(text)]);
    assert(item_call(items[0]) is None);
    skipped_items(items, 1);
    let parts = message_item(text).get("content"@)->0->Array_0;
    assert(parts.len() == 1);
    assert(parts_text(parts, 0) == Seq::<char>::empty());
    assert(parts_text(parts, 1) =~= text);
    assert(item_text(items[0]) == text);
    assert(items_text(items, 0) == Seq::<char>::empty());
    assert(items_text(items, 1) =~= text);
}

/// The names of a request's members in the order in which they are sent.
pub open spec fn responses_names_sent(request: ResponsesView) -> Seq<Seq<char>> {
    seq!["model"@] + (if request.tools is Some {
        seq!["tools"@]
    } else {
        Seq::empty()
    }) + sorted_keys(request.rest)
}

/// Of a request every member is sent, each once and as it is.
pub proof fn responses_request_is_sent_whole(request: ResponsesView)
    requires
        lists(sorted_keys(request.rest), request.rest),
        !request.rest.contains_key("model"@),
        !request.rest.contains_key("tools"@),
    ensures
        responses_names_sent(request).no_duplicates(),
        forall|name: Seq<char>| #[trigger]
            responses_names_sent(request).contains(name) <==> responses_json(
                request,
            )->Object_0.contains_key(name),
        responses_members(request) == responses_names_sent(request).map_values(
            |n: Seq<char>| member_text(n, json_text(responses_json(request)->Object_0[n])),
        ),
{
    reveal_strlit("tools");
    reveal_strlit("model");
    assert("tools"@[0] == 't' && "model"@[0] == 'm');
    let first = if request.tools is Some {
        seq!["model"@, "tools"@]
    } else {
        seq!["model"@]
    };
    each_name_once(first, request.rest);
    assert(first[0] == "model"@);
    assert(request.tools is Some ==> first[1] == "tools"@);
    let keys = sorted_keys(request.rest);
    assert(responses_names_sent(request) =~= first + keys);
    assert forall|i: int| 0 <= i < keys.len() implies request.rest.contains_key(
        #[trigger] keys[i],
    ) by {
        assert(keys.contains(keys[i]));
    }
    assert(responses_members(request) =~= responses_names_sent(request).map_values(
        |n: Seq<char>| member_text(n, json_text(responses_json(request)->Object_0[n])),
    ));
}

proof fn response_names_differ()
    ensures
        "output"@ != "status"@,
        "output"@ != "object"@,
        "output"@ != "id"@,
        "object"@ != "status"@,
        "object"@ != "id"@,
        "id"@ != "status"@,
        "type"@ != "id"@,
        "type"@ != "role"@,
        "type"@ != "status"@,
        "type"@ != "content"@,
        "type"@ != "call_id"@,
        "type"@ != "name"@,
        "type"@ != "arguments"@,
        "type"@ != "text"@,
        "type"@ != "annotations"@,
        "text"@ != "annotations"@,
        "id"@ != "role"@,
        "id"@ != "content"@,
        "role"@ != "status"@,
        "role"@ != "content"@,
        "status"@ != "content"@,
        "id"@ != "call_id"@,
        "id"@ != "name"@,
        "id"@ != "arguments"@,
        "call_id"@ != "name"@,
        "call_id"@ != "arguments"@,
        "call_id"@ != "status"@,
        "name"@ != "arguments"@,
        "name"@ != "status"@,
        "arguments"@ != "status"@,
{
    reveal_strlit("output");
    reveal_strlit("status");
    reveal_strlit("object");
    reveal_strlit("id");
    reveal_strlit("type");
    reveal_strlit("role");
    reveal_strlit("content");
    reveal_strlit("call_id");
    reveal_strlit("name");
    reveal_strlit("arguments");
    reveal_strlit("text");
    reveal_strlit("annotations");
    assert("output"@[1] == 'u' && "object"@[1] == 'b' && "status"@[1] == 't');
    assert("output"@.len() == 6 && "status"@.len() == 6 && "object"@.len() == 6);
    assert("id"@.len() == 2 && "type"@.len() == 4 && "role"@.len() == 4);
    assert("type"@[0] == 't' && "role"@[0] == 'r' && "name"@[0] == 'n' && "text"@[1] == 'e');
    assert("type"@[1] == 'y' && "text"@.len() == 4 && "annotations"@.len() == 11);
    assert("content"@.len() == 7 && "call_id"@.len() == 7 && "content"@[1] == 'o');
    assert("call_id"@[1] == 'a' && "name"@.len() == 4 && "arguments"@.len() == 9);
}

/// Whether an item says a text as the assistant's message.
pub open spec fn says_text(item: JsonView, text: Seq<char>) -> bool {
    &&& item.get("type"@) == Some(JsonView::Str("message"@))
    &&& item.get("role"@) == Some(JsonView::Str("assistant"@))
    &&& item.get("status"@) == Some(JsonView::Str("completed"@))
    &&& item.get("content"@) matches Some(JsonView::Array(parts)) && parts.len() == 1
        && parts[0].get("type"@) == Some(JsonView::Str("output_text"@)) && parts[0].get("text"@)
        == Some(JsonView::Str(text))
}

/// Whether an item makes a call at a place.
pub open spec fn makes_call_at(item: JsonView, call: CallView, i: int) -> bool {
    &&& item.get("type"@) == Some(JsonView::Str("function_call"@))
    &&& item.get("status"@) == Some(JsonView::Str("completed"@))
    &&& item.get("name"@) == Some(JsonView::Str(call.name))
    &&& item.get("arguments"@) == Some(JsonView::Str(call.arguments))
    &&& item.get("call_id"@) == Some(
        JsonView::Str(
            match call.id {
                Some(id) => id,
                None => "call_"@ + decimal(i as nat),
            },
        ),
    )
    &&& item.get("id"@) == Some(JsonView::Str("fc_"@ + decimal(i as nat)))
}

/// The output of a response that is built is the text alone, or the calls in their
/// order, behind the text where there is any; the response is completed.
pub proof fn outputs_are_text_and_calls(
    template: JsonView,
    calls: Seq<CallView>,
    text: Seq<char>,
    i: int,
)
    ensures
        text_body(template, text).get("output"@) matches Some(JsonView::Array(output))
            && output.len() == 1 && says_text(output[0], text),
        calls_body(template, calls, text).get("output"@) matches Some(JsonView::Array(output)) && {
            let k: int = if text.len() > 0 {
                1
            } else {
                0
            };
            &&& output.len() == calls.len() + k
            &&& text.len() > 0 ==> says_text(output[0], text)
            &&& 0 <= i < calls.len() ==> makes_call_at(output[i + k], calls[i], i)
        },
        text_body(template, text).get("status"@) == Some(JsonView::Str("completed"@)),
        calls_body(template, calls, text).get("status"@) == Some(JsonView::Str("completed"@)),
{
    response_names_differ();
    let item = message_item(text);
    assert(says_text(item, text));
    let a = text_body(template, text).get("output"@)->0->Array_0;
    assert(a[0] == item);
    let b = calls_body(template, calls, text).get("output"@)->0->Array_0;
    if text.len() > 0 {
        assert(b[0] == item);
    }
    if 0 <= i < calls.len() {
        assert(b[i + if text.len() > 0 {
            1int
        } else {
            0int
        }] == call_item(calls[i], i));
        assert(makes_call_at(call_item(calls[i], i), calls[i], i));
    }
}

/// A response that is built keeps every other member of its template.
pub proof fn outputs_keep_the_template(
    template: JsonView,
    calls: Seq<CallView>,
    text: Seq<char>,
    name: Seq<char>,
)
    requires
        name != "output"@,
        name != "status"@,
    ensures
        template.get(name) is Some ==> text_body(template, text).get(name) == template.get(name)
            && calls_body(template, calls, text).get(name) == template.get(name),
        name != "object"@ && template is Object && template.get(name) is None ==> text_body(
            template,
            text,
        ).get(name) is None && calls_body(template, calls, text).get(name) is None,
        template.get("object"@) is None ==> text_body(template, text).get("object"@) == Some(
            JsonView::Str("response"@),
        ) && calls_body(template, calls, text).get("object"@) == Some(JsonView::Str("response"@)),
        !(template is Object) ==> text_body(template, text).get("id"@) == Some(
            JsonView::Str("guardrail-0"@),
        ),
{
    response_names_differ();
}

/// Whether an output item is a call: by its type and its name.
pub open spec fn item_is(item: JsonView, call: CallView) -> bool {
    &&& item.get("type"@) == Some(JsonView::Str("function_call"@))
    &&& item.get("name"@) == Some(JsonView::Str(call.name))
    &&& call.id == (match item.get("call_id"@) {
        Some(JsonView::Str(id)) => Some(id),
        Some(_) => None,
        None => match item.get("id"@) {
            Some(JsonView::Str(id)) => Some(id),
            _ => None,
        },
    })
    &&& call.arguments == (match item.get("arguments"@) {
        Some(JsonView::Str(text)) => text,
        _ => "{}"@,
    })
}

proof fn items_of_prefix(a: Seq<JsonView>, b: Seq<JsonView>, n: int)
    requires
        0 <= n <= a.len(),
        n <= b.len(),
        forall|i: int| 0 <= i < n ==> #[trigger] a[i] == b[i],
    ensures
        item_calls(a, n) == item_calls(b, n),
        items_text(a, n) == items_text(b, n),
        parts_text(a, n) == parts_text(b, n),
        lifted_tools(a, n) == lifted_tools(b, n),
    decreases n,
{
    if n > 0 {
        items_of_prefix(a, b, n - 1);
        assert(a[n - 1] == b[n - 1]);
    }
}

/// A response is read item by item, in their order: its calls are the items of that
/// type with a name, and its text is that of its messages, part by part.
pub proof fn responses_are_read_item_by_item(
    items: Seq<JsonView>,
    item: JsonView,
    call: CallView,
    text: Seq<char>,
)
    ensures
        item_call(item) == Some(call) <==> item_is(item, call),
        ({
            let n = items.len() as int;
            let more = items.push(item);
            &&& item_calls(more, n + 1) == (match item_call(item) {
                Some(made) => item_calls(items, n).push(made),
                None => item_calls(items, n),
            })
            &&& items_text(more, n + 1) == items_text(items, n) + item_text(item)
            &&& item.get("type"@) == Some(JsonView::Str("output_text"@)) && item.get("text"@)
                == Some(JsonView::Str(text)) ==> parts_text(more, n + 1) == parts_text(items, n)
                + text
            &&& item.get("type"@) != Some(JsonView::Str("output_text"@)) ==> parts_text(
                more,
                n + 1,
            ) == parts_text(items, n)
        }),
        (item.get("type"@) == Some(JsonView::Str("message"@)) || item.get("type"@) is None) ==> (
        item.get("content"@) matches Some(JsonView::Array(parts)) ==> item_text(item) == parts_text(
            parts,
            parts.len() as int,
        )),
        (item.get("type"@) matches Some(JsonView::Str(kind)) && kind != "message"@) ==> item_text(
            item,
        ).len() == 0,
        item_calls(Seq::empty(), 0) == Seq::<CallView>::empty(),
        items_text(Seq::empty(), 0) == Seq::<char>::empty(),
        parts_text(Seq::empty(), 0) == Seq::<char>::empty(),
{
    items_of_prefix(items, items.push(item), items.len() as int);
}

/// A response says what its output does.
pub proof fn responses_are_their_output(body: JsonView, items: Seq<JsonView>)
    ensures
        body.get("output"@) == Some(JsonView::Array(items)) ==> response_calls(body) == item_calls(
            items,
            items.len() as int,
        ) && response_text(body) == items_text(items, items.len() as int),
        !(body.get("output"@) matches Some(JsonView::Array(_))) ==> response_calls(body).len() == 0
            && response_text(body).len() == 0,
{
}

/// Whether a definition, flat or nested, is a function of a name, and holds its
/// schema under a name.
pub open spec fn defines(v: JsonView, tool: ToolView) -> bool {
    &&& v is Object
    &&& tool.kind == "function"@
    &&& tool.rest == Map::<Seq<char>, JsonView>::empty()
    &&& match v.get("function"@) {
        Some(JsonView::Object(function)) => function.contains_key("name"@) && function["name"@]
            == JsonView::Str(tool.name) && tool.function_rest == function.remove("name"@),
        _ => v.get("name"@) == Some(JsonView::Str(tool.name)) && tool.function_rest
            == v->Object_0.remove("name"@).remove("type"@),
    }
}

/// Every definition that names a function is a tool, in their order, with its
/// whole schema.
pub proof fn every_definition_is_a_tool(items: Seq<JsonView>, item: JsonView, tool: ToolView)
    ensures
        lifted_tool(item) == Some(tool) <==> defines(item, tool),
        ({
            let n = items.len() as int;
            lifted_tools(items.push(item), n + 1) == (match lifted_tool(item) {
                Some(made) => lifted_tools(items, n).push(made),
                None => lifted_tools(items, n),
            })
        }),
        lifted_tools(Seq::empty(), 0) == Seq::<ToolView>::empty(),
{
    items_of_prefix(items, items.push(item), items.len() as int);
    if defines(item, tool) {
        assert(lifted_tool(item)->0 =~= tool);
    }
}

proof fn flat_members_are(
    base: Map<Seq<char>, JsonView>,
    rest: Map<Seq<char>, JsonView>,
    n: int,
    key: Seq<char>,
)
    requires
        0 <= n <= sorted_keys(rest).len(),
    ensures
        ({
            let all = flat_members(base, rest, n);
            if sorted_keys(rest).take(n).contains(key) {
                all.contains_key(key) && all[key] == rest[key]
            } else {
                all.contains_key(key) == base.contains_key(key) && (base.contains_key(key)
                    ==> all[key] == base[key])
            }
        }),
    decreases n,
{
    let keys = sorted_keys(rest);
    if n > 0 {
        flat_members_are(base, rest, n - 1, key);
        let fewer = keys.take(n - 1);
        let more = keys.take(n);
        assert(more[n - 1] == keys[n - 1]);
        if fewer.contains(key) {
            let k = choose|k: int| 0 <= k < fewer.len() && fewer[k] == key;
            assert(more[k] == key);
        }
        if more.contains(key) && key != keys[n - 1] {
            let k = choose|k: int| 0 <= k < more.len() && more[k] == key;
            assert(fewer[k] == key);
        }
    } else {
        assert(!keys.take(0).contains(key));
    }
}

/// A tool in the flat shape is a function with its name, beside every member of its
/// schema.
pub proof fn flat_tools_keep_their_schema(tool: ToolView, key: Seq<char>)
    requires
        lists(sorted_keys(tool.function_rest), tool.function_rest),
    ensures
        ({
            let flat = flat_tool(tool);
            &&& tool.function_rest.contains_key(key) ==> flat.get(key) == Some(
                tool.function_rest[key],
            )
            &&& !tool.function_rest.contains_key("type"@) ==> flat.get("type"@) == Some(
                JsonView::Str("function"@),
            )
            &&& !tool.function_rest.contains_key("name"@) ==> flat.get("name"@) == Some(
                JsonView::Str(tool.name),
            )
            &&& !tool.function_rest.contains_key(key) && key != "type"@ && key != "name"@
                ==> flat.get(key) is None
        }),
{
    response_names_differ();
    let keys = sorted_keys(tool.function_rest);
    let base = map!["type"@ => JsonView::Str("function"@), "name"@ => JsonView::Str(tool.name)];
    let n = keys.len() as int;
    flat_members_are(base, tool.function_rest, n, key);
    flat_members_are(base, tool.function_rest, n, "type"@);
    flat_members_are(base, tool.function_rest, n, "name"@);
    assert(keys.take(n) =~= keys);
}

/// The turns of an input are its items, or the one turn of the user that a text
/// stands for.
pub proof fn inputs_are_turns(items: Seq<JsonView>, text: Seq<char>)
    ensures
        input_turns(Some(JsonView::Array(items))) == items,
        input_turns(None).len() == 0,
        input_turns(Some(JsonView::Null)).len() == 0,
        input_turns(Some(JsonView::Str(text))).len() == 1,
        input_turns(Some(JsonView::Str(text)))[0].get("role"@) == Some(JsonView::Str("user"@)),
        input_turns(Some(JsonView::Str(text)))[0].get("content"@) == Some(JsonView::Str(text)),
{
    response_names_differ();
}

} // verus!
