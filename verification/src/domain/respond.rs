//! The synthetic `respond` tool, through which a model answers in text.
use vstd::prelude::*;

use super::decode::{owned_text, CallView, ToolCall};
use super::model::{Tool, ToolFunction, ToolView};
use crate::json::{json_of, parse, text_in, text_of_value, views, Json, JsonObject, JsonView};
use crate::text::same_text;

verus! {

/// The name of the tool.
pub const RESPOND: &'static str = "respond";

/// The description of the tool.
pub const RESPOND_DESCRIPTION: &'static str =
    "Reply to the user with a final natural-language message when no other tool is needed. Prefer this over answering in plain text.";

/// The description of its one parameter.
pub const MESSAGE_DESCRIPTION: &'static str = "The message to show the user.";

/// The definition of the tool.
pub open spec fn respond_definition() -> ToolView {
    ToolView {
        kind: "function"@,
        name: RESPOND@,
        function_rest: map![
            "description"@ => JsonView::Str(RESPOND_DESCRIPTION@),
            "parameters"@ => JsonView::Object(
                map![
                    "type"@ => JsonView::Str("object"@),
                    "properties"@ => JsonView::Object(
                        map![
                            "message"@ => JsonView::Object(
                                map![
                                    "type"@ => JsonView::Str("string"@),
                                    "description"@ => JsonView::Str(MESSAGE_DESCRIPTION@),
                                ],
                            ),
                        ],
                    ),
                    "required"@ => JsonView::Array(seq![JsonView::Str("message"@)]),
                ],
            ),
        ],
        rest: Map::empty(),
    }
}

/// The definition of the tool.
pub fn respond_tool() -> (tool: Tool)
    ensures
        tool@ == respond_definition(),
{
    broadcast use crate::json::array_view;

    let message = JsonObject::new().with("type", Json::text("string")).with(
        "description",
        Json::text(MESSAGE_DESCRIPTION),
    );
    let mut required: Vec<Json> = Vec::new();
    required.push(Json::text("message"));
    assert(views(required@) =~= seq![JsonView::Str("message"@)]);
    let parameters = JsonObject::new().with("type", Json::text("object")).with(
        "properties",
        Json::Object(JsonObject::new().with("message", Json::Object(message))),
    ).with("required", Json::Array(required));
    Tool {
        kind: "function".to_owned(),
        function: ToolFunction {
            name: RESPOND.to_owned(),
            rest: JsonObject::new().with("description", Json::text(RESPOND_DESCRIPTION)).with(
                "parameters",
                Json::Object(parameters),
            ),
        },
        rest: JsonObject::new(),
    }
}

/// Whether a call is to the `respond` tool.
pub fn is_respond(call: &ToolCall) -> (yes: bool)
    ensures
        yes == (call@.name == RESPOND@),
{
    same_text(call.name.as_str(), RESPOND)
}

/// The text that a `respond` call carries: under `message`, or under one of the
/// names that models use for it.
pub open spec fn message_in(call: CallView) -> Option<Seq<char>> {
    match json_of(call.arguments) {
        Some(v) => match text_in(v.get("message"@)) {
            Some(text) => Some(text),
            None => match text_in(v.get("content"@)) {
                Some(text) => Some(text),
                None => text_in(v.get("text"@)),
            },
        },
        None => None,
    }
}

/// The text that a `respond` call carries; nothing where it carries none.
pub fn message_text(call: &ToolCall) -> (text: Option<String>)
    ensures
        owned_text(text) == message_in(call@),
{
    match parse(call.arguments.as_str()) {
        Some(v) => {
            let found = match text_of_value(v.get("message")) {
                Some(text) => Some(text),
                None => match text_of_value(v.get("content")) {
                    Some(text) => Some(text),
                    None => text_of_value(v.get("text")),
                },
            };
            match found {
                Some(text) => Some(text.to_owned()),
                None => None,
            }
        },
        None => None,
    }
}

// ── laws ────────────────────────────────────────────────────────────────────

/// The tool is a function of its name that takes one text, which it requires.
pub proof fn the_tool_takes_one_message()
    ensures
        respond_definition().name == "respond"@,
        respond_definition().kind == "function"@,
        respond_definition().function_rest.contains_key("parameters"@),
        ({
            let schema = respond_definition().function_rest["parameters"@];
            &&& schema.get("required"@) == Some(
                JsonView::Array(seq![JsonView::Str("message"@)]),
            )
            &&& schema.get("properties"@) matches Some(properties) && properties.get(
                "message"@,
            ) matches Some(message) && message.get("type"@) == Some(JsonView::Str("string"@))
        }),
{
    reveal_strlit("type");
    reveal_strlit("description");
    reveal_strlit("parameters");
    reveal_strlit("properties");
    reveal_strlit("required");
    assert("type"@.len() == 4 && "description"@.len() == 11 && "parameters"@.len() == 10);
    assert("properties"@.len() == 10 && "required"@.len() == 8);
}

/// What a `respond` call says is the text under `message`; one that has none there
/// says what is under `content`, and else what is under `text`.
pub proof fn a_response_is_read_by_its_name(call: CallView, v: JsonView, text: Seq<char>)
    requires
        json_of(call.arguments) == Some(v),
    ensures
        v.get("message"@) == Some(JsonView::Str(text)) ==> message_in(call) == Some(text),
        v.get("message"@) is None && v.get("content"@) == Some(JsonView::Str(text)) ==> message_in(
            call,
        ) == Some(text),
        v.get("message"@) is None && v.get("content"@) is None && v.get("text"@) == Some(
            JsonView::Str(text),
        ) ==> message_in(call) == Some(text),
        v.get("message"@) is None && v.get("content"@) is None && v.get("text"@) is None
            ==> message_in(call) is None,
{
}

} // verus!
