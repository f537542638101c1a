//! A Chat Completions request: typed where the guardrails touch it, everything
//! else carried along.
use vstd::prelude::*;

use crate::json::{
    copy_items, json_text, lists, render, sorted_keys, text_in, views, Json, JsonObject, JsonView,
};
use crate::text::{strs, texts};
use crate::written::{
    each_name_once, list_text, member_text, member_texts, object_text, push_member, push_members, write_list,
    write_object, write_text,
};

verus! {

/// The `function` object of a tool.
#[derive(Debug)]
pub struct ToolFunction {
    pub name: String,
    /// Every other member: `description`, `parameters`, `strict` and so on.
    pub rest: JsonObject,
}

/// A tool definition.
#[derive(Debug)]
pub struct Tool {
    /// The tool's `type`.
    pub kind: String,
    pub function: ToolFunction,
    /// Every other member.
    pub rest: JsonObject,
}

/// A tool definition by views.
#[verifier::ext_equal]
pub struct ToolView {
    pub kind: Seq<char>,
    pub name: Seq<char>,
    pub function_rest: Map<Seq<char>, JsonView>,
    pub rest: Map<Seq<char>, JsonView>,
}

impl View for Tool {
    type V = ToolView;

    open spec fn view(&self) -> ToolView {
        ToolView {
            kind: self.kind@,
            name: self.function.name@,
            function_rest: self.function.rest@,
            rest: self.rest@,
        }
    }
}

/// Tools by their views.
pub open spec fn tool_views(tools: Seq<Tool>) -> Seq<ToolView> {
    tools.map_values(|t: Tool| t@)
}

impl Clone for Tool {
    fn clone(&self) -> (copy: Self)
        ensures
            copy@ == self@,
    {
        Tool {
            kind: self.kind.clone(),
            function: ToolFunction {
                name: self.function.name.clone(),
                rest: self.function.rest.clone(),
            },
            rest: self.rest.clone(),
        }
    }
}

/// The tool that a JSON value defines.
pub open spec fn tool_in(v: JsonView) -> Option<ToolView> {
    match (v, text_in(v.get("type"@)), v.get("function"@)) {
        (JsonView::Object(members), Some(kind), Some(JsonView::Object(function))) => match text_in(
            JsonView::Object(function).get("name"@),
        ) {
            Some(name) => Some(
                ToolView {
                    kind,
                    name,
                    function_rest: function.remove("name"@),
                    rest: members.remove("type"@).remove("function"@),
                },
            ),
            None => None,
        },
        _ => None,
    }
}

/// A tool definition as JSON.
pub open spec fn tool_json(tool: ToolView) -> JsonView {
    JsonView::Object(
        tool.rest.insert("type"@, JsonView::Str(tool.kind)).insert(
            "function"@,
            JsonView::Object(tool.function_rest.insert("name"@, JsonView::Str(tool.name))),
        ),
    )
}

/// The tools that JSON values define, if all of them do.
pub open spec fn tools_in(items: Seq<JsonView>) -> Option<Seq<ToolView>> {
    if forall|i: int| 0 <= i < items.len() ==> tool_in(#[trigger] items[i]) is Some {
        Some(items.map_values(|v: JsonView| tool_in(v)->0))
    } else {
        None
    }
}

/// The members of a tool's `function` as they are sent: the name first.
pub open spec fn function_members(tool: ToolView) -> Seq<Seq<char>> {
    seq![member_text("name"@, json_text(JsonView::Str(tool.name)))] + member_texts(
        tool.function_rest,
    )
}

/// The members of a tool as they are sent: what the guardrails touch, then the
/// rest.
pub open spec fn tool_members(tool: ToolView) -> Seq<Seq<char>> {
    seq![
        member_text("type"@, json_text(JsonView::Str(tool.kind))),
        member_text("function"@, object_text(function_members(tool))),
    ] + member_texts(tool.rest)
}

/// The text that a tool is sent as.
pub open spec fn tool_text(tool: ToolView) -> Seq<char> {
    object_text(tool_members(tool))
}

impl Tool {
    /// Reads a tool definition.
    pub fn from_json(v: &Json) -> (tool: Option<Tool>)
        ensures
            match tool {
                Some(t) => tool_in(v@) == Some(t@),
                None => tool_in(v@) is None,
            },
    {
        let members = match v {
            Json::Object(members) => members,
            _ => {
                return None;
            },
        };
        let kind = match members.get("type") {
            Some(Json::Str(kind)) => kind,
            _ => {
                return None;
            },
        };
        let function = match members.get("function") {
            Some(Json::Object(function)) => function,
            _ => {
                return None;
            },
        };
        match function.get("name") {
            Some(Json::Str(name)) => Some(
                Tool {
                    kind: kind.clone(),
                    function: ToolFunction {
                        name: name.clone(),
                        rest: function.clone().without("name"),
                    },
                    rest: members.clone().without("type").without("function"),
                },
            ),
            _ => None,
        }
    }

    /// Writes a tool definition.
    pub fn to_json(&self) -> (json: Json)
        ensures
            json@ == tool_json(self@),
    {
        let function = self.function.rest.clone().with(
            "name",
            Json::text(self.function.name.as_str()),
        );
        Json::Object(
            self.rest.clone().with("type", Json::text(self.kind.as_str())).with(
                "function",
                Json::Object(function),
            ),
        )
    }

    /// The text that the definition is sent as.
    pub fn to_text(&self) -> (text: String)
        ensures
            text@ == tool_text(self@),
    {
        let mut function: Vec<String> = Vec::new();
        assert(texts(function@) =~= Seq::empty());
        push_member(&mut function, "name", write_text(self.function.name.as_str()).as_str());
        push_members(&mut function, &self.function.rest);
        let mut members: Vec<String> = Vec::new();
        assert(texts(members@) =~= Seq::empty());
        push_member(&mut members, "type", write_text(self.kind.as_str()).as_str());
        push_member(&mut members, "function", write_object(&function).as_str());
        push_members(&mut members, &self.rest);
        proof {
            assert(texts(function@) =~= function_members(self@));
            assert(texts(members@) =~= tool_members(self@));
        }
        write_object(&members)
    }
}

/// A `POST /v1/chat/completions` body.
#[derive(Debug)]
pub struct ChatRequest {
    /// The conversation so far.
    pub messages: Vec<Json>,
    /// The tool definitions; nothing where the client sent none.
    pub tools: Option<Vec<Tool>>,
    pub model: String,
    /// Every other member, `stream` among them: a request that omits it must
    /// not gain one.
    pub rest: JsonObject,
}

/// A chat request by views.
#[verifier::ext_equal]
pub struct ChatView {
    pub messages: Seq<JsonView>,
    pub tools: Option<Seq<ToolView>>,
    pub model: Seq<char>,
    pub rest: Map<Seq<char>, JsonView>,
}

/// Optional tools by their views.
pub open spec fn seen_tools(tools: Option<Vec<Tool>>) -> Option<Seq<ToolView>> {
    match tools {
        Some(list) => Some(tool_views(list@)),
        None => None,
    }
}

impl View for ChatRequest {
    type V = ChatView;

    open spec fn view(&self) -> ChatView {
        ChatView {
            messages: views(self.messages@),
            tools: seen_tools(self.tools),
            model: self.model@,
            rest: self.rest@,
        }
    }
}

/// Whether the members of a request ask for a stream.
pub open spec fn wants_stream(rest: Map<Seq<char>, JsonView>) -> bool {
    JsonView::Object(rest).get("stream"@) == Some(JsonView::Bool(true))
}

/// Reads whether the members of a request ask for a stream.
pub fn stream_in(rest: &JsonObject) -> (yes: bool)
    ensures
        yes == wants_stream(rest@),
{
    match rest.get("stream") {
        Some(Json::Bool(b)) => *b,
        _ => false,
    }
}

/// The tools that a request's `tools` member defines: none where it is missing
/// or null, an error where it is anything but a list of tools.
pub open spec fn tools_member(v: JsonView) -> Option<Option<Seq<ToolView>>> {
    match v.get("tools"@) {
        None | Some(JsonView::Null) => Some(None),
        Some(JsonView::Array(items)) => match tools_in(items) {
            Some(tools) => Some(Some(tools)),
            None => None,
        },
        Some(_) => None,
    }
}

/// The chat request that a JSON value is.
pub open spec fn chat_in(v: JsonView) -> Option<ChatView> {
    match (v, v.get("messages"@), text_in(v.get("model"@)), tools_member(v)) {
        (
            JsonView::Object(members),
            Some(JsonView::Array(messages)),
            Some(model),
            Some(tools),
        ) => Some(
            ChatView {
                messages,
                tools,
                model,
                rest: members.remove("messages"@).remove("tools"@).remove("model"@),
            },
        ),
        _ => None,
    }
}

/// A chat request as JSON.
pub open spec fn chat_json(request: ChatView) -> JsonView {
    let members = request.rest.insert("messages"@, JsonView::Array(request.messages)).insert(
        "model"@,
        JsonView::Str(request.model),
    );
    JsonView::Object(
        match request.tools {
            Some(tools) => members.insert(
                "tools"@,
                JsonView::Array(tools.map_values(|t: ToolView| tool_json(t))),
            ),
            None => members,
        },
    )
}

fn read_tools(v: &Json) -> (tools: Option<Option<Vec<Tool>>>)
    ensures
        match tools {
            Some(list) => tools_member(v@) == Some(seen_tools(list)),
            None => tools_member(v@) is None,
        },
{
    broadcast use crate::json::array_view;

    match v.get("tools") {
        None => Some(None),
        Some(Json::Null) => Some(None),
        Some(Json::Array(items)) => {
            let ghost all = views(items@);
            let mut tools: Vec<Tool> = Vec::new();
            assert(tool_views(tools@) =~= Seq::empty());
            for i in 0..items.len()
                invariant
                    all == views(items@),
                    v@.get("tools"@) == Some(JsonView::Array(all)),
                    forall|j: int| 0 <= j < i ==> tool_in(#[trigger] all[j]) is Some,
                    tool_views(tools@) == all.take(i as int).map_values(
                        |v: JsonView| tool_in(v)->0,
                    ),
            {
                let ghost read = tool_views(tools@);
                assert(all[i as int] == items@[i as int]@);
                match Tool::from_json(&items[i]) {
                    Some(tool) => {
                        tools.push(tool);
                        assert(tool_views(tools@) =~= read.push(tool@));
                        assert(tool_views(tools@) =~= all.take(i + 1).map_values(
                            |v: JsonView| tool_in(v)->0,
                        ));
                    },
                    None => {
                        assert(tools_in(all) is None);
                        return None;
                    },
                }
            }
            assert(all.take(all.len() as int) =~= all);
            Some(Some(tools))
        },
        Some(_) => None,
    }
}

/// Tools as a JSON list.
fn tools_to_json(tools: &Vec<Tool>) -> (json: Json)
    ensures
        json@ == JsonView::Array(tool_views(tools@).map_values(|t: ToolView| tool_json(t))),
{
    broadcast use crate::json::array_view;

    let ghost all = tool_views(tools@).map_values(|t: ToolView| tool_json(t));
    let mut items: Vec<Json> = Vec::new();
    for i in 0..tools.len()
        invariant
            all == tool_views(tools@).map_values(|t: ToolView| tool_json(t)),
            views(items@) == all.take(i as int),
    {
        let ghost read = views(items@);
        let item = tools[i].to_json();
        items.push(item);
        assert(views(items@) =~= read.push(item@));
        assert(views(items@) =~= all.take(i + 1));
    }
    assert(views(items@) =~= all);
    Json::Array(items)
}

/// The members of a request as they are sent: what the guardrails touch, then
/// the rest.
pub open spec fn chat_members(request: ChatView) -> Seq<Seq<char>> {
    seq![member_text("messages"@, json_text(JsonView::Array(request.messages)))] + (
    match request.tools {
        Some(tools) => seq![
            member_text("tools"@, list_text(tools.map_values(|t: ToolView| tool_text(t)))),
        ],
        None => Seq::empty(),
    }) + seq![member_text("model"@, json_text(JsonView::Str(request.model)))] + member_texts(
        request.rest,
    )
}

/// The text that a request is sent as.
pub open spec fn chat_text(request: ChatView) -> Seq<char> {
    object_text(chat_members(request))
}

fn tools_to_texts(tools: &Vec<Tool>) -> (list: Vec<String>)
    ensures
        texts(list@) == tool_views(tools@).map_values(|t: ToolView| tool_text(t)),
{
    let ghost all = tool_views(tools@).map_values(|t: ToolView| tool_text(t));
    let mut list: Vec<String> = Vec::new();
    for i in 0..tools.len()
        invariant
            all == tool_views(tools@).map_values(|t: ToolView| tool_text(t)),
            texts(list@) == all.take(i as int),
    {
        let ghost read = texts(list@);
        let text = tools[i].to_text();
        list.push(text);
        assert(texts(list@) =~= read.push(text@));
        assert(texts(list@) =~= all.take(i + 1));
    }
    assert(texts(list@) =~= all);
    list
}

impl ChatRequest {
    /// Reads a chat request.
    pub fn from_json(v: &Json) -> (request: Option<ChatRequest>)
        ensures
            match request {
                Some(r) => chat_in(v@) == Some(r@),
                None => chat_in(v@) is None,
            },
    {
        broadcast use crate::json::array_view;

        let members = match v {
            Json::Object(members) => members,
            _ => {
                return None;
            },
        };
        let messages = match members.get("messages") {
            Some(Json::Array(messages)) => copy_items(messages),
            _ => {
                return None;
            },
        };
        let model = match members.get("model") {
            Some(Json::Str(model)) => model.clone(),
            _ => {
                return None;
            },
        };
        match read_tools(v) {
            Some(tools) => Some(
                ChatRequest {
                    messages,
                    tools,
                    model,
                    rest: members.clone().without("messages").without("tools").without("model"),
                },
            ),
            None => None,
        }
    }

    /// Writes a chat request.
    pub fn to_json(&self) -> (json: Json)
        ensures
            json@ == chat_json(self@),
    {
        broadcast use crate::json::array_view;

        let members = self.rest.clone().with(
            "messages",
            Json::Array(copy_items(&self.messages)),
        ).with("model", Json::text(self.model.as_str()));
        match &self.tools {
            Some(tools) => Json::Object(members.with("tools", tools_to_json(tools))),
            None => Json::Object(members),
        }
    }

    /// The text that the request is sent as.
    pub fn to_text(&self) -> (text: String)
        ensures
            text@ == chat_text(self@),
    {
        broadcast use crate::json::array_view;

        let mut members: Vec<String> = Vec::new();
        assert(texts(members@) =~= Seq::empty());
        let messages = render(&Json::Array(copy_items(&self.messages)));
        push_member(&mut members, "messages", messages.as_str());
        if let Some(tools) = &self.tools {
            push_member(&mut members, "tools", write_list(&tools_to_texts(tools)).as_str());
        }
        push_member(&mut members, "model", write_text(self.model.as_str()).as_str());
        push_members(&mut members, &self.rest);
        assert(texts(members@) =~= chat_members(self@));
        write_object(&members)
    }

    /// Whether the client asked for a streamed response.
    pub fn stream(&self) -> (yes: bool)
        ensures
            yes == wants_stream(self@.rest),
    {
        stream_in(&self.rest)
    }

    /// Drops `stream_options` from a request that does not stream: some
    /// backends refuse it there.
    pub fn sanitize(&mut self)
        ensures
            final(self)@ == (ChatView {
                rest: if wants_stream(old(self)@.rest) {
                    old(self)@.rest
                } else {
                    old(self)@.rest.remove("stream_options"@)
                },
                ..old(self)@
            }),
    {
        if !self.stream() {
            self.rest.remove("stream_options");
        }
    }

    /// Whether the request defines any tool.
    pub fn has_tools(&self) -> (yes: bool)
        ensures
            yes == (self@.tools matches Some(tools) && tools.len() > 0),
    {
        match &self.tools {
            Some(tools) => tools.len() > 0,
            None => false,
        }
    }

    /// Adds a tool definition after the others.
    pub fn push_tool(&mut self, tool: Tool)
        ensures
            final(self)@ == (ChatView {
                tools: Some(
                    match old(self)@.tools {
                        Some(tools) => tools.push(tool@),
                        None => seq![tool@],
                    },
                ),
                ..old(self)@
            }),
    {
        let mut tools: Vec<Tool> = match self.tools.take() {
            Some(tools) => tools,
            None => Vec::new(),
        };
        let ghost read = tool_views(tools@);
        tools.push(tool);
        assert(tool_views(tools@) =~= read.push(tool@));
        assert(Seq::<ToolView>::empty().push(tool@) =~= seq![tool@]);
        self.tools = Some(tools);
    }

    /// The names of the tools the model may call, in declaration order.
    pub fn tool_names(&self) -> (names: Vec<&str>)
        ensures
            strs(names@) == (match self@.tools {
                Some(tools) => tools.map_values(|t: ToolView| t.name),
                None => Seq::empty(),
            }),
    {
        let mut names: Vec<&str> = Vec::new();
        if let Some(tools) = &self.tools {
            for i in 0..tools.len()
                invariant
                    strs(names@) == tool_views(tools@).take(i as int).map_values(
                        |t: ToolView| t.name,
                    ),
            {
                let ghost read = strs(names@);
                let name = tools[i].function.name.as_str();
                names.push(name);
                assert(strs(names@) =~= read.push(name@));
                assert(strs(names@) =~= tool_views(tools@).take(
                    i + 1,
                ).map_values(|t: ToolView| t.name));
            }
            assert(tool_views(tools@).take(tools@.len() as int) =~= tool_views(tools@));
        }
        assert(strs(names@) =~= (match self@.tools {
            Some(tools) => tools.map_values(|t: ToolView| t.name),
            None => Seq::empty(),
        }));
        names
    }
}

// ── laws ────────────────────────────────────────────────────────────────────

/// A tool definition that is read is written back unchanged, members that
/// nothing here knows included.
pub proof fn tool_is_lossless(v: JsonView)
    ensures
        tool_in(v) matches Some(tool) ==> tool_json(tool) == v,
{
    reveal_strlit("type");
    reveal_strlit("function");
    assert("type"@.len() == 4 && "function"@.len() == 8);
    if let Some(tool) = tool_in(v) {
        let members = v->Object_0;
        let function = members["function"@]->Object_0;
        assert(tool.function_rest.insert("name"@, JsonView::Str(tool.name)) =~= function);
        assert(tool_json(tool)->Object_0 =~= members);
    }
}

/// A request that is read is written back unchanged, members that nothing here
/// knows included; only a `tools` member that is null is left out.
pub proof fn chat_is_lossless(v: JsonView)
    requires
        v.get("tools"@) != Some(JsonView::Null),
    ensures
        chat_in(v) matches Some(request) ==> chat_json(request) == v,
{
    reveal_strlit("messages");
    reveal_strlit("tools");
    reveal_strlit("model");
    assert("messages"@.len() == 8);
    assert("tools"@[0] != "model"@[0]);
    if let Some(request) = chat_in(v) {
        let members = v->Object_0;
        if let Some(tools) = request.tools {
            let items = members["tools"@]->Array_0;
            assert forall|i: int| 0 <= i < items.len() implies tool_json(tools[i]) == items[i] by {
                assert(tool_in(items[i]) is Some);
                tool_is_lossless(items[i]);
            }
            assert(tools.map_values(|t: ToolView| tool_json(t)) =~= items);
        }
        assert(chat_json(request)->Object_0 =~= members);
    }
}

/// The names of a tool's members in the order in which they are sent.
pub open spec fn tool_names_sent(tool: ToolView) -> Seq<Seq<char>> {
    seq!["type"@, "function"@] + sorted_keys(tool.rest)
}

/// A member of a tool as it is sent.
pub open spec fn tool_member(tool: ToolView, name: Seq<char>) -> Seq<char> {
    member_text(
        name,
        if name == "function"@ {
            object_text(function_members(tool))
        } else {
            json_text(tool_json(tool)->Object_0[name])
        },
    )
}

/// Of a tool every member is sent, each once: its `function` with the name
/// first, any other as it is.
pub proof fn tool_is_sent_whole(tool: ToolView)
    requires
        lists(sorted_keys(tool.rest), tool.rest),
        !tool.rest.contains_key("type"@),
        !tool.rest.contains_key("function"@),
    ensures
        tool_names_sent(tool).no_duplicates(),
        forall|name: Seq<char>| #[trigger]
            tool_names_sent(tool).contains(name) <==> tool_json(tool)->Object_0.contains_key(name),
        tool_members(tool) == tool_names_sent(tool).map_values(|n: Seq<char>| tool_member(tool, n)),
{
    reveal_strlit("type");
    reveal_strlit("function");
    assert("type"@.len() == 4 && "function"@.len() == 8);
    let first = seq!["type"@, "function"@];
    each_name_once(first, tool.rest);
    assert(first[0] == "type"@ && first[1] == "function"@);
    let keys = sorted_keys(tool.rest);
    assert forall|i: int| 0 <= i < keys.len() implies tool.rest.contains_key(#[trigger] keys[i]) by {
        assert(keys.contains(keys[i]));
    }
    assert(tool_members(tool) =~= tool_names_sent(tool).map_values(
        |n: Seq<char>| tool_member(tool, n),
    ));
}

/// The names of the members of a tool's `function` in the order in which they
/// are sent.
pub open spec fn function_names_sent(tool: ToolView) -> Seq<Seq<char>> {
    seq!["name"@] + sorted_keys(tool.function_rest)
}

/// Of a tool's `function` every member is sent, each once and as it is.
pub proof fn function_is_sent_whole(tool: ToolView)
    requires
        lists(sorted_keys(tool.function_rest), tool.function_rest),
        !tool.function_rest.contains_key("name"@),
    ensures
        ({
            let members = tool.function_rest.insert("name"@, JsonView::Str(tool.name));
            &&& tool_json(tool)->Object_0["function"@] == JsonView::Object(members)
            &&& function_names_sent(tool).no_duplicates()
            &&& forall|name: Seq<char>| #[trigger]
                function_names_sent(tool).contains(name) <==> members.contains_key(name)
            &&& function_members(tool) == function_names_sent(tool).map_values(
                |n: Seq<char>| member_text(n, json_text(members[n])),
            )
        }),
{
    let first = seq!["name"@];
    each_name_once(first, tool.function_rest);
    assert(first[0] == "name"@);
    let keys = sorted_keys(tool.function_rest);
    assert forall|i: int| 0 <= i < keys.len() implies tool.function_rest.contains_key(
        #[trigger] keys[i],
    ) by {
        assert(keys.contains(keys[i]));
    }
    let members = tool.function_rest.insert("name"@, JsonView::Str(tool.name));
    assert(function_members(tool) =~= function_names_sent(tool).map_values(
        |n: Seq<char>| member_text(n, json_text(members[n])),
    ));
}

/// The names of a request's members in the order in which they are sent.
pub open spec fn chat_names_sent(request: ChatView) -> Seq<Seq<char>> {
    seq!["messages"@] + (if request.tools is Some {
        seq!["tools"@]
    } else {
        Seq::empty()
    }) + seq!["model"@] + sorted_keys(request.rest)
}

/// A member of a request as it is sent.
pub open spec fn chat_member(request: ChatView, name: Seq<char>) -> Seq<char> {
    member_text(
        name,
        if name == "tools"@ && request.tools is Some {
            list_text(request.tools->0.map_values(|t: ToolView| tool_text(t)))
        } else {
            json_text(chat_json(request)->Object_0[name])
        },
    )
}

/// Of a request every member is sent, each once: its tools each as a tool is
/// sent, any other as it is.
pub proof fn chat_is_sent_whole(request: ChatView)
    requires
        lists(sorted_keys(request.rest), request.rest),
        !request.rest.contains_key("messages"@),
        !request.rest.contains_key("tools"@),
        !request.rest.contains_key("model"@),
    ensures
        chat_names_sent(request).no_duplicates(),
        forall|name: Seq<char>| #[trigger]
            chat_names_sent(request).contains(name) <==> chat_json(request)->Object_0.contains_key(
                name,
            ),
        chat_members(request) == chat_names_sent(request).map_values(
            |n: Seq<char>| chat_member(request, n),
        ),
{
    reveal_strlit("messages");
    reveal_strlit("tools");
    reveal_strlit("model");
    assert("messages"@.len() == 8 && "tools"@[0] == 't' && "model"@[0] == 'm');
    assert("model"@.len() == 5);
    let first = if request.tools is Some {
        seq!["messages"@, "tools"@, "model"@]
    } else {
        seq!["messages"@, "model"@]
    };
    each_name_once(first, request.rest);
    assert(first[0] == "messages"@ && first.last() == "model"@);
    assert(request.tools is Some ==> first[1] == "tools"@);
    let keys = sorted_keys(request.rest);
    assert(chat_names_sent(request) =~= first + keys);
    assert forall|i: int| 0 <= i < keys.len() implies request.rest.contains_key(
        #[trigger] keys[i],
    ) by {
        assert(keys.contains(keys[i]));
    }
    assert(chat_members(request) =~= chat_names_sent(request).map_values(
        |n: Seq<char>| chat_member(request, n),
    ));
}

/// Whether a value defines a tool, and which.
pub open spec fn defines_tool(v: JsonView, tool: ToolView) -> bool {
    &&& v.get("type"@) == Some(JsonView::Str(tool.kind))
    &&& v.get("function"@) matches Some(JsonView::Object(function)) && function.contains_key(
        "name"@,
    ) && function["name"@] == JsonView::Str(tool.name) && tool.function_rest == function.remove(
        "name"@,
    )
    &&& v is Object && tool.rest == v->Object_0.remove("type"@).remove("function"@)
}

/// A value is a tool exactly where it has a type and a function with a name, and
/// then all of it is kept.
pub proof fn tools_are_read_as_defined(v: JsonView, tool: ToolView)
    ensures
        tool_in(v) == Some(tool) <==> defines_tool(v, tool),
{
    if defines_tool(v, tool) {
        assert(tool_in(v)->0 =~= tool);
    }
}

/// A value is a chat request exactly where it has messages and a model, and where
/// its tools, if any, are all defined; and then all of it is kept.
pub proof fn requests_are_read_as_made(v: JsonView, request: ChatView, i: int)
    ensures
        chat_in(v) == Some(request) ==> {
            &&& v.get("messages"@) == Some(JsonView::Array(request.messages))
            &&& v.get("model"@) == Some(JsonView::Str(request.model))
            &&& request.tools is None <==> v.get("tools"@) is None || v.get("tools"@) == Some(
                JsonView::Null,
            )
            &&& request.tools matches Some(tools) ==> (v.get("tools"@) matches Some(
                JsonView::Array(items),
            ) && items.len() == tools.len() && (0 <= i < items.len() ==> defines_tool(
                items[i],
                tools[i],
            )))
            &&& request.rest == v->Object_0.remove("messages"@).remove("tools"@).remove("model"@)
        },
        (v.get("messages"@) matches Some(JsonView::Array(_))) && (v.get("model"@) matches Some(
            JsonView::Str(_),
        )) && (v.get("tools"@) is None || v.get("tools"@) == Some(JsonView::Null))
            ==> chat_in(v) is Some,
        (v.get("messages"@) matches Some(JsonView::Array(_))) && (v.get("model"@) matches Some(
            JsonView::Str(_),
        )) && (v.get("tools"@) matches Some(JsonView::Array(items)) && forall|k: int|
            0 <= k < items.len() ==> tool_in(#[trigger] items[k]) is Some) ==> chat_in(v) is Some,
{
    if let Some(JsonView::Array(items)) = v.get("tools"@) {
        if let Some(tools) = tools_in(items) {
            if 0 <= i < items.len() {
                assert(tool_in(items[i]) is Some);
                tools_are_read_as_defined(items[i], tools[i]);
            }
        }
    }
}

/// A request asks for a stream exactly where its `stream` is true.
pub proof fn streams_are_asked_for(rest: Map<Seq<char>, JsonView>)
    ensures
        wants_stream(rest) <==> rest.contains_key("stream"@) && rest["stream"@] == JsonView::Bool(
            true,
        ),
{
}

} // verus!
