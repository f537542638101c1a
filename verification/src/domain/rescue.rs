//! Rescue parsing: tool calls recovered from the text a model wrote.
use vstd::prelude::*;

use super::decode::{call_views, CallView, ToolCall};
use super::lenient::{lenient_leading, lenient_whole, loose_leading, loose_whole};
use super::pythonic::{is_ident_char, parse_pythonic_calls, pythonic_calls};
use crate::json::{
    json_of, json_text, leading_json_of, parse, parse_leading, render, seen, seen_json, text_in,
    views, Json, JsonObject, JsonView,
};
use crate::text::{
    ascii_alnum, chars_of, clear_where_absent, contains, cut, cut_at, find, find_from_is_first,
    find_is_contains, found_where_it_stands, head_of, includes, is_ascii_alnum, is_clear,
    is_unbordered, is_white, nothing_without_a_token, occurs_at, parted_where_it_stands, past,
    past_token, runs, search, split, split_at_token, split_ends_behind_the_last, split_goes_on,
    split_leaves_whole, split_parts_join, tail_of, text_of, texts, trim, trim_start, trimmed,
    trimmed_start, whitespace,
};

verus! {

/// Optional calls by their views.
pub open spec fn seen_calls(calls: Option<Vec<ToolCall>>) -> Option<Seq<CallView>> {
    match calls {
        Some(list) => Some(call_views(list@)),
        None => None,
    }
}

/// Calls, or nothing where there are none.
pub open spec fn some_calls(calls: Seq<CallView>) -> Option<Seq<CallView>> {
    if calls.len() > 0 {
        Some(calls)
    } else {
        None
    }
}

fn non_empty(calls: Vec<ToolCall>) -> (some: Option<Vec<ToolCall>>)
    ensures
        seen_calls(some) == some_calls(call_views(calls@)),
{
    if calls.is_empty() {
        None
    } else {
        Some(calls)
    }
}

// ── JSON read as calls ──────────────────────────────────────────────────────

/// `a`, or `b` where there is no `a`.
pub open spec fn or_else(a: Option<JsonView>, b: Option<JsonView>) -> Option<JsonView> {
    match a {
        Some(v) => Some(v),
        None => b,
    }
}

fn value_or<'a>(a: Option<&'a Json>, b: Option<&'a Json>) -> (r: Option<&'a Json>)
    ensures
        seen(r) == or_else(seen(a), seen(b)),
{
    match a {
        Some(v) => Some(v),
        None => b,
    }
}

/// Where a call object names its tool, and where it holds its arguments: under
/// `function`, or beside each other under any of the usual names.
pub open spec fn call_parts(v: JsonView) -> (Option<JsonView>, Option<JsonView>) {
    match v.get("function"@) {
        Some(JsonView::Object(f)) => (
            JsonView::Object(f).get("name"@),
            JsonView::Object(f).get("arguments"@),
        ),
        _ => (
            or_else(v.get("name"@), v.get("tool"@)),
            or_else(v.get("arguments"@), or_else(v.get("args"@), v.get("parameters"@))),
        ),
    }
}

/// The arguments text of a call: a string itself, any other value as its JSON
/// text, an empty object where there is none.
pub open spec fn arguments_text(args: Option<JsonView>) -> Seq<char> {
    match args {
        Some(JsonView::Str(s)) => s,
        Some(other) => json_text(other),
        None => "{}"@,
    }
}

/// The one call that a JSON object is.
pub open spec fn call_in(v: JsonView) -> Option<CallView> {
    let (name, args) = call_parts(v);
    match (v, text_in(name)) {
        (JsonView::Object(_), Some(text)) => if trim(text).len() > 0 {
            Some(CallView { id: None, name: trim(text), arguments: arguments_text(args) })
        } else {
            None
        },
        _ => None,
    }
}

/// The calls that JSON items are, if all of them are.
pub open spec fn calls_of(items: Seq<JsonView>) -> Option<Seq<CallView>> {
    if forall|i: int| 0 <= i < items.len() ==> call_in(#[trigger] items[i]) is Some {
        Some(items.map_values(|v: JsonView| call_in(v)->0))
    } else {
        None
    }
}

/// The calls that a JSON value is: a list of them, a wrapper with a
/// `tool_calls` member, or one alone.
pub open spec fn calls_in(v: JsonView) -> Option<Seq<CallView>>
    decreases v,
{
    match v {
        JsonView::Array(items) => match calls_of(items) {
            Some(calls) => some_calls(calls),
            None => None,
        },
        JsonView::Object(members) => if members.contains_key("tool_calls"@) {
            calls_in(members["tool_calls"@])
        } else {
            match call_in(v) {
                Some(call) => Some(seq![call]),
                None => None,
            }
        },
        _ => None,
    }
}

/// The calls that an optional JSON value is.
pub open spec fn calls_in_some(v: Option<JsonView>) -> Option<Seq<CallView>> {
    match v {
        Some(v) => calls_in(v),
        None => None,
    }
}

/// Reads a JSON object as one tool call.
pub fn tool_call_from_value(v: &Json) -> (call: Option<ToolCall>)
    ensures
        match call {
            Some(c) => call_in(v@) == Some(c@),
            None => call_in(v@) is None,
        },
{
    match v {
        Json::Object(_) => {},
        _ => {
            return None;
        },
    }
    let (name, args) = match v.get("function") {
        Some(Json::Object(f)) => (f.get("name"), f.get("arguments")),
        _ => (
            value_or(v.get("name"), v.get("tool")),
            value_or(v.get("arguments"), value_or(v.get("args"), v.get("parameters"))),
        ),
    };
    let name = match name {
        Some(Json::Str(text)) => {
            let chars = chars_of(text.as_str());
            text_of(trimmed(chars.as_slice()))
        },
        _ => {
            return None;
        },
    };
    if name.as_str().is_empty() {
        return None;
    }
    let arguments = match args {
        Some(Json::Str(s)) => s.clone(),
        Some(other) => render(other),
        None => "{}".to_owned(),
    };
    Some(ToolCall { id: None, name, arguments })
}

/// Reads a JSON value as one or more tool calls. Where any entry of a list is
/// malformed the whole list is refused.
pub fn tool_calls_from_value(v: &Json) -> (calls: Option<Vec<ToolCall>>)
    ensures
        seen_calls(calls) == calls_in(v@),
    decreases v@,
{
    broadcast use crate::json::array_view;

    match v {
        Json::Array(items) => {
            let ghost all = views(items@);
            let mut calls: Vec<ToolCall> = Vec::new();
            assert(call_views(calls@) =~= Seq::empty());
            for i in 0..items.len()
                invariant
                    all == views(items@),
                    v@ == JsonView::Array(all),
                    forall|j: int| 0 <= j < i ==> call_in(#[trigger] all[j]) is Some,
                    call_views(calls@) == all.take(i as int).map_values(
                        |v: JsonView| call_in(v)->0,
                    ),
            {
                let ghost read = call_views(calls@);
                assert(all[i as int] == items@[i as int]@);
                match tool_call_from_value(&items[i]) {
                    Some(call) => {
                        calls.push(call);
                        assert(call_views(calls@) =~= read.push(call@));
                        assert(all.take(i + 1) =~= all.take(i as int).push(all[i as int]));
                        assert(call_views(calls@) =~= all.take(i + 1).map_values(
                            |v: JsonView| call_in(v)->0,
                        ));
                    },
                    None => {
                        assert(calls_of(all) is None);
                        return None;
                    },
                }
            }
            assert(all.take(all.len() as int) =~= all);
            non_empty(calls)
        },
        Json::Object(object) => match object.get("tool_calls") {
            Some(inner) => tool_calls_from_value(inner),
            None => match tool_call_from_value(v) {
                Some(call) => {
                    let mut calls: Vec<ToolCall> = Vec::new();
                    calls.push(call);
                    assert(call_views(calls@) =~= seq![call@]);
                    Some(calls)
                },
                None => None,
            },
        },
        _ => None,
    }
}

/// The JSON value that a text starts with; almost-JSON where it is not JSON.
pub open spec fn readable_json(s: Seq<char>) -> Option<JsonView> {
    match leading_json_of(s) {
        Some(v) => Some(v),
        None => loose_leading(s),
    }
}

/// The JSON value that a text is; almost-JSON where it is not JSON.
pub open spec fn whole_json(s: Seq<char>) -> Option<JsonView> {
    match json_of(s) {
        Some(v) => Some(v),
        None => loose_whole(s),
    }
}

/// Reads the JSON value that a text starts with, ignoring what follows it.
pub fn first_json_value(s: &[char]) -> (value: Option<Json>)
    ensures
        seen_json(value) == readable_json(s@),
{
    let text = text_of(s);
    match parse_leading(text.as_str()) {
        Some(v) => Some(v),
        None => lenient_leading(text.as_str()),
    }
}

/// Reads the calls that the JSON value at the start of a text is.
fn first_calls(s: &[char]) -> (calls: Option<Vec<ToolCall>>)
    ensures
        seen_calls(calls) == calls_in_some(readable_json(s@)),
{
    match first_json_value(s) {
        Some(v) => tool_calls_from_value(&v),
        None => None,
    }
}

// ── tagged blocks ───────────────────────────────────────────────────────────

/// The text between each `open` and the `close` that follows it.
pub open spec fn tagged(s: Seq<char>, open: Seq<char>, close: Seq<char>) -> Seq<Seq<char>>
    decreases s.len(),
{
    match find(s, open) {
        Some(start) => {
            let after = s.skip(start + open.len());
            proof {
                find_from_is_first(s, open, 0);
                find_from_is_first(after, close, 0);
            }
            match find(after, close) {
                Some(end) => if open.len() > 0 {
                    seq![after.take(end)] + tagged(after.skip(end + close.len()), open, close)
                } else {
                    Seq::empty()
                },
                None => Seq::empty(),
            }
        },
        None => Seq::empty(),
    }
}

pub open spec fn open_tag(tag: Seq<char>) -> Seq<char> {
    "<"@ + tag + ">"@
}

pub open spec fn close_tag(tag: Seq<char>) -> Seq<char> {
    "</"@ + tag + ">"@
}

/// The inner text of every `<tag>..</tag>` pair.
pub fn extract_tagged(text: &str, tag: &str) -> (inner: Vec<String>)
    ensures
        texts(inner@) == tagged(text@, open_tag(tag@), close_tag(tag@)),
{
    let open = "<".to_owned().concat(tag).concat(">");
    let close = "</".to_owned().concat(tag).concat(">");
    proof {
        reveal_strlit("<");
        reveal_strlit(">");
    }
    let chars = chars_of(text);
    let mut inner: Vec<String> = Vec::new();
    let mut rest: &[char] = chars.as_slice();
    let ghost all = tagged(text@, open@, close@);
    assert(texts(inner@) + tagged(rest@, open@, close@) =~= all);
    loop
        invariant
            open@.len() > 0,
            all == texts(inner@) + tagged(rest@, open@, close@),
            all == tagged(text@, open_tag(tag@), close_tag(tag@)),
        decreases rest@.len(),
    {
        proof {
            find_from_is_first(rest@, open@, 0);
        }
        match past_token(rest, open.as_str()) {
            Some(after) => {
                proof {
                    find_from_is_first(after@, close@, 0);
                }
                match search(after, close.as_str()) {
                    Some(end) => {
                        let n: usize = close.as_str().unicode_len();
                        let ghost read = texts(inner@);
                        let block = text_of(head_of(after, end));
                        inner.push(block);
                        assert(texts(inner@) =~= read.push(block@));
                        let next = tail_of(after, end + n);
                        assert(all =~= texts(inner@) + tagged(next@, open@, close@));
                        rest = next;
                    },
                    None => {
                        assert(texts(inner@) =~= all);
                        return inner;
                    },
                }
            },
            None => {
                assert(texts(inner@) =~= all);
                return inner;
            },
        }
    }
}

/// The calls in a list of blocks, one after the other; a block without any is
/// passed over.
pub open spec fn calls_in_blocks(blocks: Seq<Seq<char>>) -> Seq<CallView>
    decreases blocks.len(),
{
    if blocks.len() == 0 {
        Seq::empty()
    } else {
        let before = calls_in_blocks(blocks.drop_last());
        match calls_in_some(readable_json(trim(blocks.last()))) {
            Some(calls) => before + calls,
            None => before,
        }
    }
}

/// Reads every `<tag>JSON</tag>` block as tool calls.
pub fn parse_tagged(text: &str, tag: &str) -> (calls: Option<Vec<ToolCall>>)
    ensures
        seen_calls(calls) == some_calls(
            calls_in_blocks(tagged(text@, open_tag(tag@), close_tag(tag@))),
        ),
{
    let blocks = extract_tagged(text, tag);
    let mut calls: Vec<ToolCall> = Vec::new();
    assert(call_views(calls@) =~= Seq::empty());
    for i in 0..blocks.len()
        invariant
            call_views(calls@) == calls_in_blocks(texts(blocks@).take(i as int)),
    {
        let ghost read = call_views(calls@);
        let chars = chars_of(blocks[i].as_str());
        proof {
            assert(texts(blocks@).take(i + 1).drop_last() =~= texts(blocks@).take(i as int));
            assert(texts(blocks@).take(i + 1).last() == blocks@[i as int]@);
        }
        if let Some(mut found) = first_calls(trimmed(chars.as_slice())) {
            let ghost more = call_views(found@);
            calls.append(&mut found);
            assert(call_views(calls@) =~= read + more);
        }
    }
    assert(texts(blocks@).take(blocks@.len() as int) =~= texts(blocks@));
    non_empty(calls)
}

// ── the formats ─────────────────────────────────────────────────────────────

/// A recogniser of tool calls in one format of model text.
pub trait RescueParser {
    /// The name that logs know the format by.
    spec fn label(&self) -> Seq<char>;

    /// The calls that a text holds in this format.
    spec fn reads(&self, text: Seq<char>) -> Option<Seq<CallView>>;

    fn name(&self) -> (name: &'static str)
        ensures
            name@ == self.label(),
    ;

    fn try_parse(&self, text: &str) -> (calls: Option<Vec<ToolCall>>)
        ensures
            seen_calls(calls) == self.reads(text@),
    ;
}

pub const LFM_CALL_START: &'static str = "<|tool_call_start|>";

pub const LFM_CALL_END: &'static str = "<|tool_call_end|>";

pub const SPECIAL_TOKEN: &'static str = "<|";

pub const MISTRAL_TOKEN: &'static str = "[TOOL_CALLS]";

pub const ARGS_MARKER: &'static str = "[ARGS]";

pub const PYTHON_TAG: &'static str = "<|python_tag|>";

pub const FUNCTION_OPEN: &'static str = "<function=";

pub const FUNCTION_CLOSE: &'static str = "</function>";

pub const PARAMETER_OPEN: &'static str = "<parameter=";

pub const PARAMETER_CLOSE: &'static str = "</parameter>";

pub const FENCE: &'static str = "```";

/// LiquidAI LFM2 and LFM2.5: calls between `<|tool_call_start|>` and
/// `<|tool_call_end|>`, as JSON or as Python call expressions.
pub struct Lfm;

/// The payload of an LFM call: up to the closing token, or to the next special
/// token where there is none.
pub open spec fn lfm_payload(after: Seq<char>) -> Seq<char> {
    trim(
        match find(after, LFM_CALL_END@) {
            Some(end) => after.take(end),
            None => cut(after, SPECIAL_TOKEN@),
        },
    )
}

impl RescueParser for Lfm {
    open spec fn label(&self) -> Seq<char> {
        "lfm"@
    }

    open spec fn reads(&self, text: Seq<char>) -> Option<Seq<CallView>> {
        match past(text, LFM_CALL_START@) {
            Some(after) => match calls_in_some(readable_json(lfm_payload(after))) {
                Some(calls) => Some(calls),
                None => pythonic_calls(lfm_payload(after)),
            },
            None => None,
        }
    }

    fn name(&self) -> &'static str {
        "lfm"
    }

    fn try_parse(&self, text: &str) -> Option<Vec<ToolCall>> {
        let chars = chars_of(text);
        match past_token(chars.as_slice(), LFM_CALL_START) {
            Some(after) => {
                let span = match search(after, LFM_CALL_END) {
                    Some(end) => head_of(after, end),
                    None => cut_at(after, SPECIAL_TOKEN),
                };
                let inner = trimmed(span);
                match first_calls(inner) {
                    Some(calls) => Some(calls),
                    None => parse_pythonic_calls(text_of(inner).as_str()),
                }
            },
            None => None,
        }
    }
}

/// Mistral: `[TOOL_CALLS]` before a JSON list or object, or before `name{..}`.
pub struct Mistral;

/// A tool name and the JSON object that follows it.
pub open spec fn name_and_object(s: Seq<char>) -> Option<CallView> {
    match find(s, "{"@) {
        Some(brace) => {
            let name = trim(s.take(brace));
            if name.len() == 0 || exists|i: int| 0 <= i < name.len() && is_white(#[trigger] name[i]) {
                None
            } else {
                match readable_json(s.skip(brace)) {
                    Some(args) => Some(CallView { id: None, name, arguments: json_text(args) }),
                    None => None,
                }
            }
        },
        None => None,
    }
}

/// One call, as the calls of a text.
pub open spec fn one_call(call: Option<CallView>) -> Option<Seq<CallView>> {
    match call {
        Some(c) => Some(seq![c]),
        None => None,
    }
}

fn single(call: ToolCall) -> (calls: Option<Vec<ToolCall>>)
    ensures
        seen_calls(calls) == Some(seq![call@]),
{
    let mut calls: Vec<ToolCall> = Vec::new();
    calls.push(call);
    assert(call_views(calls@) =~= seq![call@]);
    Some(calls)
}

fn has_whitespace(s: &[char]) -> (yes: bool)
    ensures
        yes == exists|i: int| 0 <= i < s@.len() && is_white(#[trigger] s@[i]),
{
    for i in 0..s.len()
        invariant
            forall|j: int| 0 <= j < i ==> !is_white(#[trigger] s@[j]),
    {
        if whitespace(s[i]) {
            return true;
        }
    }
    false
}

impl RescueParser for Mistral {
    open spec fn label(&self) -> Seq<char> {
        "mistral"@
    }

    open spec fn reads(&self, text: Seq<char>) -> Option<Seq<CallView>> {
        match past(text, MISTRAL_TOKEN@) {
            Some(after) => match calls_in_some(readable_json(trim_start(after))) {
                Some(calls) => Some(calls),
                None => one_call(name_and_object(trim_start(after))),
            },
            None => None,
        }
    }

    fn name(&self) -> &'static str {
        "mistral"
    }

    fn try_parse(&self, text: &str) -> Option<Vec<ToolCall>> {
        let chars = chars_of(text);
        let rest = match past_token(chars.as_slice(), MISTRAL_TOKEN) {
            Some(after) => trimmed_start(after),
            None => {
                return None;
            },
        };
        if let Some(calls) = first_calls(rest) {
            return Some(calls);
        }
        match search(rest, "{") {
            Some(brace) => {
                let name = trimmed(head_of(rest, brace));
                if name.len() == 0 || has_whitespace(name) {
                    return None;
                }
                match first_json_value(tail_of(rest, brace)) {
                    Some(args) => single(
                        ToolCall { id: None, name: text_of(name), arguments: render(&args) },
                    ),
                    None => None,
                }
            },
            None => None,
        }
    }
}

/// Rehearsal syntax: `name[ARGS]{..}`.
pub struct Rehearsal;

/// Where the identifier that a text ends with starts.
pub open spec fn last_ident_start(s: Seq<char>, end: int) -> int
    decreases end,
{
    if 0 < end <= s.len() && is_ident_char(s[end - 1]) {
        last_ident_start(s, end - 1)
    } else {
        end
    }
}

fn ident_start(s: &[char]) -> (start: usize)
    ensures
        start == last_ident_start(s@, s@.len() as int),
        start <= s@.len(),
{
    let mut start: usize = s.len();
    while start > 0 && (s[start - 1].is_alphanumeric() || s[start - 1] == '_')
        invariant
            start <= s@.len(),
            last_ident_start(s@, s@.len() as int) == last_ident_start(s@, start as int),
        decreases start,
    {
        start = start - 1;
    }
    start
}

/// The identifier that a text ends with.
pub open spec fn last_ident(s: Seq<char>) -> Seq<char> {
    s.skip(last_ident_start(s, s.len() as int))
}

impl RescueParser for Rehearsal {
    open spec fn label(&self) -> Seq<char> {
        "rehearsal"@
    }

    open spec fn reads(&self, text: Seq<char>) -> Option<Seq<CallView>> {
        match find(text, ARGS_MARKER@) {
            Some(marker) => {
                let name = last_ident(text.take(marker));
                match readable_json(trim_start(text.skip(marker + ARGS_MARKER@.len()))) {
                    Some(args) => if name.len() > 0 && args is Object {
                        Some(seq![CallView { id: None, name, arguments: json_text(args) }])
                    } else {
                        None
                    },
                    None => None,
                }
            },
            None => None,
        }
    }

    fn name(&self) -> &'static str {
        "rehearsal"
    }

    fn try_parse(&self, text: &str) -> Option<Vec<ToolCall>> {
        let chars = chars_of(text);
        let marker: usize = match search(chars.as_slice(), ARGS_MARKER) {
            Some(marker) => marker,
            None => {
                return None;
            },
        };
        let n: usize = ARGS_MARKER.unicode_len();
        let before = head_of(chars.as_slice(), marker);
        let name = tail_of(before, ident_start(before));
        if name.len() == 0 {
            return None;
        }
        match first_json_value(trimmed_start(tail_of(chars.as_slice(), marker + n))) {
            Some(args) => match args {
                Json::Object(_) => single(
                    ToolCall { id: None, name: text_of(name), arguments: render(&args) },
                ),
                _ => None,
            },
            None => None,
        }
    }
}

/// Qwen-Coder: `<function=name><parameter=key>value</parameter>..</function>`.
pub struct QwenCoder;

/// The `<function=name>..</function>` blocks of a text: name and inner text.
/// A block without a name is passed over.
pub open spec fn function_blocks(s: Seq<char>) -> Seq<(Seq<char>, Seq<char>)>
    decreases s.len(),
{
    match past(s, FUNCTION_OPEN@) {
        Some(after) => match find(after, ">"@) {
            Some(gt) => {
                let body = after.skip(gt + 1);
                proof {
                    reveal_strlit("<function=");
                    reveal_strlit(">");
                    find_from_is_first(s, FUNCTION_OPEN@, 0);
                    find_from_is_first(after, ">"@, 0);
                    find_from_is_first(body, FUNCTION_CLOSE@, 0);
                }
                match find(body, FUNCTION_CLOSE@) {
                    Some(end) => {
                        let rest = function_blocks(body.skip(end + FUNCTION_CLOSE@.len()));
                        let name = trim(after.take(gt));
                        if name.len() > 0 {
                            seq![(name, body.take(end))] + rest
                        } else {
                            rest
                        }
                    },
                    None => Seq::empty(),
                }
            },
            None => Seq::empty(),
        },
        None => Seq::empty(),
    }
}

/// Pairs of texts by their views.
pub open spec fn text_pairs(list: Seq<(String, String)>) -> Seq<(Seq<char>, Seq<char>)> {
    list.map_values(|p: (String, String)| (p.0@, p.1@))
}

/// Name and inner text of each `<function=name>..</function>` block.
pub fn extract_function_blocks(text: &str) -> (blocks: Vec<(String, String)>)
    ensures
        text_pairs(blocks@) == function_blocks(text@),
{
    let chars = chars_of(text);
    let mut blocks: Vec<(String, String)> = Vec::new();
    let mut rest: &[char] = chars.as_slice();
    let ghost all = function_blocks(text@);
    assert(text_pairs(blocks@) + function_blocks(rest@) =~= all);
    loop
        invariant
            all == function_blocks(text@),
            all == text_pairs(blocks@) + function_blocks(rest@),
        decreases rest@.len(),
    {
        let ghost read = text_pairs(blocks@);
        proof {
            reveal_strlit("<function=");
            reveal_strlit(">");
            find_from_is_first(rest@, FUNCTION_OPEN@, 0);
        }
        let after = match past_token(rest, FUNCTION_OPEN) {
            Some(after) => after,
            None => {
                assert(text_pairs(blocks@) =~= all);
                return blocks;
            },
        };
        let gt: usize = match search(after, ">") {
            Some(gt) => gt,
            None => {
                assert(text_pairs(blocks@) =~= all);
                return blocks;
            },
        };
        let name = text_of(trimmed(head_of(after, gt)));
        let body = tail_of(after, gt + 1);
        let n: usize = FUNCTION_CLOSE.unicode_len();
        let end: usize = match search(body, FUNCTION_CLOSE) {
            Some(end) => end,
            None => {
                assert(text_pairs(blocks@) =~= all);
                return blocks;
            },
        };
        let next = tail_of(body, end + n);
        if !name.as_str().is_empty() {
            let inner = text_of(head_of(body, end));
            let ghost pair = (name@, inner@);
            blocks.push((name, inner));
            assert(text_pairs(blocks@) =~= read.push(pair));
        }
        assert(all =~= text_pairs(blocks@) + function_blocks(next@));
        rest = next;
    }
}

/// A parameter value: JSON where it is JSON, else a string.
pub open spec fn param_value(text: Seq<char>) -> JsonView {
    match json_of(text) {
        Some(v) => v,
        None => JsonView::Str(text),
    }
}

pub fn coerce_param(value: &str) -> (json: Json)
    ensures
        json@ == param_value(value@),
{
    match parse(value) {
        Some(v) => v,
        None => Json::text(value),
    }
}

/// The arguments with the parameter that one chunk after a `<parameter=` holds.
pub open spec fn with_param(
    args: Map<Seq<char>, JsonView>,
    chunk: Seq<char>,
) -> Map<Seq<char>, JsonView> {
    match find(chunk, ">"@) {
        Some(gt) => args.insert(
            trim(chunk.take(gt)),
            param_value(trim(cut(chunk.skip(gt + 1), PARAMETER_CLOSE@))),
        ),
        None => args,
    }
}

/// The arguments that the chunks after the first hold; a later parameter of one
/// name replaces an earlier one.
pub open spec fn params_of(chunks: Seq<Seq<char>>) -> Map<Seq<char>, JsonView>
    decreases chunks.len(),
{
    if chunks.len() <= 1 {
        Map::empty()
    } else {
        with_param(params_of(chunks.drop_last()), chunks.last())
    }
}

/// The call that a function block is.
pub open spec fn block_call(block: (Seq<char>, Seq<char>)) -> CallView {
    CallView {
        id: None,
        name: block.0,
        arguments: json_text(JsonView::Object(params_of(split(block.1, PARAMETER_OPEN@)))),
    }
}

fn read_params(inner: &str) -> (args: JsonObject)
    ensures
        args@ == params_of(split(inner@, PARAMETER_OPEN@)),
{
    proof {
        reveal_strlit("<parameter=");
        reveal_strlit(">");
    }
    let chars = chars_of(inner);
    let chunks = split_at_token(chars.as_slice(), PARAMETER_OPEN);
    let ghost all = runs(chunks@);
    let mut args = JsonObject::new();
    let mut i: usize = 1;
    proof {
        assert(all.len() >= 1);
        assert(all.take(1).len() == 1);
    }
    while i < chunks.len()
        invariant
            1 <= i <= chunks@.len(),
            all == runs(chunks@),
            args@ == params_of(all.take(i as int)),
            ">"@.len() == 1,
        decreases chunks@.len() - i,
    {
        let chunk = chunks[i];
        proof {
            assert(all.take(i + 1).drop_last() =~= all.take(i as int));
            assert(all.take(i + 1).last() == chunk@);
        }
        if let Some(gt) = search(chunk, ">") {
            let key = text_of(trimmed(head_of(chunk, gt)));
            let value = text_of(trimmed(cut_at(tail_of(chunk, gt + 1), PARAMETER_CLOSE)));
            args.insert(key.as_str(), coerce_param(value.as_str()));
        }
        i = i + 1;
    }
    assert(all.take(all.len() as int) =~= all);
    args
}

impl RescueParser for QwenCoder {
    open spec fn label(&self) -> Seq<char> {
        "qwen_coder"@
    }

    open spec fn reads(&self, text: Seq<char>) -> Option<Seq<CallView>> {
        some_calls(
            function_blocks(text).map_values(|b: (Seq<char>, Seq<char>)| block_call(b)),
        )
    }

    fn name(&self) -> &'static str {
        "qwen_coder"
    }

    fn try_parse(&self, text: &str) -> Option<Vec<ToolCall>> {
        let blocks = extract_function_blocks(text);
        let ghost all = text_pairs(blocks@);
        let mut calls: Vec<ToolCall> = Vec::new();
        assert(call_views(calls@) =~= Seq::empty());
        for i in 0..blocks.len()
            invariant
                all == text_pairs(blocks@),
                call_views(calls@) == all.take(i as int).map_values(
                    |b: (Seq<char>, Seq<char>)| block_call(b),
                ),
        {
            let ghost read = call_views(calls@);
            let args = read_params(blocks[i].1.as_str());
            let call = ToolCall {
                id: None,
                name: blocks[i].0.clone(),
                arguments: render(&Json::Object(args)),
            };
            calls.push(call);
            assert(call@ == block_call(all[i as int]));
            assert(call_views(calls@) =~= read.push(call@));
            assert(call_views(calls@) =~= all.take(i + 1).map_values(
                |b: (Seq<char>, Seq<char>)| block_call(b),
            ));
        }
        assert(all.take(all.len() as int) =~= all);
        non_empty(calls)
    }
}

/// Qwen: `<tool_call>{..}</tool_call>` blocks.
pub struct Qwen;

impl RescueParser for Qwen {
    open spec fn label(&self) -> Seq<char> {
        "qwen"@
    }

    open spec fn reads(&self, text: Seq<char>) -> Option<Seq<CallView>> {
        some_calls(
            calls_in_blocks(tagged(text, open_tag("tool_call"@), close_tag("tool_call"@))),
        )
    }

    fn name(&self) -> &'static str {
        "qwen"
    }

    fn try_parse(&self, text: &str) -> Option<Vec<ToolCall>> {
        parse_tagged(text, "tool_call")
    }
}

/// Hermes: `<function_call>{..}</function_call>` blocks.
pub struct Hermes;

impl RescueParser for Hermes {
    open spec fn label(&self) -> Seq<char> {
        "hermes"@
    }

    open spec fn reads(&self, text: Seq<char>) -> Option<Seq<CallView>> {
        some_calls(
            calls_in_blocks(
                tagged(text, open_tag("function_call"@), close_tag("function_call"@)),
            ),
        )
    }

    fn name(&self) -> &'static str {
        "hermes"
    }

    fn try_parse(&self, text: &str) -> Option<Vec<ToolCall>> {
        parse_tagged(text, "function_call")
    }
}

/// Llama 3.x: `<|python_tag|>` before a JSON call, which the next special token
/// ends.
pub struct Llama;

impl RescueParser for Llama {
    open spec fn label(&self) -> Seq<char> {
        "llama"@
    }

    open spec fn reads(&self, text: Seq<char>) -> Option<Seq<CallView>> {
        match past(text, PYTHON_TAG@) {
            Some(rest) => calls_in_some(readable_json(trim(cut(rest, SPECIAL_TOKEN@)))),
            None => None,
        }
    }

    fn name(&self) -> &'static str {
        "llama"
    }

    fn try_parse(&self, text: &str) -> Option<Vec<ToolCall>> {
        let chars = chars_of(text);
        match past_token(chars.as_slice(), PYTHON_TAG) {
            Some(rest) => first_calls(trimmed(cut_at(rest, SPECIAL_TOKEN))),
            None => None,
        }
    }
}

/// A fenced code block that holds tool-call JSON.
pub struct FencedJson;

/// The body of a fenced block: without its first line where that is a language
/// tag.
pub open spec fn fence_body(block: Seq<char>) -> Seq<char> {
    match find(block, "\n"@) {
        Some(i) => {
            let first = trim(block.take(i));
            if first.len() > 0 && forall|j: int|
                0 <= j < first.len() ==> is_ascii_alnum(#[trigger] first[j]) {
                block.skip(i + 1)
            } else {
                block
            }
        },
        None => block,
    }
}

/// The bodies of the fenced blocks: of what stands between the fences, every
/// second part. A block need not be closed.
pub open spec fn fence_bodies(text: Seq<char>) -> Seq<Seq<char>> {
    let parts = split(text, FENCE@);
    Seq::new((parts.len() / 2) as nat, |i: int| fence_body(parts[2 * i + 1]))
}

fn is_language_tag(first: &[char]) -> (yes: bool)
    ensures
        yes == (first@.len() > 0 && forall|j: int|
            0 <= j < first@.len() ==> is_ascii_alnum(#[trigger] first@[j])),
{
    for j in 0..first.len()
        invariant
            forall|k: int| 0 <= k < j ==> is_ascii_alnum(#[trigger] first@[k]),
    {
        if !ascii_alnum(first[j]) {
            return false;
        }
    }
    first.len() > 0
}

/// The body of each fenced block.
pub fn fenced_blocks(text: &str) -> (blocks: Vec<String>)
    ensures
        texts(blocks@) == fence_bodies(text@),
{
    proof {
        reveal_strlit("```");
        reveal_strlit("\n");
    }
    let chars = chars_of(text);
    let parts = split_at_token(chars.as_slice(), FENCE);
    let ghost all = runs(parts@);
    let mut blocks: Vec<String> = Vec::new();
    let count: usize = parts.len() / 2;
    for i in 0..count
        invariant
            "\n"@.len() == 1,
            all == runs(parts@),
            all == split(text@, FENCE@),
            count == parts@.len() / 2,
            2 * count <= parts@.len() <= usize::MAX,
            i == blocks@.len(),
            texts(blocks@) == Seq::new(blocks@.len(), |k: int| fence_body(all[2 * k + 1])),
    {
        let ghost read = texts(blocks@);
        let segment = parts[2 * i + 1];
        assert(all[2 * i + 1] == segment@);
        let body = match search(segment, "\n") {
            Some(n) => if is_language_tag(trimmed(head_of(segment, n))) {
                tail_of(segment, n + 1)
            } else {
                segment
            },
            None => segment,
        };
        let block = text_of(body);
        blocks.push(block);
        assert(texts(blocks@) =~= read.push(block@));
        assert(texts(blocks@) =~= Seq::new(blocks@.len(), |k: int| fence_body(all[2 * k + 1])));
    }
    assert(texts(blocks@) =~= fence_bodies(text@));
    blocks
}

/// The calls of the first block that holds any.
pub open spec fn first_block_calls(blocks: Seq<Seq<char>>) -> Option<Seq<CallView>>
    decreases blocks.len(),
{
    if blocks.len() == 0 {
        None
    } else {
        match calls_in_some(readable_json(trim(blocks[0]))) {
            Some(calls) => Some(calls),
            None => first_block_calls(blocks.drop_first()),
        }
    }
}

impl RescueParser for FencedJson {
    open spec fn label(&self) -> Seq<char> {
        "fenced_json"@
    }

    open spec fn reads(&self, text: Seq<char>) -> Option<Seq<CallView>> {
        first_block_calls(fence_bodies(text))
    }

    fn name(&self) -> &'static str {
        "fenced_json"
    }

    fn try_parse(&self, text: &str) -> Option<Vec<ToolCall>> {
        let blocks = fenced_blocks(text);
        let ghost all = texts(blocks@);
        assert(all.skip(0) =~= all);
        for i in 0..blocks.len()
            invariant
                all == texts(blocks@),
                all == fence_bodies(text@),
                first_block_calls(all) == first_block_calls(all.skip(i as int)),
        {
            let chars = chars_of(blocks[i].as_str());
            assert(all.skip(i as int)[0] == blocks@[i as int]@);
            assert(all.skip(i as int).drop_first() =~= all.skip(i + 1));
            if let Some(calls) = first_calls(trimmed(chars.as_slice())) {
                return Some(calls);
            }
        }
        None
    }
}

/// Whether a text opens a JSON object or array.
pub open spec fn opens_json(s: Seq<char>) -> bool {
    s.len() > 0 && (s[0] == '{' || s[0] == '[')
}

fn opens_bracket(s: &[char]) -> (yes: bool)
    ensures
        yes == opens_json(s@),
{
    s.len() > 0 && (s[0] == '{' || s[0] == '[')
}

/// The whole text is tool-call JSON. A text that merely starts with such JSON
/// is not: prose may open with an example.
pub struct BareJson;

impl RescueParser for BareJson {
    open spec fn label(&self) -> Seq<char> {
        "bare_json"@
    }

    open spec fn reads(&self, text: Seq<char>) -> Option<Seq<CallView>> {
        if opens_json(trim(text)) {
            calls_in_some(whole_json(trim(text)))
        } else {
            None
        }
    }

    fn name(&self) -> &'static str {
        "bare_json"
    }

    fn try_parse(&self, text: &str) -> Option<Vec<ToolCall>> {
        let chars = chars_of(text);
        let whole = trimmed(chars.as_slice());
        if !opens_bracket(whole) {
            return None;
        }
        let whole = text_of(whole);
        let value = match parse(whole.as_str()) {
            Some(v) => Some(v),
            None => lenient_whole(whole.as_str()),
        };
        match value {
            Some(v) => tool_calls_from_value(&v),
            None => None,
        }
    }
}

// ── all formats ─────────────────────────────────────────────────────────────

/// The formats by name.
#[derive(Debug, Clone, Copy, PartialEq, Eq, Structural)]
pub enum Format {
    Lfm,
    Mistral,
    Rehearsal,
    QwenCoder,
    Qwen,
    Hermes,
    Llama,
    FencedJson,
    BareJson,
}

impl RescueParser for Format {
    open spec fn label(&self) -> Seq<char> {
        match self {
            Format::Lfm => Lfm.label(),
            Format::Mistral => Mistral.label(),
            Format::Rehearsal => Rehearsal.label(),
            Format::QwenCoder => QwenCoder.label(),
            Format::Qwen => Qwen.label(),
            Format::Hermes => Hermes.label(),
            Format::Llama => Llama.label(),
            Format::FencedJson => FencedJson.label(),
            Format::BareJson => BareJson.label(),
        }
    }

    open spec fn reads(&self, text: Seq<char>) -> Option<Seq<CallView>> {
        match self {
            Format::Lfm => Lfm.reads(text),
            Format::Mistral => Mistral.reads(text),
            Format::Rehearsal => Rehearsal.reads(text),
            Format::QwenCoder => QwenCoder.reads(text),
            Format::Qwen => Qwen.reads(text),
            Format::Hermes => Hermes.reads(text),
            Format::Llama => Llama.reads(text),
            Format::FencedJson => FencedJson.reads(text),
            Format::BareJson => BareJson.reads(text),
        }
    }

    fn name(&self) -> &'static str {
        match self {
            Format::Lfm => Lfm.name(),
            Format::Mistral => Mistral.name(),
            Format::Rehearsal => Rehearsal.name(),
            Format::QwenCoder => QwenCoder.name(),
            Format::Qwen => Qwen.name(),
            Format::Hermes => Hermes.name(),
            Format::Llama => Llama.name(),
            Format::FencedJson => FencedJson.name(),
            Format::BareJson => BareJson.name(),
        }
    }

    fn try_parse(&self, text: &str) -> Option<Vec<ToolCall>> {
        match self {
            Format::Lfm => Lfm.try_parse(text),
            Format::Mistral => Mistral.try_parse(text),
            Format::Rehearsal => Rehearsal.try_parse(text),
            Format::QwenCoder => QwenCoder.try_parse(text),
            Format::Qwen => Qwen.try_parse(text),
            Format::Hermes => Hermes.try_parse(text),
            Format::Llama => Llama.try_parse(text),
            Format::FencedJson => FencedJson.try_parse(text),
            Format::BareJson => BareJson.try_parse(text),
        }
    }
}

/// The order in which the formats are tried.
pub open spec fn format_order() -> Seq<Format> {
    seq![
        Format::Lfm,
        Format::Mistral,
        Format::Rehearsal,
        Format::QwenCoder,
        Format::Qwen,
        Format::Hermes,
        Format::Llama,
        Format::FencedJson,
        Format::BareJson,
    ]
}

/// The first of `formats` that reads calls from `text`, and the calls.
pub open spec fn first_reading(formats: Seq<Format>, text: Seq<char>) -> Option<
    (Format, Seq<CallView>),
>
    decreases formats.len(),
{
    if formats.len() == 0 {
        None
    } else {
        match formats[0].reads(text) {
            Some(calls) => Some((formats[0], calls)),
            None => first_reading(formats.drop_first(), text),
        }
    }
}

/// What a text is rescued as.
pub open spec fn rescued(text: Seq<char>) -> Option<(Format, Seq<CallView>)> {
    first_reading(format_order(), text)
}

/// The formats tried, in order.
pub fn default_parsers() -> (formats: Vec<Format>)
    ensures
        formats@ == format_order(),
{
    let formats: Vec<Format> = vec![
        Format::Lfm,
        Format::Mistral,
        Format::Rehearsal,
        Format::QwenCoder,
        Format::Qwen,
        Format::Hermes,
        Format::Llama,
        Format::FencedJson,
        Format::BareJson,
    ];
    assert(formats@ =~= format_order());
    formats
}

/// The first format that reads calls from a text, and the calls.
fn rescue_format(text: &str) -> (found: Option<(Format, Vec<ToolCall>)>)
    ensures
        match found {
            Some((format, calls)) => rescued(text@) == Some((format, call_views(calls@))),
            None => rescued(text@) is None,
        },
{
    let formats = default_parsers();
    assert(formats@.skip(0) =~= formats@);
    for i in 0..formats.len()
        invariant
            formats@ == format_order(),
            rescued(text@) == first_reading(formats@.skip(i as int), text@),
    {
        assert(formats@.skip(i as int).drop_first() =~= formats@.skip(i + 1));
        if let Some(calls) = formats[i].try_parse(text) {
            return Some((formats[i], calls));
        }
    }
    None
}

/// Tries every format and returns what the first match reads, with its name.
pub fn rescue(text: &str) -> (found: Option<(&'static str, Vec<ToolCall>)>)
    ensures
        match found {
            Some((name, calls)) => rescued(text@) matches Some((format, views)) && name@
                == format.label() && call_views(calls@) == views,
            None => rescued(text@) is None,
        },
{
    match rescue_format(text) {
        Some((format, calls)) => Some((format.name(), calls)),
        None => None,
    }
}

/// Whether a text shows the opening of a tool call in some format.
pub open spec fn resembles_call(text: Seq<char>) -> bool {
    ||| contains(text, LFM_CALL_START@)
    ||| contains(text, MISTRAL_TOKEN@)
    ||| contains(text, ARGS_MARKER@)
    ||| contains(text, FUNCTION_OPEN@)
    ||| contains(text, open_tag("tool_call"@))
    ||| contains(text, open_tag("function_call"@))
    ||| contains(text, PYTHON_TAG@)
    ||| contains(text, FENCE@)
    ||| opens_json(trim(text))
}

/// Whether a text shows the opening of a tool call, so that it must not be
/// shown before it is known not to be one.
pub fn looks_like_tool_call(text: &str) -> (yes: bool)
    ensures
        yes == resembles_call(text@),
{
    let chars = chars_of(text);
    let tool_call = "<".to_owned().concat("tool_call").concat(">");
    let function_call = "<".to_owned().concat("function_call").concat(">");
    includes(text, LFM_CALL_START) || includes(text, MISTRAL_TOKEN) || includes(text, ARGS_MARKER)
        || includes(text, FUNCTION_OPEN) || includes(text, tool_call.as_str()) || includes(
        text,
        function_call.as_str(),
    ) || includes(text, PYTHON_TAG) || includes(text, FENCE) || opens_bracket(
        trimmed(chars.as_slice()),
    )
}

proof fn blocks_need_calls(blocks: Seq<Seq<char>>)
    ensures
        calls_in_blocks(blocks).len() > 0 ==> blocks.len() > 0,
{
}

/// A text from which calls are rescued shows the opening of a call: text that
/// does not may be shown at once, and no rescue will contradict it.
pub proof fn rescued_text_resembles_call(text: Seq<char>)
    ensures
        rescued(text) is Some ==> resembles_call(text),
{
    find_is_contains(text, LFM_CALL_START@);
    find_is_contains(text, MISTRAL_TOKEN@);
    find_is_contains(text, ARGS_MARKER@);
    find_is_contains(text, FUNCTION_OPEN@);
    find_is_contains(text, open_tag("tool_call"@));
    find_is_contains(text, open_tag("function_call"@));
    find_is_contains(text, PYTHON_TAG@);
    find_is_contains(text, FENCE@);
    blocks_need_calls(tagged(text, open_tag("tool_call"@), close_tag("tool_call"@)));
    blocks_need_calls(tagged(text, open_tag("function_call"@), close_tag("function_call"@)));
    first_reading_reads(format_order(), text);
    if let Some((format, _)) = rescued(text) {
        match format {
            Format::QwenCoder => {
                assert(function_blocks(text).len() > 0);
            },
            Format::FencedJson => {
                assert(fence_bodies(text).len() > 0);
                assert(split(text, FENCE@).len() > 1);
            },
            _ => {},
        }
    }
}

proof fn first_reading_reads(formats: Seq<Format>, text: Seq<char>)
    ensures
        first_reading(formats, text) matches Some((format, calls)) ==> format.reads(text) == Some(
            calls,
        ),
    decreases formats.len(),
{
    if formats.len() > 0 && formats[0].reads(text) is None {
        first_reading_reads(formats.drop_first(), text);
    }
}

// ── the prose around a call ─────────────────────────────────────────────────

/// `s` without every span from `open` to the next `close`; one that is not
/// closed reaches to the end.
pub open spec fn without_spans(s: Seq<char>, open: Seq<char>, close: Seq<char>) -> Seq<char>
    decreases s.len(),
{
    match find(s, open) {
        Some(start) => {
            let after = s.skip(start + open.len());
            proof {
                find_from_is_first(s, open, 0);
                find_from_is_first(after, close, 0);
            }
            match find(after, close) {
                Some(end) => if open.len() > 0 {
                    s.take(start) + without_spans(after.skip(end + close.len()), open, close)
                } else {
                    s
                },
                None => s.take(start),
            }
        },
        None => s,
    }
}

fn drop_spans(chars: &[char], open: &str, close: &str) -> (kept: Vec<char>)
    requires
        open@.len() > 0,
    ensures
        kept@ == without_spans(chars@, open@, close@),
{
    let mut kept: Vec<char> = Vec::new();
    let mut rest: &[char] = chars;
    let ghost all = without_spans(chars@, open@, close@);
    assert(kept@ + without_spans(rest@, open@, close@) =~= all);
    loop
        invariant
            open@.len() > 0,
            all == without_spans(chars@, open@, close@),
            all == kept@ + without_spans(rest@, open@, close@),
        decreases rest@.len(),
    {
        proof {
            find_from_is_first(rest@, open@, 0);
        }
        match search(rest, open) {
            Some(start) => {
                let ghost before = kept@;
                append_chars(&mut kept, head_of(rest, start));
                let m: usize = open.unicode_len();
                let after = tail_of(rest, start + m);
                proof {
                    find_from_is_first(after@, close@, 0);
                }
                match search(after, close) {
                    Some(end) => {
                        let n: usize = close.unicode_len();
                        let next = tail_of(after, end + n);
                        assert(all =~= kept@ + without_spans(next@, open@, close@));
                        rest = next;
                    },
                    None => {
                        assert(all =~= kept@);
                        return kept;
                    },
                }
            },
            None => {
                append_chars(&mut kept, rest);
                return kept;
            },
        }
    }
}

fn append_chars(to: &mut Vec<char>, more: &[char])
    ensures
        final(to)@ == old(to)@ + more@,
{
    for i in 0..more.len()
        invariant
            to@ == old(to)@ + more@.take(i as int),
    {
        to.push(more[i]);
        assert(more@.take(i + 1) =~= more@.take(i as int).push(more@[i as int]));
    }
    assert(more@.take(more@.len() as int) =~= more@);
}

/// What a text says beside the calls that are rescued from it.
pub open spec fn prose_of(text: Seq<char>) -> Seq<char> {
    match rescued(text) {
        Some((format, _)) => match format {
            Format::Lfm => without_spans(text, LFM_CALL_START@, LFM_CALL_END@),
            Format::Mistral => cut(text, MISTRAL_TOKEN@),
            Format::Rehearsal => {
                let before = cut(text, ARGS_MARKER@);
                before.take(last_ident_start(before, before.len() as int))
            },
            Format::QwenCoder => without_spans(text, FUNCTION_OPEN@, FUNCTION_CLOSE@),
            Format::Qwen => without_spans(text, open_tag("tool_call"@), close_tag("tool_call"@)),
            Format::Hermes => without_spans(
                text,
                open_tag("function_call"@),
                close_tag("function_call"@),
            ),
            Format::Llama => cut(text, PYTHON_TAG@),
            Format::FencedJson => without_spans(text, FENCE@, FENCE@),
            Format::BareJson => Seq::empty(),
        },
        None => text,
    }
}

/// What a text says beside the calls that are rescued from it, if anything.
pub fn prose_beside_call(text: &str) -> (prose: Option<String>)
    ensures
        match prose {
            Some(p) => p@ == trim(prose_of(text@)) && p@.len() > 0,
            None => trim(prose_of(text@)).len() == 0,
        },
{
    proof {
        reveal_strlit("<");
        reveal_strlit("<function=");
        reveal_strlit("<|tool_call_start|>");
        reveal_strlit("```");
    }
    let chars = chars_of(text);
    let all = chars.as_slice();
    let kept: Vec<char> = match rescue_format(text) {
        Some((format, _)) => match format {
            Format::Lfm => drop_spans(all, LFM_CALL_START, LFM_CALL_END),
            Format::Mistral => own(cut_at(all, MISTRAL_TOKEN)),
            Format::Rehearsal => {
                let before = cut_at(all, ARGS_MARKER);
                own(head_of(before, ident_start(before)))
            },
            Format::QwenCoder => drop_spans(all, FUNCTION_OPEN, FUNCTION_CLOSE),
            Format::Qwen => {
                let open = "<".to_owned().concat("tool_call").concat(">");
                let close = "</".to_owned().concat("tool_call").concat(">");
                drop_spans(all, open.as_str(), close.as_str())
            },
            Format::Hermes => {
                let open = "<".to_owned().concat("function_call").concat(">");
                let close = "</".to_owned().concat("function_call").concat(">");
                drop_spans(all, open.as_str(), close.as_str())
            },
            Format::Llama => own(cut_at(all, PYTHON_TAG)),
            Format::FencedJson => drop_spans(all, FENCE, FENCE),
            Format::BareJson => Vec::new(),
        },
        None => own(all),
    };
    let prose = text_of(trimmed(kept.as_slice()));
    if prose.as_str().is_empty() {
        None
    } else {
        Some(prose)
    }
}

fn own(s: &[char]) -> (copy: Vec<char>)
    ensures
        copy@ == s@,
{
    let mut copy: Vec<char> = Vec::new();
    append_chars(&mut copy, s);
    assert(copy@ =~= s@);
    copy
}

// ── laws ────────────────────────────────────────────────────────────────────

/// The calls of a value that a text starts with; none where there are none.
pub open spec fn calls_at(text: Seq<char>) -> Seq<CallView> {
    match readable_json(text) {
        Some(v) => match calls_in(v) {
            Some(calls) => calls,
            None => Seq::empty(),
        },
        None => Seq::empty(),
    }
}

proof fn function_tokens()
    ensures
        is_unbordered("<function="@),
        is_unbordered("</function>"@),
        is_unbordered("<parameter="@),
        is_unbordered("</parameter>"@),
        is_unbordered(">"@),
{
    reveal_strlit("<function=");
    reveal_strlit("</function>");
    reveal_strlit("<parameter=");
    reveal_strlit("</parameter>");
    reveal_strlit(">");
}

/// A `<function=..>` block as a model writes it.
pub open spec fn written_block(name: Seq<char>, inner: Seq<char>) -> Seq<char> {
    "<function="@ + name + ">"@ + inner + "</function>"@
}

/// The blocks of a text add up: a block and what follows it are read as the block
/// with its name and all of its inner text, and then as all that is read from what
/// follows. A block without a name is passed over, and so is text before a block.
pub proof fn blocks_add_up(
    before: Seq<char>,
    name: Seq<char>,
    inner: Seq<char>,
    rest: Seq<char>,
)
    requires
        !contains(before, "<function="@),
        !contains(name, ">"@),
        !contains(inner, "</function>"@),
    ensures
        ({
            let all = function_blocks(before + written_block(name, inner) + rest);
            if trim(name).len() > 0 {
                all == seq![(trim(name), inner)] + function_blocks(rest)
            } else {
                all == function_blocks(rest)
            }
        }),
{
    function_tokens();
    let s = before + written_block(name, inner) + rest;
    let c = inner + "</function>"@ + rest;
    let b = name + ">"@ + c;
    assert(s =~= before + "<function="@ + b);
    clear_where_absent(before, "<function="@, b);
    parted_where_it_stands(before, "<function="@, b);
    clear_where_absent(name, ">"@, c);
    found_where_it_stands(name, ">"@, c);
    reveal_strlit(">");
    let gt = name.len() as int;
    assert(b.take(gt) =~= name);
    assert(b.skip(gt + 1) =~= c);
    clear_where_absent(inner, "</function>"@, rest);
    found_where_it_stands(inner, "</function>"@, rest);
    assert(c.take(inner.len() as int) =~= inner);
    assert(c.skip((inner.len() + "</function>"@.len()) as int) =~= rest);
    find_from_is_first(s, "<function="@, 0);
    find_from_is_first(b, ">"@, 0);
    find_from_is_first(c, "</function>"@, 0);
}

/// A text without an opening holds no block.
pub proof fn no_block_without_an_opening(s: Seq<char>)
    requires
        !contains(s, "<function="@),
    ensures
        function_blocks(s) == Seq::<(Seq<char>, Seq<char>)>::empty(),
{
    nothing_without_a_token(s, "<function="@);
}

/// Blocks one after the other.
pub open spec fn written_blocks(blocks: Seq<(Seq<char>, Seq<char>)>) -> Seq<char>
    decreases blocks.len(),
{
    if blocks.len() == 0 {
        Seq::empty()
    } else {
        written_block(blocks[0].0, blocks[0].1) + written_blocks(blocks.drop_first())
    }
}

/// As many blocks as are written are read, each as it was written and in their
/// order.
pub proof fn every_block_is_read(blocks: Seq<(Seq<char>, Seq<char>)>)
    requires
        forall|i: int|
            0 <= i < blocks.len() ==> {
                &&& trim((#[trigger] blocks[i]).0) == blocks[i].0
                &&& blocks[i].0.len() > 0
                &&& !contains(blocks[i].0, ">"@)
                &&& !contains(blocks[i].1, "</function>"@)
            },
    ensures
        function_blocks(written_blocks(blocks)) == blocks,
    decreases blocks.len(),
{
    let none = Seq::<char>::empty();
    reveal_strlit("<function=");
    assert(!contains(none, "<function="@));
    if blocks.len() == 0 {
        no_block_without_an_opening(written_blocks(blocks));
        assert(function_blocks(written_blocks(blocks)) =~= blocks);
    } else {
        let (name, inner) = blocks[0];
        let rest = blocks.drop_first();
        assert(trim(blocks[0].0) == blocks[0].0);
        assert forall|i: int| 0 <= i < rest.len() implies {
            &&& trim((#[trigger] rest[i]).0) == rest[i].0
            &&& rest[i].0.len() > 0
            &&& !contains(rest[i].0, ">"@)
            &&& !contains(rest[i].1, "</function>"@)
        } by {
            assert(rest[i] == blocks[i + 1]);
        }
        every_block_is_read(rest);
        blocks_add_up(none, name, inner, written_blocks(rest));
        assert(none + written_block(name, inner) + written_blocks(rest) =~= written_blocks(blocks));
        assert(seq![(name, inner)] + rest =~= blocks);
    }
}

/// A parameter adds its value under its name to those before it, or replaces the
/// one of that name: what stands between its tags, as JSON where it is JSON, and
/// else as text.
pub proof fn parameters_add_up(
    before: Seq<char>,
    key: Seq<char>,
    value: Seq<char>,
    after: Seq<char>,
)
    requires
        !contains(key, ">"@),
        !contains(value, "</parameter>"@),
        !contains(key + ">"@ + value + "</parameter>"@ + after, "<parameter="@),
    ensures
        params_of(
            split(
                before + "<parameter="@ + (key + ">"@ + value + "</parameter>"@ + after),
                "<parameter="@,
            ),
        ) == params_of(split(before, "<parameter="@)).insert(
            trim(key),
            match json_of(trim(value)) {
                Some(v) => v,
                None => JsonView::Str(trim(value)),
            },
        ),
{
    function_tokens();
    let chunk = key + ">"@ + value + "</parameter>"@ + after;
    split_ends_behind_the_last(before, "<parameter="@, chunk);
    let parts = split(before, "<parameter="@);
    split_parts_join(before, "<parameter="@);
    assert(parts.push(chunk).drop_last() =~= parts);
    let c = value + "</parameter>"@ + after;
    assert(chunk =~= key + ">"@ + c);
    clear_where_absent(key, ">"@, c);
    found_where_it_stands(key, ">"@, c);
    reveal_strlit(">");
    assert(chunk.take(key.len() as int) =~= key);
    assert(chunk.skip(key.len() as int + 1) =~= c);
    clear_where_absent(value, "</parameter>"@, after);
    parted_where_it_stands(value, "</parameter>"@, after);
}

/// A text without parameters has no arguments.
pub proof fn no_arguments_without_parameters(s: Seq<char>)
    requires
        !contains(s, "<parameter="@),
    ensures
        params_of(split(s, "<parameter="@)) == Map::<Seq<char>, JsonView>::empty(),
{
    split_leaves_whole(s, "<parameter="@);
}

/// The calls of Qwen-Coder text are its blocks, each with its name and with its
/// parameters as arguments.
pub proof fn function_blocks_are_calls(text: Seq<char>, i: int)
    ensures
        function_blocks(text).len() == 0 <==> QwenCoder.reads(text) is None,
        QwenCoder.reads(text) matches Some(calls) ==> calls.len() == function_blocks(text).len()
            && (0 <= i < calls.len() ==> calls[i] == (CallView {
            id: None,
            name: function_blocks(text)[i].0,
            arguments: json_text(
                JsonView::Object(params_of(split(function_blocks(text)[i].1, "<parameter="@))),
            ),
        })),
{
}

/// Tagged blocks add up: the text between a pair of tags, and then all that is
/// found in what follows.
pub proof fn tagged_blocks_add_up(
    before: Seq<char>,
    open: Seq<char>,
    inner: Seq<char>,
    close: Seq<char>,
    rest: Seq<char>,
)
    requires
        is_unbordered(open),
        is_unbordered(close),
        !contains(before, open),
        !contains(inner, close),
    ensures
        tagged(before + open + inner + close + rest, open, close) == seq![inner] + tagged(
            rest,
            open,
            close,
        ),
{
    let b = inner + close + rest;
    let s = before + open + inner + close + rest;
    assert(s =~= before + open + b);
    clear_where_absent(before, open, b);
    found_where_it_stands(before, open, b);
    assert(s.skip((before.len() + open.len()) as int) =~= b);
    clear_where_absent(inner, close, rest);
    found_where_it_stands(inner, close, rest);
    assert(b.take(inner.len() as int) =~= inner);
    assert(b.skip((inner.len() + close.len()) as int) =~= rest);
    find_from_is_first(s, open, 0);
    find_from_is_first(b, close, 0);
}

proof fn block_calls_go_on(first: Seq<char>, rest: Seq<Seq<char>>)
    ensures
        calls_in_blocks(seq![first] + rest) == calls_at(trim(first)) + calls_in_blocks(rest),
    decreases rest.len(),
{
    let all = seq![first] + rest;
    if rest.len() == 0 {
        assert(all.drop_last() =~= Seq::empty());
        assert(calls_in_blocks(all.drop_last()) =~= Seq::empty());
        assert(calls_in_blocks(all) =~= calls_at(trim(first)) + calls_in_blocks(rest));
    } else {
        block_calls_go_on(first, rest.drop_last());
        assert(all.drop_last() =~= seq![first] + rest.drop_last());
        assert(all.last() == rest.last());
        assert(calls_in_blocks(all) =~= calls_at(trim(first)) + calls_in_blocks(rest));
    }
}

/// The calls that tags hold, in the tags of a format.
pub open spec fn calls_between(text: Seq<char>, open: Seq<char>, close: Seq<char>) -> Seq<CallView> {
    calls_in_blocks(tagged(text, open, close))
}

/// The calls of tagged text add up: those between the first pair of tags, and then
/// those of what follows.
pub proof fn tagged_calls_add_up(
    before: Seq<char>,
    open: Seq<char>,
    inner: Seq<char>,
    close: Seq<char>,
    rest: Seq<char>,
)
    requires
        is_unbordered(open),
        is_unbordered(close),
        !contains(before, open),
        !contains(inner, close),
    ensures
        calls_between(before + open + inner + close + rest, open, close) == calls_at(trim(inner))
            + calls_between(rest, open, close),
{
    tagged_blocks_add_up(before, open, inner, close, rest);
    block_calls_go_on(inner, tagged(rest, open, close));
}

/// Qwen and Hermes text is read between its tags, and only there.
pub proof fn tags_are_those_of_the_formats(text: Seq<char>)
    ensures
        Qwen.reads(text) == (if calls_between(text, "<tool_call>"@, "</tool_call>"@).len() > 0 {
            Some(calls_between(text, "<tool_call>"@, "</tool_call>"@))
        } else {
            None
        }),
        Hermes.reads(text) == (if calls_between(
            text,
            "<function_call>"@,
            "</function_call>"@,
        ).len() > 0 {
            Some(calls_between(text, "<function_call>"@, "</function_call>"@))
        } else {
            None
        }),
        is_unbordered("<tool_call>"@),
        is_unbordered("</tool_call>"@),
        is_unbordered("<function_call>"@),
        is_unbordered("</function_call>"@),
        !contains(text, "<tool_call>"@) ==> Qwen.reads(text) is None,
        !contains(text, "<function_call>"@) ==> Hermes.reads(text) is None,
{
    reveal_strlit("<");
    reveal_strlit("</");
    reveal_strlit(">");
    reveal_strlit("tool_call");
    reveal_strlit("function_call");
    reveal_strlit("<tool_call>");
    reveal_strlit("</tool_call>");
    reveal_strlit("<function_call>");
    reveal_strlit("</function_call>");
    assert(open_tag("tool_call"@) =~= "<tool_call>"@);
    assert(close_tag("tool_call"@) =~= "</tool_call>"@);
    assert(open_tag("function_call"@) =~= "<function_call>"@);
    assert(close_tag("function_call"@) =~= "</function_call>"@);
    find_is_contains(text, "<tool_call>"@);
    find_is_contains(text, "<function_call>"@);
}

/// Text behind Llama's tag is read up to the next special token.
pub proof fn llama_calls_stand_behind_their_tag(
    before: Seq<char>,
    payload: Seq<char>,
    rest: Seq<char>,
)
    requires
        !contains(before, "<|python_tag|>"@),
        !contains(payload, "<|"@),
    ensures
        Llama.reads(before + "<|python_tag|>"@ + (payload + "<|"@ + rest)) == calls_in_some(
            readable_json(trim(payload)),
        ),
        Llama.reads(before + "<|python_tag|>"@ + payload) == calls_in_some(
            readable_json(trim(payload)),
        ),
        Llama.reads(before) is None,
{
    reveal_strlit("<|python_tag|>");
    reveal_strlit("<|");
    let b = payload + "<|"@ + rest;
    clear_where_absent(before, "<|python_tag|>"@, b);
    parted_where_it_stands(before, "<|python_tag|>"@, b);
    clear_where_absent(payload, "<|"@, rest);
    parted_where_it_stands(payload, "<|"@, rest);
    clear_where_absent(before, "<|python_tag|>"@, payload);
    parted_where_it_stands(before, "<|python_tag|>"@, payload);
    nothing_without_a_token(payload, "<|"@);
    nothing_without_a_token(before, "<|python_tag|>"@);
}

/// Text behind LFM's opening token is read up to the closing one, or else up to
/// the next special token: as JSON, and else as Python calls.
pub proof fn lfm_calls_stand_between_their_tokens(
    before: Seq<char>,
    payload: Seq<char>,
    rest: Seq<char>,
)
    requires
        !contains(before, "<|tool_call_start|>"@),
        !contains(payload, "<|"@),
    ensures
        ({
            let read = match calls_in_some(readable_json(trim(payload))) {
                Some(calls) => Some(calls),
                None => pythonic_calls(trim(payload)),
            };
            &&& Lfm.reads(
                before + "<|tool_call_start|>"@ + (payload + "<|tool_call_end|>"@ + rest),
            ) == read
            &&& Lfm.reads(before + "<|tool_call_start|>"@ + payload) == read
        }),
        Lfm.reads(before) is None,
{
    reveal_strlit("<|tool_call_start|>");
    reveal_strlit("<|tool_call_end|>");
    reveal_strlit("<|");
    let b = payload + "<|tool_call_end|>"@ + rest;
    clear_where_absent(before, "<|tool_call_start|>"@, b);
    parted_where_it_stands(before, "<|tool_call_start|>"@, b);
    assert forall|t: Seq<char>|
        t == "<|tool_call_end|>"@ implies !contains(payload, t) by {
        if contains(payload, t) {
            let i = choose|i: int| occurs_at(payload, t, i);
            assert(payload.subrange(i, i + t.len())[0] == '<');
            assert(payload.subrange(i, i + t.len())[1] == '|');
            assert(payload.subrange(i, i + 2) =~= "<|"@);
            assert(occurs_at(payload, "<|"@, i));
        }
    }
    assert(!contains(payload, "<|tool_call_end|>"@));
    clear_where_absent(payload, "<|tool_call_end|>"@, rest);
    found_where_it_stands(payload, "<|tool_call_end|>"@, rest);
    assert(b.take(payload.len() as int) =~= payload);
    clear_where_absent(before, "<|tool_call_start|>"@, payload);
    parted_where_it_stands(before, "<|tool_call_start|>"@, payload);
    nothing_without_a_token(payload, "<|"@);
    nothing_without_a_token(payload, "<|tool_call_end|>"@);
    nothing_without_a_token(before, "<|tool_call_start|>"@);
}

/// Text behind Mistral's token is read as JSON calls; or else as a name, with no
/// blanks in it, and the JSON object behind it.
pub proof fn mistral_calls_stand_behind_their_token(
    before: Seq<char>,
    rest: Seq<char>,
    name: Seq<char>,
    object: Seq<char>,
)
    requires
        !contains(before, "[TOOL_CALLS]"@),
    ensures
        calls_in_some(readable_json(trim_start(rest))) is Some ==> Mistral.reads(
            before + "[TOOL_CALLS]"@ + rest,
        ) == calls_in_some(readable_json(trim_start(rest))),
        calls_in_some(readable_json(trim_start(rest))) is None && trim_start(rest) == name + object
            && !contains(name, "{"@) && object.len() > 0 && object[0] == '{' ==> Mistral.reads(
            before + "[TOOL_CALLS]"@ + rest,
        ) == (if trim(name).len() > 0 && !(exists|i: int|
            0 <= i < trim(name).len() && is_white(#[trigger] trim(name)[i])) && readable_json(
            object,
        ) is Some {
            Some(
                seq![
                    CallView {
                        id: None,
                        name: trim(name),
                        arguments: json_text(readable_json(object)->0),
                    },
                ],
            )
        } else {
            None
        }),
        Mistral.reads(before) is None,
{
    reveal_strlit("[TOOL_CALLS]");
    reveal_strlit("{");
    clear_where_absent(before, "[TOOL_CALLS]"@, rest);
    parted_where_it_stands(before, "[TOOL_CALLS]"@, rest);
    nothing_without_a_token(before, "[TOOL_CALLS]"@);
    let s = trim_start(rest);
    if s == name + object && !contains(name, "{"@) && object.len() > 0 && object[0] == '{' {
        let more = object.drop_first();
        assert(s =~= name + "{"@ + more);
        clear_where_absent(name, "{"@, more);
        found_where_it_stands(name, "{"@, more);
        assert(s.take(name.len() as int) =~= name);
        assert(s.skip(name.len() as int) =~= object);
    }
}

proof fn identifiers_end_a_text(before: Seq<char>, name: Seq<char>, end: int)
    requires
        forall|i: int| 0 <= i < name.len() ==> is_ident_char(#[trigger] name[i]),
        before.len() > 0 ==> !is_ident_char(before.last()),
        before.len() <= end <= before.len() + name.len(),
    ensures
        last_ident_start(before + name, end) == before.len(),
    decreases end,
{
    let s = before + name;
    if end > before.len() {
        assert(s[end - 1] == name[end - 1 - before.len()]);
        identifiers_end_a_text(before, name, end - 1);
    } else if before.len() > 0 {
        assert(s[end - 1] == before.last());
    }
}

/// The call of rehearsal text is the identifier before the mark, with the JSON
/// object behind it.
pub proof fn rehearsed_calls_stand_around_their_mark(
    before: Seq<char>,
    name: Seq<char>,
    rest: Seq<char>,
)
    requires
        !contains(before + name, "[ARGS]"@),
        forall|i: int| 0 <= i < name.len() ==> is_ident_char(#[trigger] name[i]),
        before.len() > 0 ==> !is_ident_char(before.last()),
    ensures
        Rehearsal.reads(before + name + "[ARGS]"@ + rest) == (match readable_json(
            trim_start(rest),
        ) {
            Some(args) => if name.len() > 0 && args is Object {
                Some(seq![CallView { id: None, name, arguments: json_text(args) }])
            } else {
                None
            },
            None => None,
        }),
        Rehearsal.reads(before + name) is None,
{
    reveal_strlit("[ARGS]");
    let head = before + name;
    let s = head + "[ARGS]"@ + rest;
    clear_where_absent(head, "[ARGS]"@, rest);
    found_where_it_stands(head, "[ARGS]"@, rest);
    assert(s.take(head.len() as int) =~= head);
    assert(s.skip((head.len() + "[ARGS]"@.len()) as int) =~= rest);
    identifiers_end_a_text(before, name, head.len() as int);
    assert(head.skip(before.len() as int) =~= name);
    nothing_without_a_token(head, "[ARGS]"@);
}

/// Fenced blocks add up: what stands between a pair of fences, and then what the
/// fences of the rest hold.
pub proof fn fenced_blocks_add_up(before: Seq<char>, block: Seq<char>, rest: Seq<char>)
    requires
        is_clear(before, "```"@, block + "```"@ + rest),
        is_clear(block, "```"@, rest),
    ensures
        fence_bodies(before + "```"@ + (block + "```"@ + rest)) == seq![fence_body(block)]
            + fence_bodies(rest),
{
    reveal_strlit("```");
    split_goes_on(before, "```"@, block + "```"@ + rest);
    split_goes_on(block, "```"@, rest);
    let tail = split(rest, "```"@);
    let parts = seq![before] + (seq![block] + tail);
    let s = before + "```"@ + (block + "```"@ + rest);
    assert(split(s, "```"@) == parts);
    assert(parts[1] == block);
    let a = fence_bodies(s);
    let b = seq![fence_body(block)] + fence_bodies(rest);
    assert(a.len() == b.len());
    assert forall|i: int| 0 <= i < a.len() implies a[i] == b[i] by {
        if i > 0 {
            assert(parts[2 * i + 1] == tail[2 * (i - 1) + 1]);
        }
    }
    assert(a =~= b);
}

/// A fence that is not closed reaches to the end; without a fence there is no
/// block.
pub proof fn an_open_fence_reaches_to_the_end(before: Seq<char>, block: Seq<char>)
    requires
        !contains(before, "```"@),
        !contains(block, "```"@),
        is_clear(before, "```"@, block),
    ensures
        fence_bodies(before + "```"@ + block) == seq![fence_body(block)],
        fence_bodies(before) == Seq::<Seq<char>>::empty(),
{
    reveal_strlit("```");
    split_goes_on(before, "```"@, block);
    split_leaves_whole(block, "```"@);
    split_leaves_whole(before, "```"@);
    let parts = seq![before] + seq![block];
    assert(parts[1] == block);
    assert(fence_bodies(before + "```"@ + block) =~= seq![fence_body(block)]);
    assert(fence_bodies(before) =~= Seq::empty());
}

/// A fenced block is read without the language that its first line names; a first
/// line that is no such word belongs to it.
pub proof fn a_language_tag_is_dropped(first: Seq<char>, code: Seq<char>)
    requires
        !first.contains('\n'),
    ensures
        trim(first).len() > 0 && (forall|j: int|
            0 <= j < trim(first).len() ==> is_ascii_alnum(#[trigger] trim(first)[j]))
            ==> fence_body(first + "\n"@ + code) == code,
        trim(first).len() == 0 || (exists|j: int|
            0 <= j < trim(first).len() && !is_ascii_alnum(#[trigger] trim(first)[j]))
            ==> fence_body(first + "\n"@ + code) == first + "\n"@ + code,
        fence_body(first) == first,
{
    reveal_strlit("\n");
    if contains(first, "\n"@) {
        let i = choose|i: int| occurs_at(first, "\n"@, i);
        assert(first.subrange(i, i + 1)[0] == '\n');
        assert(first[i] == '\n');
    }
    let s = first + "\n"@ + code;
    clear_where_absent(first, "\n"@, code);
    found_where_it_stands(first, "\n"@, code);
    assert(s.take(first.len() as int) =~= first);
    assert(s.skip(first.len() as int + 1) =~= code);
    nothing_without_a_token(first, "\n"@);
}

/// Fenced text is read as its first block that holds calls.
pub proof fn the_first_block_with_calls_counts(first: Seq<char>, rest: Seq<Seq<char>>)
    ensures
        first_block_calls(seq![first] + rest) == (match calls_in_some(readable_json(trim(first))) {
            Some(calls) => Some(calls),
            None => first_block_calls(rest),
        }),
        first_block_calls(Seq::empty()) is None,
        forall|text: Seq<char>| #[trigger]
            FencedJson.reads(text) == first_block_calls(fence_bodies(text)),
{
    assert((seq![first] + rest).drop_first() =~= rest);
}

/// Bare text is read as calls only as a whole, and only where it is an object or a
/// list.
pub proof fn bare_text_is_read_as_a_whole(text: Seq<char>)
    ensures
        trim(text).len() > 0 && (trim(text)[0] == '{' || trim(text)[0] == '[') ==> BareJson.reads(
            text,
        ) == calls_in_some(whole_json(trim(text))),
        !(trim(text).len() > 0 && (trim(text)[0] == '{' || trim(text)[0] == '['))
            ==> BareJson.reads(text) is None,
        json_of(text) is Some ==> whole_json(text) == json_of(text),
        json_of(text) is None ==> whole_json(text) == loose_whole(text),
        leading_json_of(text) is Some ==> readable_json(text) == leading_json_of(text),
        leading_json_of(text) is None ==> readable_json(text) == loose_leading(text),
{
}

/// Whether an object makes a call: it names its tool and holds its arguments under
/// `function`, or else beside each other.
pub open spec fn makes_call(v: JsonView, call: CallView) -> bool {
    let (name, arguments) = match v.get("function"@) {
        Some(JsonView::Object(f)) => (
            JsonView::Object(f).get("name"@),
            JsonView::Object(f).get("arguments"@),
        ),
        _ => (
            if v.get("name"@) is Some {
                v.get("name"@)
            } else {
                v.get("tool"@)
            },
            if v.get("arguments"@) is Some {
                v.get("arguments"@)
            } else if v.get("args"@) is Some {
                v.get("args"@)
            } else {
                v.get("parameters"@)
            },
        ),
    };
    &&& v is Object
    &&& call.id is None
    &&& name matches Some(JsonView::Str(text)) && trim(text).len() > 0 && call.name == trim(text)
    &&& call.arguments == (match arguments {
        Some(JsonView::Str(text)) => text,
        Some(other) => json_text(other),
        None => "{}"@,
    })
}

/// A JSON value is calls where it is one, a list of nothing but calls, or wraps
/// either under `tool_calls`.
pub proof fn values_are_read_as_calls(
    v: JsonView,
    call: CallView,
    items: Seq<JsonView>,
    calls: Seq<CallView>,
)
    ensures
        call_in(v) == Some(call) <==> makes_call(v, call),
        v is Object && v.get("tool_calls"@) is None ==> (calls_in(v) == Some(seq![call])
            <==> makes_call(v, call)),
        v is Object && v.get("tool_calls"@) is Some ==> calls_in(v) == calls_in(
            v.get("tool_calls"@)->0,
        ),
        items.len() == calls.len() && items.len() > 0 && (forall|i: int|
            0 <= i < items.len() ==> makes_call(#[trigger] items[i], calls[i])) ==> calls_in(
            JsonView::Array(items),
        ) == Some(calls),
        calls_in(JsonView::Array(items)) matches Some(made) ==> made.len() == items.len()
            && forall|i: int| 0 <= i < items.len() ==> makes_call(#[trigger] items[i], made[i]),
        calls_in(JsonView::Array(Seq::empty())) is None,
        !(v is Object || v is Array) ==> calls_in(v) is None,
{
    if v is Object && v.get("tool_calls"@) is None {
        if calls_in(v) == Some(seq![call]) {
            assert(seq![call][0] == call);
            assert(seq![call_in(v)->0][0] == seq![call][0]);
        }
    }
    assert forall|x: JsonView, c: CallView| call_in(x) == Some(c) <==> makes_call(x, c) by {}
    if items.len() == calls.len() && items.len() > 0 && (forall|i: int|
        0 <= i < items.len() ==> makes_call(#[trigger] items[i], calls[i])) {
        assert forall|i: int| 0 <= i < items.len() implies call_in(#[trigger] items[i]) == Some(
            calls[i],
        ) by {
            assert(makes_call(items[i], calls[i]));
        }
        assert(items.map_values(|v: JsonView| call_in(v)->0) =~= calls);
    }
    if let Some(made) = calls_in(JsonView::Array(items)) {
        assert forall|i: int| 0 <= i < items.len() implies makes_call(#[trigger] items[i], made[i]) by {
            assert(call_in(items[i]) is Some);
        }
    }
}

/// The formats are tried in their order, and the first that reads calls from a
/// text is what the text is rescued as, with all the calls that it reads.
pub proof fn the_first_format_counts(text: Seq<char>)
    ensures
        rescued(text) == (if Lfm.reads(text) is Some {
            Some((Format::Lfm, Lfm.reads(text)->0))
        } else if Mistral.reads(text) is Some {
            Some((Format::Mistral, Mistral.reads(text)->0))
        } else if Rehearsal.reads(text) is Some {
            Some((Format::Rehearsal, Rehearsal.reads(text)->0))
        } else if QwenCoder.reads(text) is Some {
            Some((Format::QwenCoder, QwenCoder.reads(text)->0))
        } else if Qwen.reads(text) is Some {
            Some((Format::Qwen, Qwen.reads(text)->0))
        } else if Hermes.reads(text) is Some {
            Some((Format::Hermes, Hermes.reads(text)->0))
        } else if Llama.reads(text) is Some {
            Some((Format::Llama, Llama.reads(text)->0))
        } else if FencedJson.reads(text) is Some {
            Some((Format::FencedJson, FencedJson.reads(text)->0))
        } else if BareJson.reads(text) is Some {
            Some((Format::BareJson, BareJson.reads(text)->0))
        } else {
            None
        }),
{
    let order = format_order();
    reveal_with_fuel(first_reading, 10);
    let o1 = order.drop_first();
    let o2 = o1.drop_first();
    let o3 = o2.drop_first();
    let o4 = o3.drop_first();
    let o5 = o4.drop_first();
    let o6 = o5.drop_first();
    let o7 = o6.drop_first();
    let o8 = o7.drop_first();
    let o9 = o8.drop_first();
    assert(order[0] == Format::Lfm && o1[0] == Format::Mistral && o2[0] == Format::Rehearsal);
    assert(o3[0] == Format::QwenCoder && o4[0] == Format::Qwen && o5[0] == Format::Hermes);
    assert(o6[0] == Format::Llama && o7[0] == Format::FencedJson && o8[0] == Format::BareJson);
    assert(o9.len() == 0);
}

/// Each format is known by its name.
pub proof fn formats_have_their_names()
    ensures
        Format::Lfm.label() == "lfm"@,
        Format::Mistral.label() == "mistral"@,
        Format::Rehearsal.label() == "rehearsal"@,
        Format::QwenCoder.label() == "qwen_coder"@,
        Format::Qwen.label() == "qwen"@,
        Format::Hermes.label() == "hermes"@,
        Format::Llama.label() == "llama"@,
        Format::FencedJson.label() == "fenced_json"@,
        Format::BareJson.label() == "bare_json"@,
{
}

/// A text shows the opening of a call exactly where it holds one of the marks of
/// the formats, or starts as an object or a list does.
pub proof fn openings_are_these(text: Seq<char>)
    ensures
        resembles_call(text) <==> {
            ||| contains(text, "<|tool_call_start|>"@)
            ||| contains(text, "[TOOL_CALLS]"@)
            ||| contains(text, "[ARGS]"@)
            ||| contains(text, "<function="@)
            ||| contains(text, "<tool_call>"@)
            ||| contains(text, "<function_call>"@)
            ||| contains(text, "<|python_tag|>"@)
            ||| contains(text, "```"@)
            ||| trim(text).len() > 0 && (trim(text)[0] == '{' || trim(text)[0] == '[')
        },
{
    reveal_strlit("<");
    reveal_strlit(">");
    reveal_strlit("tool_call");
    reveal_strlit("function_call");
    reveal_strlit("<tool_call>");
    reveal_strlit("<function_call>");
    assert(open_tag("tool_call"@) =~= "<tool_call>"@);
    assert(open_tag("function_call"@) =~= "<function_call>"@);
}

/// Prose keeps what stands before, between and behind the spans of calls, and
/// nothing of a span; one that is not closed reaches to the end.
pub proof fn prose_keeps_what_is_around(
    before: Seq<char>,
    open: Seq<char>,
    inner: Seq<char>,
    close: Seq<char>,
    rest: Seq<char>,
)
    requires
        is_clear(before, open, inner + close + rest),
        is_clear(inner, close, rest),
        open.len() > 0,
        !contains(before, open),
    ensures
        without_spans(before + open + (inner + close + rest), open, close) == before
            + without_spans(rest, open, close),
        without_spans(before, open, close) == before,
        !contains(inner, close) && is_clear(before, open, inner) ==> without_spans(
            before + open + inner,
            open,
            close,
        ) == before,
{
    let b = inner + close + rest;
    let s = before + open + b;
    found_where_it_stands(before, open, b);
    assert(s.take(before.len() as int) =~= before);
    assert(s.skip((before.len() + open.len()) as int) =~= b);
    found_where_it_stands(inner, close, rest);
    assert(b.skip((inner.len() + close.len()) as int) =~= rest);
    nothing_without_a_token(before, open);
    if !contains(inner, close) && is_clear(before, open, inner) {
        let u = before + open + inner;
        found_where_it_stands(before, open, inner);
        assert(u.take(before.len() as int) =~= before);
        assert(u.skip((before.len() + open.len()) as int) =~= inner);
        nothing_without_a_token(inner, close);
    }
}

/// The prose of a text is all of it but the spans that its format writes calls in;
/// of a text that is not rescued it is the text.
pub proof fn prose_is_what_no_call_is_in(text: Seq<char>)
    ensures
        match rescued(text) {
            None => prose_of(text) == text,
            Some((format, _)) => match format {
                Format::Lfm => prose_of(text) == without_spans(
                    text,
                    "<|tool_call_start|>"@,
                    "<|tool_call_end|>"@,
                ),
                Format::Mistral => prose_of(text) == cut(text, "[TOOL_CALLS]"@),
                Format::Rehearsal => {
                    let before = cut(text, "[ARGS]"@);
                    prose_of(text) + last_ident(before) == before
                },
                Format::QwenCoder => prose_of(text) == without_spans(
                    text,
                    "<function="@,
                    "</function>"@,
                ),
                Format::Qwen => prose_of(text) == without_spans(
                    text,
                    "<tool_call>"@,
                    "</tool_call>"@,
                ),
                Format::Hermes => prose_of(text) == without_spans(
                    text,
                    "<function_call>"@,
                    "</function_call>"@,
                ),
                Format::Llama => prose_of(text) == cut(text, "<|python_tag|>"@),
                Format::FencedJson => prose_of(text) == without_spans(text, "```"@, "```"@),
                Format::BareJson => prose_of(text).len() == 0,
            },
        },
{
    reveal_strlit("<");
    reveal_strlit("</");
    reveal_strlit(">");
    reveal_strlit("tool_call");
    reveal_strlit("function_call");
    reveal_strlit("<tool_call>");
    reveal_strlit("</tool_call>");
    reveal_strlit("<function_call>");
    reveal_strlit("</function_call>");
    assert(open_tag("tool_call"@) =~= "<tool_call>"@);
    assert(close_tag("tool_call"@) =~= "</tool_call>"@);
    assert(open_tag("function_call"@) =~= "<function_call>"@);
    assert(close_tag("function_call"@) =~= "</function_call>"@);
    let before = cut(text, "[ARGS]"@);
    ident_start_is_within(before, before.len() as int);
    let k = last_ident_start(before, before.len() as int);
    assert(before.take(k) + before.skip(k) =~= before);
}

proof fn ident_start_is_within(s: Seq<char>, end: int)
    requires
        0 <= end <= s.len(),
    ensures
        0 <= last_ident_start(s, end) <= end,
    decreases end,
{
    if 0 < end && is_ident_char(s[end - 1]) {
        ident_start_is_within(s, end - 1);
    }
}

} // verus!
