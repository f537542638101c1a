//! Assembles a streamed Chat Completions reply.
//!
//! Text is passed on the moment it arrives. Tool-call deltas are held back and
//! assembled, so that they can be checked before the client sees them. Where no
//! native call appears, the text may still turn out to hold one.
use vstd::prelude::*;

use super::decode::{call_views, copy_text, owned_text, CallView, ToolCall};
use super::metrics::{extract_usage, usage_in, Usage};
use super::rescue::{rescue, rescued, RescueParser};
use crate::json::{
    field, field_of, items_in, items_of_value, json_of, parse, seen, seen_json, text_in,
    text_of_value, unsigned_in, unsigned_of_value, views, Json, JsonView,
};
use crate::text::{
    begins, chars_of, is_blank, is_tight, lines, lines_of, same_text, starts_with, tail_of, text_of, texts, trim,
    trimmed, trimming_undoes_padding,
};

verus! {

/// One item read off a backend stream. That the backend ended the stream and
/// that the connection died are different things.
#[derive(Debug, PartialEq, Eq)]
pub enum StreamItem {
    /// A complete line of the body.
    Line(String),
    /// The backend closed the stream.
    Eof,
    /// The stream failed; the text says why.
    Failed(String),
}

/// Whether a stream ended as the backend meant it to.
#[derive(Debug, PartialEq, Eq)]
pub enum Completion {
    /// What arrived is the whole answer.
    Complete,
    /// What arrived is a fragment; the text says why.
    Truncated(String),
}

impl Default for Completion {
    fn default() -> (completion: Self)
        ensures
            completion is Complete,
    {
        Completion::Complete
    }
}

impl Completion {
    /// Whether the stream ended early.
    pub fn is_truncated(&self) -> (yes: bool)
        ensures
            yes == (self is Truncated),
    {
        matches!(self, Completion::Truncated(_))
    }
}

/// Why a stream ended early; nothing where it did not.
pub open spec fn truncation(completion: Completion) -> Option<Seq<char>> {
    match completion {
        Completion::Complete => None,
        Completion::Truncated(why) => Some(why@),
    }
}

/// The usage that a stream reported.
pub type StreamUsage = Option<Usage>;

/// What a stream of which nobody said how it ended is taken to be.
pub const NO_TERMINATOR: &'static str = "the backend stream ended without a terminator";

/// How a stream ends whose next item is this one; nothing where it goes on. One
/// that stops without saying how did not end as it was meant to.
pub fn end_at(item: Option<&StreamItem>) -> (end: Option<Completion>)
    ensures
        match item {
            Some(StreamItem::Line(_)) => end is None,
            Some(StreamItem::Eof) => end == Some(Completion::Complete),
            Some(StreamItem::Failed(why)) => end is Some && truncation(end->0) == Some(why@),
            None => end is Some && truncation(end->0) == Some(NO_TERMINATOR@),
        },
{
    match item {
        Some(StreamItem::Line(_)) => None,
        Some(StreamItem::Eof) => Some(Completion::Complete),
        Some(StreamItem::Failed(why)) => Some(Completion::Truncated(why.clone())),
        None => Some(Completion::Truncated(NO_TERMINATOR.to_owned())),
    }
}

// ── lines ───────────────────────────────────────────────────────────────────

/// The JSON that a `data:` line carries; nothing for any other line and for the
/// `[DONE]` mark.
pub open spec fn event_in(line: Seq<char>) -> Option<JsonView> {
    if starts_with(line, "data:"@) {
        let data = trim(line.skip("data:"@.len() as int));
        if data == "[DONE]"@ {
            None
        } else {
            json_of(data)
        }
    } else {
        None
    }
}

/// Reads the JSON that a `data:` line carries.
pub fn parse_sse_line(line: &str) -> (event: Option<Json>)
    ensures
        seen_json(event) == event_in(line@),
{
    if !begins(line, "data:") {
        return None;
    }
    let chars = chars_of(line);
    let n: usize = "data:".unicode_len();
    let data = text_of(trimmed(tail_of(chars.as_slice(), n)));
    if same_text(data.as_str(), "[DONE]") {
        return None;
    }
    parse(data.as_str())
}

/// Whether a line is empty or a comment: it frames the stream.
pub open spec fn is_frame(line: Seq<char>) -> bool {
    line.len() == 0 || line[0] == ':'
}

/// Tells whether a line is empty or a comment.
pub fn frames(line: &str) -> (yes: bool)
    ensures
        yes == is_frame(line@),
{
    let chars = chars_of(line);
    chars.len() == 0 || chars[0] == ':'
}

// ── usage ───────────────────────────────────────────────────────────────────

/// The usage after a chunk: the richer of what was seen and what it reports.
pub open spec fn merged_usage(seen: Option<Usage>, chunk: JsonView) -> Option<Usage> {
    match usage_in(chunk) {
        Some(usage) => if usage.reports_nothing() {
            seen
        } else {
            match seen {
                Some(prev) => if usage.prompt_tokens + usage.completion_tokens > prev.prompt_tokens
                    + prev.completion_tokens {
                    Some(usage)
                } else {
                    seen
                },
                None => Some(usage),
            }
        },
        None => seen,
    }
}

fn merge_usage(seen: Option<Usage>, chunk: &Json) -> (usage: Option<Usage>)
    ensures
        usage == merged_usage(seen, chunk@),
{
    match extract_usage(chunk) {
        Some(usage) => if usage.is_empty() {
            seen
        } else {
            match seen {
                Some(prev) => if usage.prompt_tokens as i128 + usage.completion_tokens as i128
                    > prev.prompt_tokens as i128 + prev.completion_tokens as i128 {
                    Some(usage)
                } else {
                    Some(prev)
                },
                None => Some(usage),
            }
        },
        None => seen,
    }
}

// ── slots ───────────────────────────────────────────────────────────────────

/// A tool call while its deltas arrive.
#[derive(Debug)]
pub struct CallSlot {
    pub id: Option<String>,
    pub name: String,
    pub arguments: String,
}

impl View for CallSlot {
    type V = CallView;

    open spec fn view(&self) -> CallView {
        CallView { id: owned_text(self.id), name: self.name@, arguments: self.arguments@ }
    }
}

/// Slots by their views.
pub open spec fn slot_views(slots: Seq<CallSlot>) -> Seq<CallView> {
    slots.map_values(|s: CallSlot| s@)
}

/// A slot of which nothing has arrived.
pub open spec fn empty_slot() -> CallView {
    CallView { id: None, name: Seq::empty(), arguments: Seq::empty() }
}

/// The slots with empty ones added until there are `n`.
pub open spec fn grown(slots: Seq<CallView>, n: nat) -> Seq<CallView> {
    if slots.len() >= n {
        slots
    } else {
        slots + Seq::new((n - slots.len()) as nat, |i: int| empty_slot())
    }
}

fn grow_slots(slots: &mut Vec<CallSlot>, n: usize)
    ensures
        slot_views(final(slots)@) == grown(slot_views(old(slots)@), n as nat),
{
    let ghost before = slot_views(slots@);
    assert(grown(before, slots@.len()) =~= before);
    while slots.len() < n
        invariant
            before == slot_views(old(slots)@),
            slots@.len() >= before.len(),
            slots@.len() <= n || slots@.len() == before.len(),
            slot_views(slots@) == grown(before, slots@.len()),
        decreases n - slots@.len(),
    {
        let slot = CallSlot { id: None, name: String::new(), arguments: String::new() };
        let ghost view = slot@;
        let ghost read = slot_views(slots@);
        slots.push(slot);
        assert(view =~= empty_slot());
        assert(slot_views(slots@) =~= read.push(view));
        assert(slot_views(slots@) =~= grown(before, slots@.len()));
    }
}

/// The slot after a delta: an id and a name replace, arguments add up.
pub open spec fn filled_slot(slot: CallView, delta: JsonView) -> CallView {
    let function = delta.get("function"@);
    CallView {
        id: match text_in(delta.get("id"@)) {
            Some(id) => Some(id),
            None => slot.id,
        },
        name: match text_in(field(function, "name"@)) {
            Some(name) => name,
            None => slot.name,
        },
        arguments: match text_in(field(function, "arguments"@)) {
            Some(more) => slot.arguments + more,
            None => slot.arguments,
        },
    }
}

/// The place that a delta is for.
pub open spec fn delta_index(delta: JsonView) -> int {
    match unsigned_in(delta.get("index"@)) {
        Some(n) => n as int,
        None => 0,
    }
}

/// The slots after a delta. A delta for a place that no list has is passed over.
pub open spec fn filled(slots: Seq<CallView>, delta: JsonView) -> Seq<CallView> {
    let i = delta_index(delta);
    if i >= usize::MAX {
        slots
    } else {
        let wide = grown(slots, (i + 1) as nat);
        wide.update(i, filled_slot(wide[i], delta))
    }
}

/// The slots after the first `n` deltas.
pub open spec fn filled_all(slots: Seq<CallView>, deltas: Seq<JsonView>, n: int) -> Seq<CallView>
    decreases n,
{
    if n <= 0 {
        slots
    } else {
        filled(filled_all(slots, deltas, n - 1), deltas[n - 1])
    }
}

fn fill_slots(slots: &mut Vec<CallSlot>, deltas: &Vec<Json>)
    ensures
        slot_views(final(slots)@) == filled_all(
            slot_views(old(slots)@),
            views(deltas@),
            deltas@.len() as int,
        ),
{
    let ghost before = slot_views(slots@);
    for k in 0..deltas.len()
        invariant
            before == slot_views(old(slots)@),
            slot_views(slots@) == filled_all(before, views(deltas@), k as int),
    {
        let delta = &deltas[k];
        assert(views(deltas@)[k as int] == delta@);
        let index: u64 = match unsigned_of_value(delta.get("index")) {
            Some(n) => n,
            None => 0,
        };
        if index < usize::MAX as u64 {
            let i: usize = index as usize;
            grow_slots(slots, i + 1);
            let ghost wide = slot_views(slots@);
            assert(wide.len() == slots@.len() && wide.len() > i);
            let function = delta.get("function");
            let id = match text_of_value(delta.get("id")) {
                Some(id) => Some(id.to_owned()),
                None => copy_text(&slots[i].id),
            };
            let name = match text_of_value(field_of(function, "name")) {
                Some(name) => name.to_owned(),
                None => slots[i].name.clone(),
            };
            let arguments = match text_of_value(field_of(function, "arguments")) {
                Some(more) => slots[i].arguments.clone().concat(more),
                None => slots[i].arguments.clone(),
            };
            let slot = CallSlot { id, name, arguments };
            assert(slot@ == filled_slot(wide[i as int], delta@));
            slots.set(i, slot);
            assert(slot_views(slots@) =~= wide.update(i as int, filled_slot(wide[i as int], delta@)));
        }
    }
}

/// The call that a slot makes: arguments of which nothing arrived are an empty
/// object.
pub open spec fn slot_call(slot: CallView) -> CallView {
    CallView {
        arguments: if slot.arguments.len() == 0 {
            "{}"@
        } else {
            slot.arguments
        },
        ..slot
    }
}

/// The calls of the first `n` slots; one without a name makes none.
pub open spec fn slot_calls(slots: Seq<CallView>, n: int) -> Seq<CallView>
    decreases n,
{
    if n <= 0 {
        Seq::empty()
    } else if slots[n - 1].name.len() == 0 {
        slot_calls(slots, n - 1)
    } else {
        slot_calls(slots, n - 1).push(slot_call(slots[n - 1]))
    }
}

fn calls_of_slots(slots: &Vec<CallSlot>) -> (calls: Vec<ToolCall>)
    ensures
        call_views(calls@) == slot_calls(slot_views(slots@), slots@.len() as int),
{
    let ghost all = slot_views(slots@);
    let mut calls: Vec<ToolCall> = Vec::new();
    assert(call_views(calls@) =~= Seq::empty());
    for i in 0..slots.len()
        invariant
            all == slot_views(slots@),
            call_views(calls@) == slot_calls(all, i as int),
    {
        let ghost read = call_views(calls@);
        let slot = &slots[i];
        assert(all[i as int] == slot@);
        if !slot.name.as_str().is_empty() {
            let call = ToolCall {
                id: copy_text(&slot.id),
                name: slot.name.clone(),
                arguments: if slot.arguments.as_str().is_empty() {
                    "{}".to_owned()
                } else {
                    slot.arguments.clone()
                },
            };
            calls.push(call);
            assert(call_views(calls@) =~= read.push(call@));
        }
    }
    calls
}

// ── the assembler ───────────────────────────────────────────────────────────

/// What has been assembled so far, by views.
#[verifier::ext_equal]
pub struct ChatState {
    pub slots: Seq<CallView>,
    /// The last chunk that was more than null.
    pub template: JsonView,
    pub has_calls: bool,
    pub text: Seq<char>,
    pub usage: Option<Usage>,
    /// What the stream is known to be: `Some(false)` once it makes calls.
    pub kind: Option<bool>,
}

/// Nothing assembled yet.
pub open spec fn chat_start() -> ChatState {
    ChatState {
        slots: Seq::empty(),
        template: JsonView::Null,
        has_calls: false,
        text: Seq::empty(),
        usage: None,
        kind: None,
    }
}

/// The delta of a chunk's first choice.
pub open spec fn delta_in(chunk: JsonView) -> Option<JsonView> {
    match chunk.get("choices"@) {
        Some(choices) => field(choices.at(0), "delta"@),
        None => None,
    }
}

/// The tool-call deltas that a chunk carries.
pub open spec fn call_deltas(chunk: JsonView) -> Option<Seq<JsonView>> {
    items_in(field(delta_in(chunk), "tool_calls"@))
}

/// The text that a chunk carries; empty where it carries none.
pub open spec fn content_in(chunk: JsonView) -> Seq<char> {
    match text_in(field(delta_in(chunk), "content"@)) {
        Some(text) => text,
        None => Seq::empty(),
    }
}

/// The state after a chunk.
pub open spec fn after_chunk(state: ChatState, chunk: JsonView) -> ChatState {
    let usage = merged_usage(state.usage, chunk);
    match call_deltas(chunk) {
        Some(deltas) => ChatState {
            slots: filled_all(state.slots, deltas, deltas.len() as int),
            template: chunk,
            has_calls: true,
            usage,
            kind: match state.kind {
                Some(kind) => Some(kind),
                None => Some(false),
            },
            ..state
        },
        None => ChatState {
            text: state.text + content_in(chunk),
            template: if chunk is Null {
                state.template
            } else {
                chunk
            },
            usage,
            ..state
        },
    }
}

/// The state after a line.
pub open spec fn after_line(state: ChatState, line: Seq<char>) -> ChatState {
    match event_in(line) {
        Some(chunk) => if is_frame(line) {
            state
        } else {
            after_chunk(state, chunk)
        },
        None => state,
    }
}

/// What is passed on when a line arrives; nothing where it is held back. A
/// chunk is passed on as long as no call was seen, a call delta never. `framing`
/// tells whether empty lines and comments are passed on.
pub open spec fn passed_on(state: ChatState, line: Seq<char>, framing: bool) -> Option<Seq<char>> {
    if is_frame(line) {
        if framing {
            Some(line + "\n"@)
        } else {
            None
        }
    } else {
        match event_in(line) {
            Some(chunk) => if call_deltas(chunk) is Some || state.has_calls {
                None
            } else {
                Some(line + "\n\n"@)
            },
            None => Some(line + "\n\n"@),
        }
    }
}

/// What a stream turned out to be.
#[derive(Debug)]
pub enum AssembledResponse {
    /// Text alone. Where it was passed on live, `content` is the same text.
    Text { template: Json, content: String },
    /// Native tool calls, held back; and the text beside them.
    ToolCalls { calls: Vec<ToolCall>, template: Json, content: String },
    /// Calls recovered from the text; and that text, whose prose is the model's
    /// own answer.
    Rescued { parser: &'static str, calls: Vec<ToolCall>, template: Json, content: String },
}

/// What a stream turned out to be, by views.
#[verifier::ext_equal]
pub enum AssembledView {
    Text { template: JsonView, content: Seq<char> },
    ToolCalls { calls: Seq<CallView>, template: JsonView, content: Seq<char> },
    Rescued {
        parser: Seq<char>,
        calls: Seq<CallView>,
        template: JsonView,
        content: Seq<char>,
    },
}

impl View for AssembledResponse {
    type V = AssembledView;

    open spec fn view(&self) -> AssembledView {
        match self {
            AssembledResponse::Text { template, content } => AssembledView::Text {
                template: template@,
                content: content@,
            },
            AssembledResponse::ToolCalls { calls, template, content } => AssembledView::ToolCalls {
                calls: call_views(calls@),
                template: template@,
                content: content@,
            },
            AssembledResponse::Rescued { parser, calls, template, content } =>
                AssembledView::Rescued {
                    parser: parser@,
                    calls: call_views(calls@),
                    template: template@,
                    content: content@,
                },
        }
    }
}

/// What a stream turned out to be, at its end.
pub open spec fn chat_result(state: ChatState) -> AssembledView {
    if state.has_calls && state.slots.len() > 0 {
        AssembledView::ToolCalls {
            calls: slot_calls(state.slots, state.slots.len() as int),
            template: state.template,
            content: state.text,
        }
    } else {
        match rescued(state.text) {
            Some((format, calls)) => if state.text.len() > 0 {
                AssembledView::Rescued {
                    parser: format.label(),
                    calls,
                    template: state.template,
                    content: state.text,
                }
            } else {
                AssembledView::Text { template: state.template, content: state.text }
            },
            None => AssembledView::Text { template: state.template, content: state.text },
        }
    }
}

/// What the stream is told to be at its end, if it was not told before: text or
/// not.
pub open spec fn chat_kind(state: ChatState) -> bool {
    match state.kind {
        Some(kind) => kind,
        None => chat_result(state) is Text,
    }
}

/// Assembles a stream line by line.
#[derive(Debug)]
pub struct ChatAssembler {
    slots: Vec<CallSlot>,
    template: Json,
    has_calls: bool,
    text: String,
    usage: Option<Usage>,
    kind: Option<bool>,
}

impl View for ChatAssembler {
    type V = ChatState;

    closed spec fn view(&self) -> ChatState {
        ChatState {
            slots: slot_views(self.slots@),
            template: self.template@,
            has_calls: self.has_calls,
            text: self.text@,
            usage: self.usage,
            kind: self.kind,
        }
    }
}

impl ChatAssembler {
    pub fn new() -> (assembler: ChatAssembler)
        ensures
            assembler@ == chat_start(),
    {
        let assembler = ChatAssembler {
            slots: Vec::new(),
            template: Json::Null,
            has_calls: false,
            text: String::new(),
            usage: None,
            kind: None,
        };
        assert(assembler@ =~= chat_start());
        assembler
    }

    /// What the stream is known to be so far: `Some(false)` once it makes calls.
    pub fn kind(&self) -> (kind: Option<bool>)
        ensures
            kind == self@.kind,
    {
        self.kind
    }

    /// Takes a line, and gives what is to be passed on to the client.
    pub fn push_line(&mut self, line: &str, framing: bool) -> (out: Option<String>)
        ensures
            final(self)@ == after_line(old(self)@, line@),
            owned_text(out) == passed_on(old(self)@, line@, framing),
    {
        if frames(line) {
            return if framing {
                Some(line.to_owned().concat("\n"))
            } else {
                None
            };
        }
        let chunk = match parse_sse_line(line) {
            Some(chunk) => chunk,
            None => {
                return Some(line.to_owned().concat("\n\n"));
            },
        };
        let ghost state = self@;
        self.usage = merge_usage(self.usage, &chunk);
        let delta = match chunk.get("choices") {
            Some(choices) => field_of(choices.at(0), "delta"),
            None => None,
        };
        if let Some(deltas) = items_of_value(field_of(delta, "tool_calls")) {
            fill_slots(&mut self.slots, deltas);
            self.has_calls = true;
            if self.kind.is_none() {
                self.kind = Some(false);
            }
            self.template = chunk;
            assert(self@ =~= after_chunk(state, chunk@));
            return None;
        }
        if let Some(content) = text_of_value(field_of(delta, "content")) {
            self.text.append(content);
        }
        assert(self@.text =~= state.text + content_in(chunk@));
        if !chunk.is_null() {
            self.template = chunk;
        }
        assert(self@ =~= after_chunk(state, chunk@));
        if self.has_calls {
            None
        } else {
            Some(line.to_owned().concat("\n\n"))
        }
    }

    /// What the stream turned out to be, the usage it reported, and whether it
    /// is text, as was told or is told now.
    pub fn finish(self) -> (result: (AssembledResponse, StreamUsage, bool))
        ensures
            result.0@ == chat_result(self@),
            result.1 == self@.usage,
            result.2 == chat_kind(self@),
    {
        let ghost state = self@;
        let kind = self.kind;
        if self.has_calls && self.slots.len() > 0 {
            let calls = calls_of_slots(&self.slots);
            let told: bool = match kind {
                Some(kind) => kind,
                None => false,
            };
            return (
                AssembledResponse::ToolCalls {
                    calls,
                    template: self.template,
                    content: self.text,
                },
                self.usage,
                told,
            );
        }
        if !self.text.as_str().is_empty() {
            if let Some((parser, calls)) = rescue(self.text.as_str()) {
                let told: bool = match kind {
                    Some(kind) => kind,
                    None => false,
                };
                return (
                    AssembledResponse::Rescued {
                        parser,
                        calls,
                        template: self.template,
                        content: self.text,
                    },
                    self.usage,
                    told,
                );
            }
        }
        let told: bool = match kind {
            Some(kind) => kind,
            None => true,
        };
        (
            AssembledResponse::Text { template: self.template, content: self.text },
            self.usage,
            told,
        )
    }
}

// ── whole streams ───────────────────────────────────────────────────────────

/// The state after the first `n` lines.
pub open spec fn after_lines(lines: Seq<Seq<char>>, n: int) -> ChatState
    decreases n,
{
    if n <= 0 {
        chat_start()
    } else {
        after_line(after_lines(lines, n - 1), lines[n - 1])
    }
}

/// What is passed on of the first `n` lines.
pub open spec fn all_passed_on(lines: Seq<Seq<char>>, framing: bool, n: int) -> Seq<Seq<char>>
    decreases n,
{
    if n <= 0 {
        Seq::empty()
    } else {
        let before = all_passed_on(lines, framing, n - 1);
        match passed_on(after_lines(lines, n - 1), lines[n - 1], framing) {
            Some(text) => before.push(text),
            None => before,
        }
    }
}

/// The lines of a stream before it ends.
pub open spec fn lines_before_end(items: Seq<StreamItem>) -> Seq<Seq<char>>
    decreases items.len(),
{
    if items.len() == 0 {
        Seq::empty()
    } else {
        match items[0] {
            StreamItem::Line(line) => seq![line@] + lines_before_end(items.drop_first()),
            _ => Seq::empty(),
        }
    }
}

/// Why a stream ended early; nothing where the backend ended it. One that ends
/// without a word did not end as it should.
pub open spec fn end_of(items: Seq<StreamItem>) -> Option<Seq<char>>
    decreases items.len(),
{
    if items.len() == 0 {
        Some(NO_TERMINATOR@)
    } else {
        match items[0] {
            StreamItem::Line(_) => end_of(items.drop_first()),
            StreamItem::Eof => None,
            StreamItem::Failed(why) => Some(why@),
        }
    }
}

/// Assembles a whole stream: what it turned out to be, the usage it reported,
/// whether it finished, and what was passed on.
pub fn assemble_stream(items: &[StreamItem]) -> (result: (
    AssembledResponse,
    StreamUsage,
    Completion,
    Vec<String>,
))
    ensures
        ({
            let lines = lines_before_end(items@);
            let n = lines.len() as int;
            let state = after_lines(lines, n);
            &&& result.0@ == chat_result(state)
            &&& result.1 == state.usage
            &&& truncation(result.2) == end_of(items@)
            &&& texts(result.3@) == all_passed_on(lines, true, n)
        }),
{
    let ghost all = lines_before_end(items@);
    let mut assembler = ChatAssembler::new();
    let mut out: Vec<String> = Vec::new();
    let mut completion = Completion::Truncated(NO_TERMINATOR.to_owned());
    let mut i: usize = 0;
    let mut ended: bool = false;
    let ghost mut read: int = 0;
    proof {
        assert(items@.skip(0) =~= items@);
        assert(all.take(0) + lines_before_end(items@) =~= all);
        assert(texts(out@) =~= Seq::empty());
    }
    while i < items.len() && !ended
        invariant
            all == lines_before_end(items@),
            i <= items@.len(),
            0 <= read <= all.len(),
            assembler@ == after_lines(all, read),
            texts(out@) == all_passed_on(all, true, read),
            ended ==> read == all.len() && truncation(completion) == end_of(items@),
            !ended ==> all.skip(read) == lines_before_end(items@.skip(i as int)) && end_of(items@)
                == end_of(items@.skip(i as int)) && truncation(completion) == Some(
                NO_TERMINATOR@,
            ),
        decreases items@.len() - i,
    {
        let ghost rest = items@.skip(i as int);
        assert(rest[0] == items@[i as int]);
        assert(rest.drop_first() =~= items@.skip(i + 1));
        match &items[i] {
            StreamItem::Line(line) => {
                let ghost sent = texts(out@);
                assert(lines_before_end(rest)[0] == line@);
                assert(all.skip(read).len() > 0 && all.skip(read)[0] == all[read]);
                let piece = assembler.push_line(line.as_str(), true);
                if let Some(text) = piece {
                    let ghost t = text@;
                    out.push(text);
                    assert(texts(out@) =~= sent.push(t));
                }
                proof {
                    assert(all.skip(read + 1) =~= all.skip(read).drop_first());
                    assert(all.skip(read).drop_first() =~= lines_before_end(rest.drop_first()));
                    read = read + 1;
                }
            },
            StreamItem::Eof => {
                assert(all.skip(read).len() == 0);
                completion = Completion::Complete;
                ended = true;
            },
            StreamItem::Failed(why) => {
                assert(all.skip(read).len() == 0);
                completion = Completion::Truncated(why.clone());
                ended = true;
            },
        }
        i = i + 1;
    }
    proof {
        if !ended {
            assert(items@.skip(i as int).len() == 0);
            assert(all.skip(read).len() == 0);
        }
    }
    let (assembled, usage, _) = assembler.finish();
    (assembled, usage, completion, out)
}

/// Assembles the text of a whole stream, which ended as it should: what it
/// turned out to be, the usage it reported, and what is passed on.
pub fn assemble_with_usage(raw_sse: &str) -> (result: (
    AssembledResponse,
    StreamUsage,
    Vec<String>,
))
    ensures
        ({
            let list = lines(raw_sse@);
            let n = list.len() as int;
            let state = after_lines(list, n);
            &&& result.0@ == chat_result(state)
            &&& result.1 == state.usage
            &&& texts(result.2@) == all_passed_on(list, false, n)
        }),
{
    let list = lines_of(raw_sse);
    let ghost all = texts(list@);
    let mut assembler = ChatAssembler::new();
    let mut out: Vec<String> = Vec::new();
    assert(texts(out@) =~= Seq::empty());
    for i in 0..list.len()
        invariant
            all == texts(list@),
            assembler@ == after_lines(all, i as int),
            texts(out@) == all_passed_on(all, false, i as int),
    {
        let ghost sent = texts(out@);
        assert(all[i as int] == list@[i as int]@);
        let piece = assembler.push_line(list[i].as_str(), false);
        if let Some(text) = piece {
            let ghost t = text@;
            out.push(text);
            assert(texts(out@) =~= sent.push(t));
        }
    }
    let (assembled, usage, _) = assembler.finish();
    (assembled, usage, out)
}

/// Assembles the text of a whole stream: what it turned out to be, and what is
/// passed on.
pub fn assemble(raw_sse: &str) -> (result: (AssembledResponse, Vec<String>))
    ensures
        ({
            let list = lines(raw_sse@);
            let n = list.len() as int;
            &&& result.0@ == chat_result(after_lines(list, n))
            &&& texts(result.1@) == all_passed_on(list, false, n)
        }),
{
    let (assembled, _, out) = assemble_with_usage(raw_sse);
    (assembled, out)
}

// ── laws ────────────────────────────────────────────────────────────────────

/// The text of the chunks among the first `n` lines that carry no call.
pub open spec fn said(lines: Seq<Seq<char>>, n: int) -> Seq<char>
    decreases n,
{
    if n <= 0 {
        Seq::empty()
    } else {
        let before = said(lines, n - 1);
        match event_in(lines[n - 1]) {
            Some(chunk) => if is_frame(lines[n - 1]) || call_deltas(chunk) is Some {
                before
            } else {
                before + content_in(chunk)
            },
            None => before,
        }
    }
}

/// The assembled text is the text of all chunks, none of it lost or repeated.
pub proof fn text_is_kept(lines: Seq<Seq<char>>, n: int)
    ensures
        after_lines(lines, n).text == said(lines, n),
    decreases n,
{
    if n > 0 {
        text_is_kept(lines, n - 1);
    }
}

/// A line that carries a call delta is never passed on; and once one was seen,
/// no chunk is.
pub proof fn calls_are_held_back(state: ChatState, line: Seq<char>, framing: bool)
    requires
        event_in(line) is Some,
        !is_frame(line),
    ensures
        call_deltas(event_in(line)->0) is Some ==> passed_on(state, line, framing) is None
            && after_line(state, line).has_calls,
        state.has_calls ==> passed_on(state, line, framing) is None && after_line(
            state,
            line,
        ).has_calls,
{
}

/// Text is passed on as it came, at once, as long as no call was seen.
pub proof fn text_is_passed_on(state: ChatState, line: Seq<char>, framing: bool)
    requires
        !state.has_calls,
        !is_frame(line),
        event_in(line) matches Some(chunk) ==> call_deltas(chunk) is None,
    ensures
        passed_on(state, line, framing) == Some(line + "\n\n"@),
{
}

/// What the stream is told to be is told once: later lines do not change it,
/// and calls are told as soon as they are seen.
pub proof fn kind_is_told_once(lines: Seq<Seq<char>>, n: int)
    ensures
        after_lines(lines, n).kind == (if after_lines(lines, n).has_calls {
            Some(false)
        } else {
            None
        }),
        after_lines(lines, n).kind is Some ==> after_lines(lines, n + 1).kind == after_lines(
            lines,
            n,
        ).kind,
    decreases n,
{
    if n > 0 {
        kind_is_told_once(lines, n - 1);
    } else {
        assert(after_lines(lines, n) == chat_start());
    }
}

/// A `data:` line carries the JSON behind the colon, whatever blanks stand around
/// it; the mark that ends a stream carries none, nor does any other line.
pub proof fn data_lines_carry_their_json(a: Seq<char>, data: Seq<char>, z: Seq<char>, line: Seq<char>)
    requires
        is_blank(a),
        is_blank(z),
        is_tight(data),
    ensures
        data != "[DONE]"@ ==> event_in("data:"@ + (a + data + z)) == json_of(data),
        data == "[DONE]"@ ==> event_in("data:"@ + (a + data + z)) is None,
        !starts_with(line, "data:"@) ==> event_in(line) is None,
        starts_with(line, "data:"@) ==> !is_frame(line),
{
    let rest = a + data + z;
    let whole = "data:"@ + rest;
    reveal_strlit("data:");
    assert(whole.subrange(0, 5) =~= "data:"@);
    assert(whole.skip(5) =~= rest);
    trimming_undoes_padding(a, data, z);
    if starts_with(line, "data:"@) {
        assert(line.subrange(0, 5)[0] == 'd');
    }
}

/// Whether a chunk's first choice has this delta.
pub open spec fn has_delta(chunk: JsonView, delta: Map<Seq<char>, JsonView>) -> bool {
    chunk.get("choices"@) matches Some(JsonView::Array(choices)) && choices.len() > 0
        && choices[0].get("delta"@) == Some(JsonView::Object(delta))
}

/// A chunk of text adds exactly its text: the string under `content` in the delta
/// of its first choice, as it is. Nothing else of what was gathered changes.
pub proof fn a_chunk_adds_exactly_its_text(
    state: ChatState,
    line: Seq<char>,
    chunk: JsonView,
    delta: Map<Seq<char>, JsonView>,
    text: Seq<char>,
)
    requires
        event_in(line) == Some(chunk),
        has_delta(chunk, delta),
        !(delta.contains_key("tool_calls"@) && delta["tool_calls"@] is Array),
    ensures
        delta.contains_key("content"@) && delta["content"@] == JsonView::Str(text) ==> after_line(
            state,
            line,
        ).text == state.text + text,
        !(delta.contains_key("content"@) && delta["content"@] is Str) ==> after_line(
            state,
            line,
        ).text == state.text,
        after_line(state, line).slots == state.slots,
        after_line(state, line).has_calls == state.has_calls,
        after_line(state, line).template == chunk,
        after_line(state, line).kind == state.kind,
{
    reveal_strlit("data:");
    if is_frame(line) {
        assert(line.subrange(0, 5)[0] == line[0]);
    }
    assert(state.text + Seq::<char>::empty() =~= state.text);
}

/// A line that carries nothing changes nothing.
pub proof fn other_lines_change_nothing(state: ChatState, line: Seq<char>)
    requires
        event_in(line) is None,
    ensures
        after_line(state, line) == state,
{
}

/// Whether a delta of a call is for a place, and says this of the call.
pub open spec fn tells(delta: JsonView, place: int, before: CallView, after: CallView) -> bool {
    &&& match delta.get("index"@) {
        Some(JsonView::Int(n)) => 0 <= n <= u64::MAX && place == n,
        _ => place == 0,
    }
    &&& match delta.get("id"@) {
        Some(JsonView::Str(id)) => after.id == Some(id),
        _ => after.id == before.id,
    }
    &&& match delta.get("function"@) {
        Some(function) => (match function.get("name"@) {
            Some(JsonView::Str(name)) => after.name == name,
            _ => after.name == before.name,
        }) && (match function.get("arguments"@) {
            Some(JsonView::Str(more)) => after.arguments == before.arguments + more,
            _ => after.arguments == before.arguments,
        }),
        None => after.name == before.name && after.arguments == before.arguments,
    }
}

/// A delta of a call changes the call at its place alone: an id or a name is that
/// of the call from then on, and arguments are added to those that it has.
pub proof fn a_delta_tells_of_one_call(
    slots: Seq<CallView>,
    delta: JsonView,
    place: int,
    after: CallView,
    j: int,
)
    requires
        0 <= place < usize::MAX,
        tells(
            delta,
            place,
            if place < slots.len() {
                slots[place]
            } else {
                CallView { id: None, name: Seq::empty(), arguments: Seq::empty() }
            },
            after,
        ),
    ensures
        ({
            let now = filled(slots, delta);
            &&& now.len() == (if place < slots.len() {
                slots.len() as int
            } else {
                place + 1
            })
            &&& now[place] == after
            &&& 0 <= j < slots.len() && j != place ==> now[j] == slots[j]
            &&& slots.len() <= j < place ==> now[j] == (CallView {
                id: None,
                name: Seq::empty(),
                arguments: Seq::empty(),
            })
        }),
{
    let before = if place < slots.len() {
        slots[place]
    } else {
        CallView { id: None, name: Seq::empty(), arguments: Seq::empty() }
    };
    let wide = grown(slots, (place + 1) as nat);
    assert(wide[place] == before);
    assert(filled_slot(before, delta) =~= after);
}

proof fn filled_prefix(slots: Seq<CallView>, a: Seq<JsonView>, b: Seq<JsonView>, n: int)
    requires
        0 <= n <= a.len(),
        n <= b.len(),
        forall|i: int| 0 <= i < n ==> #[trigger] a[i] == b[i],
    ensures
        filled_all(slots, a, n) == filled_all(slots, b, n),
    decreases n,
{
    if n > 0 {
        filled_prefix(slots, a, b, n - 1);
        assert(a[n - 1] == b[n - 1]);
    }
}

/// A chunk with deltas of calls has each of them told, in their order, and from
/// then on the stream makes calls; its text is not text of the answer.
pub proof fn a_chunk_tells_all_its_deltas(
    state: ChatState,
    line: Seq<char>,
    chunk: JsonView,
    delta: Map<Seq<char>, JsonView>,
    deltas: Seq<JsonView>,
    last: JsonView,
)
    requires
        event_in(line) == Some(chunk),
        has_delta(chunk, delta),
        delta.contains_key("tool_calls"@),
        delta["tool_calls"@] == JsonView::Array(deltas),
    ensures
        ({
            let now = after_line(state, line);
            &&& now.has_calls
            &&& now.text == state.text
            &&& now.template == chunk
            &&& now.slots == filled_all(state.slots, deltas, deltas.len() as int)
        }),
        filled_all(state.slots, Seq::empty(), 0) == state.slots,
        filled_all(state.slots, deltas.push(last), deltas.len() as int + 1) == filled(
            filled_all(state.slots, deltas, deltas.len() as int),
            last,
        ),
{
    reveal_strlit("data:");
    if is_frame(line) {
        assert(line.subrange(0, 5)[0] == line[0]);
    }
    filled_prefix(state.slots, deltas, deltas.push(last), deltas.len() as int);
}

proof fn slot_calls_prefix(a: Seq<CallView>, b: Seq<CallView>, n: int)
    requires
        0 <= n <= a.len(),
        n <= b.len(),
        forall|i: int| 0 <= i < n ==> #[trigger] a[i] == b[i],
    ensures
        slot_calls(a, n) == slot_calls(b, n),
    decreases n,
{
    if n > 0 {
        slot_calls_prefix(a, b, n - 1);
        assert(a[n - 1] == b[n - 1]);
    }
}

/// Every call that was told a name is made, in its order, with the arguments that
/// were told, or an empty object where none were.
pub proof fn every_named_call_is_made(slots: Seq<CallView>, last: CallView)
    ensures
        slot_calls(Seq::empty(), 0) == Seq::<CallView>::empty(),
        ({
            let before = slot_calls(slots, slots.len() as int);
            let now = slot_calls(slots.push(last), slots.len() as int + 1);
            if last.name.len() == 0 {
                now == before
            } else {
                now == before.push(
                    CallView {
                        id: last.id,
                        name: last.name,
                        arguments: if last.arguments.len() == 0 {
                            "{}"@
                        } else {
                            last.arguments
                        },
                    },
                )
            }
        }),
{
    slot_calls_prefix(slots, slots.push(last), slots.len() as int);
}

/// At its end a stream is its calls, if it told of any; else what is rescued from
/// its text; else its text. The whole text stays with it in any case.
pub proof fn a_stream_is_calls_or_text(state: ChatState)
    ensures
        state.has_calls && state.slots.len() > 0 ==> chat_result(state) == (
        AssembledView::ToolCalls {
            calls: slot_calls(state.slots, state.slots.len() as int),
            template: state.template,
            content: state.text,
        }),
        !(state.has_calls && state.slots.len() > 0) && state.text.len() > 0 && rescued(
            state.text,
        ) is Some ==> (chat_result(state) matches AssembledView::Rescued {
            parser,
            calls,
            template,
            content,
        } && parser == (rescued(state.text)->0).0.label() && calls == (rescued(state.text)->0).1
            && template == state.template && content == state.text),
        !(state.has_calls && state.slots.len() > 0) && rescued(state.text) is None ==> chat_result(
            state,
        ) == (AssembledView::Text { template: state.template, content: state.text }),
        chat_result(state) is Text ==> chat_result(state)->Text_content == state.text,
{
}

/// The usage that a stream reports is the largest that any of its chunks does.
pub proof fn the_largest_usage_is_kept(seen: Option<Usage>, chunk: JsonView)
    ensures
        ({
            let now = merged_usage(seen, chunk);
            &&& now == seen || now == usage_in(chunk)
            &&& seen matches Some(a) ==> (now matches Some(b) && b.prompt_tokens
                + b.completion_tokens >= a.prompt_tokens + a.completion_tokens)
            &&& usage_in(chunk) matches Some(u) ==> !u.reports_nothing() ==> (now matches Some(b)
                && b.prompt_tokens + b.completion_tokens >= u.prompt_tokens + u.completion_tokens)
            &&& usage_in(chunk) is None ==> now == seen
            &&& usage_in(chunk) matches Some(u) ==> u.reports_nothing() ==> now == seen
        }),
{
}

/// A stream is read up to the item that ends it, and how it ended is what that
/// item says; one that just stops did not end as it should.
pub proof fn streams_are_read_to_their_end(line: String, why: String, rest: Seq<StreamItem>)
    ensures
        lines_before_end(seq![StreamItem::Line(line)] + rest) == seq![line@] + lines_before_end(
            rest,
        ),
        end_of(seq![StreamItem::Line(line)] + rest) == end_of(rest),
        lines_before_end(seq![StreamItem::Eof] + rest) == Seq::<Seq<char>>::empty(),
        end_of(seq![StreamItem::Eof] + rest) is None,
        lines_before_end(seq![StreamItem::Failed(why)] + rest) == Seq::<Seq<char>>::empty(),
        end_of(seq![StreamItem::Failed(why)] + rest) == Some(why@),
        lines_before_end(Seq::empty()) == Seq::<Seq<char>>::empty(),
        end_of(Seq::empty()) is Some,
{
    let a = seq![StreamItem::Line(line)] + rest;
    assert(a.drop_first() =~= rest);
}

/// Lines are taken in their order, each once, from nothing assembled.
pub proof fn lines_are_taken_in_order(lines: Seq<Seq<char>>, n: int)
    requires
        0 <= n < lines.len(),
    ensures
        after_lines(lines, n + 1) == after_line(after_lines(lines, n), lines[n]),
        after_lines(lines, 0).text == Seq::<char>::empty(),
        after_lines(lines, 0).slots == Seq::<CallView>::empty(),
        after_lines(lines, 0).usage is None,
        !after_lines(lines, 0).has_calls,
        after_lines(lines, 0).template is Null,
        ({
            let before = all_passed_on(lines, true, n);
            all_passed_on(lines, true, n + 1) == (match passed_on(
                after_lines(lines, n),
                lines[n],
                true,
            ) {
                Some(out) => before.push(out),
                None => before,
            })
        }),
{
}

/// What frames a stream is passed on as it came, where that is wanted, and never
/// taken for an answer.
pub proof fn frames_are_passed_on(state: ChatState, line: Seq<char>)
    requires
        line.len() == 0 || line[0] == ':',
    ensures
        passed_on(state, line, true) == Some(line + "\n"@),
        passed_on(state, line, false) is None,
        after_line(state, line) == state,
{
}

/// A stream is framed by empty lines and comments, and by nothing else.
pub proof fn frames_are_blank_or_comments(line: Seq<char>)
    ensures
        is_frame(line) <==> line.len() == 0 || line[0] == ':',
{
}

} // verus!
