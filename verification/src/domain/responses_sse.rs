//! Assembles a streamed Responses reply.
//!
//! Every event is typed, and a call arrives across several of them. The policy
//! is that of the chat assembler: text is passed on at once, calls are held
//! back. Text that starts to look like a call is held back too, until it is
//! known whether it is one.
use vstd::prelude::*;

use super::decode::{call_views, copy_text, own_text, owned_text, CallView, ToolCall};
use super::metrics::{extract_usage, usage_in, Usage};
use super::rescue::{
    looks_like_tool_call, rescue, rescued, rescued_text_resembles_call, resembles_call,
    RescueParser,
};
use super::responses::FUNCTION_CALL;
use super::sse::{
    event_in, frames, is_frame, parse_sse_line, truncation, Completion, StreamItem, StreamUsage,
    NO_TERMINATOR,
};
use super::sse::{end_of, lines_before_end};
use crate::json::{
    field, field_of, text_in, text_of_value, unsigned_in, unsigned_of_value, Json, JsonView,
};
use crate::text::{begins, same_text, starts_with, texts};

verus! {

/// Announces an output item.
pub const ITEM_ADDED: &'static str = "response.output_item.added";

/// Carries a piece of a call's arguments.
pub const ARGS_DELTA: &'static str = "response.function_call_arguments.delta";

/// Carries a call's whole arguments.
pub const ARGS_DONE: &'static str = "response.function_call_arguments.done";

/// Carries a piece of assistant text.
pub const TEXT_DELTA: &'static str = "response.output_text.delta";

/// Ends the stream with the whole response.
pub const COMPLETED: &'static str = "response.completed";

// ── slots ───────────────────────────────────────────────────────────────────

/// A call while its events arrive.
#[derive(Debug)]
pub struct CallSlot {
    pub call_id: Option<String>,
    pub name: Option<String>,
    pub arguments: String,
}

/// A call while its events arrive, by views.
#[verifier::ext_equal]
pub struct SlotView {
    pub call_id: Option<Seq<char>>,
    pub name: Option<Seq<char>>,
    pub arguments: Seq<char>,
}

impl View for CallSlot {
    type V = SlotView;

    open spec fn view(&self) -> SlotView {
        SlotView {
            call_id: owned_text(self.call_id),
            name: owned_text(self.name),
            arguments: self.arguments@,
        }
    }
}

/// Slots by their views.
pub open spec fn slot_views(slots: Seq<CallSlot>) -> Seq<SlotView> {
    slots.map_values(|s: CallSlot| s@)
}

/// A slot of which nothing has arrived.
pub open spec fn empty_slot() -> SlotView {
    SlotView { call_id: None, name: None, arguments: Seq::empty() }
}

/// The slots with empty ones added until there are `n`.
pub open spec fn grown(slots: Seq<SlotView>, n: nat) -> Seq<SlotView> {
    if slots.len() >= n {
        slots
    } else {
        slots + Seq::new((n - slots.len()) as nat, |i: int| empty_slot())
    }
}

fn grow_slots(slots: &mut Vec<CallSlot>, n: usize)
    ensures
        slot_views(final(slots)@) == grown(slot_views(old(slots)@), n as nat),
        final(slots)@.len() >= n,
{
    let ghost before = slot_views(slots@);
    assert(grown(before, slots@.len()) =~= before);
    while slots.len() < n
        invariant
            before == slot_views(old(slots)@),
            slots@.len() >= before.len(),
            slots@.len() <= n || slots@.len() == before.len(),
            slot_views(slots@) == grown(before, slots@.len()),
        decreases n - slots@.len(),
    {
        let slot = CallSlot { call_id: None, name: None, arguments: String::new() };
        let ghost view = slot@;
        let ghost read = slot_views(slots@);
        slots.push(slot);
        assert(view =~= empty_slot());
        assert(slot_views(slots@) =~= read.push(view));
        assert(slot_views(slots@) =~= grown(before, slots@.len()));
    }
}

/// The slots with the one at `i` replaced, grown to hold it. A place that no
/// list has is passed over.
pub open spec fn slot_set(slots: Seq<SlotView>, i: int, slot: SlotView) -> Seq<SlotView> {
    if 0 <= i < usize::MAX {
        grown(slots, (i + 1) as nat).update(i, slot)
    } else {
        slots
    }
}

/// The slot at `i`, which is empty where nothing has arrived for it.
pub open spec fn slot_at(slots: Seq<SlotView>, i: int) -> SlotView {
    if 0 <= i < slots.len() {
        slots[i]
    } else {
        empty_slot()
    }
}

/// The place that an event is for.
pub open spec fn output_index(event: JsonView, default: int) -> int {
    match unsigned_in(event.get("output_index"@)) {
        Some(n) => n as int,
        None => default,
    }
}

/// The slot after an item is announced: id and name replace, arguments add up.
pub open spec fn announced(slot: SlotView, item: Option<JsonView>) -> SlotView {
    SlotView {
        call_id: text_in(field(item, "call_id"@)),
        name: text_in(field(item, "name"@)),
        arguments: match text_in(field(item, "arguments"@)) {
            Some(more) => slot.arguments + more,
            None => slot.arguments,
        },
    }
}

/// The call that a slot makes, where it has a name.
pub open spec fn slot_call(slot: SlotView) -> Option<CallView> {
    match slot.name {
        Some(name) => Some(
            CallView {
                id: slot.call_id,
                name,
                arguments: if slot.arguments.len() == 0 {
                    "{}"@
                } else {
                    slot.arguments
                },
            },
        ),
        None => None,
    }
}

/// The calls of the first `n` slots.
pub open spec fn slot_calls(slots: Seq<SlotView>, n: int) -> Seq<CallView>
    decreases n,
{
    if n <= 0 {
        Seq::empty()
    } else {
        match slot_call(slots[n - 1]) {
            Some(call) => slot_calls(slots, n - 1).push(call),
            None => slot_calls(slots, n - 1),
        }
    }
}

fn calls_of_slots(slots: &Vec<CallSlot>) -> (calls: Vec<ToolCall>)
    ensures
        call_views(calls@) == slot_calls(slot_views(slots@), slots@.len() as int),
{
    let ghost all = slot_views(slots@);
    let mut calls: Vec<ToolCall> = Vec::new();
    assert(call_views(calls@) =~= Seq::empty());
    for i in 0..slots.len()
        invariant
            all == slot_views(slots@),
            call_views(calls@) == slot_calls(all, i as int),
    {
        let ghost read = call_views(calls@);
        let slot = &slots[i];
        assert(all[i as int] == slot@);
        if let Some(name) = &slot.name {
            let call = ToolCall {
                id: copy_text(&slot.call_id),
                name: name.clone(),
                arguments: if slot.arguments.as_str().is_empty() {
                    "{}".to_owned()
                } else {
                    slot.arguments.clone()
                },
            };
            calls.push(call);
            assert(call_views(calls@) =~= read.push(call@));
        }
    }
    calls
}

// ── the assembler ───────────────────────────────────────────────────────────

/// What has been assembled so far, by views.
#[verifier::ext_equal]
pub struct ResponsesState {
    pub slots: Seq<SlotView>,
    /// The response that the stream ended with.
    pub template: JsonView,
    pub text: Seq<char>,
    pub has_calls: bool,
    pub usage: Option<Usage>,
    /// What the stream was told to be: text or not.
    pub kind: Option<bool>,
    /// What is held back because the text looks like a call.
    pub held: Seq<Seq<char>>,
}

/// Nothing assembled yet.
pub open spec fn responses_start() -> ResponsesState {
    ResponsesState {
        slots: Seq::empty(),
        template: JsonView::Null,
        text: Seq::empty(),
        has_calls: false,
        usage: None,
        kind: None,
        held: Seq::empty(),
    }
}

/// Whether a line is empty, a comment or an `event:` line: it frames the stream.
pub open spec fn is_event_frame(line: Seq<char>) -> bool {
    is_frame(line) || starts_with(line, "event:"@)
}

/// The type of an event; empty where it has none.
pub open spec fn event_kind(event: JsonView) -> Seq<char> {
    match text_in(event.get("type"@)) {
        Some(kind) => kind,
        None => Seq::empty(),
    }
}

/// Whether an event announces a call.
pub open spec fn announces_call(event: JsonView) -> bool {
    event_kind(event) == ITEM_ADDED@ && text_in(field(event.get("item"@), "type"@)) == Some(
        FUNCTION_CALL@,
    )
}

/// What the stream was told to be, told now if it was not told before.
pub open spec fn told(kind: Option<bool>, now: bool) -> Option<bool> {
    match kind {
        Some(k) => Some(k),
        None => Some(now),
    }
}

/// The text after an event.
pub open spec fn text_after(text: Seq<char>, event: JsonView) -> Seq<char> {
    match text_in(event.get("delta"@)) {
        Some(more) => text + more,
        None => text,
    }
}

/// The usage after the terminal event.
pub open spec fn usage_after(usage: Option<Usage>, response: JsonView) -> Option<Usage> {
    match usage_in(response) {
        Some(reported) => if reported.reports_nothing() {
            usage
        } else {
            Some(reported)
        },
        None => usage,
    }
}

/// The state after an event that `line` carries.
pub open spec fn after_event(
    state: ResponsesState,
    line: Seq<char>,
    event: JsonView,
) -> ResponsesState {
    let kind = event_kind(event);
    if kind == ITEM_ADDED@ {
        if announces_call(event) {
            let i = output_index(event, state.slots.len() as int);
            ResponsesState {
                slots: slot_set(
                    state.slots,
                    i,
                    announced(slot_at(state.slots, i), event.get("item"@)),
                ),
                has_calls: true,
                kind: told(state.kind, false),
                ..state
            }
        } else {
            state
        }
    } else if kind == ARGS_DELTA@ {
        let i = output_index(event, 0);
        let slot = slot_at(state.slots, i);
        ResponsesState {
            slots: slot_set(
                state.slots,
                i,
                SlotView { arguments: text_after(slot.arguments, event), ..slot },
            ),
            has_calls: true,
            kind: told(state.kind, false),
            ..state
        }
    } else if kind == ARGS_DONE@ {
        let i = output_index(event, 0);
        let slot = slot_at(state.slots, i);
        ResponsesState {
            slots: slot_set(
                state.slots,
                i,
                SlotView {
                    arguments: match text_in(event.get("arguments"@)) {
                        Some(whole) => whole,
                        None => slot.arguments,
                    },
                    ..slot
                },
            ),
            has_calls: true,
            ..state
        }
    } else if kind == TEXT_DELTA@ {
        let text = text_after(state.text, event);
        if state.has_calls {
            ResponsesState { text, ..state }
        } else if resembles_call(text) {
            ResponsesState { text, held: state.held.push(line + "\n\n"@), ..state }
        } else {
            ResponsesState { text, held: Seq::empty(), kind: told(state.kind, true), ..state }
        }
    } else if kind == COMPLETED@ {
        match event.get("response"@) {
            Some(response) => ResponsesState {
                usage: usage_after(state.usage, response),
                template: response,
                ..state
            },
            None => state,
        }
    } else {
        state
    }
}

/// The state after a line.
pub open spec fn after_line(state: ResponsesState, line: Seq<char>) -> ResponsesState {
    if is_event_frame(line) {
        state
    } else {
        match event_in(line) {
            Some(event) => after_event(state, line, event),
            None => state,
        }
    }
}

/// What is passed on when an event arrives that `line` carries: nothing of a
/// call, nothing once a call was seen, no text that looks like a call, and
/// never the terminal event, for the caller ends the stream itself.
pub open spec fn passed_of_event(
    state: ResponsesState,
    line: Seq<char>,
    event: JsonView,
) -> Seq<Seq<char>> {
    let kind = event_kind(event);
    let itself = seq![line + "\n\n"@];
    if state.has_calls || announces_call(event) || kind == ARGS_DELTA@ || kind == ARGS_DONE@ || kind
        == COMPLETED@ {
        Seq::empty()
    } else if kind == TEXT_DELTA@ {
        if resembles_call(text_after(state.text, event)) {
            Seq::empty()
        } else {
            state.held + itself
        }
    } else {
        itself
    }
}

/// What is passed on when a line arrives.
pub open spec fn passed_on(state: ResponsesState, line: Seq<char>) -> Seq<Seq<char>> {
    if is_event_frame(line) {
        if state.has_calls {
            Seq::empty()
        } else {
            seq![line + "\n"@]
        }
    } else {
        match event_in(line) {
            Some(event) => passed_of_event(state, line, event),
            None => if state.has_calls {
                Seq::empty()
            } else {
                seq![line + "\n\n"@]
            },
        }
    }
}

/// What a stream turned out to be.
#[derive(Debug)]
pub enum AssembledResponses {
    /// Text alone.
    Text { text: String, template: Json },
    /// Native calls, held back; and the text beside them.
    ToolCalls { calls: Vec<ToolCall>, template: Json, text: String },
    /// Calls recovered from the text; and that text.
    Rescued { parser: &'static str, calls: Vec<ToolCall>, template: Json, text: String },
}

/// What a stream turned out to be, by views.
#[verifier::ext_equal]
pub enum ResponsesResult {
    Text { text: Seq<char>, template: JsonView },
    ToolCalls { calls: Seq<CallView>, template: JsonView, text: Seq<char> },
    Rescued { parser: Seq<char>, calls: Seq<CallView>, template: JsonView, text: Seq<char> },
}

impl View for AssembledResponses {
    type V = ResponsesResult;

    open spec fn view(&self) -> ResponsesResult {
        match self {
            AssembledResponses::Text { text, template } => ResponsesResult::Text {
                text: text@,
                template: template@,
            },
            AssembledResponses::ToolCalls { calls, template, text } => ResponsesResult::ToolCalls {
                calls: call_views(calls@),
                template: template@,
                text: text@,
            },
            AssembledResponses::Rescued { parser, calls, template, text } =>
                ResponsesResult::Rescued {
                    parser: parser@,
                    calls: call_views(calls@),
                    template: template@,
                    text: text@,
                },
        }
    }
}

/// What a stream turned out to be, at its end.
pub open spec fn responses_result(state: ResponsesState) -> ResponsesResult {
    let calls = slot_calls(state.slots, state.slots.len() as int);
    if state.has_calls && calls.len() > 0 {
        ResponsesResult::ToolCalls { calls, template: state.template, text: state.text }
    } else {
        match rescued(state.text) {
            Some((format, found)) => ResponsesResult::Rescued {
                parser: format.label(),
                calls: found,
                template: state.template,
                text: state.text,
            },
            None => ResponsesResult::Text { text: state.text, template: state.template },
        }
    }
}

/// What is passed on at the end: the text that was held back, where it was no
/// call after all.
pub open spec fn released(state: ResponsesState) -> Seq<Seq<char>> {
    match responses_result(state) {
        ResponsesResult::Text { .. } => state.held,
        _ => Seq::empty(),
    }
}

/// Assembles a stream line by line.
#[derive(Debug)]
pub struct ResponsesAssembler {
    slots: Vec<CallSlot>,
    template: Json,
    text: String,
    has_calls: bool,
    usage: Option<Usage>,
    kind: Option<bool>,
    held: Vec<String>,
}

impl View for ResponsesAssembler {
    type V = ResponsesState;

    closed spec fn view(&self) -> ResponsesState {
        ResponsesState {
            slots: slot_views(self.slots@),
            template: self.template@,
            text: self.text@,
            has_calls: self.has_calls,
            usage: self.usage,
            kind: self.kind,
            held: texts(self.held@),
        }
    }
}

/// A list of one text.
fn just(text: String) -> (list: Vec<String>)
    ensures
        texts(list@) == seq![text@],
{
    let mut list: Vec<String> = Vec::new();
    let ghost t = text@;
    list.push(text);
    assert(texts(list@) =~= seq![t]);
    list
}

fn nothing() -> (list: Vec<String>)
    ensures
        texts(list@) == Seq::<Seq<char>>::empty(),
{
    let list: Vec<String> = Vec::new();
    assert(texts(list@) =~= Seq::empty());
    list
}

fn index_of(event: &Json, default: u64) -> (i: u64)
    ensures
        i == output_index(event@, default as int),
{
    match unsigned_of_value(event.get("output_index")) {
        Some(n) => n,
        None => default,
    }
}

impl ResponsesAssembler {
    pub fn new() -> (assembler: ResponsesAssembler)
        ensures
            assembler@ == responses_start(),
    {
        let assembler = ResponsesAssembler {
            slots: Vec::new(),
            template: Json::Null,
            text: String::new(),
            has_calls: false,
            usage: None,
            kind: None,
            held: Vec::new(),
        };
        assert(assembler@ =~= responses_start());
        assembler
    }

    /// What the stream was told to be so far.
    pub fn kind(&self) -> (kind: Option<bool>)
        ensures
            kind == self@.kind,
    {
        self.kind
    }

    fn tell(&mut self, now: bool)
        ensures
            final(self)@ == (ResponsesState { kind: told(old(self)@.kind, now), ..old(self)@ }),
    {
        if self.kind.is_none() {
            self.kind = Some(now);
        }
    }

    /// Replaces the slot at a place by what `id`, `name` and `arguments` make.
    fn put_slot(&mut self, index: u64, slot: CallSlot)
        ensures
            final(self)@ == (ResponsesState {
                slots: slot_set(old(self)@.slots, index as int, slot@),
                ..old(self)@
            }),
    {
        if index < usize::MAX as u64 {
            let i: usize = index as usize;
            grow_slots(&mut self.slots, i + 1);
            let ghost wide = slot_views(self.slots@);
            let ghost view = slot@;
            self.slots.set(i, slot);
            assert(slot_views(self.slots@) =~= wide.update(i as int, view));
        }
    }

    /// The arguments that have arrived for a place.
    fn arguments_at(&self, index: u64) -> (arguments: String)
        ensures
            arguments@ == slot_at(self@.slots, index as int).arguments,
    {
        if index < self.slots.len() as u64 {
            let i: usize = index as usize;
            assert(self@.slots[i as int] == self.slots@[i as int]@);
            self.slots[i].arguments.clone()
        } else {
            String::new()
        }
    }

    /// The slot at a place, with other arguments.
    fn slot_with(&self, index: u64, arguments: String) -> (slot: CallSlot)
        ensures
            slot@ == (SlotView {
                arguments: arguments@,
                ..slot_at(self@.slots, index as int)
            }),
    {
        if index < self.slots.len() as u64 {
            let i: usize = index as usize;
            assert(self@.slots[i as int] == self.slots@[i as int]@);
            CallSlot {
                call_id: copy_text(&self.slots[i].call_id),
                name: copy_text(&self.slots[i].name),
                arguments,
            }
        } else {
            CallSlot { call_id: None, name: None, arguments }
        }
    }

    /// Takes a line, and gives what is to be passed on to the client.
    pub fn push_line(&mut self, line: &str) -> (out: Vec<String>)
        ensures
            final(self)@ == after_line(old(self)@, line@),
            texts(out@) == passed_on(old(self)@, line@),
    {
        if frames(line) || begins(line, "event:") {
            return if self.has_calls {
                nothing()
            } else {
                just(line.to_owned().concat("\n"))
            };
        }
        match parse_sse_line(line) {
            Some(event) => self.push_event(line, &event),
            None => if self.has_calls {
                nothing()
            } else {
                just(line.to_owned().concat("\n\n"))
            },
        }
    }

    fn push_event(&mut self, line: &str, event: &Json) -> (out: Vec<String>)
        ensures
            final(self)@ == after_event(old(self)@, line@, event@),
            texts(out@) == passed_of_event(old(self)@, line@, event@),
    {
        proof {
            kinds_differ();
        }
        let had_calls: bool = self.has_calls;
        let kind = match text_of_value(event.get("type")) {
            Some(kind) => kind,
            None => "",
        };
        proof {
            reveal_strlit("");
            assert(kind@ =~= event_kind(event@));
        }
        if same_text(kind, ITEM_ADDED) {
            let item = event.get("item");
            let is_call: bool = match text_of_value(field_of(item, "type")) {
                Some(t) => same_text(t, FUNCTION_CALL),
                None => false,
            };
            if is_call {
                let index: u64 = index_of(event, self.slots.len() as u64);
                let before = self.arguments_at(index);
                let arguments = match text_of_value(field_of(item, "arguments")) {
                    Some(more) => before.concat(more),
                    None => before,
                };
                let slot = CallSlot {
                    call_id: own_text(text_of_value(field_of(item, "call_id"))),
                    name: own_text(text_of_value(field_of(item, "name"))),
                    arguments,
                };
                self.put_slot(index, slot);
                self.has_calls = true;
                self.tell(false);
                return nothing();
            }
        } else if same_text(kind, ARGS_DELTA) {
            let index: u64 = index_of(event, 0);
            let before = self.arguments_at(index);
            let arguments = match text_of_value(event.get("delta")) {
                Some(more) => before.concat(more),
                None => before,
            };
            let slot = self.slot_with(index, arguments);
            self.put_slot(index, slot);
            self.has_calls = true;
            self.tell(false);
            return nothing();
        } else if same_text(kind, ARGS_DONE) {
            let index: u64 = index_of(event, 0);
            let arguments = match text_of_value(event.get("arguments")) {
                Some(whole) => whole.to_owned(),
                None => self.arguments_at(index),
            };
            let slot = self.slot_with(index, arguments);
            self.put_slot(index, slot);
            self.has_calls = true;
            return nothing();
        } else if same_text(kind, TEXT_DELTA) {
            if let Some(more) = text_of_value(event.get("delta")) {
                self.text.append(more);
            }
            if self.has_calls {
                return nothing();
            }
            let piece = line.to_owned().concat("\n\n");
            let ghost held = texts(self.held@);
            if looks_like_tool_call(self.text.as_str()) {
                let ghost p = piece@;
                self.held.push(piece);
                assert(texts(self.held@) =~= held.push(p));
                return nothing();
            }
            self.tell(true);
            let mut out: Vec<String> = Vec::new();
            std::mem::swap(&mut out, &mut self.held);
            assert(texts(out@) == held);
            assert(texts(self.held@) =~= Seq::empty());
            let ghost p = piece@;
            out.push(piece);
            assert(texts(out@) =~= held + seq![p]);
            return out;
        } else if same_text(kind, COMPLETED) {
            if let Some(response) = event.get("response") {
                if let Some(reported) = extract_usage(response) {
                    if !reported.is_empty() {
                        self.usage = Some(reported);
                    }
                }
                self.template = response.clone();
            }
            return nothing();
        }
        if had_calls {
            nothing()
        } else {
            just(line.to_owned().concat("\n\n"))
        }
    }

    /// What the stream turned out to be, the usage it reported, what is to be
    /// passed on at its end, and whether it is text, as was told or is told now.
    pub fn finish(self) -> (result: (AssembledResponses, StreamUsage, Vec<String>, bool))
        ensures
            result.0@ == responses_result(self@),
            result.1 == self@.usage,
            texts(result.2@) == released(self@),
            result.3 == told(self@.kind, responses_result(self@) is Text)->0,
    {
        let kind = self.kind;
        if self.has_calls {
            let calls = calls_of_slots(&self.slots);
            if calls.len() > 0 {
                let is_text: bool = match kind {
                    Some(k) => k,
                    None => false,
                };
                return (
                    AssembledResponses::ToolCalls {
                        calls,
                        template: self.template,
                        text: self.text,
                    },
                    self.usage,
                    nothing(),
                    is_text,
                );
            }
        }
        if let Some((parser, calls)) = rescue(self.text.as_str()) {
            let is_text: bool = match kind {
                Some(k) => k,
                None => false,
            };
            return (
                AssembledResponses::Rescued {
                    parser,
                    calls,
                    template: self.template,
                    text: self.text,
                },
                self.usage,
                nothing(),
                is_text,
            );
        }
        let is_text: bool = match kind {
            Some(k) => k,
            None => true,
        };
        (
            AssembledResponses::Text { text: self.text, template: self.template },
            self.usage,
            self.held,
            is_text,
        )
    }
}

proof fn kinds_differ()
    ensures
        ITEM_ADDED@ != ARGS_DELTA@,
        ITEM_ADDED@ != ARGS_DONE@,
        ITEM_ADDED@ != TEXT_DELTA@,
        ITEM_ADDED@ != COMPLETED@,
        ARGS_DELTA@ != ARGS_DONE@,
        ARGS_DELTA@ != TEXT_DELTA@,
        ARGS_DELTA@ != COMPLETED@,
        ARGS_DONE@ != TEXT_DELTA@,
        ARGS_DONE@ != COMPLETED@,
        TEXT_DELTA@ != COMPLETED@,
{
    reveal_strlit("response.output_item.added");
    reveal_strlit("response.function_call_arguments.delta");
    reveal_strlit("response.function_call_arguments.done");
    reveal_strlit("response.output_text.delta");
    reveal_strlit("response.completed");
    assert(ITEM_ADDED@.len() == 26 && TEXT_DELTA@.len() == 26);
    assert(ITEM_ADDED@[16] == 'i' && TEXT_DELTA@[16] == 't');
    assert(ARGS_DELTA@.len() == 38 && ARGS_DONE@.len() == 37 && COMPLETED@.len() == 18);
}

// ── whole streams ───────────────────────────────────────────────────────────

/// The state after the first `n` lines.
pub open spec fn after_lines(lines: Seq<Seq<char>>, n: int) -> ResponsesState
    decreases n,
{
    if n <= 0 {
        responses_start()
    } else {
        after_line(after_lines(lines, n - 1), lines[n - 1])
    }
}

/// What is passed on of the first `n` lines.
pub open spec fn all_passed_on(lines: Seq<Seq<char>>, n: int) -> Seq<Seq<char>>
    decreases n,
{
    if n <= 0 {
        Seq::empty()
    } else {
        all_passed_on(lines, n - 1) + passed_on(after_lines(lines, n - 1), lines[n - 1])
    }
}

/// Assembles a whole stream: what it turned out to be, the usage it reported,
/// whether it finished, and what was passed on.
pub fn assemble_responses_stream(items: &[StreamItem]) -> (result: (
    AssembledResponses,
    StreamUsage,
    Completion,
    Vec<String>,
))
    ensures
        ({
            let lines = lines_before_end(items@);
            let n = lines.len() as int;
            let state = after_lines(lines, n);
            &&& result.0@ == responses_result(state)
            &&& result.1 == state.usage
            &&& truncation(result.2) == end_of(items@)
            &&& texts(result.3@) == all_passed_on(lines, n) + released(state)
        }),
{
    let ghost all = lines_before_end(items@);
    let mut assembler = ResponsesAssembler::new();
    let mut out: Vec<String> = Vec::new();
    let mut completion = Completion::Truncated(NO_TERMINATOR.to_owned());
    let mut i: usize = 0;
    let mut ended: bool = false;
    let ghost mut read: int = 0;
    proof {
        assert(items@.skip(0) =~= items@);
        assert(all.skip(0) =~= all);
        assert(texts(out@) =~= Seq::empty());
    }
    while i < items.len() && !ended
        invariant
            all == lines_before_end(items@),
            i <= items@.len(),
            0 <= read <= all.len(),
            assembler@ == after_lines(all, read),
            texts(out@) == all_passed_on(all, read),
            ended ==> read == all.len() && truncation(completion) == end_of(items@),
            !ended ==> all.skip(read) == lines_before_end(items@.skip(i as int)) && end_of(items@)
                == end_of(items@.skip(i as int)) && truncation(completion) == Some(
                NO_TERMINATOR@,
            ),
        decreases items@.len() - i,
    {
        let ghost rest = items@.skip(i as int);
        assert(rest[0] == items@[i as int]);
        assert(rest.drop_first() =~= items@.skip(i + 1));
        match &items[i] {
            StreamItem::Line(line) => {
                let ghost sent = texts(out@);
                assert(lines_before_end(rest)[0] == line@);
                assert(all.skip(read).len() > 0 && all.skip(read)[0] == all[read]);
                let mut pieces = assembler.push_line(line.as_str());
                let ghost p = texts(pieces@);
                out.append(&mut pieces);
                proof {
                    assert(texts(out@) =~= sent + p);
                    assert(all.skip(read + 1) =~= all.skip(read).drop_first());
                    assert(all.skip(read).drop_first() =~= lines_before_end(rest.drop_first()));
                    read = read + 1;
                }
            },
            StreamItem::Eof => {
                assert(all.skip(read).len() == 0);
                completion = Completion::Complete;
                ended = true;
            },
            StreamItem::Failed(why) => {
                assert(all.skip(read).len() == 0);
                completion = Completion::Truncated(why.clone());
                ended = true;
            },
        }
        i = i + 1;
    }
    proof {
        if !ended {
            assert(items@.skip(i as int).len() == 0);
            assert(all.skip(read).len() == 0);
        }
    }
    let ghost sent = texts(out@);
    let (assembled, usage, mut last, _) = assembler.finish();
    let ghost l = texts(last@);
    out.append(&mut last);
    assert(texts(out@) =~= sent + l);
    (assembled, usage, completion, out)
}

// ── laws ────────────────────────────────────────────────────────────────────

/// No event of a call is passed on, and nothing at all once a call was seen.
pub proof fn calls_are_held_back(state: ResponsesState, line: Seq<char>)
    ensures
        state.has_calls ==> passed_on(state, line) == Seq::<Seq<char>>::empty() && after_line(
            state,
            line,
        ).has_calls,
        !is_event_frame(line) && after_line(state, line).has_calls ==> passed_on(state, line)
            == Seq::<Seq<char>>::empty(),
{
    kinds_differ();
}

/// Text from which a call can be rescued is not passed on: what the client saw
/// is never contradicted by a call rescued from it.
pub proof fn rescuable_text_is_held(state: ResponsesState, line: Seq<char>)
    requires
        !is_event_frame(line),
        event_in(line) matches Some(event) && event_kind(event) == TEXT_DELTA@,
        rescued(after_line(state, line).text) is Some,
    ensures
        passed_on(state, line) == Seq::<Seq<char>>::empty(),
{
    kinds_differ();
    rescued_text_resembles_call(after_line(state, line).text);
}

/// The backend's terminal event is never passed on.
pub proof fn terminal_event_is_held(state: ResponsesState, line: Seq<char>)
    requires
        !is_event_frame(line),
        event_in(line) matches Some(event) && event_kind(event) == COMPLETED@,
    ensures
        passed_on(state, line) == Seq::<Seq<char>>::empty(),
{
    kinds_differ();
}

/// What the stream is told to be is told once.
pub proof fn kind_is_told_once(state: ResponsesState, line: Seq<char>)
    ensures
        state.kind is Some ==> after_line(state, line).kind == state.kind,
{
}

proof fn events_differ()
    ensures
        "response.output_item.added"@ != "response.function_call_arguments.delta"@,
        "response.output_item.added"@ != "response.function_call_arguments.done"@,
        "response.output_item.added"@ != "response.output_text.delta"@,
        "response.output_item.added"@ != "response.completed"@,
        "response.function_call_arguments.delta"@ != "response.function_call_arguments.done"@,
        "response.function_call_arguments.delta"@ != "response.output_text.delta"@,
        "response.function_call_arguments.delta"@ != "response.completed"@,
        "response.function_call_arguments.done"@ != "response.output_text.delta"@,
        "response.function_call_arguments.done"@ != "response.completed"@,
        "response.output_text.delta"@ != "response.completed"@,
{
    reveal_strlit("response.output_item.added");
    reveal_strlit("response.function_call_arguments.delta");
    reveal_strlit("response.function_call_arguments.done");
    reveal_strlit("response.output_text.delta");
    reveal_strlit("response.completed");
    assert("response.output_item.added"@.len() == 26);
    assert("response.function_call_arguments.delta"@.len() == 38);
    assert("response.function_call_arguments.done"@.len() == 37);
    assert("response.output_text.delta"@.len() == 26);
    assert("response.completed"@.len() == 18);
    assert("response.output_item.added"@[16] == 'i');
    assert("response.output_text.delta"@[16] == 't');
}

/// An event of text adds exactly its delta to the text, and nothing to the calls.
pub proof fn an_event_adds_exactly_its_text(
    state: ResponsesState,
    line: Seq<char>,
    event: JsonView,
    text: Seq<char>,
)
    requires
        !is_event_frame(line),
        event_in(line) == Some(event),
        event.get("type"@) == Some(JsonView::Str("response.output_text.delta"@)),
    ensures
        ({
            let now = after_line(state, line);
            &&& event.get("delta"@) == Some(JsonView::Str(text)) ==> now.text == state.text + text
            &&& !(event.get("delta"@) matches Some(JsonView::Str(_))) ==> now.text == state.text
            &&& now.slots == state.slots
            &&& now.has_calls == state.has_calls
            &&& now.template == state.template
            &&& now.usage == state.usage
        }),
{
    events_differ();
}

/// What one slot is, where nothing was told of it yet.
pub open spec fn slot_or_empty(slots: Seq<SlotView>, place: int) -> SlotView {
    if 0 <= place < slots.len() {
        slots[place]
    } else {
        SlotView { call_id: None, name: None, arguments: Seq::empty() }
    }
}

/// Whether slots differ from earlier ones at one place alone.
pub open spec fn differs_at(
    before: Seq<SlotView>,
    after: Seq<SlotView>,
    place: int,
    slot: SlotView,
) -> bool {
    &&& 0 <= place < after.len()
    &&& after[place] == slot
    &&& after.len() == (if place < before.len() {
        before.len() as int
    } else {
        place + 1
    })
    &&& forall|j: int|
        0 <= j < after.len() && j != place ==> #[trigger] after[j] == slot_or_empty(before, j)
}

proof fn setting_differs_at(slots: Seq<SlotView>, place: int, slot: SlotView)
    requires
        0 <= place < usize::MAX,
    ensures
        differs_at(slots, slot_set(slots, place, slot), place, slot),
{
}

/// The place that an event is for.
pub open spec fn is_for(event: JsonView, place: int, otherwise: int) -> bool {
    match event.get("output_index"@) {
        Some(JsonView::Int(n)) => if 0 <= n <= u64::MAX {
            place == n
        } else {
            place == otherwise
        },
        _ => place == otherwise,
    }
}

/// An announced call has the id and the name that it is announced with, and its
/// arguments are added up from what is announced and from the pieces that
/// follow, until they are told as a whole. Each event is for one call alone.
pub proof fn events_tell_of_one_call(
    state: ResponsesState,
    line: Seq<char>,
    event: JsonView,
    item: JsonView,
    place: int,
    text: Seq<char>,
)
    requires
        !is_event_frame(line),
        event_in(line) == Some(event),
        0 <= place < usize::MAX,
    ensures
        ({
            let now = after_line(state, line);
            let slot = slot_or_empty(state.slots, place);
            &&& event.get("type"@) == Some(JsonView::Str("response.output_item.added"@))
                && event.get("item"@) == Some(item) && item.get("type"@) == Some(
                JsonView::Str("function_call"@),
            ) && is_for(event, place, state.slots.len() as int) ==> now.has_calls && now.text
                == state.text && differs_at(
                state.slots,
                now.slots,
                place,
                SlotView {
                    call_id: match item.get("call_id"@) {
                        Some(JsonView::Str(id)) => Some(id),
                        _ => None,
                    },
                    name: match item.get("name"@) {
                        Some(JsonView::Str(name)) => Some(name),
                        _ => None,
                    },
                    arguments: match item.get("arguments"@) {
                        Some(JsonView::Str(more)) => slot.arguments + more,
                        _ => slot.arguments,
                    },
                },
            )
            &&& event.get("type"@) == Some(
                JsonView::Str("response.function_call_arguments.delta"@),
            ) && event.get("delta"@) == Some(JsonView::Str(text)) && is_for(event, place, 0)
                ==> now.has_calls && now.text == state.text && differs_at(
                state.slots,
                now.slots,
                place,
                SlotView { arguments: slot.arguments + text, ..slot },
            )
            &&& event.get("type"@) == Some(
                JsonView::Str("response.function_call_arguments.done"@),
            ) && event.get("arguments"@) == Some(JsonView::Str(text)) && is_for(event, place, 0)
                ==> now.has_calls && now.text == state.text && differs_at(
                state.slots,
                now.slots,
                place,
                SlotView { arguments: text, ..slot },
            )
        }),
{
    events_differ();
    let slot = slot_or_empty(state.slots, place);
    assert(slot == slot_at(state.slots, place));
    setting_differs_at(state.slots, place, announced(slot, Some(item)));
    setting_differs_at(state.slots, place, SlotView { arguments: slot.arguments + text, ..slot });
    setting_differs_at(state.slots, place, SlotView { arguments: text, ..slot });
}

/// The terminal event gives the response that the answer is shaped like, and the
/// usage that it reports.
pub proof fn the_last_event_gives_the_response(
    state: ResponsesState,
    line: Seq<char>,
    event: JsonView,
    response: JsonView,
)
    requires
        !is_event_frame(line),
        event_in(line) == Some(event),
        event.get("type"@) == Some(JsonView::Str("response.completed"@)),
        event.get("response"@) == Some(response),
    ensures
        ({
            let now = after_line(state, line);
            &&& now.template == response
            &&& now.text == state.text && now.slots == state.slots
            &&& now.has_calls == state.has_calls
            &&& now.usage == (match usage_in(response) {
                Some(reported) => if reported.reports_nothing() {
                    state.usage
                } else {
                    Some(reported)
                },
                None => state.usage,
            })
        }),
{
    events_differ();
}

proof fn slot_calls_prefix(a: Seq<SlotView>, b: Seq<SlotView>, n: int)
    requires
        0 <= n <= a.len(),
        n <= b.len(),
        forall|i: int| 0 <= i < n ==> #[trigger] a[i] == b[i],
    ensures
        slot_calls(a, n) == slot_calls(b, n),
    decreases n,
{
    if n > 0 {
        slot_calls_prefix(a, b, n - 1);
        assert(a[n - 1] == b[n - 1]);
    }
}

/// Every call that was told a name is made, in its order, with the arguments that
/// were told, or an empty object where none were.
pub proof fn every_named_call_is_made(slots: Seq<SlotView>, last: SlotView)
    ensures
        slot_calls(Seq::empty(), 0) == Seq::<CallView>::empty(),
        ({
            let before = slot_calls(slots, slots.len() as int);
            let now = slot_calls(slots.push(last), slots.len() as int + 1);
            match last.name {
                None => now == before,
                Some(name) => now == before.push(
                    CallView {
                        id: last.call_id,
                        name,
                        arguments: if last.arguments.len() == 0 {
                            "{}"@
                        } else {
                            last.arguments
                        },
                    },
                ),
            }
        }),
{
    slot_calls_prefix(slots, slots.push(last), slots.len() as int);
}

/// At its end a stream is its calls, if it made any; else what is rescued from its
/// text; else its text, and then what was held back is passed on.
pub proof fn a_stream_is_calls_or_text(state: ResponsesState)
    ensures
        ({
            let calls = slot_calls(state.slots, state.slots.len() as int);
            let native = state.has_calls && calls.len() > 0;
            &&& native ==> responses_result(state) == (ResponsesResult::ToolCalls {
                calls,
                template: state.template,
                text: state.text,
            }) && released(state).len() == 0
            &&& !native && rescued(state.text) is Some ==> (responses_result(state) matches
                ResponsesResult::Rescued { parser, calls: found, template, text } && found == (
            rescued(state.text)->0).1 && parser == (rescued(state.text)->0).0.label() && template
                == state.template && text == state.text) && released(state).len() == 0
            &&& !native && rescued(state.text) is None ==> responses_result(state) == (
            ResponsesResult::Text { text: state.text, template: state.template }) && released(state)
                == state.held
        }),
{
}

/// Text is passed on at once, with all that was held back before it, as long as it
/// does not look like a call; text that does is held back, and none of it is lost.
pub proof fn text_is_passed_on_or_held(
    state: ResponsesState,
    line: Seq<char>,
    event: JsonView,
)
    requires
        !is_event_frame(line),
        event_in(line) == Some(event),
        event.get("type"@) == Some(JsonView::Str("response.output_text.delta"@)),
        !state.has_calls,
    ensures
        passed_on(state, line) + after_line(state, line).held == state.held + seq![line + "\n\n"@],
        resembles_call(after_line(state, line).text) ==> passed_on(state, line).len() == 0,
        !resembles_call(after_line(state, line).text) ==> after_line(state, line).held.len() == 0,
{
    events_differ();
    let itself = seq![line + "\n\n"@];
    let none = Seq::<Seq<char>>::empty();
    assert(none + state.held.push(line + "\n\n"@) =~= state.held + itself);
    assert((state.held + itself) + none =~= state.held + itself);
}

/// Any other event, and what frames the stream, is passed on as it came as long as
/// no call was seen, and changes nothing.
pub proof fn other_events_are_passed_on(state: ResponsesState, line: Seq<char>, event: JsonView)
    requires
        !state.has_calls,
    ensures
        is_event_frame(line) ==> passed_on(state, line) == seq![line + "\n"@] && after_line(
            state,
            line,
        ) == state,
        !is_event_frame(line) && event_in(line) == Some(event) && event.get("type"@) != Some(
            JsonView::Str("response.output_item.added"@),
        ) && event.get("type"@) != Some(JsonView::Str("response.function_call_arguments.delta"@))
            && event.get("type"@) != Some(
            JsonView::Str("response.function_call_arguments.done"@),
        ) && event.get("type"@) != Some(JsonView::Str("response.output_text.delta"@))
            && event.get("type"@) != Some(JsonView::Str("response.completed"@)) ==> passed_on(
            state,
            line,
        ) == seq![line + "\n\n"@] && after_line(state, line) == state,
        !is_event_frame(line) && event_in(line) is None ==> passed_on(state, line) == seq![
            line + "\n\n"@,
        ] && after_line(state, line) == state,
{
    events_differ();
    reveal_strlit("response.output_item.added");
    reveal_strlit("response.function_call_arguments.delta");
    reveal_strlit("response.function_call_arguments.done");
    reveal_strlit("response.output_text.delta");
    reveal_strlit("response.completed");
    assert("response.output_item.added"@.len() > 0);
    assert("response.function_call_arguments.delta"@.len() > 0);
    assert("response.function_call_arguments.done"@.len() > 0);
    assert("response.output_text.delta"@.len() > 0);
    assert("response.completed"@.len() > 0);
}

/// A stream of events is framed by empty lines, comments and `event:` lines, and by
/// nothing else.
pub proof fn events_are_framed_by_these(line: Seq<char>)
    ensures
        is_event_frame(line) <==> line.len() == 0 || line[0] == ':' || starts_with(
            line,
            "event:"@,
        ),
{
}

/// A stream starts with nothing gathered.
pub proof fn streams_start_empty()
    ensures
        responses_start().text == Seq::<char>::empty(),
        responses_start().slots == Seq::<SlotView>::empty(),
        responses_start().held == Seq::<Seq<char>>::empty(),
        responses_start().template is Null,
        !responses_start().has_calls && responses_start().usage is None,
        responses_start().kind is None,
{
}

} // verus!
