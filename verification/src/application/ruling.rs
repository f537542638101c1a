//! What is to be done about the calls of an answer, and what is recorded of it.
use vstd::prelude::*;

use crate::domain::conversation::PrefixChain;
use crate::domain::decode::{call_views, owned_text, CallView, ToolCall};
use crate::domain::metrics::{redact_args, redacted, Conversation, Outcome, OutcomeRecord, Usage};
use crate::domain::model::{tool_views, Tool, ToolView};
use crate::domain::precondition::{failure, Precondition};
use crate::domain::rescue::{prose_beside_call, prose_of, rescue, rescued, RescueParser};
use crate::domain::respond::{is_respond, message_in, message_text, RESPOND};
use crate::domain::validate::{
    any_repaired, coerce_arguments, names_repair, repair_argument_names, repaired_calls,
    name_repair, problem, type_repair, types_repair, valid_means_no_problem, validate, validation,
    ErrorCategory, Validation, ValidationView,
};
use crate::json::{json_of, text_in, Json, JsonView};
use crate::text::trim;

verus! {

// ── records ─────────────────────────────────────────────────────────────────

/// What is recorded of a request, by views.
#[verifier::ext_equal]
pub struct RecordView {
    pub ts: Seq<char>,
    pub provider: Seq<char>,
    pub model: Seq<char>,
    pub outcome: Outcome,
    pub error_category: Option<ErrorCategory>,
    pub parser: Option<Seq<char>>,
    pub tool_name: Option<Seq<char>>,
    pub retries: u32,
    pub detail: Option<Seq<char>>,
    pub usage: Option<Usage>,
    pub conversation: Option<(Seq<char>, Option<Seq<char>>)>,
    pub prefix_chain: Option<Seq<u64>>,
}

/// An optional chain by its view.
pub open spec fn seen_chain(chain: Option<PrefixChain>) -> Option<Seq<u64>> {
    match chain {
        Some(c) => Some(c@),
        None => None,
    }
}

/// An optional place in a conversation by its view.
pub open spec fn seen_conversation(conversation: Option<Conversation>) -> Option<
    (Seq<char>, Option<Seq<char>>),
> {
    match conversation {
        Some(c) => Some((c.id@, owned_text(c.parent))),
        None => None,
    }
}

impl View for OutcomeRecord {
    type V = RecordView;

    open spec fn view(&self) -> RecordView {
        RecordView {
            ts: self.ts@,
            provider: self.provider@,
            model: self.model@,
            outcome: self.outcome,
            error_category: self.error_category,
            parser: owned_text(self.parser),
            tool_name: owned_text(self.tool_name),
            retries: self.retries,
            detail: owned_text(self.detail),
            usage: self.usage,
            conversation: seen_conversation(self.conversation),
            prefix_chain: seen_chain(self.prefix_chain),
        }
    }
}

/// What is recorded of a request that declares no tools and is forwarded as it
/// is.
pub open spec fn passthrough_view(
    ts: Seq<char>,
    provider: Seq<char>,
    model: Seq<char>,
    streams: bool,
) -> RecordView {
    RecordView {
        ts,
        provider,
        model,
        outcome: if streams {
            Outcome::StreamedPassthrough
        } else {
            Outcome::NonToolPassthrough
        },
        error_category: None,
        parser: None,
        tool_name: None,
        retries: 0,
        detail: None,
        usage: None,
        conversation: None,
        prefix_chain: None,
    }
}

/// What is recorded of a request that declares no tools.
pub fn passthrough_record(ts: &str, provider: &str, model: &str, streams: bool) -> (record:
    OutcomeRecord)
    ensures
        record@ == passthrough_view(ts@, provider@, model@, streams),
{
    OutcomeRecord {
        ts: ts.to_owned(),
        provider: provider.to_owned(),
        model: model.to_owned(),
        outcome: if streams {
            Outcome::StreamedPassthrough
        } else {
            Outcome::NonToolPassthrough
        },
        error_category: None,
        parser: None,
        tool_name: None,
        retries: 0,
        detail: None,
        usage: None,
        conversation: None,
        prefix_chain: None,
    }
}

/// The usage that is recorded: none where nothing was reported.
pub open spec fn recorded_usage(billed: Usage) -> Option<Usage> {
    if billed.reports_nothing() {
        None
    } else {
        Some(billed)
    }
}

pub(crate) fn usage_to_record(billed: Usage) -> (usage: Option<Usage>)
    ensures
        usage == recorded_usage(billed),
{
    if billed.is_empty() {
        None
    } else {
        Some(billed)
    }
}

// ── the ruling on calls ─────────────────────────────────────────────────────

/// What is to be done about the calls of an answer.
#[derive(Debug)]
pub enum Ruling {
    /// The model answered in text through the `respond` tool.
    Respond { text: String },
    /// A precondition forbids the calls.
    Refuse { nudge: String },
    /// The calls are in order, after the repairs.
    Accept { calls: Vec<ToolCall>, repaired: bool },
    /// The calls name no such tool, but the text beside them holds calls that
    /// are in order.
    Recover { parser: &'static str, calls: Vec<ToolCall> },
    /// The model is to try again.
    Retry { calls: Vec<ToolCall>, nudge: String },
    /// The budget is spent.
    GiveUp { calls: Vec<ToolCall>, category: ErrorCategory, nudge: String, offending: usize },
}

/// What is to be done about the calls of an answer, by views.
#[verifier::ext_equal]
pub enum RulingView {
    Respond { text: Seq<char> },
    Refuse { nudge: Seq<char> },
    Accept { calls: Seq<CallView>, repaired: bool },
    Recover { parser: Seq<char>, calls: Seq<CallView> },
    Retry { calls: Seq<CallView>, nudge: Seq<char> },
    GiveUp { calls: Seq<CallView>, category: ErrorCategory, nudge: Seq<char>, offending: int },
}

impl View for Ruling {
    type V = RulingView;

    open spec fn view(&self) -> RulingView {
        match self {
            Ruling::Respond { text } => RulingView::Respond { text: text@ },
            Ruling::Refuse { nudge } => RulingView::Refuse { nudge: nudge@ },
            Ruling::Accept { calls, repaired } => RulingView::Accept {
                calls: call_views(calls@),
                repaired: *repaired,
            },
            Ruling::Recover { parser, calls } => RulingView::Recover {
                parser: parser@,
                calls: call_views(calls@),
            },
            Ruling::Retry { calls, nudge } => RulingView::Retry {
                calls: call_views(calls@),
                nudge: nudge@,
            },
            Ruling::GiveUp { calls, category, nudge, offending } => RulingView::GiveUp {
                calls: call_views(calls@),
                category: *category,
                nudge: nudge@,
                offending: *offending as int,
            },
        }
    }
}

/// The first call to the `respond` tool, from `from` on.
pub open spec fn respond_call(calls: Seq<CallView>, from: int) -> Option<CallView>
    decreases calls.len() - from,
{
    if !(0 <= from < calls.len()) {
        None
    } else if calls[from].name == RESPOND@ {
        Some(calls[from])
    } else {
        respond_call(calls, from + 1)
    }
}

/// The text that the model answers through the `respond` tool.
pub open spec fn responded(calls: Seq<CallView>) -> Option<Seq<char>> {
    match respond_call(calls, 0) {
        Some(call) => message_in(call),
        None => None,
    }
}

pub(crate) fn find_response(calls: &Vec<ToolCall>) -> (text: Option<String>)
    ensures
        owned_text(text) == responded(call_views(calls@)),
{
    let ghost all = call_views(calls@);
    for i in 0..calls.len()
        invariant
            all == call_views(calls@),
            respond_call(all, 0) == respond_call(all, i as int),
    {
        assert(all[i as int] == calls@[i as int]@);
        if is_respond(&calls[i]) {
            return message_text(&calls[i]);
        }
    }
    None
}

/// Calls after both repairs, first of names and then of types.
pub open spec fn mended(calls: Seq<CallView>, tools: Seq<ToolView>) -> Seq<CallView> {
    repaired_calls(repaired_calls(calls, names_repair(tools)), types_repair(tools))
}

/// Whether either repair changes any call.
pub open spec fn is_mended(calls: Seq<CallView>, tools: Seq<ToolView>) -> bool {
    any_repaired(calls, names_repair(tools)) || any_repaired(
        repaired_calls(calls, names_repair(tools)),
        types_repair(tools),
    )
}

pub(crate) fn mend(calls: &mut Vec<ToolCall>, tools: &[Tool]) -> (changed: bool)
    ensures
        call_views(final(calls)@) == mended(call_views(old(calls)@), tool_views(tools@)),
        changed == is_mended(call_views(old(calls)@), tool_views(tools@)),
{
    let named: bool = repair_argument_names(calls, tools);
    let typed: bool = coerce_arguments(calls, tools);
    named || typed
}

/// The calls that a text holds, mended, where they are in order.
pub open spec fn recovered(text: Seq<char>, tools: Seq<ToolView>) -> Option<
    (Seq<char>, Seq<CallView>),
> {
    match rescued(text) {
        Some((format, calls)) => if validation(mended(calls, tools), tools) is Valid {
            Some((format.label(), mended(calls, tools)))
        } else {
            None
        },
        None => None,
    }
}

pub(crate) fn recover(text: &str, tools: &[Tool]) -> (found: Option<(&'static str, Vec<ToolCall>)>)
    ensures
        match found {
            Some((parser, calls)) => recovered(text@, tool_views(tools@)) == Some(
                (parser@, call_views(calls@)),
            ),
            None => recovered(text@, tool_views(tools@)) is None,
        },
{
    match rescue(text) {
        Some((parser, calls)) => {
            let mut calls = calls;
            let _ = mend(&mut calls, tools);
            match validate(calls.as_slice(), tools) {
                Validation::Valid => Some((parser, calls)),
                Validation::NeedsRetry { .. } => None,
            }
        },
        None => None,
    }
}

/// What is to be done about calls. `forbidden` is why a precondition forbids
/// them; `spare` is text in which to look for calls where they name no such
/// tool; `can_retry` tells whether the budget has room.
pub open spec fn ruling(
    calls: Seq<CallView>,
    tools: Seq<ToolView>,
    respond_active: bool,
    forbidden: Option<Seq<char>>,
    spare: Seq<char>,
    can_retry: bool,
) -> RulingView {
    if respond_active && responded(calls) is Some {
        RulingView::Respond { text: responded(calls)->0 }
    } else if forbidden is Some {
        RulingView::Refuse { nudge: forbidden->0 }
    } else {
        let after = mended(calls, tools);
        match validation(after, tools) {
            ValidationView::Valid => RulingView::Accept {
                calls: after,
                repaired: is_mended(calls, tools),
            },
            ValidationView::NeedsRetry { category, nudge, offending } => {
                let other = recovered(spare, tools);
                if category == ErrorCategory::UnknownTool && spare.len() > 0 && other is Some {
                    RulingView::Recover { parser: (other->0).0, calls: (other->0).1 }
                } else if can_retry {
                    RulingView::Retry { calls: after, nudge }
                } else {
                    RulingView::GiveUp { calls: after, category, nudge, offending }
                }
            },
        }
    }
}

/// Decides what is to be done about calls.
pub fn rule_on(
    calls: Vec<ToolCall>,
    tools: &[Tool],
    respond_active: bool,
    forbidden: Precondition,
    spare: &str,
    can_retry: bool,
) -> (result: Ruling)
    ensures
        result@ == ruling(
            call_views(calls@),
            tool_views(tools@),
            respond_active,
            failure(forbidden),
            spare@,
            can_retry,
        ),
{
    if respond_active {
        if let Some(text) = find_response(&calls) {
            return Ruling::Respond { text };
        }
    }
    if let Precondition::Failed { nudge } = forbidden {
        return Ruling::Refuse { nudge };
    }
    let mut calls = calls;
    let repaired: bool = mend(&mut calls, tools);
    match validate(calls.as_slice(), tools) {
        Validation::Valid => Ruling::Accept { calls, repaired },
        Validation::NeedsRetry { category, nudge, offending } => {
            if category == ErrorCategory::UnknownTool && !spare.is_empty() {
                if let Some((parser, found)) = recover(spare, tools) {
                    return Ruling::Recover { parser, calls: found };
                }
            }
            if can_retry {
                Ruling::Retry { calls, nudge }
            } else {
                Ruling::GiveUp { calls, category, nudge, offending }
            }
        },
    }
}

/// How accepted calls are recorded.
pub open spec fn accepted_as(attempts: nat, repaired: bool, was_rescued: bool) -> Outcome {
    if attempts > 0 {
        Outcome::RecoveredAfterRetry
    } else if repaired {
        Outcome::Repaired
    } else if was_rescued {
        Outcome::Rescued
    } else {
        Outcome::NativeValid
    }
}

pub(crate) fn accept_outcome(attempts: u32, repaired: bool, was_rescued: bool) -> (outcome: Outcome)
    ensures
        outcome == accepted_as(attempts as nat, repaired, was_rescued),
{
    if attempts > 0 {
        Outcome::RecoveredAfterRetry
    } else if repaired {
        Outcome::Repaired
    } else if was_rescued {
        Outcome::Rescued
    } else {
        Outcome::NativeValid
    }
}

/// The name of the first call.
pub open spec fn first_name(calls: Seq<CallView>) -> Option<Seq<char>> {
    if calls.len() > 0 {
        Some(calls[0].name)
    } else {
        None
    }
}

pub(crate) fn name_of_first(calls: &Vec<ToolCall>) -> (name: Option<String>)
    ensures
        owned_text(name) == first_name(call_views(calls@)),
{
    if calls.len() > 0 {
        Some(calls[0].name.clone())
    } else {
        None
    }
}

/// What is told of a call that could not be mended.
pub open spec fn failure_detail(calls: Seq<CallView>, offending: int, nudge: Seq<char>) -> Option<
    Seq<char>,
> {
    if 0 <= offending < calls.len() {
        let shape = redacted(calls[offending].arguments);
        Some(
            if shape.len() == 0 {
                nudge
            } else {
                nudge + " | args: "@ + shape
            },
        )
    } else {
        None
    }
}

pub(crate) fn detail_of(calls: &Vec<ToolCall>, offending: usize, nudge: &str) -> (detail: Option<String>)
    ensures
        owned_text(detail) == failure_detail(call_views(calls@), offending as int, nudge@),
{
    if offending < calls.len() {
        let shape = redact_args(calls[offending].arguments.as_str());
        if shape.as_str().is_empty() {
            Some(nudge.to_owned())
        } else {
            Some(nudge.to_owned().concat(" | args: ").concat(shape.as_str()))
        }
    } else {
        None
    }
}

/// The name of the call at a place.
pub open spec fn name_at(calls: Seq<CallView>, i: int) -> Option<Seq<char>> {
    if 0 <= i < calls.len() {
        Some(calls[i].name)
    } else {
        None
    }
}

pub(crate) fn name_of(calls: &Vec<ToolCall>, i: usize) -> (name: Option<String>)
    ensures
        owned_text(name) == name_at(call_views(calls@), i as int),
{
    if i < calls.len() {
        Some(calls[i].name.clone())
    } else {
        None
    }
}

/// What the client is told where a precondition forbids calls.
pub open spec fn refusal_text(nudge: Seq<char>) -> Seq<char> {
    "The tool call could not be completed. "@ + nudge
}

/// What the client is told where the budget is spent.
pub open spec fn exhausted_text(nudge: Seq<char>) -> Seq<char> {
    "The tool call could not be completed after several attempts. "@ + nudge
}

/// What a text says beside its calls, trimmed.
pub open spec fn carried(text: Seq<char>) -> Seq<char> {
    trim(prose_of(text))
}

pub(crate) fn prose_carried(text: &str) -> (prose: String)
    ensures
        prose@ == carried(text@),
{
    match prose_beside_call(text) {
        Some(prose) => prose,
        None => {
            let none = String::new();
            assert(none@ =~= carried(text@));
            none
        },
    }
}

/// What is recorded beside the outcome itself.
#[verifier::ext_equal]
pub struct OutcomeView {
    pub outcome: Outcome,
    pub error_category: Option<ErrorCategory>,
    pub parser: Option<Seq<char>>,
    pub tool_name: Option<Seq<char>>,
    pub detail: Option<Seq<char>>,
}

/// An outcome with nothing beside it.
pub open spec fn plain_outcome(outcome: Outcome) -> OutcomeView {
    OutcomeView { outcome, error_category: None, parser: None, tool_name: None, detail: None }
}

/// Why there is no answer to guard.
#[derive(Debug, PartialEq, Eq)]
pub enum Failure {
    /// The backend did not answer; the client is told this status.
    NoAnswer { status: String },
    /// The backend answered with a status that is no success.
    Refused { status: String },
    /// The backend answered with something that is neither JSON nor a stream,
    /// which is relayed as it is.
    NotJson,
    /// The backend's stream broke off, so that what arrived is a fragment.
    BrokenOff { why: String },
}

/// What is recorded of an answer that broke off.
pub open spec fn outcome_of_fragment(why: Seq<char>) -> OutcomeView {
    OutcomeView {
        detail: Some("backend stream failed: "@ + why),
        ..plain_outcome(Outcome::BackendError)
    }
}

/// What is recorded of a failure.
pub open spec fn outcome_of_failure(failure: Failure) -> OutcomeView {
    match failure {
        Failure::NoAnswer { status } => OutcomeView {
            detail: Some("backend returned "@ + status@),
            ..plain_outcome(Outcome::BackendError)
        },
        Failure::Refused { status } => OutcomeView {
            detail: Some("backend returned "@ + status@),
            ..plain_outcome(Outcome::InternalError)
        },
        Failure::NotJson => plain_outcome(Outcome::NonJson),
        Failure::BrokenOff { why } => outcome_of_fragment(why@),
    }
}

pub(crate) fn parts_of_fragment(why: &str) -> (parts: OutcomeParts)
    ensures
        parts@ == outcome_of_fragment(why@),
{
    let mut parts = plain_parts(Outcome::BackendError);
    parts.detail = Some("backend stream failed: ".to_owned().concat(why));
    parts
}

pub(crate) fn parts_of_failure(failure: &Failure) -> (parts: OutcomeParts)
    ensures
        parts@ == outcome_of_failure(*failure),
{
    match failure {
        Failure::NoAnswer { status } => {
            let mut parts = plain_parts(Outcome::BackendError);
            parts.detail = Some("backend returned ".to_owned().concat(status.as_str()));
            parts
        },
        Failure::Refused { status } => {
            let mut parts = plain_parts(Outcome::InternalError);
            parts.detail = Some("backend returned ".to_owned().concat(status.as_str()));
            parts
        },
        Failure::NotJson => plain_parts(Outcome::NonJson),
        Failure::BrokenOff { why } => parts_of_fragment(why.as_str()),
    }
}

/// What is recorded of a ruling that ends the session. `parser` is the format
/// that the calls were rescued from.
pub open spec fn outcome_of(
    result: RulingView,
    calls: Seq<CallView>,
    parser: Option<Seq<char>>,
    attempts: nat,
) -> OutcomeView {
    match result {
        RulingView::Respond { .. } => OutcomeView {
            tool_name: Some(RESPOND@),
            ..plain_outcome(Outcome::RespondIntercept)
        },
        RulingView::Refuse { nudge } => OutcomeView {
            tool_name: first_name(calls),
            detail: Some(nudge),
            ..plain_outcome(Outcome::WriteRefused)
        },
        RulingView::Accept { calls: accepted, repaired } => OutcomeView {
            parser,
            tool_name: first_name(accepted),
            ..plain_outcome(accepted_as(attempts, repaired, parser is Some))
        },
        RulingView::Recover { parser: found, calls: accepted } => OutcomeView {
            parser: Some(found),
            tool_name: first_name(accepted),
            ..plain_outcome(Outcome::Rescued)
        },
        RulingView::GiveUp { calls: failed, category, nudge, offending } => OutcomeView {
            error_category: Some(category),
            tool_name: name_at(failed, offending),
            detail: failure_detail(failed, offending, nudge),
            ..plain_outcome(Outcome::RetriesExhausted)
        },
        RulingView::Retry { .. } => plain_outcome(Outcome::InternalError),
    }
}

/// What is recorded beside the outcome itself.
#[derive(Debug)]
pub struct OutcomeParts {
    pub outcome: Outcome,
    pub error_category: Option<ErrorCategory>,
    pub parser: Option<String>,
    pub tool_name: Option<String>,
    pub detail: Option<String>,
}

impl View for OutcomeParts {
    type V = OutcomeView;

    open spec fn view(&self) -> OutcomeView {
        OutcomeView {
            outcome: self.outcome,
            error_category: self.error_category,
            parser: owned_text(self.parser),
            tool_name: owned_text(self.tool_name),
            detail: owned_text(self.detail),
        }
    }
}

pub(crate) fn plain_parts(outcome: Outcome) -> (parts: OutcomeParts)
    ensures
        parts@ == plain_outcome(outcome),
{
    OutcomeParts { outcome, error_category: None, parser: None, tool_name: None, detail: None }
}

pub(crate) fn parts_of(
    result: &Ruling,
    first: Option<String>,
    parser: Option<&'static str>,
    attempts: u32,
    Ghost(calls): Ghost<Seq<CallView>>,
) -> (parts: OutcomeParts)
    requires
        owned_text(first) == first_name(calls),
    ensures
        parts@ == outcome_of(
            result@,
            calls,
            match parser {
                Some(p) => Some(p@),
                None => None,
            },
            attempts as nat,
        ),
{
    match result {
        Ruling::Respond { .. } => OutcomeParts {
            outcome: Outcome::RespondIntercept,
            error_category: None,
            parser: None,
            tool_name: Some(RESPOND.to_owned()),
            detail: None,
        },
        Ruling::Refuse { nudge } => OutcomeParts {
            outcome: Outcome::WriteRefused,
            error_category: None,
            parser: None,
            tool_name: first,
            detail: Some(nudge.clone()),
        },
        Ruling::Accept { calls, repaired } => OutcomeParts {
            outcome: accept_outcome(attempts, *repaired, parser.is_some()),
            error_category: None,
            parser: match parser {
                Some(p) => Some(p.to_owned()),
                None => None,
            },
            tool_name: name_of_first(calls),
            detail: None,
        },
        Ruling::Recover { parser: found, calls } => OutcomeParts {
            outcome: Outcome::Rescued,
            error_category: None,
            parser: Some((*found).to_owned()),
            tool_name: name_of_first(calls),
            detail: None,
        },
        Ruling::GiveUp { calls, category, nudge, offending } => OutcomeParts {
            outcome: Outcome::RetriesExhausted,
            error_category: Some(*category),
            parser: None,
            tool_name: name_of(calls, *offending),
            detail: detail_of(calls, *offending, nudge.as_str()),
        },
        Ruling::Retry { .. } => plain_parts(Outcome::InternalError),
    }
}

/// What a session does next.
#[derive(Debug)]
pub enum Step {
    /// Its body is to be sent again.
    Again,
    /// It has ended: what is to be recorded, and what the client gets beyond
    /// what was passed on live.
    Done { record: OutcomeRecord, body: Option<Json> },
    /// It has ended because the answer broke off. What arrived is no answer:
    /// the client is told of the failure by this event and by nothing else.
    Broken { record: OutcomeRecord, event: Json },
}

/// What a session does next, by views.
#[verifier::ext_equal]
pub enum StepView {
    Again,
    Done { record: RecordView, body: Option<JsonView> },
    Broken { record: RecordView, event: JsonView },
}

impl View for Step {
    type V = StepView;

    open spec fn view(&self) -> StepView {
        match self {
            Step::Again => StepView::Again,
            Step::Done { record, body } => StepView::Done {
                record: record@,
                body: crate::json::seen_json(*body),
            },
            Step::Broken { record, event } => StepView::Broken { record: record@, event: event@ },
        }
    }
}

// ── laws ────────────────────────────────────────────────────────────────────

/// Whether arguments hold a text answer: under `message`, else under `content`,
/// else under `text`.
pub open spec fn says(arguments: Seq<char>, text: Seq<char>) -> bool {
    json_of(arguments) matches Some(v) && {
        ||| v.get("message"@) == Some(JsonView::Str(text))
        ||| text_in(v.get("message"@)) is None && v.get("content"@) == Some(JsonView::Str(text))
        ||| text_in(v.get("message"@)) is None && text_in(v.get("content"@)) is None && v.get(
            "text"@,
        ) == Some(JsonView::Str(text))
    }
}

/// Whether a call is the first to the `respond` tool.
pub open spec fn is_first_response(calls: Seq<CallView>, i: int) -> bool {
    &&& 0 <= i < calls.len()
    &&& calls[i].name == "respond"@
    &&& forall|j: int| 0 <= j < i ==> (#[trigger] calls[j]).name != "respond"@
}

proof fn first_response_from(calls: Seq<CallView>, from: int) -> (at: int)
    requires
        0 <= from,
    ensures
        match respond_call(calls, from) {
            Some(call) => from <= at < calls.len() && calls[at] == call && call.name == "respond"@
                && forall|j: int| from <= j < at ==> (#[trigger] calls[j]).name != "respond"@,
            None => forall|j: int|
                from <= j < calls.len() ==> (#[trigger] calls[j]).name != "respond"@,
        },
    decreases calls.len() - from,
{
    if from < calls.len() && calls[from].name != "respond"@ {
        first_response_from(calls, from + 1)
    } else {
        from
    }
}

/// The model answers in text exactly where it calls the `respond` tool with one:
/// the first such call counts, whatever stands around it.
pub proof fn answers_go_through_respond(calls: Seq<CallView>) -> (at: int)
    ensures
        forall|text: Seq<char>| #[trigger]
            says(calls[at].arguments, text) && is_first_response(calls, at) ==> responded(calls)
                == Some(text),
        responded(calls) matches Some(text) ==> is_first_response(calls, at) && says(
            calls[at].arguments,
            text,
        ),
        !is_first_response(calls, at) ==> forall|j: int|
            0 <= j < calls.len() ==> (#[trigger] calls[j]).name != "respond"@,
{
    first_response_from(calls, 0)
}

/// A call after both repairs.
pub open spec fn mended_call(call: CallView, tools: Seq<ToolView>) -> CallView {
    let named = match name_repair(call, tools) {
        Some(fixed) => fixed,
        None => call,
    };
    match type_repair(named, tools) {
        Some(fixed) => fixed,
        None => named,
    }
}

/// Every call is mended, each by itself, its keys before its types, and nothing of
/// it changes but its arguments.
pub proof fn every_call_is_mended(calls: Seq<CallView>, tools: Seq<ToolView>, i: int)
    requires
        0 <= i < calls.len(),
    ensures
        mended(calls, tools).len() == calls.len(),
        mended(calls, tools)[i] == mended_call(calls[i], tools),
        mended(calls, tools)[i].name == calls[i].name,
        mended(calls, tools)[i].id == calls[i].id,
        mended(calls, tools)[i] != calls[i] ==> is_mended(calls, tools),
{
    let named = repaired_calls(calls, names_repair(tools));
    assert(names_repair(tools)(calls[i]) == name_repair(calls[i], tools));
    assert(types_repair(tools)(named[i]) == type_repair(named[i], tools));
}

/// Where no call is mended, all are as they were made.
pub proof fn unmended_calls_stay(calls: Seq<CallView>, tools: Seq<ToolView>)
    ensures
        !is_mended(calls, tools) ==> mended(calls, tools) == calls,
{
    if !is_mended(calls, tools) {
        let named = repaired_calls(calls, names_repair(tools));
        assert forall|i: int| 0 <= i < calls.len() implies #[trigger] named[i] == calls[i] by {
            assert(names_repair(tools)(calls[i]) is None);
        }
        assert(named =~= calls);
        assert forall|i: int| 0 <= i < calls.len() implies #[trigger] mended(calls, tools)[i]
            == calls[i] by {
            assert(types_repair(tools)(named[i]) is None);
        }
        assert(mended(calls, tools) =~= calls);
    }
}

/// Whether a call is the first with which something is wrong.
pub open spec fn is_first_bad(calls: Seq<CallView>, tools: Seq<ToolView>, i: int) -> bool {
    &&& 0 <= i < calls.len()
    &&& problem(calls[i], tools) is Some
    &&& forall|j: int| 0 <= j < i ==> problem(#[trigger] calls[j], tools) is None
}

/// Whether nothing is wrong with any call.
pub open spec fn all_in_order(calls: Seq<CallView>, tools: Seq<ToolView>) -> bool {
    forall|i: int| 0 <= i < calls.len() ==> problem(#[trigger] calls[i], tools) is None
}

/// Calls of which one is bad are sent back as long as the budget has room, and
/// given up once it has none. What the model is told is what is wrong with the
/// first bad one.
pub proof fn bad_calls_are_sent_back(
    calls: Seq<CallView>,
    tools: Seq<ToolView>,
    respond_active: bool,
    spare: Seq<char>,
    can_retry: bool,
    i: int,
)
    requires
        is_first_bad(mended(calls, tools), tools, i),
        !(respond_active && responded(calls) is Some),
    ensures
        ({
            let after = mended(calls, tools);
            let (category, nudge) = problem(after[i], tools)->0;
            let spared = category == ErrorCategory::UnknownTool && spare.len() > 0
                && recovered(spare, tools) is Some;
            let result = ruling(calls, tools, respond_active, None, spare, can_retry);
            &&& !spared && can_retry ==> result == (RulingView::Retry { calls: after, nudge })
            &&& !spared && !can_retry ==> result == (RulingView::GiveUp {
                calls: after,
                category,
                nudge,
                offending: i,
            })
            &&& spared ==> result == (RulingView::Recover {
                parser: (recovered(spare, tools)->0).0,
                calls: (recovered(spare, tools)->0).1,
            })
        }),
{
    let after = mended(calls, tools);
    valid_means_no_problem(after, tools);
    if let ValidationView::NeedsRetry { offending, .. } = validation(after, tools) {
        if offending < i {
            assert(problem(after[offending], tools) is None);
        }
        if i < offending {
            assert(problem(after[i], tools) is None);
        }
    } else {
        assert(problem(after[i], tools) is None);
    }
}

/// Calls with which nothing is wrong after the repairs are accepted, as the
/// repairs left them.
pub proof fn good_calls_are_accepted(
    calls: Seq<CallView>,
    tools: Seq<ToolView>,
    respond_active: bool,
    spare: Seq<char>,
    can_retry: bool,
)
    requires
        all_in_order(mended(calls, tools), tools),
        !(respond_active && responded(calls) is Some),
    ensures
        ruling(calls, tools, respond_active, None, spare, can_retry) == (RulingView::Accept {
            calls: mended(calls, tools),
            repaired: is_mended(calls, tools),
        }),
{
    valid_means_no_problem(mended(calls, tools), tools);
}

/// A text answer comes before everything, and what a precondition forbids before
/// what the schema does.
pub proof fn answers_and_refusals_come_first(
    calls: Seq<CallView>,
    tools: Seq<ToolView>,
    respond_active: bool,
    forbidden: Option<Seq<char>>,
    spare: Seq<char>,
    can_retry: bool,
)
    ensures
        ({
            let result = ruling(calls, tools, respond_active, forbidden, spare, can_retry);
            &&& respond_active && responded(calls) is Some ==> result == (RulingView::Respond {
                text: responded(calls)->0,
            })
            &&& !(respond_active && responded(calls) is Some) && forbidden is Some ==> result == (
            RulingView::Refuse { nudge: forbidden->0 })
            &&& result is Respond ==> respond_active
            &&& result is Refuse ==> forbidden is Some
        }),
{
}

/// Calls are recovered from a text exactly where it is rescued as calls with which
/// nothing is wrong after the repairs.
pub proof fn recovery_is_rescue_and_repair(text: Seq<char>, tools: Seq<ToolView>)
    ensures
        match rescued(text) {
            Some((format, calls)) => recovered(text, tools) is Some <==> all_in_order(
                mended(calls, tools),
                tools,
            ),
            None => recovered(text, tools) is None,
        },
        recovered(text, tools) matches Some((parser, found)) ==> (rescued(text) matches Some(
            (format, calls),
        ) && found == mended(calls, tools) && parser == format.label()),
{
    if let Some((_, calls)) = rescued(text) {
        valid_means_no_problem(mended(calls, tools), tools);
    }
}

/// What is recorded tells how the session ended: by a text answer, a refusal,
/// calls (after retries, after repairs, rescued, or as they came), or with the
/// budget spent.
pub proof fn outcomes_tell_how_it_ended(
    result: RulingView,
    calls: Seq<CallView>,
    parser: Option<Seq<char>>,
    attempts: nat,
)
    ensures
        ({
            let told = outcome_of(result, calls, parser, attempts);
            &&& result is Respond ==> told.outcome == Outcome::RespondIntercept && told.tool_name
                == Some("respond"@)
            &&& result is Refuse ==> told.outcome == Outcome::WriteRefused && told.detail == Some(
                result->Refuse_nudge,
            ) && (calls.len() > 0 ==> told.tool_name == Some(calls[0].name))
            &&& result is Accept && attempts > 0 ==> told.outcome == Outcome::RecoveredAfterRetry
            &&& result is Accept && attempts == 0 && result->repaired ==> told.outcome
                == Outcome::Repaired
            &&& result is Accept && attempts == 0 && !result->repaired && parser is Some
                ==> told.outcome == Outcome::Rescued
            &&& result is Accept && attempts == 0 && !result->repaired && parser is None
                ==> told.outcome == Outcome::NativeValid
            &&& result is Accept ==> told.parser == parser && (result->Accept_calls.len() > 0
                ==> told.tool_name == Some(result->Accept_calls[0].name))
            &&& result is Recover ==> told.outcome == Outcome::Rescued && told.parser == Some(
                result->Recover_parser,
            ) && (result->Recover_calls.len() > 0 ==> told.tool_name == Some(
                result->Recover_calls[0].name,
            ))
            &&& result is GiveUp ==> {
                let failed = result->GiveUp_calls;
                let i = result->offending;
                &&& told.outcome == Outcome::RetriesExhausted
                &&& told.error_category == Some(result->category)
                &&& 0 <= i < failed.len() ==> told.tool_name == Some(failed[i].name)
                &&& 0 <= i < failed.len() ==> told.detail == Some(
                    if redacted(failed[i].arguments).len() == 0 {
                        result->GiveUp_nudge
                    } else {
                        result->GiveUp_nudge + " | args: "@ + redacted(failed[i].arguments)
                    },
                )
            }
            &&& !(result is GiveUp) ==> told.error_category is None
            &&& !(result is Accept || result is Recover) ==> told.parser is None
            &&& !(result is Refuse || result is GiveUp) ==> told.detail is None
        }),
{
}

/// What is recorded of a failure tells which it was, and why.
pub proof fn failures_are_told_apart(failure: Failure)
    ensures
        ({
            let told = outcome_of_failure(failure);
            &&& told.error_category is None && told.parser is None && told.tool_name is None
            &&& match failure {
                Failure::NoAnswer { status } => told.outcome == Outcome::BackendError
                    && told.detail == Some("backend returned "@ + status@),
                Failure::Refused { status } => told.outcome == Outcome::InternalError
                    && told.detail == Some("backend returned "@ + status@),
                Failure::NotJson => told.outcome == Outcome::NonJson && told.detail is None,
                Failure::BrokenOff { why } => told.outcome == Outcome::BackendError && told.detail
                    == Some("backend stream failed: "@ + why@),
            }
        }),
{
}

/// What is recorded of a request that is forwarded names its provider and model,
/// and tells whether it streams.
pub proof fn forwarding_is_recorded(
    ts: Seq<char>,
    provider: Seq<char>,
    model: Seq<char>,
    streams: bool,
)
    ensures
        ({
            let told = passthrough_view(ts, provider, model, streams);
            &&& told.ts == ts && told.provider == provider && told.model == model
            &&& told.outcome == (if streams {
                Outcome::StreamedPassthrough
            } else {
                Outcome::NonToolPassthrough
            })
            &&& told.retries == 0 && told.error_category is None && told.usage is None
            &&& told.parser is None && told.tool_name is None && told.detail is None
            &&& told.conversation is None && told.prefix_chain is None
        }),
{
}

/// Usage is recorded as it was added up, and left out only where all of it is
/// zero.
pub proof fn usage_is_recorded_as_billed(billed: Usage)
    ensures
        recorded_usage(billed) == Some(billed) || recorded_usage(billed) is None,
        recorded_usage(billed) is None <==> billed.prompt_tokens == 0 && billed.completion_tokens
            == 0 && billed.cached_tokens == 0,
{
}

} // verus!
