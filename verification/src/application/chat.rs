//! A guarded Chat Completions request.
//!
//! A session gives the body to send, takes what came back, and either asks to
//! be sent again or ends, with what is to be recorded and what the client gets.
//! It asks again no more often than its budget allows.
use vstd::prelude::*;

use super::ruling::{
    all_in_order, bad_calls_are_sent_back, every_call_is_mended, good_calls_are_accepted,
    is_first_bad, is_mended, mended, recovered, responded,
    carried, exhausted_text, name_of_first, outcome_of, outcome_of_failure, outcome_of_fragment,
    parts_of, parts_of_failure, parts_of_fragment, plain_outcome, plain_parts, prose_carried,
    recorded_usage, refusal_text, rule_on, ruling, seen_chain, usage_to_record, Failure,
    OutcomeParts, OutcomeView, RecordView, Ruling, RulingView, Step, StepView,
};
use super::wire::{broken_answer, broken_event};
use crate::domain::conversation::{chain_of, PrefixChain};
use crate::domain::decode::{
    call_views, calls_json, calls_response, response_with_text, response_with_tool_calls,
    response_with_tool_calls_and_text, text_response, CallView, ToolCall,
};
use crate::domain::guardrails::Guardrails;
use crate::domain::metrics::{no_usage, usage_sum, Outcome, OutcomeRecord, Usage};
use crate::domain::model::{
    chat_text, tool_views, wants_stream, ChatRequest, ChatView, Tool, ToolView,
};
use crate::domain::precondition::{check, failure_from, PathKind, Transcript};
use crate::domain::respond::{respond_definition, respond_tool, RESPOND};
use crate::domain::rescue::prose_of;
use crate::domain::retry::{followup, tool_error_followup, turn, ErrorTracker};
use crate::domain::sse::{truncation, AssembledResponse, AssembledView, Completion, StreamUsage};
use crate::domain::validate::{problem, ErrorCategory};
use crate::json::{json_text, views, Json, JsonView};
use crate::text::{same_text, trim};

verus! {

/// A guarded request, by views.
#[verifier::ext_equal]
pub struct ChatSessionView {
    /// The request as it is sent.
    pub request: ChatView,
    /// Whether the `respond` tool was added, so that calls to it are answers.
    pub respond_active: bool,
    /// The retries so far, and how many there may be.
    pub attempts: nat,
    pub budget: nat,
    /// The usage over all attempts.
    pub billed: Usage,
    pub provider: Seq<char>,
    /// The prefix hashes of the client's own messages, where conversations are
    /// matched.
    pub chain: Option<Seq<u64>>,
    /// What the client's own messages show being read.
    pub transcript: Transcript,
}

/// The tools of a request.
pub open spec fn request_tools(request: ChatView) -> Seq<ToolView> {
    match request.tools {
        Some(tools) => tools,
        None => Seq::empty(),
    }
}

/// Whether a request declares a tool of the name of the `respond` tool.
pub open spec fn declares_respond(request: ChatView) -> bool {
    exists|i: int|
        0 <= i < request_tools(request).len() && (#[trigger] request_tools(request)[i]).name
            == RESPOND@
}

/// The request as it is sent first: always as a stream, and with the `respond`
/// tool where the client declares none of that name.
pub open spec fn guarded_request(request: ChatView) -> ChatView {
    let rest = if wants_stream(request.rest) {
        request.rest
    } else {
        request.rest.remove("stream_options"@)
    };
    ChatView {
        rest: rest.insert("stream"@, JsonView::Bool(true)),
        tools: if declares_respond(request) {
            request.tools
        } else {
            Some(request_tools(request).push(respond_definition()))
        },
        ..request
    }
}

impl ChatSessionView {
    /// Whether text may be passed on live: on the first attempt, and only where
    /// the backend really streams.
    pub open spec fn forwards(self, native: bool) -> bool {
        self.attempts == 0 && native
    }

    /// What is recorded of the session when it ends.
    pub open spec fn record(self, ts: Seq<char>, parts: OutcomeView) -> RecordView {
        RecordView {
            ts,
            provider: self.provider,
            model: self.request.model,
            outcome: parts.outcome,
            error_category: parts.error_category,
            parser: parts.parser,
            tool_name: parts.tool_name,
            retries: self.attempts as u32,
            detail: parts.detail,
            usage: recorded_usage(self.billed),
            conversation: None,
            prefix_chain: self.chain,
        }
    }
}

/// The calls that an answer makes.
pub open spec fn answer_calls(answer: AssembledView) -> Seq<CallView> {
    match answer {
        AssembledView::Text { .. } => Seq::empty(),
        AssembledView::ToolCalls { calls, .. } => calls,
        AssembledView::Rescued { calls, .. } => calls,
    }
}

/// The text of an answer.
pub open spec fn answer_text(answer: AssembledView) -> Seq<char> {
    match answer {
        AssembledView::Text { content, .. } => content,
        AssembledView::ToolCalls { content, .. } => content,
        AssembledView::Rescued { content, .. } => content,
    }
}

/// The response that an answer is shaped like.
pub open spec fn answer_template(answer: AssembledView) -> JsonView {
    match answer {
        AssembledView::Text { template, .. } => template,
        AssembledView::ToolCalls { template, .. } => template,
        AssembledView::Rescued { template, .. } => template,
    }
}

/// The format that an answer's calls were rescued from.
pub open spec fn answer_parser(answer: AssembledView) -> Option<Seq<char>> {
    match answer {
        AssembledView::Rescued { parser, .. } => Some(parser),
        _ => None,
    }
}

/// What is to be done about an answer's calls. Its text is looked through for
/// other calls only where it was not passed on already.
pub open spec fn answer_ruling(
    session: ChatSessionView,
    answer: AssembledView,
    native: bool,
    kinds: Seq<PathKind>,
) -> RulingView {
    ruling(
        answer_calls(answer),
        request_tools(session.request),
        session.respond_active,
        failure_from(answer_calls(answer), &session.transcript, kinds, 0),
        if session.forwards(native) {
            Seq::empty()
        } else {
            answer_text(answer)
        },
        session.attempts < session.budget,
    )
}

/// What the client gets by a ruling that ends the session. The prose around a
/// rescued call is kept, where it was not passed on already.
pub open spec fn answer_body(
    result: RulingView,
    answer: AssembledView,
    forwarded: bool,
) -> JsonView {
    let template = answer_template(answer);
    match result {
        RulingView::Respond { text } => text_response(template, text),
        RulingView::Refuse { nudge } => text_response(template, refusal_text(nudge)),
        RulingView::Accept { calls, .. } => calls_response(
            template,
            calls,
            if answer is Rescued && !forwarded {
                carried(answer_text(answer))
            } else {
                Seq::empty()
            },
        ),
        RulingView::Recover { calls, .. } => calls_response(template, calls, Seq::empty()),
        RulingView::GiveUp { nudge, .. } => text_response(template, exhausted_text(nudge)),
        RulingView::Retry { .. } => JsonView::Null,
    }
}

/// The session with the usage of another attempt.
pub open spec fn with_usage(session: ChatSessionView, usage: Option<Usage>) -> ChatSessionView {
    match usage {
        Some(u) => ChatSessionView { billed: usage_sum(session.billed, u), ..session },
        None => session,
    }
}

/// The session after an answer that is to be tried again.
pub open spec fn retried(
    session: ChatSessionView,
    calls: Seq<CallView>,
    nudge: Seq<char>,
) -> ChatSessionView {
    ChatSessionView {
        attempts: session.attempts + 1,
        request: ChatView {
            messages: session.request.messages + followup(calls, nudge),
            ..session.request
        },
        ..session
    }
}

/// The session after an answer.
pub open spec fn after_answer(
    session: ChatSessionView,
    answer: AssembledView,
    usage: Option<Usage>,
    cut: Option<Seq<char>>,
    native: bool,
    kinds: Seq<PathKind>,
) -> ChatSessionView {
    let billed = with_usage(session, usage);
    if cut is Some || answer is Text {
        billed
    } else {
        match answer_ruling(session, answer, native, kinds) {
            RulingView::Retry { calls, nudge } => retried(billed, calls, nudge),
            _ => billed,
        }
    }
}

/// What a session does after an answer; `cut` says why it broke off, where it
/// did. Text that was passed on live is not sent again.
pub open spec fn step_after_answer(
    session: ChatSessionView,
    answer: AssembledView,
    usage: Option<Usage>,
    cut: Option<Seq<char>>,
    native: bool,
    kinds: Seq<PathKind>,
    ts: Seq<char>,
) -> StepView {
    let billed = with_usage(session, usage);
    if cut is Some {
        StepView::Broken {
            record: billed.record(ts, outcome_of_fragment(cut->0)),
            event: broken_event(cut->0),
        }
    } else if answer is Text {
        StepView::Done {
            record: billed.record(ts, plain_outcome(Outcome::PassthroughNoCalls)),
            body: if session.forwards(native) {
                None
            } else {
                Some(text_response(answer_template(answer), answer_text(answer)))
            },
        }
    } else {
        let result = answer_ruling(session, answer, native, kinds);
        if result is Retry {
            StepView::Again
        } else {
            StepView::Done {
                record: billed.record(
                    ts,
                    outcome_of(
                        result,
                        answer_calls(answer),
                        answer_parser(answer),
                        session.attempts,
                    ),
                ),
                body: Some(answer_body(result, answer, session.forwards(native))),
            }
        }
    }
}

/// A guarded request.
#[derive(Debug)]
pub struct ChatSession {
    request: ChatRequest,
    respond_active: bool,
    tracker: ErrorTracker,
    billed: Usage,
    provider: String,
    chain: Option<PrefixChain>,
    transcript: Transcript,
}

impl View for ChatSession {
    type V = ChatSessionView;

    closed spec fn view(&self) -> ChatSessionView {
        ChatSessionView {
            request: self.request@,
            respond_active: self.respond_active,
            attempts: self.tracker.spent(),
            budget: self.tracker.budget(),
            billed: self.billed,
            provider: self.provider@,
            chain: seen_chain(self.chain),
            transcript: self.transcript,
        }
    }
}

fn has_respond(request: &ChatRequest) -> (yes: bool)
    ensures
        yes == declares_respond(request@),
{
    match &request.tools {
        Some(tools) => {
            let ghost all = request_tools(request@);
            for i in 0..tools.len()
                invariant
                    all == tool_views(tools@),
                    all == request_tools(request@),
                    forall|j: int| 0 <= j < i ==> (#[trigger] all[j]).name != RESPOND@,
            {
                assert(all[i as int] == tools@[i as int]@);
                if same_text(tools[i].function.name.as_str(), RESPOND) {
                    return true;
                }
            }
            false
        },
        None => false,
    }
}

fn copy_chain(chain: &Option<PrefixChain>) -> (copy: Option<PrefixChain>)
    ensures
        seen_chain(copy) == seen_chain(*chain),
{
    match chain {
        Some(c) => Some(c.clone()),
        None => None,
    }
}

impl ChatSession {
    /// Takes up a request that is to be guarded.
    pub fn new(request: ChatRequest, provider: &str, guardrails: Guardrails) -> (session:
        ChatSession)
        ensures
            session@.request == guarded_request(request@),
            session@.respond_active == !declares_respond(request@),
            session@.attempts == 0,
            session@.budget == guardrails.max_retries,
            session@.billed == no_usage(),
            session@.provider == provider@,
            session@.chain == (if guardrails.match_conversations {
                Some(chain_of(request@.messages))
            } else {
                None
            }),
            session@.transcript.is_legible() == (
            crate::domain::precondition::all_invocations(
                request@.messages,
                request@.messages.len() as int,
            ).len() > 0),
            forall|path: Seq<char>| #[trigger]
                session@.transcript.shows_read(path) <==> exists|i: int|
                    0 <= i < crate::domain::precondition::all_invocations(
                        request@.messages,
                        request@.messages.len() as int,
                    ).len() && crate::domain::precondition::reads_path(
                        #[trigger] crate::domain::precondition::all_invocations(
                            request@.messages,
                            request@.messages.len() as int,
                        )[i],
                        path,
                    ),
    {
        let transcript = Transcript::of(request.messages.as_slice());
        let chain = if guardrails.match_conversations {
            Some(PrefixChain::of(request.messages.as_slice()))
        } else {
            None
        };
        let ghost before = request@;
        let respond_active: bool = !has_respond(&request);
        let mut request = request;
        request.sanitize();
        request.rest.insert("stream", Json::Bool(true));
        if respond_active {
            request.push_tool(respond_tool());
            proof {
                assert(request@.tools->0 =~= request_tools(before).push(respond_definition()));
            }
        }
        assert(request@ =~= guarded_request(before));
        ChatSession {
            request,
            respond_active,
            tracker: ErrorTracker::new(guardrails.max_retries),
            billed: Usage::default(),
            provider: provider.to_owned(),
            chain,
            transcript,
        }
    }

    /// The body to send.
    pub fn body(&self) -> (body: String)
        ensures
            body@ == chat_text(self@.request),
    {
        self.request.to_text()
    }

    /// Whether text may be passed on live.
    pub fn forwards_text(&self, native: bool) -> (yes: bool)
        ensures
            yes == self@.forwards(native),
    {
        self.tracker.attempts() == 0 && native
    }

    fn record_of(&self, ts: &str, parts: OutcomeParts) -> (record: OutcomeRecord)
        ensures
            record@ == self@.record(ts@, parts@),
    {
        OutcomeRecord {
            ts: ts.to_owned(),
            provider: self.provider.clone(),
            model: self.request.model.clone(),
            outcome: parts.outcome,
            error_category: parts.error_category,
            parser: parts.parser,
            tool_name: parts.tool_name,
            retries: self.tracker.attempts(),
            detail: parts.detail,
            usage: usage_to_record(self.billed),
            conversation: None,
            prefix_chain: copy_chain(&self.chain),
        }
    }

    /// What is recorded where there is no answer to guard.
    pub fn on_failure(&self, failure: &Failure, ts: &str) -> (record: OutcomeRecord)
        ensures
            record@ == self@.record(ts@, outcome_of_failure(*failure)),
    {
        self.record_of(ts, parts_of_failure(failure))
    }

    /// Takes an answer: what it turned out to be, the usage it reported, whether
    /// it is the whole of it, whether the backend really streamed it, and what stands at the path that each of
    /// its calls names.
    pub fn on_answer(
        &mut self,
        answer: AssembledResponse,
        usage: StreamUsage,
        completion: &Completion,
        native: bool,
        kinds: &[PathKind],
        ts: &str,
    ) -> (step: Step)
        requires
            kinds@.len() == answer_calls(answer@).len(),
        ensures
            final(self)@ == after_answer(
                old(self)@,
                answer@,
                usage,
                truncation(*completion),
                native,
                kinds@,
            ),
            step@ == step_after_answer(
                old(self)@,
                answer@,
                usage,
                truncation(*completion),
                native,
                kinds@,
                ts@,
            ),
    {
        let ghost session = self@;
        let ghost view = answer@;
        let forwarded: bool = self.forwards_text(native);
        if let Some(u) = usage {
            self.billed.add(u);
        }
        assert(self@ =~= with_usage(session, usage));
        if let Completion::Truncated(why) = completion {
            let record = self.record_of(ts, parts_of_fragment(why.as_str()));
            return Step::Broken { record, event: broken_answer(why.as_str()) };
        }
        let (calls, template, parser, content) = match answer {
            AssembledResponse::Text { template, content } => {
                let record = self.record_of(ts, plain_parts(Outcome::PassthroughNoCalls));
                let body = if forwarded {
                    None
                } else {
                    Some(response_with_text(&template, content.as_str()))
                };
                return Step::Done { record, body };
            },
            AssembledResponse::ToolCalls { calls, template, content } => (
                calls,
                template,
                None,
                content,
            ),
            AssembledResponse::Rescued { parser, calls, template, content } => (
                calls,
                template,
                Some(parser),
                content,
            ),
        };
        let first = name_of_first(&calls);
        let ghost made = call_views(calls@);
        let forbidden = check(calls.as_slice(), &self.transcript, kinds);
        let attempts: u32 = self.tracker.attempts();
        let can_retry: bool = self.tracker.can_retry();
        let spare: &str = if forwarded {
            ""
        } else {
            content.as_str()
        };
        proof {
            reveal_strlit("");
            assert(""@ =~= Seq::<char>::empty());
        }
        let none: Vec<Tool> = Vec::new();
        assert(tool_views(none@) =~= Seq::empty());
        let tools: &Vec<Tool> = match &self.request.tools {
            Some(tools) => tools,
            None => &none,
        };
        let result = rule_on(
            calls,
            tools.as_slice(),
            self.respond_active,
            forbidden,
            spare,
            can_retry,
        );
        assert(result@ == answer_ruling(session, view, native, kinds@));
        if let Ruling::Retry { calls, nudge } = result {
            self.tracker.record_retry();
            let ghost before = views(self.request.messages@);
            let mut turns = tool_error_followup(calls.as_slice(), nudge.as_str());
            let ghost added = views(turns@);
            self.request.messages.append(&mut turns);
            assert(views(self.request.messages@) =~= before + added);
            assert(self@ =~= after_answer(session, view, usage, None, native, kinds@));
            return Step::Again;
        }
        let parts = parts_of(&result, first, parser, attempts, Ghost(made));
        let record = self.record_of(ts, parts);
        let body = match result {
            Ruling::Respond { text } => response_with_text(&template, text.as_str()),
            Ruling::Refuse { nudge } => response_with_text(
                &template,
                "The tool call could not be completed. ".to_owned().concat(
                    nudge.as_str(),
                ).as_str(),
            ),
            Ruling::Accept { calls, .. } => {
                let prose = if parser.is_some() && !forwarded {
                    prose_carried(content.as_str())
                } else {
                    String::new()
                };
                response_with_tool_calls_and_text(&template, calls.as_slice(), prose.as_str())
            },
            Ruling::Recover { calls, .. } => response_with_tool_calls(
                &template,
                calls.as_slice(),
            ),
            Ruling::GiveUp { nudge, .. } => response_with_text(
                &template,
                "The tool call could not be completed after several attempts. ".to_owned().concat(
                    nudge.as_str(),
                ).as_str(),
            ),
            Ruling::Retry { .. } => Json::Null,
        };
        Step::Done { record, body: Some(body) }
    }
}

/// The calls that an answer makes, whose paths are to be looked up.
pub fn calls_in_answer(answer: &AssembledResponse) -> (calls: &[ToolCall])
    ensures
        call_views(calls@) == answer_calls(answer@),
{
    match answer {
        AssembledResponse::Text { .. } => {
            let none: &[ToolCall] = &[];
            assert(call_views(none@) =~= Seq::empty());
            none
        },
        AssembledResponse::ToolCalls { calls, .. } => calls.as_slice(),
        AssembledResponse::Rescued { calls, .. } => calls.as_slice(),
    }
}

// ── laws ────────────────────────────────────────────────────────────────────

/// A session asks to be sent again only within its budget, and each time it
/// does, it has one retry less: it ends after at most as many retries as its
/// budget allows.
pub proof fn retries_stay_in_budget(
    session: ChatSessionView,
    answer: AssembledView,
    usage: Option<Usage>,
    cut: Option<Seq<char>>,
    native: bool,
    kinds: Seq<PathKind>,
    ts: Seq<char>,
)
    ensures
        ({
            let after = after_answer(session, answer, usage, cut, native, kinds);
            &&& after.budget == session.budget
            &&& step_after_answer(session, answer, usage, cut, native, kinds, ts) is Again
                ==> session.attempts < session.budget && after.attempts == session.attempts + 1
            &&& !(step_after_answer(session, answer, usage, cut, native, kinds, ts) is Again)
                ==> after.attempts == session.attempts
        }),
{
}

/// Every attempt is billed, whatever comes of it.
pub proof fn every_attempt_is_billed(
    session: ChatSessionView,
    answer: AssembledView,
    usage: Usage,
    cut: Option<Seq<char>>,
    native: bool,
    kinds: Seq<PathKind>,
)
    ensures
        after_answer(session, answer, Some(usage), cut, native, kinds).billed == usage_sum(
            session.billed,
            usage,
        ),
{
}

/// Calls that reach the client are in order: what is sent as calls passes the
/// check against the declared tools.
pub proof fn only_valid_calls_are_sent(
    session: ChatSessionView,
    answer: AssembledView,
    native: bool,
    kinds: Seq<PathKind>,
)
    ensures
        match answer_ruling(session, answer, native, kinds) {
            RulingView::Accept { calls, .. } => crate::domain::validate::validation(
                calls,
                request_tools(session.request),
            ) is Valid,
            RulingView::Recover { calls, .. } => crate::domain::validate::validation(
                calls,
                request_tools(session.request),
            ) is Valid,
            _ => true,
        },
{
}

/// A session that ends after calls tells the client something.
pub proof fn calls_are_always_answered(
    session: ChatSessionView,
    answer: AssembledView,
    usage: Option<Usage>,
    cut: Option<Seq<char>>,
    native: bool,
    kinds: Seq<PathKind>,
    ts: Seq<char>,
)
    ensures
        step_after_answer(session, answer, usage, cut, native, kinds, ts) matches StepView::Done {
            body,
            ..
        } ==> body is None ==> answer is Text && session.forwards(native),
{
}

/// A fragment is never an answer: where an answer broke off, no call and no text
/// of it is sent as the answer, and the client is told that it failed.
pub proof fn a_fragment_is_no_answer(
    session: ChatSessionView,
    answer: AssembledView,
    usage: Option<Usage>,
    why: Seq<char>,
    native: bool,
    kinds: Seq<PathKind>,
    ts: Seq<char>,
)
    ensures
        step_after_answer(session, answer, usage, Some(why), native, kinds, ts) matches
            StepView::Broken { record, event } && event == broken_event(why) && record.outcome
            == Outcome::BackendError,
{
}


/// Whether an answer is calls with which something is wrong even after the
/// repairs: neither a text answer nor refused by a precondition, and with nothing
/// in its text to fall back on. `i` is the first bad call.
pub open spec fn is_hopeless(
    session: ChatSessionView,
    answer: AssembledView,
    native: bool,
    kinds: Seq<PathKind>,
    i: int,
) -> bool {
    let tools = request_tools(session.request);
    &&& !(answer is Text)
    &&& is_first_bad(mended(answer_calls(answer), tools), tools, i)
    &&& !(session.respond_active && responded(answer_calls(answer)) is Some)
    &&& failure_from(answer_calls(answer), &session.transcript, kinds, 0) is None
    &&& session.forwards(native) || recovered(answer_text(answer), tools) is None
}

/// The whole budget is used: as long as fewer retries were made than it allows, an
/// answer that cannot be mended is sent back, with what is wrong with its first
/// bad call behind the conversation so far. Only when all were made does the
/// session give up, and say so.
pub proof fn the_whole_budget_is_used(
    session: ChatSessionView,
    answer: AssembledView,
    usage: Option<Usage>,
    native: bool,
    kinds: Seq<PathKind>,
    ts: Seq<char>,
    i: int,
)
    requires
        is_hopeless(session, answer, native, kinds, i),
    ensures
        ({
            let tools = request_tools(session.request);
            let (category, nudge) = problem(mended(answer_calls(answer), tools)[i], tools)->0;
            let step = step_after_answer(session, answer, usage, None, native, kinds, ts);
            let after = after_answer(session, answer, usage, None, native, kinds);
            if session.attempts < session.budget {
                &&& step is Again
                &&& after.attempts == session.attempts + 1
                &&& after.budget == session.budget
                &&& after.provider == session.provider
                &&& after.respond_active == session.respond_active
                &&& after.transcript == session.transcript
            &&& after.request.messages.len() == session.request.messages.len() + 2
            &&& forall|k: int|
                0 <= k < session.request.messages.len() ==> after.request.messages[k]
                    == #[trigger] session.request.messages[k]
            &&& after.request.messages.last() == turn("user"@, nudge)
            &&& after.request.messages[after.request.messages.len() - 2] == turn(
                "assistant"@,
                json_text(calls_json(mended(answer_calls(answer), tools))),
            )
            &&& after.request.tools == session.request.tools
            &&& after.request.model == session.request.model
            &&& after.request.rest == session.request.rest
            } else {
                &&& after.attempts == session.attempts
                &&& after.request == session.request
                &&& step matches StepView::Done { record, body } && {
                    &&& record.outcome == Outcome::RetriesExhausted
                    &&& record.error_category == Some(category)
                    &&& record.retries == session.attempts as u32
                    &&& record.tool_name == Some(answer_calls(answer)[i].name)
                    &&& body == Some(
                        text_response(
                            answer_template(answer),
                            "The tool call could not be completed after several attempts. "@
                                + nudge,
                        ),
                    )
                }
            }
        }),
{
    let tools = request_tools(session.request);
    let calls = answer_calls(answer);
    bad_calls_are_sent_back(
        calls,
        tools,
        session.respond_active,
        if session.forwards(native) { Seq::empty() } else { answer_text(answer) },
        session.attempts < session.budget,
        i,
    );
    every_call_is_mended(calls, tools, i);
    let after = after_answer(session, answer, usage, None, native, kinds);
    let nudge = (problem(mended(calls, tools)[i], tools)->0).1;
    if session.attempts < session.budget {
        let more = followup(mended(calls, tools), nudge);
        assert(after.request.messages =~= session.request.messages + more);
        assert(more[0] == turn("assistant"@, json_text(calls_json(mended(calls, tools)))));
        assert(more[1] == turn("user"@, nudge));
    }
}

/// Calls that are in order after the repairs are what the client gets, all of them
/// and as the repairs left them; and it is recorded whether it took retries.
pub proof fn good_calls_reach_the_client(
    session: ChatSessionView,
    answer: AssembledView,
    usage: Option<Usage>,
    native: bool,
    kinds: Seq<PathKind>,
    ts: Seq<char>,
)
    requires
        !(answer is Text),
        all_in_order(
            mended(answer_calls(answer), request_tools(session.request)),
            request_tools(session.request),
        ),
        !(session.respond_active && responded(answer_calls(answer)) is Some),
        failure_from(answer_calls(answer), &session.transcript, kinds, 0) is None,
    ensures
        ({
            let tools = request_tools(session.request);
            let calls = mended(answer_calls(answer), tools);
            step_after_answer(session, answer, usage, None, native, kinds, ts) matches StepView::Done {
                record,
                body,
            } && {
                &&& body == Some(
                    calls_response(
                        answer_template(answer),
                        calls,
                        if answer is Rescued && !session.forwards(native) {
                            trim(prose_of(answer_text(answer)))
                        } else {
                            Seq::empty()
                        },
                    ),
                )
                &&& record.retries == session.attempts as u32
                &&& record.error_category is None
                &&& record.outcome == (if session.attempts > 0 {
                    Outcome::RecoveredAfterRetry
                } else if is_mended(answer_calls(answer), tools) {
                    Outcome::Repaired
                } else if answer is Rescued {
                    Outcome::Rescued
                } else {
                    Outcome::NativeValid
                })
                &&& answer is Rescued ==> record.parser == Some(answer->parser)
                &&& !(answer is Rescued) ==> record.parser is None
                &&& calls.len() > 0 ==> record.tool_name == Some(calls[0].name)
            }
        }),
{
    let tools = request_tools(session.request);
    good_calls_are_accepted(
        answer_calls(answer),
        tools,
        session.respond_active,
        if session.forwards(native) { Seq::empty() } else { answer_text(answer) },
        session.attempts < session.budget,
    );
}

/// A text answer through the `respond` tool reaches the client as text; calls that
/// a precondition forbids do not reach it, and it is told why.
pub proof fn responses_and_refusals_are_told(
    session: ChatSessionView,
    answer: AssembledView,
    usage: Option<Usage>,
    native: bool,
    kinds: Seq<PathKind>,
    ts: Seq<char>,
    text: Seq<char>,
)
    requires
        !(answer is Text),
    ensures
        ({
            let step = step_after_answer(session, answer, usage, None, native, kinds, ts);
            let spoken = session.respond_active && responded(answer_calls(answer)) is Some;
            let forbidden = failure_from(answer_calls(answer), &session.transcript, kinds, 0);
            &&& session.respond_active && responded(answer_calls(answer)) == Some(text) ==> (
            step matches StepView::Done { record, body } && record.outcome
                == Outcome::RespondIntercept && body == Some(
                text_response(answer_template(answer), text),
            ))
            &&& !spoken && forbidden == Some(text) ==> (step matches StepView::Done { record, body }
                && record.outcome == Outcome::WriteRefused && record.detail == Some(text) && body
                == Some(
                text_response(
                    answer_template(answer),
                    "The tool call could not be completed. "@ + text,
                ),
            ))
        }),
{
}

/// A plain text ends the session; what was not passed on live is sent as text.
pub proof fn plain_text_is_passed_through(
    session: ChatSessionView,
    template: JsonView,
    content: Seq<char>,
    usage: Option<Usage>,
    native: bool,
    kinds: Seq<PathKind>,
    ts: Seq<char>,
)
    ensures
        step_after_answer(
            session,
            AssembledView::Text { template, content },
            usage,
            None,
            native,
            kinds,
            ts,
        ) matches StepView::Done { record, body } && record.outcome == Outcome::PassthroughNoCalls
            && body == (if session.attempts == 0 && native {
            None
        } else {
            Some(text_response(template, content))
        }),
{
}

/// Where calls name no declared tool, but the text beside them, which was not
/// passed on, holds calls that are in order, the client gets those.
pub proof fn calls_are_recovered_from_the_text(
    session: ChatSessionView,
    answer: AssembledView,
    usage: Option<Usage>,
    native: bool,
    kinds: Seq<PathKind>,
    ts: Seq<char>,
    i: int,
)
    requires
        !(answer is Text),
        is_first_bad(
            mended(answer_calls(answer), request_tools(session.request)),
            request_tools(session.request),
            i,
        ),
        (problem(
            mended(answer_calls(answer), request_tools(session.request))[i],
            request_tools(session.request),
        )->0).0 == ErrorCategory::UnknownTool,
        !(session.respond_active && responded(answer_calls(answer)) is Some),
        failure_from(answer_calls(answer), &session.transcript, kinds, 0) is None,
        !session.forwards(native),
        answer_text(answer).len() > 0,
        recovered(answer_text(answer), request_tools(session.request)) is Some,
    ensures
        ({
            let (parser, calls) = recovered(
                answer_text(answer),
                request_tools(session.request),
            )->0;
            step_after_answer(session, answer, usage, None, native, kinds, ts) matches
                StepView::Done { record, body } && record.outcome == Outcome::Rescued
                && record.parser == Some(parser) && body == Some(
                calls_response(answer_template(answer), calls, Seq::empty()),
            )
        }),
{
    bad_calls_are_sent_back(
        answer_calls(answer),
        request_tools(session.request),
        session.respond_active,
        answer_text(answer),
        session.attempts < session.budget,
        i,
    );
}

/// What is recorded names the provider, the model, the time, the retries, the
/// tokens of every attempt and the conversation, whatever came of the session.
pub proof fn records_say_whose_they_are(
    session: ChatSessionView,
    answer: AssembledView,
    usage: Usage,
    cut: Option<Seq<char>>,
    native: bool,
    kinds: Seq<PathKind>,
    ts: Seq<char>,
)
    ensures
        ({
            let step = step_after_answer(session, answer, Some(usage), cut, native, kinds, ts);
            let record = match step {
                StepView::Done { record, .. } => record,
                StepView::Broken { record, .. } => record,
                StepView::Again => session.record(ts, plain_outcome(Outcome::InternalError)),
            };
            &&& record.ts == ts
            &&& record.provider == session.provider
            &&& record.model == session.request.model
            &&& session.attempts <= u32::MAX ==> record.retries == session.attempts
            &&& !(step is Again) ==> record.usage == recorded_usage(
                usage_sum(session.billed, usage),
            )
            &&& record.conversation is None
            &&& record.prefix_chain == session.chain
        }),
{
}

/// A request is sent as the client made it, but as a stream and, where the client
/// declares no tool of that name, with the `respond` tool behind the others.
pub proof fn requests_are_sent_as_made(request: ChatView, name: Seq<char>, i: int)
    ensures
        ({
            let sent = guarded_request(request);
            let streams = request.rest.contains_key("stream"@) && request.rest["stream"@]
                == JsonView::Bool(true);
            &&& sent.messages == request.messages
            &&& sent.model == request.model
            &&& sent.rest.contains_key("stream"@) && sent.rest["stream"@] == JsonView::Bool(true)
            &&& name != "stream"@ && (name != "stream_options"@ || streams) ==> JsonView::Object(
                sent.rest,
            ).get(name) == JsonView::Object(request.rest).get(name)
            &&& !streams ==> !sent.rest.contains_key("stream_options"@)
            &&& 0 <= i < request_tools(request).len() ==> request_tools(sent)[i] == request_tools(
                request,
            )[i]
            &&& declares_respond(sent)
            &&& if declares_respond(request) {
                sent.tools == request.tools
            } else {
                request_tools(sent).len() == request_tools(request).len() + 1 && request_tools(
                    sent,
                ).last().name == "respond"@
            }
        }),
{
    reveal_strlit("stream");
    reveal_strlit("stream_options");
    assert("stream"@.len() == 6 && "stream_options"@.len() == 14);
    let sent = guarded_request(request);
    if !declares_respond(request) {
        let n = request_tools(request).len() as int;
        assert(request_tools(sent)[n].name == RESPOND@);
    } else {
        let k = choose|k: int|
            0 <= k < request_tools(request).len() && (#[trigger] request_tools(request)[k]).name
                == RESPOND@;
        assert(request_tools(sent)[k].name == RESPOND@);
    }
}

/// An answer as a session gets it: what it turned out to be, the usage it reported,
/// whether the backend streams, and what stands at the paths that its calls name.
#[verifier::ext_equal]
pub struct Received {
    pub answer: AssembledView,
    pub usage: Option<Usage>,
    pub native: bool,
    pub kinds: Seq<PathKind>,
}

/// The session after the first `n` answers.
pub open spec fn after_answers(session: ChatSessionView, answers: Seq<Received>, n: int) -> ChatSessionView
    decreases n,
{
    if n <= 0 {
        session
    } else {
        let r = answers[n - 1];
        after_answer(
            after_answers(session, answers, n - 1),
            r.answer,
            r.usage,
            None,
            r.native,
            r.kinds,
        )
    }
}

/// As many bad answers as the budget allows are each sent back, and only the one
/// after them ends the session.
pub proof fn a_session_makes_all_its_retries(
    session: ChatSessionView,
    answers: Seq<Received>,
    bad: Seq<int>,
    n: int,
    ts: Seq<char>,
)
    requires
        0 <= n < answers.len(),
        bad.len() == answers.len(),
        session.attempts + n <= session.budget,
        forall|k: int|
            0 <= k <= n ==> is_hopeless(
                after_answers(session, answers, k),
                (#[trigger] answers[k]).answer,
                answers[k].native,
                answers[k].kinds,
                bad[k],
            ),
    ensures
        ({
            let now = after_answers(session, answers, n);
            let r = answers[n];
            &&& now.attempts == session.attempts + n
            &&& now.budget == session.budget
            &&& step_after_answer(now, r.answer, r.usage, None, r.native, r.kinds, ts) is Again
                <==> session.attempts + n < session.budget
        }),
    decreases n,
{
    let now = after_answers(session, answers, n);
    let r = answers[n];
    if n > 0 {
        a_session_makes_all_its_retries(session, answers, bad, n - 1, ts);
        let q = answers[n - 1];
        assert(is_hopeless(
            after_answers(session, answers, n - 1),
            q.answer,
            q.native,
            q.kinds,
            bad[n - 1],
        ));
        the_whole_budget_is_used(
            after_answers(session, answers, n - 1),
            q.answer,
            q.usage,
            q.native,
            q.kinds,
            ts,
            bad[n - 1],
        );
    }
    assert(is_hopeless(now, r.answer, r.native, r.kinds, bad[n]));
    the_whole_budget_is_used(now, r.answer, r.usage, r.native, r.kinds, ts, bad[n]);
}

/// Text is passed on live on the first attempt alone, and only where the backend
/// streams.
pub proof fn only_first_attempts_are_live(session: ChatSessionView, native: bool)
    ensures
        session.forwards(native) <==> native && session.attempts == 0,
{
}

/// All of what an answer holds counts: every call, the whole text, the response
/// that it is shaped like, and the format that it was rescued from.
pub proof fn all_of_an_answer_counts(
    calls: Seq<CallView>,
    template: JsonView,
    content: Seq<char>,
    parser: Seq<char>,
)
    ensures
        ({
            let native = AssembledView::ToolCalls { calls, template, content };
            let rescued = AssembledView::Rescued { parser, calls, template, content };
            let text = AssembledView::Text { template, content };
            &&& answer_calls(native) == calls && answer_calls(rescued) == calls && answer_calls(
                text,
            ).len() == 0
            &&& answer_text(native) == content && answer_text(rescued) == content && answer_text(
                text,
            ) == content
            &&& answer_template(native) == template && answer_template(rescued) == template
                && answer_template(text) == template
            &&& answer_parser(native) is None && answer_parser(rescued) == Some(parser)
                && answer_parser(text) is None
        }),
{
}

/// The tools that calls are checked against are all that the request declares.
pub proof fn all_declared_tools_count(request: ChatView, i: int)
    ensures
        request.tools matches Some(tools) ==> request_tools(request) == tools,
        request.tools is None ==> request_tools(request).len() == 0,
        0 <= i < request_tools(request).len() && request_tools(request)[i].name == "respond"@
            ==> declares_respond(request),
        declares_respond(request) ==> exists|k: int|
            0 <= k < request_tools(request).len() && (#[trigger] request_tools(request)[k]).name
                == "respond"@,
{
}

} // verus!
