//! A guarded Responses request: the chat session's loop, with the Responses
//! shape at its edges.
use vstd::prelude::*;

use super::ruling::{
    all_in_order, bad_calls_are_sent_back, every_call_is_mended, good_calls_are_accepted,
    is_first_bad, is_mended, mended, recovered, responded,
    carried, exhausted_text, name_of_first, outcome_of, outcome_of_failure, outcome_of_fragment,
    parts_of, parts_of_failure, parts_of_fragment, plain_outcome, plain_parts, prose_carried,
    recorded_usage, refusal_text, rule_on, ruling, usage_to_record, Failure, OutcomeParts,
    OutcomeView, RecordView, Ruling, RulingView, Step, StepView,
};
use super::wire::{broken_answer, broken_event};
use crate::domain::decode::{
    call_views, calls_json, copy_text, own_text, owned_text, CallView, ToolCall,
};
use crate::domain::guardrails::Guardrails;
use crate::domain::metrics::{
    no_usage, usage_sum, Conversation, Outcome, OutcomeRecord, Usage,
};
use crate::domain::model::{tool_views, Tool, ToolView};
use crate::domain::precondition::{
    all_invocations, check, failure_from, reads_path, PathKind, Transcript,
};
use crate::domain::respond::{respond_definition, respond_tool, RESPOND};
use crate::domain::responses::{
    calls_body, flat_tool, input_turns, responses_text, text_body, tools_of, with_text,
    with_tool_calls_and_text, ResponsesRequest, ResponsesView,
};
use crate::domain::responses_sse::{AssembledResponses, ResponsesResult};
use crate::domain::rescue::prose_of;
use crate::domain::retry::{followup, tool_error_followup, turn, ErrorTracker};
use crate::domain::sse::{truncation, Completion, StreamUsage};
use crate::domain::validate::problem;
use crate::json::{json_text, text_in, text_of_value, Json, JsonView};
use crate::text::{same_text, trim};

verus! {

/// A guarded request, by views.
#[verifier::ext_equal]
pub struct ResponsesSessionView {
    /// The request as it is sent.
    pub request: ResponsesView,
    /// The declared tools, as the validator takes them.
    pub tools: Seq<ToolView>,
    /// Whether the `respond` tool was added, so that calls to it are answers.
    pub respond_active: bool,
    /// The retries so far, and how many there may be.
    pub attempts: nat,
    pub budget: nat,
    /// The usage over all attempts.
    pub billed: Usage,
    pub provider: Seq<char>,
    /// The response that the client's turn continues.
    pub parent: Option<Seq<char>>,
    /// The id that the backend gave this turn last.
    pub id: Option<Seq<char>>,
    /// What the client's own input shows being read.
    pub transcript: Transcript,
}

/// Whether any of the tools has the name of the `respond` tool.
pub open spec fn among_tools(tools: Seq<ToolView>) -> bool {
    exists|i: int| 0 <= i < tools.len() && (#[trigger] tools[i]).name == RESPOND@
}

/// The `input` items of a request, where they are a list.
pub open spec fn input_list(request: ResponsesView) -> Seq<JsonView> {
    match JsonView::Object(request.rest).get("input"@) {
        Some(JsonView::Array(items)) => items,
        _ => Seq::empty(),
    }
}

/// The request as it is sent first: always as a stream, and with the `respond`
/// tool where the client declares none of that name.
pub open spec fn guarded_responses(request: ResponsesView) -> ResponsesView {
    let flat = flat_tool(respond_definition());
    ResponsesView {
        rest: request.rest.insert("stream"@, JsonView::Bool(true)),
        tools: if among_tools(tools_of(request)) {
            request.tools
        } else {
            Some(
                match request.tools {
                    Some(tools) => tools.push(flat),
                    None => seq![flat],
                },
            )
        },
        ..request
    }
}

impl ResponsesSessionView {
    /// Whether text may be passed on live: on the first attempt, and only where
    /// the backend really streams.
    pub open spec fn forwards(self, native: bool) -> bool {
        self.attempts == 0 && native
    }

    /// What is recorded of the session when it ends. A turn that the backend
    /// gave no id has no place in a conversation.
    pub open spec fn record(self, ts: Seq<char>, parts: OutcomeView) -> RecordView {
        RecordView {
            ts,
            provider: self.provider,
            model: self.request.model,
            outcome: parts.outcome,
            error_category: parts.error_category,
            parser: parts.parser,
            tool_name: parts.tool_name,
            retries: self.attempts as u32,
            detail: parts.detail,
            usage: recorded_usage(self.billed),
            conversation: match self.id {
                Some(id) => Some((id, self.parent)),
                None => None,
            },
            prefix_chain: None,
        }
    }
}

/// The calls that an answer makes.
pub open spec fn answer_calls(answer: ResponsesResult) -> Seq<CallView> {
    match answer {
        ResponsesResult::Text { .. } => Seq::empty(),
        ResponsesResult::ToolCalls { calls, .. } => calls,
        ResponsesResult::Rescued { calls, .. } => calls,
    }
}

/// The text of an answer.
pub open spec fn answer_text(answer: ResponsesResult) -> Seq<char> {
    match answer {
        ResponsesResult::Text { text, .. } => text,
        ResponsesResult::ToolCalls { text, .. } => text,
        ResponsesResult::Rescued { text, .. } => text,
    }
}

/// The response that an answer is shaped like.
pub open spec fn answer_template(answer: ResponsesResult) -> JsonView {
    match answer {
        ResponsesResult::Text { template, .. } => template,
        ResponsesResult::ToolCalls { template, .. } => template,
        ResponsesResult::Rescued { template, .. } => template,
    }
}

/// The format that an answer's calls were rescued from.
pub open spec fn answer_parser(answer: ResponsesResult) -> Option<Seq<char>> {
    match answer {
        ResponsesResult::Rescued { parser, .. } => Some(parser),
        _ => None,
    }
}

/// What is to be done about an answer's calls.
pub open spec fn answer_ruling(
    session: ResponsesSessionView,
    answer: ResponsesResult,
    kinds: Seq<PathKind>,
) -> RulingView {
    ruling(
        answer_calls(answer),
        session.tools,
        session.respond_active,
        failure_from(answer_calls(answer), &session.transcript, kinds, 0),
        Seq::empty(),
        session.attempts < session.budget,
    )
}

/// What the client gets by a ruling that ends the session. The prose around a
/// rescued call is kept: it was held back.
pub open spec fn answer_body(result: RulingView, answer: ResponsesResult) -> JsonView {
    let template = answer_template(answer);
    match result {
        RulingView::Respond { text } => text_body(template, text),
        RulingView::Refuse { nudge } => text_body(template, refusal_text(nudge)),
        RulingView::Accept { calls, .. } => calls_body(
            template,
            calls,
            if answer is Rescued {
                carried(answer_text(answer))
            } else {
                Seq::empty()
            },
        ),
        RulingView::Recover { calls, .. } => calls_body(template, calls, Seq::empty()),
        RulingView::GiveUp { nudge, .. } => text_body(template, exhausted_text(nudge)),
        RulingView::Retry { .. } => JsonView::Null,
    }
}

/// The session with the usage of another attempt and the id that its answer
/// was given.
pub open spec fn with_answer(
    session: ResponsesSessionView,
    answer: ResponsesResult,
    usage: Option<Usage>,
) -> ResponsesSessionView {
    ResponsesSessionView {
        billed: match usage {
            Some(u) => usage_sum(session.billed, u),
            None => session.billed,
        },
        id: match text_in(answer_template(answer).get("id"@)) {
            Some(id) => Some(id),
            None => session.id,
        },
        ..session
    }
}

/// The session after an answer that is to be tried again.
pub open spec fn retried(
    session: ResponsesSessionView,
    calls: Seq<CallView>,
    nudge: Seq<char>,
) -> ResponsesSessionView {
    ResponsesSessionView {
        attempts: session.attempts + 1,
        request: ResponsesView {
            rest: session.request.rest.insert(
                "input"@,
                JsonView::Array(
                    input_turns(JsonView::Object(session.request.rest).get("input"@)) + followup(
                        calls,
                        nudge,
                    ),
                ),
            ),
            ..session.request
        },
        ..session
    }
}

/// The session after an answer.
pub open spec fn after_answer(
    session: ResponsesSessionView,
    answer: ResponsesResult,
    usage: Option<Usage>,
    cut: Option<Seq<char>>,
    kinds: Seq<PathKind>,
) -> ResponsesSessionView {
    let now = with_answer(session, answer, usage);
    if cut is Some || answer is Text {
        now
    } else {
        match answer_ruling(session, answer, kinds) {
            RulingView::Retry { calls, nudge } => retried(now, calls, nudge),
            _ => now,
        }
    }
}

/// What a session does after an answer; `cut` says why it broke off, where it
/// did. A plain text is its own answer: what the client gets of it is what was
/// passed on live, and no response of the session's own follows. All else ends
/// with one.
pub open spec fn step_after_answer(
    session: ResponsesSessionView,
    answer: ResponsesResult,
    usage: Option<Usage>,
    cut: Option<Seq<char>>,
    kinds: Seq<PathKind>,
    ts: Seq<char>,
) -> StepView {
    let now = with_answer(session, answer, usage);
    if cut is Some {
        StepView::Broken {
            record: now.record(ts, outcome_of_fragment(cut->0)),
            event: broken_event(cut->0),
        }
    } else if answer is Text {
        StepView::Done {
            record: now.record(ts, plain_outcome(Outcome::PassthroughNoCalls)),
            body: None,
        }
    } else {
        let result = answer_ruling(session, answer, kinds);
        if result is Retry {
            StepView::Again
        } else {
            StepView::Done {
                record: now.record(
                    ts,
                    outcome_of(
                        result,
                        answer_calls(answer),
                        answer_parser(answer),
                        session.attempts,
                    ),
                ),
                body: Some(answer_body(result, answer)),
            }
        }
    }
}

/// A guarded request.
#[derive(Debug)]
pub struct ResponsesSession {
    request: ResponsesRequest,
    tools: Vec<Tool>,
    respond_active: bool,
    tracker: ErrorTracker,
    billed: Usage,
    provider: String,
    parent: Option<String>,
    id: Option<String>,
    transcript: Transcript,
}

impl View for ResponsesSession {
    type V = ResponsesSessionView;

    closed spec fn view(&self) -> ResponsesSessionView {
        ResponsesSessionView {
            request: self.request@,
            tools: tool_views(self.tools@),
            respond_active: self.respond_active,
            attempts: self.tracker.spent(),
            budget: self.tracker.budget(),
            billed: self.billed,
            provider: self.provider@,
            parent: owned_text(self.parent),
            id: owned_text(self.id),
            transcript: self.transcript,
        }
    }
}

fn has_respond(tools: &Vec<Tool>) -> (yes: bool)
    ensures
        yes == among_tools(tool_views(tools@)),
{
    let ghost all = tool_views(tools@);
    for i in 0..tools.len()
        invariant
            all == tool_views(tools@),
            forall|j: int| 0 <= j < i ==> (#[trigger] all[j]).name != RESPOND@,
    {
        assert(all[i as int] == tools@[i as int]@);
        if same_text(tools[i].function.name.as_str(), RESPOND) {
            return true;
        }
    }
    false
}

impl ResponsesSession {
    /// Takes up a request that is to be guarded.
    pub fn new(request: ResponsesRequest, provider: &str, guardrails: Guardrails) -> (session:
        ResponsesSession)
        ensures
            session@.request == guarded_responses(request@),
            session@.tools == tools_of(guarded_responses(request@)),
            session@.respond_active == !among_tools(tools_of(request@)),
            session@.attempts == 0,
            session@.budget == guardrails.max_retries,
            session@.billed == no_usage(),
            session@.provider == provider@,
            session@.parent == text_in(
                JsonView::Object(request@.rest).get("previous_response_id"@),
            ),
            session@.id is None,
            session@.transcript.is_legible() == (all_invocations(
                input_list(request@),
                input_list(request@).len() as int,
            ).len() > 0),
            forall|path: Seq<char>| #[trigger]
                session@.transcript.shows_read(path) <==> exists|i: int|
                    0 <= i < all_invocations(
                        input_list(request@),
                        input_list(request@).len() as int,
                    ).len() && reads_path(
                        #[trigger] all_invocations(
                            input_list(request@),
                            input_list(request@).len() as int,
                        )[i],
                        path,
                    ),
    {
        let transcript = Transcript::of(request.input_items());
        let parent = own_text(request.previous_response_id());
        let ghost before = request@;
        let declared = request.normalized_tools();
        let respond_active: bool = !has_respond(&declared);
        let mut request = request;
        request.rest.insert("stream", Json::Bool(true));
        if respond_active {
            request.push_tool(respond_tool());
        }
        assert(request@ =~= guarded_responses(before));
        let tools = request.normalized_tools();
        ResponsesSession {
            request,
            tools,
            respond_active,
            tracker: ErrorTracker::new(guardrails.max_retries),
            billed: Usage::default(),
            provider: provider.to_owned(),
            parent,
            id: None,
            transcript,
        }
    }

    /// The body to send.
    pub fn body(&self) -> (body: String)
        ensures
            body@ == responses_text(self@.request),
    {
        self.request.to_text()
    }

    /// Whether text may be passed on live.
    pub fn forwards_text(&self, native: bool) -> (yes: bool)
        ensures
            yes == self@.forwards(native),
    {
        self.tracker.attempts() == 0 && native
    }

    fn record_of(&self, ts: &str, parts: OutcomeParts) -> (record: OutcomeRecord)
        ensures
            record@ == self@.record(ts@, parts@),
    {
        OutcomeRecord {
            ts: ts.to_owned(),
            provider: self.provider.clone(),
            model: self.request.model.clone(),
            outcome: parts.outcome,
            error_category: parts.error_category,
            parser: parts.parser,
            tool_name: parts.tool_name,
            retries: self.tracker.attempts(),
            detail: parts.detail,
            usage: usage_to_record(self.billed),
            conversation: match &self.id {
                Some(id) => Some(Conversation { id: id.clone(), parent: copy_text(&self.parent) }),
                None => None,
            },
            prefix_chain: None,
        }
    }

    /// What is recorded where there is no answer to guard.
    pub fn on_failure(&self, failure: &Failure, ts: &str) -> (record: OutcomeRecord)
        ensures
            record@ == self@.record(ts@, outcome_of_failure(*failure)),
    {
        self.record_of(ts, parts_of_failure(failure))
    }

    fn keep_id(&mut self, template: &Json)
        ensures
            final(self)@ == (ResponsesSessionView {
                id: match text_in(template@.get("id"@)) {
                    Some(id) => Some(id),
                    None => old(self)@.id,
                },
                ..old(self)@
            }),
    {
        if let Some(id) = text_of_value(template.get("id")) {
            self.id = Some(id.to_owned());
        }
    }

    /// Takes an answer: what it turned out to be, the usage it reported, whether
    /// it is the whole of it, and what stands at the path that each of its calls names.
    pub fn on_answer(
        &mut self,
        answer: AssembledResponses,
        usage: StreamUsage,
        completion: &Completion,
        kinds: &[PathKind],
        ts: &str,
    ) -> (step: Step)
        requires
            kinds@.len() == answer_calls(answer@).len(),
        ensures
            final(self)@ == after_answer(
                old(self)@,
                answer@,
                usage,
                truncation(*completion),
                kinds@,
            ),
            step@ == step_after_answer(
                old(self)@,
                answer@,
                usage,
                truncation(*completion),
                kinds@,
                ts@,
            ),
    {
        let ghost session = self@;
        let ghost view = answer@;
        if let Some(u) = usage {
            self.billed.add(u);
        }
        match &answer {
            AssembledResponses::Text { template, .. } => self.keep_id(template),
            AssembledResponses::ToolCalls { template, .. } => self.keep_id(template),
            AssembledResponses::Rescued { template, .. } => self.keep_id(template),
        }
        assert(self@ =~= with_answer(session, view, usage));
        if let Completion::Truncated(why) = completion {
            let record = self.record_of(ts, parts_of_fragment(why.as_str()));
            return Step::Broken { record, event: broken_answer(why.as_str()) };
        }
        let (calls, template, parser, text) = match answer {
            AssembledResponses::Text { .. } => {
                let record = self.record_of(ts, plain_parts(Outcome::PassthroughNoCalls));
                return Step::Done { record, body: None };
            },
            AssembledResponses::ToolCalls { calls, template, text } => (
                calls,
                template,
                None,
                text,
            ),
            AssembledResponses::Rescued { parser, calls, template, text } => (
                calls,
                template,
                Some(parser),
                text,
            ),
        };
        let first = name_of_first(&calls);
        let ghost made = call_views(calls@);
        let forbidden = check(calls.as_slice(), &self.transcript, kinds);
        let attempts: u32 = self.tracker.attempts();
        let can_retry: bool = self.tracker.can_retry();
        proof {
            reveal_strlit("");
            assert(""@ =~= Seq::<char>::empty());
        }
        let result = rule_on(
            calls,
            self.tools.as_slice(),
            self.respond_active,
            forbidden,
            "",
            can_retry,
        );
        assert(result@ == answer_ruling(session, view, kinds@));
        if let Ruling::Retry { calls, nudge } = result {
            self.tracker.record_retry();
            let turns = tool_error_followup(calls.as_slice(), nudge.as_str());
            self.request.extend_input(turns);
            assert(self@ =~= after_answer(session, view, usage, None, kinds@));
            return Step::Again;
        }
        let parts = parts_of(&result, first, parser, attempts, Ghost(made));
        let record = self.record_of(ts, parts);
        let body = match result {
            Ruling::Respond { text } => with_text(&template, text.as_str()),
            Ruling::Refuse { nudge } => with_text(
                &template,
                "The tool call could not be completed. ".to_owned().concat(
                    nudge.as_str(),
                ).as_str(),
            ),
            Ruling::Accept { calls, .. } => {
                let prose = if parser.is_some() {
                    prose_carried(text.as_str())
                } else {
                    String::new()
                };
                with_tool_calls_and_text(&template, calls.as_slice(), prose.as_str())
            },
            Ruling::Recover { calls, .. } => with_tool_calls_and_text(
                &template,
                calls.as_slice(),
                "",
            ),
            Ruling::GiveUp { nudge, .. } => with_text(
                &template,
                "The tool call could not be completed after several attempts. ".to_owned().concat(
                    nudge.as_str(),
                ).as_str(),
            ),
            Ruling::Retry { .. } => Json::Null,
        };
        Step::Done { record, body: Some(body) }
    }
}

/// The calls that an answer makes, whose paths are to be looked up.
pub fn calls_in_answer(answer: &AssembledResponses) -> (calls: &[ToolCall])
    ensures
        call_views(calls@) == answer_calls(answer@),
{
    match answer {
        AssembledResponses::Text { .. } => {
            let none: &[ToolCall] = &[];
            assert(call_views(none@) =~= Seq::empty());
            none
        },
        AssembledResponses::ToolCalls { calls, .. } => calls.as_slice(),
        AssembledResponses::Rescued { calls, .. } => calls.as_slice(),
    }
}

// ── laws ────────────────────────────────────────────────────────────────────

/// A session asks to be sent again only within its budget, and each time it
/// does, it has one retry less.
pub proof fn retries_stay_in_budget(
    session: ResponsesSessionView,
    answer: ResponsesResult,
    usage: Option<Usage>,
    cut: Option<Seq<char>>,
    kinds: Seq<PathKind>,
    ts: Seq<char>,
)
    ensures
        ({
            let after = after_answer(session, answer, usage, cut, kinds);
            &&& after.budget == session.budget
            &&& step_after_answer(session, answer, usage, cut, kinds, ts) is Again ==> session.attempts
                < session.budget && after.attempts == session.attempts + 1
            &&& !(step_after_answer(session, answer, usage, cut, kinds, ts) is Again)
                ==> after.attempts == session.attempts
        }),
{
}

/// Calls that reach the client are in order.
pub proof fn only_valid_calls_are_sent(
    session: ResponsesSessionView,
    answer: ResponsesResult,
    kinds: Seq<PathKind>,
)
    ensures
        match answer_ruling(session, answer, kinds) {
            RulingView::Accept { calls, .. } => crate::domain::validate::validation(
                calls,
                session.tools,
            ) is Valid,
            RulingView::Recover { .. } => false,
            _ => true,
        },
{
}

/// A session that ends on calls always tells the client something: only a plain
/// text is left to what was passed on live.
pub proof fn calls_are_always_answered(
    session: ResponsesSessionView,
    answer: ResponsesResult,
    usage: Option<Usage>,
    cut: Option<Seq<char>>,
    kinds: Seq<PathKind>,
    ts: Seq<char>,
)
    ensures
        step_after_answer(session, answer, usage, cut, kinds, ts) matches StepView::Done { body, .. }
            ==> (body is None <==> answer is Text),
{
}

/// A fragment is never an answer: where an answer broke off, no call and no text
/// of it is sent as the answer, and the client is told that it failed.
pub proof fn a_fragment_is_no_answer(
    session: ResponsesSessionView,
    answer: ResponsesResult,
    usage: Option<Usage>,
    why: Seq<char>,
    kinds: Seq<PathKind>,
    ts: Seq<char>,
)
    ensures
        step_after_answer(session, answer, usage, Some(why), kinds, ts) matches StepView::Broken {
            record,
            event,
        } && event == broken_event(why) && record.outcome == Outcome::BackendError,
{
}


/// Whether an answer is calls with which something is wrong even after the
/// repairs: neither a text answer nor refused by a precondition, and with nothing
/// in its text to fall back on. `i` is the first bad call.
pub open spec fn is_hopeless(
    session: ResponsesSessionView,
    answer: ResponsesResult,
    kinds: Seq<PathKind>,
    i: int,
) -> bool {
    let tools = session.tools;
    &&& !(answer is Text)
    &&& is_first_bad(mended(answer_calls(answer), tools), tools, i)
    &&& !(session.respond_active && responded(answer_calls(answer)) is Some)
    &&& failure_from(answer_calls(answer), &session.transcript, kinds, 0) is None
}

/// The whole budget is used: as long as fewer retries were made than it allows, an
/// answer that cannot be mended is sent back, with what is wrong with its first
/// bad call behind the conversation so far. Only when all were made does the
/// session give up, and say so.
pub proof fn the_whole_budget_is_used(
    session: ResponsesSessionView,
    answer: ResponsesResult,
    usage: Option<Usage>,
    kinds: Seq<PathKind>,
    ts: Seq<char>,
    i: int,
)
    requires
        is_hopeless(session, answer, kinds, i),
    ensures
        ({
            let tools = session.tools;
            let (category, nudge) = problem(mended(answer_calls(answer), tools)[i], tools)->0;
            let step = step_after_answer(session, answer, usage, None, kinds, ts);
            let after = after_answer(session, answer, usage, None, kinds);
            if session.attempts < session.budget {
                &&& step is Again
                &&& after.attempts == session.attempts + 1
                &&& after.budget == session.budget
                &&& after.provider == session.provider
                &&& after.respond_active == session.respond_active
                &&& after.transcript == session.transcript
            &&& after.request.rest.contains_key("input"@)
            &&& after.request.rest["input"@] matches JsonView::Array(turns) && {
                let before = input_turns(JsonView::Object(session.request.rest).get("input"@));
                &&& turns.len() == before.len() + 2
                &&& turns.take(before.len() as int) == before
                &&& turns.last() == turn("user"@, nudge)
                &&& turns[turns.len() - 2] == turn(
                    "assistant"@,
                    json_text(calls_json(mended(answer_calls(answer), tools))),
                )
            }
            &&& after.request.tools == session.request.tools
            &&& after.request.model == session.request.model
            &&& after.request.rest.remove("input"@) == session.request.rest.remove("input"@)
            } else {
                &&& after.attempts == session.attempts
                &&& after.request == session.request
                &&& step matches StepView::Done { record, body } && {
                    &&& record.outcome == Outcome::RetriesExhausted
                    &&& record.error_category == Some(category)
                    &&& record.retries == session.attempts as u32
                    &&& record.tool_name == Some(answer_calls(answer)[i].name)
                    &&& body == Some(
                        text_body(
                            answer_template(answer),
                            "The tool call could not be completed after several attempts. "@
                                + nudge,
                        ),
                    )
                }
            }
        }),
{
    let tools = session.tools;
    let calls = answer_calls(answer);
    bad_calls_are_sent_back(
        calls,
        tools,
        session.respond_active,
        Seq::empty(),
        session.attempts < session.budget,
        i,
    );
    every_call_is_mended(calls, tools, i);
    let after = after_answer(session, answer, usage, None, kinds);
    let nudge = (problem(mended(calls, tools)[i], tools)->0).1;
    if session.attempts < session.budget {
        let before = input_turns(JsonView::Object(session.request.rest).get("input"@));
        let more = followup(mended(calls, tools), nudge);
        assert(more[0] == turn("assistant"@, json_text(calls_json(mended(calls, tools)))));
        assert(more[1] == turn("user"@, nudge));
        assert((before + more).take(before.len() as int) =~= before);
        assert(after.request.rest.remove("input"@) =~= session.request.rest.remove("input"@));
    }
}

/// Calls that are in order after the repairs are what the client gets, all of them
/// and as the repairs left them; and it is recorded whether it took retries.
pub proof fn good_calls_reach_the_client(
    session: ResponsesSessionView,
    answer: ResponsesResult,
    usage: Option<Usage>,
    kinds: Seq<PathKind>,
    ts: Seq<char>,
)
    requires
        !(answer is Text),
        all_in_order(
            mended(answer_calls(answer), session.tools),
            session.tools,
        ),
        !(session.respond_active && responded(answer_calls(answer)) is Some),
        failure_from(answer_calls(answer), &session.transcript, kinds, 0) is None,
    ensures
        ({
            let tools = session.tools;
            let calls = mended(answer_calls(answer), tools);
            step_after_answer(session, answer, usage, None, kinds, ts) matches StepView::Done {
                record,
                body,
            } && {
                &&& body == Some(
                    calls_body(
                        answer_template(answer),
                        calls,
                        if answer is Rescued {
                            trim(prose_of(answer_text(answer)))
                        } else {
                            Seq::empty()
                        },
                    ),
                )
                &&& record.retries == session.attempts as u32
                &&& record.error_category is None
                &&& record.outcome == (if session.attempts > 0 {
                    Outcome::RecoveredAfterRetry
                } else if is_mended(answer_calls(answer), tools) {
                    Outcome::Repaired
                } else if answer is Rescued {
                    Outcome::Rescued
                } else {
                    Outcome::NativeValid
                })
                &&& answer is Rescued ==> record.parser == Some(answer->parser)
                &&& !(answer is Rescued) ==> record.parser is None
                &&& calls.len() > 0 ==> record.tool_name == Some(calls[0].name)
            }
        }),
{
    let tools = session.tools;
    good_calls_are_accepted(
        answer_calls(answer),
        tools,
        session.respond_active,
        Seq::empty(),
        session.attempts < session.budget,
    );
}

/// A text answer through the `respond` tool reaches the client as text; calls that
/// a precondition forbids do not reach it, and it is told why.
pub proof fn responses_and_refusals_are_told(
    session: ResponsesSessionView,
    answer: ResponsesResult,
    usage: Option<Usage>,
    kinds: Seq<PathKind>,
    ts: Seq<char>,
    text: Seq<char>,
)
    requires
        !(answer is Text),
    ensures
        ({
            let step = step_after_answer(session, answer, usage, None, kinds, ts);
            let spoken = session.respond_active && responded(answer_calls(answer)) is Some;
            let forbidden = failure_from(answer_calls(answer), &session.transcript, kinds, 0);
            &&& session.respond_active && responded(answer_calls(answer)) == Some(text) ==> (
            step matches StepView::Done { record, body } && record.outcome
                == Outcome::RespondIntercept && body == Some(
                text_body(answer_template(answer), text),
            ))
            &&& !spoken && forbidden == Some(text) ==> (step matches StepView::Done { record, body }
                && record.outcome == Outcome::WriteRefused && record.detail == Some(text) && body
                == Some(
                text_body(
                    answer_template(answer),
                    "The tool call could not be completed. "@ + text,
                ),
            ))
        }),
{
}

/// What is recorded names the provider, the model, the time, the retries, the
/// tokens of every attempt, and the turn: the id that the backend gave it last,
/// and the one that it continues.
pub proof fn records_say_whose_they_are(
    session: ResponsesSessionView,
    answer: ResponsesResult,
    usage: Usage,
    cut: Option<Seq<char>>,
    kinds: Seq<PathKind>,
    ts: Seq<char>,
)
    ensures
        ({
            let step = step_after_answer(session, answer, Some(usage), cut, kinds, ts);
            let after = after_answer(session, answer, Some(usage), cut, kinds);
            let record = match step {
                StepView::Done { record, .. } => record,
                StepView::Broken { record, .. } => record,
                StepView::Again => after.record(ts, plain_outcome(Outcome::InternalError)),
            };
            let id = match answer_template(answer).get("id"@) {
                Some(JsonView::Str(id)) => Some(id),
                _ => session.id,
            };
            &&& after.id == id
            &&& after.billed == usage_sum(session.billed, usage)
            &&& after.parent == session.parent
            &&& record.ts == ts
            &&& record.provider == session.provider
            &&& record.model == session.request.model
            &&& !(step is Again) && session.attempts <= u32::MAX ==> record.retries
                == session.attempts
            &&& record.usage == recorded_usage(usage_sum(session.billed, usage))
            &&& record.conversation == (match id {
                Some(id) => Some((id, session.parent)),
                None => None,
            })
            &&& record.prefix_chain is None
        }),
{
}

/// A plain text ends the session, recorded as such.
pub proof fn plain_text_is_passed_through(
    session: ResponsesSessionView,
    template: JsonView,
    text: Seq<char>,
    usage: Option<Usage>,
    kinds: Seq<PathKind>,
    ts: Seq<char>,
)
    ensures
        step_after_answer(
            session,
            ResponsesResult::Text { text, template },
            usage,
            None,
            kinds,
            ts,
        ) matches StepView::Done { record, body } && record.outcome == Outcome::PassthroughNoCalls
            && body is None,
{
}

/// A request is sent as the client made it, but as a stream and, where the client
/// declares no tool of that name, with the `respond` tool behind the others.
pub proof fn requests_are_sent_as_made(request: ResponsesView, name: Seq<char>, i: int)
    ensures
        ({
            let sent = guarded_responses(request);
            &&& sent.model == request.model
            &&& sent.rest.contains_key("stream"@) && sent.rest["stream"@] == JsonView::Bool(true)
            &&& name != "stream"@ ==> JsonView::Object(sent.rest).get(name) == JsonView::Object(
                request.rest,
            ).get(name)
            &&& among_tools(tools_of(request)) ==> sent.tools == request.tools
            &&& !among_tools(tools_of(request)) ==> {
                let before = match request.tools {
                    Some(tools) => tools,
                    None => Seq::empty(),
                };
                sent.tools matches Some(tools) && tools.len() == before.len() + 1 && (0 <= i
                    < before.len() ==> tools[i] == before[i]) && tools.last() == flat_tool(
                    respond_definition(),
                )
            }
        }),
{
}

/// Text is passed on live on the first attempt alone, and only where the backend
/// streams.
pub proof fn only_first_attempts_are_live(session: ResponsesSessionView, native: bool)
    ensures
        session.forwards(native) <==> native && session.attempts == 0,
{
}

/// All of what an answer holds counts: every call, the whole text, the response
/// that it is shaped like, and the format that it was rescued from.
pub proof fn all_of_an_answer_counts(
    calls: Seq<CallView>,
    template: JsonView,
    text: Seq<char>,
    parser: Seq<char>,
)
    ensures
        ({
            let native = ResponsesResult::ToolCalls { calls, template, text };
            let rescued = ResponsesResult::Rescued { parser, calls, template, text };
            let plain = ResponsesResult::Text { text, template };
            &&& answer_calls(native) == calls && answer_calls(rescued) == calls && answer_calls(
                plain,
            ).len() == 0
            &&& answer_text(native) == text && answer_text(rescued) == text && answer_text(plain)
                == text
            &&& answer_template(native) == template && answer_template(rescued) == template
                && answer_template(plain) == template
            &&& answer_parser(native) is None && answer_parser(rescued) == Some(parser)
                && answer_parser(plain) is None
        }),
{
}

/// The client's own turns are the items of its input, where it is a list.
pub proof fn the_input_is_what_was_read(request: ResponsesView, items: Seq<JsonView>, i: int)
    ensures
        request.rest.contains_key("input"@) && request.rest["input"@] == JsonView::Array(items)
            ==> input_list(request) == items,
        !(request.rest.contains_key("input"@) && request.rest["input"@] is Array) ==> input_list(
            request,
        ).len() == 0,
        0 <= i < tools_of(request).len() && tools_of(request)[i].name == "respond"@
            ==> among_tools(tools_of(request)),
        among_tools(tools_of(request)) ==> exists|k: int|
            0 <= k < tools_of(request).len() && (#[trigger] tools_of(request)[k]).name
                == "respond"@,
        request.tools matches Some(tools) ==> tools_of(request)
            == crate::domain::responses::lifted_tools(tools, tools.len() as int),
{
}

} // verus!
