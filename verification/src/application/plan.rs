//! What is done with a request that arrives.
use vstd::prelude::*;

use super::members::{chat_names_twice, chat_repeats, responses_name_twice, responses_repeat};
use super::models::{
    dispatch_chat, dispatch_responses, dispatched, hidden_model_body, not_exposed, rewrite_model,
    rewritten, Dispatch,
};
use super::ruling::{passthrough_record, passthrough_view};
use crate::domain::metrics::OutcomeRecord;
use crate::domain::model::{chat_in, wants_stream, ChatRequest, ChatView};
use crate::domain::provider::Provider;
use crate::domain::registry::{Registry, RegistryView};
use crate::domain::responses::{responses_in, ResponsesRequest, ResponsesView};
use crate::json::{json_of, json_text, parse, render, Json, JsonView};

verus! {

/// What is done with a request; `R` is what it asks for.
#[derive(Debug)]
pub enum Plan<R> {
    /// It is answered with an error: its model is not exposed.
    Refuse { told: Json },
    /// It is guarded. `streams` says whether the client asked for a stream.
    Guard { provider: Provider, request: R, streams: bool },
    /// It is recorded and forwarded: with this body where there is one, else as
    /// it arrived.
    Forward { provider: Provider, body: Option<String>, record: OutcomeRecord },
    /// It is forwarded as it arrived, and nothing is recorded.
    Relay { provider: Provider },
}

/// The JSON that a posted body holds.
pub open spec fn posted_json(posted: bool, body: Seq<char>) -> Option<JsonView> {
    if posted {
        json_of(body)
    } else {
        None
    }
}

/// The chat request that a posted body makes. A body that names twice what is
/// read of it makes none.
pub open spec fn posted_chat(posted: bool, body: Seq<char>) -> Option<ChatView> {
    match posted_json(posted, body) {
        Some(v) => if chat_repeats(body) {
            None
        } else {
            chat_in(v)
        },
        None => None,
    }
}

/// The Responses request that a posted body makes. A body that names twice what
/// is read of it makes none.
pub open spec fn posted_responses(posted: bool, body: Seq<char>) -> Option<ResponsesView> {
    match posted_json(posted, body) {
        Some(v) => if responses_repeat(body) {
            None
        } else {
            responses_in(v)
        },
        None => None,
    }
}

/// The id that a provider is asked for a model by.
pub open spec fn upstream_id(registry: RegistryView, model: Seq<char>) -> Seq<char> {
    match registry.target(model).1 {
        Some(bare) => bare,
        None => model,
    }
}

/// The body that is forwarded in place of the one that arrived: one without the
/// qualifier, where the model had one.
pub open spec fn forwarded_body(
    registry: RegistryView,
    model: Seq<char>,
    v: JsonView,
) -> Option<Seq<char>> {
    match registry.target(model).1 {
        Some(bare) => Some(json_text(rewritten(v, bare))),
        None => None,
    }
}

fn posted_value(posted: bool, body: &str) -> (value: Option<Json>)
    ensures
        crate::json::seen_json(value) == posted_json(posted, body@),
{
    if posted {
        parse(body)
    } else {
        None
    }
}

fn body_to_forward(value: &Json, upstream: Option<&str>) -> (body: Option<String>)
    ensures
        crate::domain::decode::owned_text(body) == (match crate::json::seen_text(upstream) {
            Some(bare) => Some(json_text(rewritten(value@, bare))),
            None => None,
        }),
{
    match upstream {
        Some(model) => Some(render(&rewrite_model(value, model))),
        None => None,
    }
}

/// Decides what is done with a request to `/v1/chat/completions`. A request
/// that declares no tools is forwarded as it arrived, unless a qualifier has to
/// be taken off its model.
pub fn plan_chat(registry: &Registry, posted: bool, body: &str, ts: &str) -> (plan: Plan<
    ChatRequest,
>)
    ensures
        match posted_chat(posted, body@) {
            None => plan matches Plan::Relay { provider } && provider@ == registry@.providers[0],
            Some(asked) => {
                let id = upstream_id(registry@, asked.model);
                let server = registry@.providers[registry@.target(asked.model).0];
                match dispatched(
                    registry@,
                    asked.model,
                    asked.tools matches Some(tools) && tools.len() > 0,
                    wants_stream(asked.rest),
                ) {
                    Dispatch::Refuse => plan matches Plan::Refuse { told } && told@
                        == not_exposed(asked.model),
                    Dispatch::Guard => plan matches Plan::Guard { provider, request, streams }
                        && provider@ == server && request@ == (ChatView { model: id, ..asked })
                        && streams == wants_stream(asked.rest),
                    Dispatch::Forward { streams } => plan matches Plan::Forward {
                        provider,
                        body: other,
                        record,
                    } && provider@ == server && crate::domain::decode::owned_text(other)
                        == forwarded_body(
                        registry@,
                        asked.model,
                        posted_json(posted, body@)->0,
                    ) && record@ == passthrough_view(ts@, server.name, id, streams),
                    Dispatch::Relay => false,
                }
            },
        },
{
    let value = match posted_value(posted, body) {
        Some(value) => value,
        None => {
            return Plan::Relay { provider: registry.default_provider().clone() };
        },
    };
    if chat_names_twice(body) {
        return Plan::Relay { provider: registry.default_provider().clone() };
    }
    let mut request = match ChatRequest::from_json(&value) {
        Some(request) => request,
        None => {
            return Plan::Relay { provider: registry.default_provider().clone() };
        },
    };
    let ghost asked = request@;
    let what = dispatch_chat(registry, Some(&request));
    let model: String = request.model.clone();
    let (server, upstream) = registry.resolve_upstream(Some(model.as_str()));
    let id: &str = match upstream {
        Some(bare) => bare,
        None => model.as_str(),
    };
    match what {
        Dispatch::Refuse => Plan::Refuse { told: hidden_model_body(model.as_str()) },
        Dispatch::Guard => {
            let streams: bool = request.stream();
            request.model = id.to_owned();
            assert(request@ =~= (ChatView { model: id@, ..asked }));
            Plan::Guard { provider: server.clone(), request, streams }
        },
        Dispatch::Forward { streams } => Plan::Forward {
            provider: server.clone(),
            body: body_to_forward(&value, upstream),
            record: passthrough_record(ts, server.name(), id, streams),
        },
        Dispatch::Relay => Plan::Relay { provider: registry.default_provider().clone() },
    }
}

/// Decides what is done with a request to `/v1/responses`.
pub fn plan_responses(registry: &Registry, posted: bool, body: &str, ts: &str) -> (plan: Plan<
    ResponsesRequest,
>)
    ensures
        match posted_responses(posted, body@) {
            None => plan matches Plan::Relay { provider } && provider@ == registry@.providers[0],
            Some(asked) => {
                let id = upstream_id(registry@, asked.model);
                let server = registry@.providers[registry@.target(asked.model).0];
                match dispatched(
                    registry@,
                    asked.model,
                    asked.tools matches Some(tools) && tools.len() > 0,
                    wants_stream(asked.rest),
                ) {
                    Dispatch::Refuse => plan matches Plan::Refuse { told } && told@
                        == not_exposed(asked.model),
                    Dispatch::Guard => plan matches Plan::Guard { provider, request, streams }
                        && provider@ == server && request@ == (ResponsesView { model: id, ..asked })
                        && streams == wants_stream(asked.rest),
                    Dispatch::Forward { streams } => plan matches Plan::Forward {
                        provider,
                        body: other,
                        record,
                    } && provider@ == server && crate::domain::decode::owned_text(other)
                        == forwarded_body(
                        registry@,
                        asked.model,
                        posted_json(posted, body@)->0,
                    ) && record@ == passthrough_view(ts@, server.name, id, streams),
                    Dispatch::Relay => false,
                }
            },
        },
{
    let value = match posted_value(posted, body) {
        Some(value) => value,
        None => {
            return Plan::Relay { provider: registry.default_provider().clone() };
        },
    };
    if responses_name_twice(body) {
        return Plan::Relay { provider: registry.default_provider().clone() };
    }
    let mut request = match ResponsesRequest::from_json(&value) {
        Some(request) => request,
        None => {
            return Plan::Relay { provider: registry.default_provider().clone() };
        },
    };
    let ghost asked = request@;
    let what = dispatch_responses(registry, Some(&request));
    let model: String = request.model.clone();
    let (server, upstream) = registry.resolve_upstream(Some(model.as_str()));
    let id: &str = match upstream {
        Some(bare) => bare,
        None => model.as_str(),
    };
    match what {
        Dispatch::Refuse => Plan::Refuse { told: hidden_model_body(model.as_str()) },
        Dispatch::Guard => {
            let streams: bool = request.stream();
            request.model = id.to_owned();
            assert(request@ =~= (ResponsesView { model: id@, ..asked }));
            Plan::Guard { provider: server.clone(), request, streams }
        },
        Dispatch::Forward { streams } => Plan::Forward {
            provider: server.clone(),
            body: body_to_forward(&value, upstream),
            record: passthrough_record(ts, server.name(), id, streams),
        },
        Dispatch::Relay => Plan::Relay { provider: registry.default_provider().clone() },
    }
}

// ── laws ────────────────────────────────────────────────────────────────────

/// A body is read as a request only where it was posted, is JSON, and names
/// nothing twice that is read of it.
pub proof fn only_posted_requests_are_read(body: Seq<char>, posted: bool, v: JsonView)
    ensures
        !posted ==> posted_chat(posted, body) is None && posted_responses(posted, body) is None,
        json_of(body) is None ==> posted_chat(posted, body) is None && posted_responses(
            posted,
            body,
        ) is None,
        posted && json_of(body) == Some(v) && !chat_repeats(body) ==> posted_chat(posted, body)
            == chat_in(v),
        posted && json_of(body) == Some(v) && !responses_repeat(body) ==> posted_responses(
            posted,
            body,
        ) == responses_in(v),
        chat_repeats(body) ==> posted_chat(posted, body) is None,
        responses_repeat(body) ==> posted_responses(posted, body) is None,
{
}

/// A request goes upstream under the bare name of a qualified model, and else as
/// it was.
pub proof fn bodies_are_forwarded_as_they_are(
    registry: RegistryView,
    model: Seq<char>,
    v: JsonView,
)
    ensures
        match registry.target(model).1 {
            Some(bare) => upstream_id(registry, model) == bare && forwarded_body(
                registry,
                model,
                v,
            ) == Some(json_text(rewritten(v, bare))),
            None => upstream_id(registry, model) == model && forwarded_body(
                registry,
                model,
                v,
            ) is None,
        },
{
}

} // verus!
