//! Routing a request, and the list of models that a client may ask for.
use vstd::prelude::*;

use crate::domain::model::{wants_stream, ChatRequest};
use crate::domain::registry::{Registry, RegistryView};
use crate::domain::responses::ResponsesRequest;
use crate::json::{
    copy_items, items_in, items_of_value, json_of, parse, text_in, text_of_value, views, Json,
    JsonObject, JsonView,
};
use crate::names::NameMap;
use crate::text::same_text;

verus! {

/// What is to be done with a request.
#[derive(Debug, Clone, Copy, PartialEq, Eq, Structural)]
pub enum Dispatch {
    /// Its model is not exposed.
    Refuse,
    /// It declares tools, and is guarded.
    Guard,
    /// It declares none: it is recorded, and forwarded as it is.
    Forward { streams: bool },
    /// It is of no kind that is guarded: it is forwarded to the default
    /// provider.
    Relay,
}

/// What is to be done with a request for a model.
pub open spec fn dispatched(
    registry: RegistryView,
    model: Seq<char>,
    has_tools: bool,
    streams: bool,
) -> Dispatch {
    if registry.refuses(model) {
        Dispatch::Refuse
    } else if has_tools {
        Dispatch::Guard
    } else {
        Dispatch::Forward { streams }
    }
}

/// Decides what is to be done with a chat request, if it is one.
pub fn dispatch_chat(registry: &Registry, request: Option<&ChatRequest>) -> (what: Dispatch)
    ensures
        what == match request {
            Some(r) => dispatched(
                registry@,
                r@.model,
                r@.tools matches Some(tools) && tools.len() > 0,
                wants_stream(r@.rest),
            ),
            None => Dispatch::Relay,
        },
{
    match request {
        Some(request) => if registry.is_hidden(request.model.as_str()) {
            Dispatch::Refuse
        } else if request.has_tools() {
            Dispatch::Guard
        } else {
            Dispatch::Forward { streams: request.stream() }
        },
        None => Dispatch::Relay,
    }
}

/// Decides what is to be done with a Responses request, if it is one.
pub fn dispatch_responses(registry: &Registry, request: Option<&ResponsesRequest>) -> (what:
    Dispatch)
    ensures
        what == match request {
            Some(r) => dispatched(
                registry@,
                r@.model,
                r@.tools matches Some(tools) && tools.len() > 0,
                wants_stream(r@.rest),
            ),
            None => Dispatch::Relay,
        },
{
    match request {
        Some(request) => if registry.is_hidden(request.model.as_str()) {
            Dispatch::Refuse
        } else if request.has_tools() {
            Dispatch::Guard
        } else {
            Dispatch::Forward { streams: request.stream() }
        },
        None => Dispatch::Relay,
    }
}

/// What a client is told whose model is not exposed.
pub open spec fn not_exposed(model: Seq<char>) -> JsonView {
    JsonView::Object(
        map![
            "error"@ => JsonView::Object(
                map![
                    "message"@ => JsonView::Str(
                        "The model `"@ + model + "` is not exposed by this proxy."@,
                    ),
                    "type"@ => JsonView::Str("invalid_request_error"@),
                    "code"@ => JsonView::Str("model_not_found"@),
                ],
            ),
        ],
    )
}

/// What a client is told whose model is not exposed.
pub fn hidden_model_body(model: &str) -> (body: Json)
    ensures
        body@ == not_exposed(model@),
{
    let message = "The model `".to_owned().concat(model).concat(
        "` is not exposed by this proxy.",
    );
    let error = JsonObject::new().with("message", Json::Str(message)).with(
        "type",
        Json::text("invalid_request_error"),
    ).with("code", Json::text("model_not_found"));
    Json::Object(JsonObject::new().with("error", Json::Object(error)))
}

/// A request body that asks for another model.
pub open spec fn rewritten(body: JsonView, model: Seq<char>) -> JsonView {
    match body {
        JsonView::Object(members) => JsonView::Object(
            members.insert("model"@, JsonView::Str(model)),
        ),
        other => other,
    }
}

/// A request body that asks for another model.
pub fn rewrite_model(body: &Json, model: &str) -> (out: Json)
    ensures
        out@ == rewritten(body@, model@),
{
    match body {
        Json::Object(members) => Json::Object(members.clone().with("model", Json::text(model))),
        _ => body.clone(),
    }
}

// ── the list ────────────────────────────────────────────────────────────────

/// The models that a provider's answer lists.
pub open spec fn models_listed(body: Seq<char>) -> Option<Seq<JsonView>> {
    match json_of(body) {
        Some(v) => items_in(v.get("data"@)),
        None => None,
    }
}

/// Reads the models that a provider's answer lists.
pub fn read_models(body: &str) -> (models: Option<Vec<Json>>)
    ensures
        match models {
            Some(list) => models_listed(body@) == Some(views(list@)),
            None => models_listed(body@) is None,
        },
{
    match parse(body) {
        Some(v) => match items_of_value(v.get("data")) {
            Some(items) => Some(copy_items(items)),
            None => None,
        },
        None => None,
    }
}

/// The id of a listed model; empty where it has none.
pub open spec fn model_id(model: JsonView) -> Seq<char> {
    match text_in(model.get("id"@)) {
        Some(id) => id,
        None => Seq::empty(),
    }
}

/// A listed model with the provider that serves it.
pub open spec fn tagged_model(model: JsonView, provider: Seq<char>) -> JsonView {
    match model {
        JsonView::Object(members) => JsonView::Object(
            members.insert("provider"@, JsonView::Str(provider)),
        ),
        other => other,
    }
}

/// What is listed so far, and the ids that are.
#[verifier::ext_equal]
pub struct Listing {
    pub models: Seq<JsonView>,
    pub ids: Map<Seq<char>, ()>,
}

/// Whether a provider hides a model.
pub open spec fn provider_hides(
    registry: RegistryView,
    provider: Seq<char>,
    model: Seq<char>,
) -> bool {
    registry.index(provider) matches Some(i) && registry.hidden.contains((model, i))
}

/// What a provider answered, by views: its name, and its models where it
/// answered.
pub type AnswerView = (Seq<char>, Option<Seq<JsonView>>);

/// The name of the provider that a request for a model reaches.
pub open spec fn server_of(registry: RegistryView, model: Seq<char>) -> Seq<char> {
    registry.providers[registry.target(model).0].name
}

/// Whether models hold one of an id.
pub open spec fn has_model(models: Seq<JsonView>, id: Seq<char>) -> bool {
    exists|j: int| 0 <= j < models.len() && model_id(#[trigger] models[j]) == id
}

/// Whether an answer is that of a provider and lists an id.
pub open spec fn answer_lists(answer: AnswerView, provider: Seq<char>, id: Seq<char>) -> bool {
    answer.0 == provider && (answer.1 matches Some(models) && has_model(models, id))
}

/// Whether a provider lists an id.
pub open spec fn listed_by(answers: Seq<AnswerView>, provider: Seq<char>, id: Seq<char>) -> bool {
    exists|a: int| 0 <= a < answers.len() && answer_lists(#[trigger] answers[a], provider, id)
}

/// Whether a model that a provider lists is left out: where a request for it
/// would be refused or the provider hides it, and where such a request reaches
/// another provider, which lists it too.
pub open spec fn left_out(
    registry: RegistryView,
    answers: Seq<AnswerView>,
    provider: Seq<char>,
    id: Seq<char>,
) -> bool {
    ||| registry.refuses(id)
    ||| provider_hides(registry, provider, id)
    ||| id.len() > 0 && server_of(registry, id) != provider && listed_by(
        answers,
        server_of(registry, id),
        id,
    )
}

/// The listing after one more model: one that is to be left out is, as is one
/// whose id is listed already.
pub open spec fn listed_one(
    listing: Listing,
    registry: RegistryView,
    answers: Seq<AnswerView>,
    provider: Seq<char>,
    model: JsonView,
) -> Listing {
    let id = model_id(model);
    if left_out(registry, answers, provider, id) || (id.len() > 0 && listing.ids.contains_key(id)) {
        listing
    } else {
        Listing {
            models: listing.models.push(tagged_model(model, provider)),
            ids: if id.len() > 0 {
                listing.ids.insert(id, ())
            } else {
                listing.ids
            },
        }
    }
}

/// The listing after the first `n` models of a provider.
pub open spec fn listed_some(
    listing: Listing,
    registry: RegistryView,
    answers: Seq<AnswerView>,
    provider: Seq<char>,
    models: Seq<JsonView>,
    n: int,
) -> Listing
    decreases n,
{
    if n <= 0 {
        listing
    } else {
        listed_one(
            listed_some(listing, registry, answers, provider, models, n - 1),
            registry,
            answers,
            provider,
            models[n - 1],
        )
    }
}

/// The listing after the answers of the first `n` providers.
pub open spec fn listed_all(registry: RegistryView, answers: Seq<AnswerView>, n: int) -> Listing
    decreases n,
{
    if n <= 0 {
        Listing { models: Seq::empty(), ids: Map::empty() }
    } else {
        let before = listed_all(registry, answers, n - 1);
        match answers[n - 1].1 {
            Some(models) => listed_some(
                before,
                registry,
                answers,
                answers[n - 1].0,
                models,
                models.len() as int,
            ),
            None => before,
        }
    }
}

/// The answers by their views.
pub open spec fn answer_views(answers: Seq<(String, Option<Vec<Json>>)>) -> Seq<AnswerView> {
    answers.map_values(
        |a: (String, Option<Vec<Json>>)|
            (
                a.0@,
                match a.1 {
                    Some(list) => Some(views(list@)),
                    None => None,
                },
            ),
    )
}

fn id_of(model: &Json) -> (id: &str)
    ensures
        id@ == model_id(model@),
{
    match text_of_value(model.get("id")) {
        Some(id) => id,
        None => {
            proof {
                reveal_strlit("");
                assert(""@ =~= Seq::<char>::empty());
            }
            ""
        },
    }
}

fn is_listed_by(answers: &Vec<(String, Option<Vec<Json>>)>, provider: &str, id: &str) -> (yes: bool)
    ensures
        yes == listed_by(answer_views(answers@), provider@, id@),
{
    let ghost all = answer_views(answers@);
    for a in 0..answers.len()
        invariant
            all == answer_views(answers@),
            forall|k: int| 0 <= k < a ==> !answer_lists(#[trigger] all[k], provider@, id@),
    {
        if let Some(models) = &answers[a].1 {
            let ghost list = views(models@);
            assert(all[a as int] == (answers@[a as int].0@, Some(list)));
            if same_text(answers[a].0.as_str(), provider) {
                for j in 0..models.len()
                    invariant
                        list == views(models@),
                        forall|k: int| 0 <= k < j ==> model_id(#[trigger] list[k]) != id@,
                        all == answer_views(answers@),
                        a < answers@.len(),
                        all[a as int] == (provider@, Some(list)),
                {
                    assert(list[j as int] == models@[j as int]@);
                    if same_text(id_of(&models[j]), id) {
                        assert(has_model(list, id@));
                        assert(answer_lists(all[a as int], provider@, id@));
                        return true;
                    }
                }
            }
        }
    }
    false
}

fn is_left_out(
    registry: &Registry,
    answers: &Vec<(String, Option<Vec<Json>>)>,
    provider: &str,
    id: &str,
) -> (yes: bool)
    ensures
        yes == left_out(registry@, answer_views(answers@), provider@, id@),
{
    if registry.is_hidden(id) || registry.hides(provider, id) {
        return true;
    }
    if id.is_empty() {
        return false;
    }
    let server = registry.resolve(Some(id)).name();
    !same_text(server, provider) && is_listed_by(answers, server, id)
}

/// Merges the models of all providers, in their order, into one list; nothing
/// where none of them answered.
pub fn merge_models(registry: &Registry, answers: &Vec<(String, Option<Vec<Json>>)>) -> (body:
    Option<Json>)
    ensures
        ({
            let all = answer_views(answers@);
            match body {
                Some(json) => json@ == JsonView::Object(
                    map![
                        "object"@ => JsonView::Str("list"@),
                        "data"@ => JsonView::Array(
                            listed_all(registry@, all, all.len() as int).models,
                        ),
                    ],
                ) && exists|i: int| 0 <= i < all.len() && (#[trigger] all[i]).1 is Some,
                None => forall|i: int| 0 <= i < all.len() ==> (#[trigger] all[i]).1 is None,
            }
        }),
{
    broadcast use crate::json::array_view;

    let ghost all = answer_views(answers@);
    let mut merged: Vec<Json> = Vec::new();
    let mut ids: NameMap<()> = NameMap::new();
    let mut reachable: bool = false;
    assert(views(merged@) =~= Seq::empty());
    for i in 0..answers.len()
        invariant
            all == answer_views(answers@),
            listed_all(registry@, all, i as int) == (Listing { models: views(merged@), ids: ids@ }),
            reachable == exists|k: int| 0 <= k < i && (#[trigger] all[k]).1 is Some,
    {
        let provider = answers[i].0.as_str();
        let ghost before = Listing { models: views(merged@), ids: ids@ };
        if let Some(models) = &answers[i].1 {
            let ghost list = views(models@);
            assert(all[i as int] == (provider@, Some(list)));
            reachable = true;
            for j in 0..models.len()
                invariant
                    all == answer_views(answers@),
                    list == views(models@),
                    listed_some(before, registry@, all, provider@, list, j as int) == (Listing {
                        models: views(merged@),
                        ids: ids@,
                    }),
            {
                let ghost read = views(merged@);
                let model = &models[j];
                assert(list[j as int] == model@);
                let id = id_of(model);
                if !is_left_out(registry, answers, provider, id) && (id.is_empty()
                    || !ids.contains_key(id)) {
                    if !id.is_empty() {
                        ids.insert(id, ());
                    }
                    let entry = match model {
                        Json::Object(members) => Json::Object(
                            members.clone().with("provider", Json::text(provider)),
                        ),
                        other => other.clone(),
                    };
                    merged.push(entry);
                    assert(views(merged@) =~= read.push(entry@));
                }
            }
        } else {
            assert(all[i as int].1 is None);
        }
    }
    if !reachable {
        return None;
    }
    Some(
        Json::Object(
            JsonObject::new().with("object", Json::text("list")).with(
                "data",
                Json::Array(merged),
            ),
        ),
    )
}

// ── laws ────────────────────────────────────────────────────────────────────

/// Whether an entry is a model that a provider lists and that is not left out,
/// tagged with that provider's name.
pub open spec fn is_entry(
    entry: JsonView,
    registry: RegistryView,
    answers: Seq<AnswerView>,
    provider: Seq<char>,
    model: JsonView,
) -> bool {
    entry == tagged_model(model, provider) && !left_out(
        registry,
        answers,
        provider,
        model_id(model),
    )
}

/// Whether an entry is the `j`th model of the `a`th answer, not left out and
/// tagged with the provider's name.
pub open spec fn comes_from(
    entry: JsonView,
    registry: RegistryView,
    answers: Seq<AnswerView>,
    a: int,
    j: int,
) -> bool {
    &&& 0 <= a < answers.len()
    &&& answers[a].1 is Some
    &&& 0 <= j < answers[a].1->0.len()
    &&& is_entry(entry, registry, answers, answers[a].0, answers[a].1->0[j])
}

proof fn entries_of_some(
    listing: Listing,
    registry: RegistryView,
    answers: Seq<AnswerView>,
    provider: Seq<char>,
    models: Seq<JsonView>,
    n: int,
    k: int,
)
    requires
        listing.models.len() <= k < listed_some(
            listing,
            registry,
            answers,
            provider,
            models,
            n,
        ).models.len(),
        0 <= n <= models.len(),
    ensures
        exists|j: int|
            0 <= j < models.len() && is_entry(
                listed_some(listing, registry, answers, provider, models, n).models[k],
                registry,
                answers,
                provider,
                #[trigger] models[j],
            ),
    decreases n,
{
    if n > 0 {
        let before = listed_some(listing, registry, answers, provider, models, n - 1);
        if k < before.models.len() {
            entries_of_some(listing, registry, answers, provider, models, n - 1, k);
            let j = choose|j: int|
                0 <= j < models.len() && is_entry(
                    before.models[k],
                    registry,
                    answers,
                    provider,
                    #[trigger] models[j],
                );
            assert(is_entry(before.models[k], registry, answers, provider, models[j]));
        } else {
            assert(is_entry(
                tagged_model(models[n - 1], provider),
                registry,
                answers,
                provider,
                models[n - 1],
            ));
        }
    }
}

proof fn listing_grows(
    listing: Listing,
    registry: RegistryView,
    answers: Seq<AnswerView>,
    provider: Seq<char>,
    models: Seq<JsonView>,
    n: int,
)
    ensures
        ({
            let after = listed_some(listing, registry, answers, provider, models, n);
            &&& listing.models.len() <= after.models.len()
            &&& forall|k: int|
                0 <= k < listing.models.len() ==> #[trigger] after.models[k] == listing.models[k]
            &&& forall|id: Seq<char>| #[trigger]
                listing.ids.contains_key(id) ==> after.ids.contains_key(id)
        }),
    decreases n,
{
    if n > 0 {
        listing_grows(listing, registry, answers, provider, models, n - 1);
    }
}

proof fn entries_of_all(registry: RegistryView, answers: Seq<AnswerView>, n: int, k: int)
    requires
        0 <= n <= answers.len(),
        0 <= k < listed_all(registry, answers, n).models.len(),
    ensures
        exists|a: int, j: int| #[trigger]
            comes_from(listed_all(registry, answers, n).models[k], registry, answers, a, j),
    decreases n,
{
    if n > 0 {
        let before = listed_all(registry, answers, n - 1);
        let provider = answers[n - 1].0;
        if let Some(models) = answers[n - 1].1 {
            let m = models.len() as int;
            listing_grows(before, registry, answers, provider, models, m);
            let entry = listed_all(registry, answers, n).models[k];
            if k < before.models.len() {
                entries_of_all(registry, answers, n - 1, k);
                assert(entry == before.models[k]);
            } else {
                entries_of_some(before, registry, answers, provider, models, m, k);
                let j = choose|j: int|
                    0 <= j < models.len() && is_entry(
                        entry,
                        registry,
                        answers,
                        provider,
                        #[trigger] models[j],
                    );
                assert(comes_from(entry, registry, answers, n - 1, j));
            }
        } else {
            entries_of_all(registry, answers, n - 1, k);
        }
    }
}

proof fn tag_keeps_id(model: JsonView, provider: Seq<char>)
    ensures
        model_id(tagged_model(model, provider)) == model_id(model),
        model_id(model).len() > 0 ==> tagged_model(model, provider).get("provider"@) == Some(
            JsonView::Str(provider),
        ),
{
    reveal_strlit("id");
    reveal_strlit("provider");
    assert("id"@.len() == 2 && "provider"@.len() == 8);
}

/// What is listed is served: a request for a listed id is not refused, and the
/// entry names the provider that the request reaches, where that one lists the
/// id.
pub proof fn listed_models_are_served(registry: RegistryView, answers: Seq<AnswerView>, k: int)
    requires
        0 <= k < listed_all(registry, answers, answers.len() as int).models.len(),
    ensures
        ({
            let entry = listed_all(registry, answers, answers.len() as int).models[k];
            let id = model_id(entry);
            id.len() > 0 ==> {
                &&& !registry.refuses(id)
                &&& listed_by(answers, server_of(registry, id), id) ==> entry.get("provider"@)
                    == Some(JsonView::Str(server_of(registry, id)))
            }
        }),
{
    let n = answers.len() as int;
    entries_of_all(registry, answers, n, k);
    let entry = listed_all(registry, answers, n).models[k];
    let (a, j) = choose|a: int, j: int| #[trigger]
        comes_from(entry, registry, answers, a, j);
    tag_keeps_id(answers[a].1->0[j], answers[a].0);
}

/// Every model that is listed is one that a provider lists itself and does not
/// hide, tagged with that provider's name.
pub proof fn hidden_models_are_not_listed(registry: RegistryView, answers: Seq<AnswerView>, k: int)
    requires
        0 <= k < listed_all(registry, answers, answers.len() as int).models.len(),
    ensures
        exists|a: int, j: int|
            #[trigger] comes_from(
                listed_all(registry, answers, answers.len() as int).models[k],
                registry,
                answers,
                a,
                j,
            ) && !provider_hides(registry, answers[a].0, model_id(answers[a].1->0[j])),
{
    let n = answers.len() as int;
    entries_of_all(registry, answers, n, k);
    let entry = listed_all(registry, answers, n).models[k];
    let (a, j) = choose|a: int, j: int| #[trigger]
        comes_from(entry, registry, answers, a, j);
    assert(!left_out(registry, answers, answers[a].0, model_id(answers[a].1->0[j])));
}

/// Whether every id that is noted as listed is listed.
spec fn notes_what_it_lists(listing: Listing) -> bool {
    forall|id: Seq<char>| #[trigger]
        listing.ids.contains_key(id) ==> has_model(listing.models, id)
}

proof fn noted_ids_are_listed(
    listing: Listing,
    registry: RegistryView,
    answers: Seq<AnswerView>,
    provider: Seq<char>,
    models: Seq<JsonView>,
    n: int,
    j: int,
)
    requires
        notes_what_it_lists(listing),
        0 <= n <= models.len(),
    ensures
        notes_what_it_lists(listed_some(listing, registry, answers, provider, models, n)),
        0 <= j < n && model_id(models[j]).len() > 0 && !left_out(
            registry,
            answers,
            provider,
            model_id(models[j]),
        ) ==> listed_some(
            listing,
            registry,
            answers,
            provider,
            models,
            n,
        ).ids.contains_key(model_id(models[j])),
    decreases n,
{
    if n > 0 {
        noted_ids_are_listed(listing, registry, answers, provider, models, n - 1, j);
        let before = listed_some(listing, registry, answers, provider, models, n - 1);
        let after = listed_some(listing, registry, answers, provider, models, n);
        tag_keeps_id(models[n - 1], provider);
        assert forall|id: Seq<char>| #[trigger] after.ids.contains_key(id) implies has_model(
            after.models,
            id,
        ) by {
            if before.ids.contains_key(id) {
                let k = choose|k: int|
                    0 <= k < before.models.len() && model_id(#[trigger] before.models[k]) == id;
                assert(model_id(after.models[k]) == id);
            } else {
                assert(model_id(after.models[before.models.len() as int]) == id);
            }
        }
    }
}

proof fn answered_ids_are_noted(
    registry: RegistryView,
    answers: Seq<AnswerView>,
    n: int,
    a: int,
    j: int,
)
    requires
        0 <= n <= answers.len(),
        0 <= a < answers.len(),
        answers[a].1 is Some,
        0 <= j < answers[a].1->0.len(),
        model_id(answers[a].1->0[j]).len() > 0,
        !left_out(registry, answers, answers[a].0, model_id(answers[a].1->0[j])),
    ensures
        notes_what_it_lists(listed_all(registry, answers, n)),
        a < n ==> listed_all(registry, answers, n).ids.contains_key(
            model_id(answers[a].1->0[j]),
        ),
    decreases n,
{
    if n > 0 {
        answered_ids_are_noted(registry, answers, n - 1, a, j);
        let before = listed_all(registry, answers, n - 1);
        if let Some(models) = answers[n - 1].1 {
            let provider = answers[n - 1].0;
            let m = models.len() as int;
            noted_ids_are_listed(before, registry, answers, provider, models, m, j);
            listing_grows(before, registry, answers, provider, models, m);
        }
    }
}

/// What is served is listed: a model that the provider lists which a request
/// for it reaches, is in the list, unless the request would be refused or the
/// provider hides it.
pub proof fn served_models_are_listed(
    registry: RegistryView,
    answers: Seq<AnswerView>,
    a: int,
    j: int,
)
    requires
        0 <= a < answers.len(),
        answers[a].1 is Some,
        0 <= j < answers[a].1->0.len(),
        model_id(answers[a].1->0[j]).len() > 0,
        answers[a].0 == server_of(registry, model_id(answers[a].1->0[j])),
        !registry.refuses(model_id(answers[a].1->0[j])),
        !provider_hides(registry, answers[a].0, model_id(answers[a].1->0[j])),
    ensures
        has_model(
            listed_all(registry, answers, answers.len() as int).models,
            model_id(answers[a].1->0[j]),
        ),
{
    answered_ids_are_noted(registry, answers, answers.len() as int, a, j);
}

/// A request is refused where its model is; else it is guarded exactly where it
/// declares tools, and forwarded where it does not.
pub proof fn requests_with_tools_are_guarded(
    registry: RegistryView,
    model: Seq<char>,
    has_tools: bool,
    streams: bool,
)
    ensures
        registry.refuses(model) <==> dispatched(registry, model, has_tools, streams) is Refuse,
        !registry.refuses(model) && has_tools <==> dispatched(
            registry,
            model,
            has_tools,
            streams,
        ) is Guard,
        !registry.refuses(model) && !has_tools ==> dispatched(registry, model, has_tools, streams)
            == (Dispatch::Forward { streams }),
        !(dispatched(registry, model, has_tools, streams) is Relay),
{
}

/// A request that is forwarded under another model says so, and nothing else of it
/// changes.
pub proof fn only_the_model_is_rewritten(body: JsonView, model: Seq<char>, name: Seq<char>)
    requires
        body is Object,
    ensures
        rewritten(body, model).get("model"@) == Some(JsonView::Str(model)),
        name != "model"@ ==> rewritten(body, model).get(name) == body.get(name),
{
}

/// What a client is told of a model that is not exposed names it, and that it was
/// not found.
pub proof fn unexposed_models_are_told_by_name(model: Seq<char>)
    ensures
        not_exposed(model).get("error"@) matches Some(error) && error.get("message"@) == Some(
            JsonView::Str("The model `"@ + model + "` is not exposed by this proxy."@),
        ) && error.get("type"@) == Some(JsonView::Str("invalid_request_error"@)) && error.get(
            "code"@,
        ) == Some(JsonView::Str("model_not_found"@)),
{
    reveal_strlit("message");
    reveal_strlit("type");
    reveal_strlit("code");
    assert("message"@.len() == 7 && "type"@[0] == 't' && "code"@[0] == 'c');
}

/// A listed model is the backend's own entry with its provider added.
pub proof fn entries_are_kept_and_tagged(model: JsonView, provider: Seq<char>, name: Seq<char>)
    requires
        model is Object,
    ensures
        tagged_model(model, provider).get("provider"@) == Some(JsonView::Str(provider)),
        name != "provider"@ ==> tagged_model(model, provider).get(name) == model.get(name),
{
}

spec fn notes_each_once(listing: Listing) -> bool {
    &&& forall|i: int|
        0 <= i < listing.models.len() && model_id(#[trigger] listing.models[i]).len() > 0
            ==> listing.ids.contains_key(model_id(listing.models[i]))
    &&& forall|i: int, j: int|
        0 <= i < j < listing.models.len() && model_id(#[trigger] listing.models[i]).len() > 0
            ==> model_id(listing.models[i]) != model_id(#[trigger] listing.models[j])
}

proof fn one_is_noted_once(
    listing: Listing,
    registry: RegistryView,
    answers: Seq<AnswerView>,
    provider: Seq<char>,
    model: JsonView,
)
    requires
        notes_each_once(listing),
    ensures
        notes_each_once(listed_one(listing, registry, answers, provider, model)),
{
    reveal_strlit("provider");
    reveal_strlit("id");
    assert("provider"@.len() == 8 && "id"@.len() == 2);
    let id = model_id(model);
    assert(model_id(tagged_model(model, provider)) == id);
    let after = listed_one(listing, registry, answers, provider, model);
    assert forall|i: int|
        0 <= i < after.models.len() && model_id(#[trigger] after.models[i]).len() > 0
        implies after.ids.contains_key(model_id(after.models[i])) by {
        if i < listing.models.len() {
            assert(after.models[i] == listing.models[i]);
        }
    }
    assert forall|i: int, j: int|
        0 <= i < j < after.models.len() && model_id(#[trigger] after.models[i]).len() > 0
        implies model_id(after.models[i]) != model_id(#[trigger] after.models[j]) by {
        assert(after.models[i] == listing.models[i]);
        if j < listing.models.len() {
            assert(after.models[j] == listing.models[j]);
        } else {
            assert(listing.ids.contains_key(model_id(listing.models[i])));
        }
    }
}

proof fn some_are_noted_once(
    listing: Listing,
    registry: RegistryView,
    answers: Seq<AnswerView>,
    provider: Seq<char>,
    models: Seq<JsonView>,
    n: int,
)
    requires
        notes_each_once(listing),
    ensures
        notes_each_once(listed_some(listing, registry, answers, provider, models, n)),
    decreases n,
{
    if n > 0 {
        some_are_noted_once(listing, registry, answers, provider, models, n - 1);
        one_is_noted_once(
            listed_some(listing, registry, answers, provider, models, n - 1),
            registry,
            answers,
            provider,
            models[n - 1],
        );
    }
}

proof fn all_are_noted_once(registry: RegistryView, answers: Seq<AnswerView>, n: int)
    ensures
        notes_each_once(listed_all(registry, answers, n)),
    decreases n,
{
    if n > 0 {
        all_are_noted_once(registry, answers, n - 1);
        if let Some(models) = answers[n - 1].1 {
            some_are_noted_once(
                listed_all(registry, answers, n - 1),
                registry,
                answers,
                answers[n - 1].0,
                models,
                models.len() as int,
            );
        }
    }
}

/// No model is listed twice.
pub proof fn models_are_listed_once(
    registry: RegistryView,
    answers: Seq<AnswerView>,
    i: int,
    j: int,
)
    requires
        0 <= i < j < listed_all(registry, answers, answers.len() as int).models.len(),
        model_id(listed_all(registry, answers, answers.len() as int).models[i]).len() > 0,
    ensures
        model_id(listed_all(registry, answers, answers.len() as int).models[i]) != model_id(
            listed_all(registry, answers, answers.len() as int).models[j],
        ),
{
    all_are_noted_once(registry, answers, answers.len() as int);
}

/// A backend's answer lists the items of its `data`, each by its `id`.
pub proof fn backends_list_their_data(body: Seq<char>, v: JsonView, items: Seq<JsonView>, id: Seq<char>)
    requires
        json_of(body) == Some(v),
    ensures
        v.get("data"@) == Some(JsonView::Array(items)) ==> models_listed(body) == Some(items),
        !(v.get("data"@) matches Some(JsonView::Array(_))) ==> models_listed(body) is None,
        v.get("id"@) == Some(JsonView::Str(id)) ==> model_id(v) == id,
        !(v.get("id"@) matches Some(JsonView::Str(_))) ==> model_id(v).len() == 0,
{
}

/// A model is served by the provider that it goes to; another provider's entry for
/// it is left out only where that one lists it too, and an entry that its own
/// provider hides, or that is refused, is left out in any case.
pub proof fn entries_are_left_out_for_a_reason(
    registry: RegistryView,
    answers: Seq<AnswerView>,
    provider: Seq<char>,
    id: Seq<char>,
    a: int,
    j: int,
)
    ensures
        server_of(registry, id) == registry.providers[registry.target(id).0].name,
        registry.refuses(id) ==> left_out(registry, answers, provider, id),
        (registry.index(provider) matches Some(i) && registry.hidden.contains((id, i)))
            ==> left_out(registry, answers, provider, id),
        !registry.refuses(id) && !(registry.index(provider) matches Some(i)
            && registry.hidden.contains((id, i))) && server_of(registry, id) == provider
            ==> !left_out(registry, answers, provider, id),
        0 <= a < answers.len() && (answers[a].1 matches Some(models) && 0 <= j < models.len()
            && model_id(models[j]) == id) ==> listed_by(answers, answers[a].0, id),
        (forall|k: int| 0 <= k < answers.len() ==> (#[trigger] answers[k]).0 != provider)
            ==> !listed_by(answers, provider, id),
{
    if 0 <= a < answers.len() {
        if let Some(models) = answers[a].1 {
            if 0 <= j < models.len() && model_id(models[j]) == id {
                assert(has_model(models, id));
                assert(answer_lists(answers[a], answers[a].0, id));
            }
        }
    }
}

} // verus!
