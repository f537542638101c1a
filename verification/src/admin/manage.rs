//! Changes to what the proxy exposes, and the registry that follows from them.
use vstd::prelude::*;

use crate::connector::{location_of, redact_backend_url, url_parts};
use crate::domain::config::{
    borrowed_settings, enabled_among, fresh_setting, place_of, settings, Config, ProviderConfig,
    ProviderSetting,
};
use crate::domain::decode::{copy_text, own_text, owned_text};
use crate::domain::provider::{reserved_after, without_slashes, Provider, ProviderView};
use crate::domain::registry::{provider_views, Registry, RegistryView};
use crate::json::{text_in, text_of_value, views, Json, JsonView};
use crate::names::{map_of, NameMap};
use crate::text::{lowered, same_text, strs, trim, trimmed_text};

verus! {

/// The name of the Copilot provider.
pub const COPILOT_PROVIDER: &'static str = "copilot";

/// The headers by which Copilot knows its clients.
pub open spec fn copilot_headers() -> Seq<Seq<char>> {
    seq![
        "copilot-integration-id"@,
        "editor-version"@,
        "editor-plugin-version"@,
        "x-github-api-version"@,
        "openai-intent"@,
        "user-agent"@,
    ]
}

/// The provider that a setting describes. Copilot owns its credential and the
/// headers that it is known by.
pub open spec fn provider_of(setting: ProviderSetting) -> ProviderView {
    let plain = ProviderView {
        name: setting.name,
        base_url: without_slashes(setting.base_url),
        reserved: Map::empty(),
        unversioned: setting.unversioned,
    };
    if setting.name == COPILOT_PROVIDER@ {
        ProviderView {
            reserved: reserved_after(
                Map::<Seq<char>, ()>::empty().insert(lowered("authorization"@), ()),
                copilot_headers(),
                copilot_headers().len() as int,
            ),
            ..plain
        }
    } else {
        plain
    }
}

/// The providers that a configuration routes to.
pub open spec fn providers_described(config: Seq<ProviderSetting>) -> Seq<ProviderView> {
    enabled_among(config, config.len() as int).map_values(|s: ProviderSetting| provider_of(s))
}

fn build_provider(setting: &ProviderConfig) -> (provider: Provider)
    ensures
        provider@ == provider_of(setting@),
{
    let plain = Provider::new(setting.name.as_str(), setting.base_url.as_str());
    let plain = if setting.unversioned {
        plain.unversioned()
    } else {
        plain
    };
    if same_text(setting.name.as_str(), COPILOT_PROVIDER) {
        let names: [&str; 6] = [
            "copilot-integration-id",
            "editor-version",
            "editor-plugin-version",
            "x-github-api-version",
            "openai-intent",
            "user-agent",
        ];
        assert(strs(names@) =~= copilot_headers());
        plain.owning_credential().reserving(names.as_slice())
    } else {
        plain
    }
}

/// The providers that a configuration routes to: the ones asked for their
/// models and the ones served from are the same.
pub fn providers_from(config: &Config) -> (providers: Vec<Provider>)
    ensures
        provider_views(providers@) == providers_described(config@),
{
    let list = config.enabled_providers();
    let ghost all = providers_described(config@);
    let mut providers: Vec<Provider> = Vec::new();
    for i in 0..list.len()
        invariant
            all == providers_described(config@),
            borrowed_settings(list@) == enabled_among(config@, config@.len() as int),
            provider_views(providers@) == all.take(i as int),
    {
        let ghost read = provider_views(providers@);
        assert(borrowed_settings(list@)[i as int] == list@[i as int]@);
        let provider = build_provider(list[i]);
        let ghost p = provider@;
        providers.push(provider);
        assert(provider_views(providers@) =~= read.push(p));
        assert(provider_views(providers@) =~= all.take(i + 1));
    }
    assert(all.len() == list@.len()) by {
        assert(borrowed_settings(list@).len() == list@.len());
    }
    assert(provider_views(providers@) =~= all);
    providers
}

// ── the catalogue ───────────────────────────────────────────────────────────

/// A model that a provider reports.
#[derive(Debug, PartialEq, Eq)]
pub struct CatalogModel {
    pub id: String,
    pub display_name: Option<String>,
    pub vendor: Option<String>,
}

/// A model that a provider reports, by views.
#[verifier::ext_equal]
pub struct ModelView {
    pub id: Seq<char>,
    pub display_name: Option<Seq<char>>,
    pub vendor: Option<Seq<char>>,
}

impl View for CatalogModel {
    type V = ModelView;

    open spec fn view(&self) -> ModelView {
        ModelView {
            id: self.id@,
            display_name: owned_text(self.display_name),
            vendor: owned_text(self.vendor),
        }
    }
}

/// Models by their views.
pub open spec fn model_views(models: Seq<CatalogModel>) -> Seq<ModelView> {
    models.map_values(|m: CatalogModel| m@)
}

/// The first of two members of a model that is text.
pub open spec fn either_text(model: JsonView, first: Seq<char>, second: Seq<char>) -> Option<
    Seq<char>,
> {
    match text_in(model.get(first)) {
        Some(t) => Some(t),
        None => text_in(model.get(second)),
    }
}

/// The models among the first `n` entries of a listing: those that have an id.
pub open spec fn models_listed(list: Seq<JsonView>, n: int) -> Seq<ModelView>
    decreases n,
{
    if n <= 0 {
        Seq::empty()
    } else {
        match text_in(list[n - 1].get("id"@)) {
            Some(id) => models_listed(list, n - 1).push(
                ModelView {
                    id,
                    display_name: either_text(list[n - 1], "display_name"@, "name"@),
                    vendor: either_text(list[n - 1], "vendor"@, "owned_by"@),
                },
            ),
            None => models_listed(list, n - 1),
        }
    }
}

fn first_text(model: &Json, first: &str, second: &str) -> (text: Option<String>)
    ensures
        owned_text(text) == either_text(model@, first@, second@),
{
    match text_of_value(model.get(first)) {
        Some(t) => Some(t.to_owned()),
        None => own_text(text_of_value(model.get(second))),
    }
}

/// The models that a listing holds.
pub fn catalog_models(list: &[Json]) -> (models: Vec<CatalogModel>)
    ensures
        model_views(models@) == models_listed(views(list@), list@.len() as int),
{
    let mut models: Vec<CatalogModel> = Vec::new();
    assert(model_views(models@) =~= Seq::empty());
    for i in 0..list.len()
        invariant
            model_views(models@) == models_listed(views(list@), i as int),
    {
        let ghost read = model_views(models@);
        assert(views(list@)[i as int] == list@[i as int]@);
        if let Some(id) = text_of_value(list[i].get("id")) {
            let model = CatalogModel {
                id: id.to_owned(),
                display_name: first_text(&list[i], "display_name", "name"),
                vendor: first_text(&list[i], "vendor", "owned_by"),
            };
            let ghost m = model@;
            models.push(model);
            assert(model_views(models@) =~= read.push(m));
        }
    }
    models
}

/// The models that each provider reported last.
#[derive(Debug)]
pub struct Catalog {
    entries: Vec<(String, Vec<CatalogModel>)>,
}

spec fn entry_views(entries: Seq<(String, Vec<CatalogModel>)>) -> Seq<
    (Seq<char>, Seq<ModelView>),
> {
    entries.map_values(|e: (String, Vec<CatalogModel>)| (e.0@, model_views(e.1@)))
}

/// What a list of entries holds for a name: of two entries the later stands.
pub open spec fn reported(
    entries: Seq<(Seq<char>, Seq<ModelView>)>,
    name: Seq<char>,
) -> Option<Seq<ModelView>>
    decreases entries.len(),
{
    if entries.len() == 0 {
        None
    } else if entries.last().0 == name {
        Some(entries.last().1)
    } else {
        reported(entries.drop_last(), name)
    }
}

impl Catalog {
    /// The models that a provider reported last; nothing where it reported
    /// none.
    pub closed spec fn of(&self, name: Seq<char>) -> Option<Seq<ModelView>> {
        reported(entry_views(self.entries@), name)
    }

    /// A catalogue in which nobody reported anything.
    pub fn new() -> (catalog: Catalog)
        ensures
            forall|name: Seq<char>| (#[trigger] catalog.of(name)) is None,
    {
        let catalog = Catalog { entries: Vec::new() };
        assert(entry_views(catalog.entries@) =~= Seq::empty());
        catalog
    }

    /// The models that a provider reported last.
    pub fn get(&self, name: &str) -> (models: Option<&Vec<CatalogModel>>)
        ensures
            match models {
                Some(list) => self.of(name@) == Some(model_views(list@)),
                None => self.of(name@) is None,
            },
    {
        let ghost all = entry_views(self.entries@);
        let mut i: usize = self.entries.len();
        assert(all.take(i as int) =~= all);
        while i > 0
            invariant
                i <= self.entries@.len(),
                all == entry_views(self.entries@),
                reported(all, name@) == reported(all.take(i as int), name@),
            decreases i,
        {
            let ghost here = all.take(i as int);
            assert(here.last() == (
                self.entries@[i - 1].0@,
                model_views(self.entries@[i - 1].1@),
            ));
            assert(here.drop_last() =~= all.take(i - 1));
            if same_text(self.entries[i - 1].0.as_str(), name) {
                return Some(&self.entries[i - 1].1);
            }
            i = i - 1;
        }
        None
    }

    /// Records what a provider reports, in place of what it reported before.
    pub fn set(&mut self, name: &str, models: Vec<CatalogModel>)
        ensures
            final(self).of(name@) == Some(model_views(models@)),
            forall|other: Seq<char>|
                other != name@ ==> (#[trigger] final(self).of(other)) == old(self).of(other),
    {
        let ghost before = entry_views(self.entries@);
        let ghost added = (name@, model_views(models@));
        self.entries.push((name.to_owned(), models));
        proof {
            let now = entry_views(self.entries@);
            assert(now =~= before.push(added));
            assert(now.drop_last() =~= before);
        }
    }

    /// Forgets what a provider reported.
    pub fn forget(&mut self, name: &str)
        ensures
            final(self).of(name@) is None,
            forall|other: Seq<char>|
                other != name@ ==> (#[trigger] final(self).of(other)) == old(self).of(other),
    {
        let ghost all = entry_views(self.entries@);
        let mut old_entries: Vec<(String, Vec<CatalogModel>)> = Vec::new();
        std::mem::swap(&mut old_entries, &mut self.entries);
        let mut kept: Vec<(String, Vec<CatalogModel>)> = Vec::new();
        assert(entry_views(kept@) =~= Seq::empty());
        for entry in it: old_entries
            invariant
                all == entry_views(it.seq()),
                reported(entry_views(kept@), name@) is None,
                forall|other: Seq<char>|
                    other != name@ ==> reported(entry_views(kept@), other) == #[trigger] reported(
                        all.take(it.index() as int),
                        other,
                    ),
        {
            let ghost here = all.take(it.index() + 1);
            let ghost was = entry_views(kept@);
            let ghost e = (entry.0@, model_views(entry.1@));
            proof {
                assert(here.drop_last() =~= all.take(it.index() as int));
                assert(here.last() == e);
                assert forall|other: Seq<char>| #[trigger] reported(here, other) == (if e.0
                    == other {
                    Some(e.1)
                } else {
                    reported(all.take(it.index() as int), other)
                }) by {}
            }
            if !same_text(entry.0.as_str(), name) {
                kept.push(entry);
                proof {
                    let now = entry_views(kept@);
                    assert(now =~= was.push(e));
                    assert(now.drop_last() =~= was);
                }
            }
        }
        assert(all.take(all.len() as int) =~= all);
        self.entries = kept;
    }
}

// ── the registry ────────────────────────────────────────────────────────────

/// The registry after one model of a provider: claimed for it where it is
/// exposed, hidden where it is not.
pub open spec fn with_model(
    registry: RegistryView,
    setting: ProviderSetting,
    id: Seq<char>,
) -> RegistryView {
    if setting.exposed(id) {
        registry.routed(id, setting.name)
    } else {
        registry.with_hidden(id, setting.name)
    }
}

/// The registry after the first `n` models of a provider.
pub open spec fn with_models(
    registry: RegistryView,
    setting: ProviderSetting,
    models: Seq<ModelView>,
    n: int,
) -> RegistryView
    decreases n,
{
    if n <= 0 {
        registry
    } else {
        with_model(with_models(registry, setting, models, n - 1), setting, models[n - 1].id)
    }
}

/// The registry after the models of the first `n` providers.
pub open spec fn with_providers(
    registry: RegistryView,
    list: Seq<ProviderSetting>,
    catalog: &Catalog,
    n: int,
) -> RegistryView
    decreases n,
{
    if n <= 0 {
        registry
    } else {
        let before = with_providers(registry, list, catalog, n - 1);
        match catalog.of(list[n - 1].name) {
            Some(models) => with_models(before, list[n - 1], models, models.len() as int),
            None => before,
        }
    }
}

/// A registry in which nothing is claimed or hidden.
pub open spec fn bare_registry(providers: Seq<ProviderView>) -> RegistryView {
    RegistryView { providers, routes: Map::empty(), hidden: Set::empty() }
}

/// The registry that a configuration and a catalogue make. Earlier providers
/// claim first.
pub open spec fn registry_of(config: Seq<ProviderSetting>, catalog: &Catalog) -> RegistryView {
    let list = enabled_among(config, config.len() as int);
    with_providers(
        bare_registry(providers_described(config)),
        list,
        catalog,
        list.len() as int,
    )
}

// ── changes ─────────────────────────────────────────────────────────────────

/// A change to what is exposed of a provider.
#[derive(Debug)]
pub struct ExposureUpdate {
    /// What is decided of each model that is named.
    pub models: NameMap<bool>,
    /// Whether all earlier decisions are forgotten first, those on models that
    /// are gone included.
    pub clear_models: bool,
    pub enabled: Option<bool>,
    pub expose_by_default: Option<bool>,
}

/// The decisions after the first `n` of more.
pub open spec fn decided(
    models: Map<Seq<char>, bool>,
    more: Seq<(Seq<char>, bool)>,
    n: int,
) -> Map<Seq<char>, bool>
    decreases n,
{
    if n <= 0 {
        models
    } else {
        decided(models, more, n - 1).insert(more[n - 1].0, more[n - 1].1)
    }
}

/// A setting after a change.
pub open spec fn updated(setting: ProviderSetting, update: &ExposureUpdate) -> ProviderSetting {
    ProviderSetting {
        models: decided(
            if update.clear_models {
                Map::empty()
            } else {
                setting.models
            },
            update.models.listed(),
            update.models.listed().len() as int,
        ),
        enabled: match update.enabled {
            Some(b) => b,
            None => setting.enabled,
        },
        expose_by_default: match update.expose_by_default {
            Some(b) => b,
            None => setting.expose_by_default,
        },
        ..setting
    }
}

/// A provider to be added.
#[derive(Debug)]
pub struct AddProvider {
    pub name: String,
    pub base_url: String,
    pub unversioned: bool,
    pub expose_by_default: Option<bool>,
}

/// The setting of a provider to be added.
pub open spec fn added(new: &AddProvider) -> ProviderSetting {
    ProviderSetting {
        unversioned: new.unversioned,
        expose_by_default: match new.expose_by_default {
            Some(b) => b,
            None => true,
        },
        ..fresh_setting(new.name@, new.base_url@)
    }
}

/// The first `n` settings but for those of a name.
pub open spec fn but_for(config: Seq<ProviderSetting>, name: Seq<char>, n: int) -> Seq<
    ProviderSetting,
>
    decreases n,
{
    if n <= 0 {
        Seq::empty()
    } else if config[n - 1].name == name {
        but_for(config, name, n - 1)
    } else {
        but_for(config, name, n - 1).push(config[n - 1])
    }
}

/// What a discovery run did to one provider's catalogue.
#[derive(Debug, PartialEq, Eq)]
pub struct ProviderDiscovery {
    pub name: String,
    /// The models that the catalogue holds for it now.
    pub models: usize,
    /// Whether they are fresh.
    pub refreshed: bool,
    /// Why it could not be asked.
    pub error: Option<String>,
}

/// A provider's answer to the question what it serves.
#[derive(Debug)]
pub struct Reply {
    pub name: String,
    pub models: Result<Vec<CatalogModel>, String>,
}

/// Whether an answer replaces what the catalogue holds. One that cannot be had,
/// and an empty one, replace nothing: a provider that is starting up must not
/// lose its models.
pub open spec fn replaces(reply: Reply) -> bool {
    reply.models matches Ok(models) && models@.len() > 0
}

/// The models that a provider is known to serve after the first `n` answers.
pub open spec fn known_after(
    before: Option<Seq<ModelView>>,
    replies: Seq<Reply>,
    name: Seq<char>,
    n: int,
) -> Option<Seq<ModelView>>
    decreases n,
{
    if n <= 0 {
        before
    } else if replies[n - 1].name@ == name && replaces(replies[n - 1]) {
        Some(model_views(replies[n - 1].models->Ok_0@))
    } else {
        known_after(before, replies, name, n - 1)
    }
}

/// Whether an entry reports what became of an answer, where `known` is what the
/// catalogue holds then.
pub open spec fn reports(
    entry: ProviderDiscovery,
    reply: Reply,
    known: Option<Seq<ModelView>>,
) -> bool {
    &&& entry.name@ == reply.name@
    &&& entry.refreshed == replaces(reply)
    &&& entry.models == (match known {
        Some(models) => models.len(),
        None => 0,
    })
    &&& owned_text(entry.error) == (match reply.models {
        Ok(_) => None,
        Err(e) => Some(e@),
    })
}

/// A model, as it is shown.
#[derive(Debug)]
pub struct ModelEntry {
    pub id: String,
    pub display_name: Option<String>,
    pub vendor: Option<String>,
    /// Whether clients can see and use it.
    pub exposed: bool,
    /// Whether the live registry routes it.
    pub routed: bool,
}

/// A provider, as it is shown.
#[derive(Debug)]
pub struct ProviderEntry {
    pub name: String,
    /// Its URL, reduced to what may be shown.
    pub base_url: String,
    pub enabled: bool,
    pub expose_by_default: bool,
    pub models: Vec<ModelEntry>,
}

/// Whether a model is shown as it is.
pub open spec fn shows_model(
    entry: ModelEntry,
    model: ModelView,
    setting: ProviderSetting,
    registry: RegistryView,
) -> bool {
    &&& entry.id@ == model.id
    &&& owned_text(entry.display_name) == model.display_name
    &&& owned_text(entry.vendor) == model.vendor
    &&& entry.exposed == (setting.exposed(model.id) && setting.enabled)
    &&& entry.routed == registry.routes.contains_key(model.id)
}

/// Whether a provider is shown as it is.
pub open spec fn shows_provider(
    entry: ProviderEntry,
    setting: ProviderSetting,
    catalog: &Catalog,
    registry: RegistryView,
) -> bool {
    let models = match catalog.of(setting.name) {
        Some(models) => models,
        None => Seq::empty(),
    };
    &&& entry.name@ == setting.name
    &&& entry.base_url@ == location_of(url_parts(setting.base_url))
    &&& entry.enabled == setting.enabled
    &&& entry.expose_by_default == setting.expose_by_default
    &&& entry.models@.len() == models.len()
    &&& forall|i: int|
        0 <= i < models.len() ==> shows_model(
            #[trigger] entry.models@[i],
            models[i],
            setting,
            registry,
        )
}

/// The configuration, and what the providers reported.
#[derive(Debug)]
pub struct Management {
    pub config: Config,
    pub catalog: Catalog,
}

impl Management {
    pub fn new(config: Config) -> (management: Management)
        ensures
            management.config == config,
            forall|name: Seq<char>| (#[trigger] management.catalog.of(name)) is None,
    {
        Management { config, catalog: Catalog::new() }
    }

    /// Records what a provider reports.
    pub fn set_discovered(&mut self, provider: &str, models: Vec<CatalogModel>)
        ensures
            final(self).config == old(self).config,
            final(self).catalog.of(provider@) == Some(model_views(models@)),
            forall|other: Seq<char>|
                other != provider@ ==> (#[trigger] final(self).catalog.of(other)) == old(
                    self,
                ).catalog.of(other),
    {
        self.catalog.set(provider, models);
    }

    /// Takes the answers of a discovery run in order, and says what became of
    /// each.
    pub fn discover(&mut self, replies: Vec<Reply>) -> (report: Vec<ProviderDiscovery>)
        ensures
            final(self).config == old(self).config,
            forall|name: Seq<char>|
                (#[trigger] final(self).catalog.of(name)) == known_after(
                    old(self).catalog.of(name),
                    replies@,
                    name,
                    replies@.len() as int,
                ),
            report@.len() == replies@.len(),
            forall|i: int|
                0 <= i < replies@.len() ==> reports(
                    #[trigger] report@[i],
                    replies@[i],
                    known_after(
                        old(self).catalog.of(replies@[i].name@),
                        replies@,
                        replies@[i].name@,
                        i + 1,
                    ),
                ),
    {
        let ghost all = replies@;
        let mut report: Vec<ProviderDiscovery> = Vec::new();
        for reply in it: replies
            invariant
                all == it.seq(),
                self.config == old(self).config,
                forall|name: Seq<char>|
                    (#[trigger] self.catalog.of(name)) == known_after(
                        old(self).catalog.of(name),
                        all,
                        name,
                        it.index() as int,
                    ),
                report@.len() == it.index(),
                forall|i: int|
                    0 <= i < it.index() ==> reports(
                        #[trigger] report@[i],
                        all[i],
                        known_after(
                            old(self).catalog.of(all[i].name@),
                            all,
                            all[i].name@,
                            i + 1,
                        ),
                    ),
        {
            let ghost at = it.index() as int;
            assert(all[at] == reply);
            let name = reply.name;
            let mut refreshed: bool = false;
            let mut error: Option<String> = None;
            match reply.models {
                Ok(models) => {
                    if models.len() > 0 {
                        self.catalog.set(name.as_str(), models);
                        refreshed = true;
                    }
                },
                Err(e) => {
                    error = Some(e);
                },
            }
            let count: usize = match self.catalog.get(name.as_str()) {
                Some(models) => {
                    assert(model_views(models@).len() == models@.len());
                    models.len()
                },
                None => 0,
            };
            report.push(ProviderDiscovery { name, models: count, refreshed, error });
        }
        report
    }

    /// The registry that follows from the configuration and what was reported;
    /// nothing where no provider is enabled.
    pub fn rebuild(&self) -> (registry: Option<Registry>)
        ensures
            match registry {
                Some(r) => r@ == registry_of(self.config@, &self.catalog)
                    && providers_described(self.config@).len() > 0,
                None => providers_described(self.config@).len() == 0,
            },
    {
        let list = self.config.enabled_providers();
        let ghost enabled = enabled_among(self.config@, self.config@.len() as int);
        let ghost start = bare_registry(providers_described(self.config@));
        let mut registry = match Registry::new(providers_from(&self.config)) {
            Some(registry) => registry,
            None => {
                return None;
            },
        };
        for i in 0..list.len()
            invariant
                borrowed_settings(list@) == enabled,
                registry@ == with_providers(start, enabled, &self.catalog, i as int),
        {
            let setting = list[i];
            assert(enabled[i as int] == setting@) by {
                assert(borrowed_settings(list@)[i as int] == list@[i as int]@);
            }
            if let Some(models) = self.catalog.get(setting.name.as_str()) {
                let ghost before = registry@;
                let ghost all = model_views(models@);
                for j in 0..models.len()
                    invariant
                        all == model_views(models@),
                        registry@ == with_models(before, setting@, all, j as int),
                {
                    let id = models[j].id.as_str();
                    assert(all[j as int].id == id@);
                    if setting.exposes(id) {
                        let _ = registry.route(id, setting.name.as_str());
                    } else {
                        registry.hide_model(id, setting.name.as_str());
                    }
                }
            }
        }
        assert(enabled.len() == list@.len()) by {
            assert(borrowed_settings(list@).len() == list@.len());
        }
        Some(registry)
    }

    /// Changes what is exposed of a provider. Says whether there is one of that
    /// name.
    pub fn update_provider(&mut self, name: &str, update: &ExposureUpdate) -> (found: bool)
        ensures
            final(self).catalog == old(self).catalog,
            match place_of(old(self).config@, name@) {
                Some(i) => found && final(self).config@ == old(self).config@.update(
                    i,
                    updated(old(self).config@[i], update),
                ),
                None => !found && final(self).config@ == old(self).config@,
            },
    {
        let place: usize = match self.config.place(name) {
            Some(i) => i,
            None => {
                return false;
            },
        };
        let ghost before = self.config@;
        let current = &self.config.providers[place];
        let mut models: NameMap<bool> = if update.clear_models {
            NameMap::new()
        } else {
            current.models.copy()
        };
        let ghost base = models@;
        let n: usize = update.models.len();
        for i in 0..n
            invariant
                n == update.models.listed().len(),
                models@ == decided(base, update.models.listed(), i as int),
        {
            let (model, exposed) = update.models.entry(i);
            models.insert(model, exposed);
        }
        let changed = ProviderConfig {
            name: current.name.clone(),
            base_url: current.base_url.clone(),
            enabled: match update.enabled {
                Some(b) => b,
                None => current.enabled,
            },
            unversioned: current.unversioned,
            models,
            expose_by_default: match update.expose_by_default {
                Some(b) => b,
                None => current.expose_by_default,
            },
        };
        let ghost after = changed@;
        assert(after == updated(before[place as int], update));
        self.config.providers.set(place, changed);
        assert(self.config@ =~= before.update(place as int, after));
        true
    }

    /// Adds a provider after the others. Says whether it could: a name is given
    /// once.
    pub fn add_provider(&mut self, new: &AddProvider) -> (could: bool)
        ensures
            final(self).catalog == old(self).catalog,
            could == (place_of(old(self).config@, new.name@) is None),
            final(self).config@ == (if could {
                old(self).config@.push(added(new))
            } else {
                old(self).config@
            }),
    {
        if self.config.place(new.name.as_str()).is_some() {
            return false;
        }
        let ghost before = self.config@;
        let mut provider = ProviderConfig::new(new.name.as_str(), new.base_url.as_str());
        provider.unversioned = new.unversioned;
        if let Some(b) = new.expose_by_default {
            provider.expose_by_default = b;
        }
        let ghost p = provider@;
        assert(p == added(new));
        self.config.providers.push(provider);
        assert(self.config@ =~= before.push(p));
        true
    }

    /// Removes a provider and forgets what it reported. Says whether there was
    /// one of that name.
    pub fn remove_provider(&mut self, name: &str) -> (found: bool)
        ensures
            final(self).config@ == but_for(
                old(self).config@,
                name@,
                old(self).config@.len() as int,
            ),
            found == (final(self).config@.len() < old(self).config@.len()),
            found ==> final(self).catalog.of(name@) is None,
            !found ==> final(self).catalog == old(self).catalog,
            forall|other: Seq<char>|
                other != name@ ==> (#[trigger] final(self).catalog.of(other)) == old(
                    self,
                ).catalog.of(other),
    {
        let ghost all = self.config@;
        let mut kept: Vec<ProviderConfig> = Vec::new();
        assert(settings(kept@) =~= Seq::empty());
        for i in 0..self.config.providers.len()
            invariant
                all == self.config@,
                self.config == old(self).config,
                self.catalog == old(self).catalog,
                settings(kept@) == but_for(all, name@, i as int),
        {
            let ghost read = settings(kept@);
            assert(all[i as int] == self.config.providers@[i as int]@);
            if !same_text(self.config.providers[i].name.as_str(), name) {
                let copy = self.config.providers[i].clone();
                let ghost c = copy@;
                kept.push(copy);
                assert(settings(kept@) =~= read.push(c));
            }
        }
        let found: bool = kept.len() < self.config.providers.len();
        self.config.providers = kept;
        if found {
            self.catalog.forget(name);
        }
        found
    }

    /// The state, as it is shown.
    pub fn snapshot(&self, registry: &Registry) -> (list: Vec<ProviderEntry>)
        ensures
            list@.len() == self.config@.len(),
            forall|i: int|
                0 <= i < list@.len() ==> shows_provider(
                    #[trigger] list@[i],
                    self.config@[i],
                    &self.catalog,
                    registry@,
                ),
    {
        let mut list: Vec<ProviderEntry> = Vec::new();
        for i in 0..self.config.providers.len()
            invariant
                list@.len() == i,
                forall|k: int|
                    0 <= k < i ==> shows_provider(
                        #[trigger] list@[k],
                        self.config@[k],
                        &self.catalog,
                        registry@,
                    ),
        {
            let setting = &self.config.providers[i];
            assert(self.config@[i as int] == setting@);
            let mut models: Vec<ModelEntry> = Vec::new();
            if let Some(known) = self.catalog.get(setting.name.as_str()) {
                let ghost all = model_views(known@);
                for j in 0..known.len()
                    invariant
                        all == model_views(known@),
                        models@.len() == j,
                        forall|k: int|
                            0 <= k < j ==> shows_model(
                                #[trigger] models@[k],
                                all[k],
                                setting@,
                                registry@,
                            ),
                {
                    let model = &known[j];
                    assert(all[j as int] == model@);
                    let id = model.id.as_str();
                    models.push(
                        ModelEntry {
                            id: model.id.clone(),
                            display_name: copy_text(&model.display_name),
                            vendor: copy_text(&model.vendor),
                            exposed: setting.exposes(id) && setting.enabled,
                            routed: registry.has_route(id),
                        },
                    );
                }
            }
            let entry = ProviderEntry {
                name: setting.name.clone(),
                base_url: redact_backend_url(setting.base_url.as_str()),
                enabled: setting.enabled,
                expose_by_default: setting.expose_by_default,
                models,
            };
            list.push(entry);
        }
        list
    }
}

// ── starting up ─────────────────────────────────────────────────────────────

/// The configuration that given providers make on the first run.
pub fn seed_config(providers: &[Provider]) -> (config: Config)
    ensures
        config@ == provider_views(providers@).map_values(
            |p: ProviderView| fresh_setting(p.name, p.base_url),
        ),
{
    let ghost all = provider_views(providers@).map_values(
        |p: ProviderView| fresh_setting(p.name, p.base_url),
    );
    let mut list: Vec<ProviderConfig> = Vec::new();
    for i in 0..providers.len()
        invariant
            all == provider_views(providers@).map_values(
                |p: ProviderView| fresh_setting(p.name, p.base_url),
            ),
            settings(list@) == all.take(i as int),
    {
        let ghost read = settings(list@);
        assert(provider_views(providers@)[i as int] == providers@[i as int]@);
        let entry = ProviderConfig::new(providers[i].name(), providers[i].base_url());
        let ghost e = entry@;
        list.push(entry);
        assert(settings(list@) =~= read.push(e));
        assert(settings(list@) =~= all.take(i + 1));
    }
    let config = Config { providers: list };
    assert(config@ =~= all);
    config
}

/// Sees to it that a provider is configured, and as one that serves its routes
/// at the root. Says whether anything had to be changed.
pub fn require_unversioned(config: &mut Config, name: &str, base_url: &str) -> (changed: bool)
    ensures
        match place_of(old(config)@, name@) {
            Some(i) => changed == !old(config)@[i].unversioned && final(config)@ == old(
                config,
            )@.update(i, (ProviderSetting { unversioned: true, ..old(config)@[i] })),
            None => changed && final(config)@ == old(config)@.push(
                (ProviderSetting { unversioned: true, ..fresh_setting(name@, base_url@) }),
            ),
        },
{
    let ghost before = config@;
    match config.place(name) {
        Some(i) => {
            assert(before[i as int] == config.providers@[i as int]@);
            if config.providers[i].unversioned {
                assert(config@ =~= before.update(
                    i as int,
                    (ProviderSetting { unversioned: true, ..before[i as int] }),
                ));
                return false;
            }
            let mut entry = config.providers[i].clone();
            entry.unversioned = true;
            let ghost e = entry@;
            config.providers.set(i, entry);
            assert(config@ =~= before.update(i as int, e));
            true
        },
        None => {
            let mut entry = ProviderConfig::new(name, base_url);
            entry.unversioned = true;
            let ghost e = entry@;
            config.providers.push(entry);
            assert(config@ =~= before.push(e));
            true
        },
    }
}

/// The credential that a stored text holds; none where it is blank, which would
/// only fail later.
pub fn stored_token(raw: &str) -> (token: Option<String>)
    ensures
        owned_text(token) == (if trim(raw@).len() == 0 {
            None
        } else {
            Some(trim(raw@))
        }),
{
    let token = trimmed_text(raw);
    if token.as_str().is_empty() {
        None
    } else {
        Some(token)
    }
}

// ── laws ────────────────────────────────────────────────────────────────────

/// A provider that cannot be asked, or has nothing to report, keeps the models
/// that it had.
pub proof fn failures_keep_the_catalogue(
    before: Option<Seq<ModelView>>,
    replies: Seq<Reply>,
    name: Seq<char>,
    n: int,
)
    requires
        0 <= n <= replies.len(),
        forall|i: int|
            0 <= i < n && (#[trigger] replies[i]).name@ == name ==> !replaces(replies[i]),
    ensures
        known_after(before, replies, name, n) == before,
    decreases n,
{
    if n > 0 {
        failures_keep_the_catalogue(before, replies, name, n - 1);
    }
}

proof fn settings_of_others(config: Seq<ProviderSetting>, name: Seq<char>, n: int, i: int)
    requires
        0 <= i < but_for(config, name, n).len(),
    ensures
        but_for(config, name, n)[i].name != name,
    decreases n,
{
    if n > 0 && i < but_for(config, name, n - 1).len() {
        settings_of_others(config, name, n - 1, i);
    }
}

/// A provider that is removed is gone.
pub proof fn removed_is_gone(config: Seq<ProviderSetting>, name: Seq<char>)
    ensures
        place_of(but_for(config, name, config.len() as int), name) is None,
{
    let left = but_for(config, name, config.len() as int);
    nowhere_from(config, name, left, 0);
}

proof fn nowhere_from(
    config: Seq<ProviderSetting>,
    name: Seq<char>,
    left: Seq<ProviderSetting>,
    from: int,
)
    requires
        0 <= from,
        left == but_for(config, name, config.len() as int),
    ensures
        crate::domain::config::place_from(left, name, from) is None,
    decreases left.len() - from,
{
    if from < left.len() {
        settings_of_others(config, name, config.len() as int, from);
        nowhere_from(config, name, left, from + 1);
    }
}

/// A model that a provider reports and does not expose is hidden on it when its
/// models are through, whatever the others were.
pub proof fn unexposed_models_are_hidden(
    registry: RegistryView,
    setting: ProviderSetting,
    models: Seq<ModelView>,
    n: int,
    k: int,
)
    requires
        0 <= k < n <= models.len(),
        !setting.exposed(models[k].id),
        registry.index(setting.name) is Some,
    ensures
        ({
            let after = with_models(registry, setting, models, n);
            &&& after.index(setting.name) == registry.index(setting.name)
            &&& after.hidden.contains((models[k].id, registry.index(setting.name)->0))
        }),
    decreases n,
{
    same_index(registry, setting, models, n - 1);
    same_index(registry, setting, models, n);
    if k < n - 1 {
        unexposed_models_are_hidden(registry, setting, models, n - 1, k);
    }
}

proof fn same_index(
    registry: RegistryView,
    setting: ProviderSetting,
    models: Seq<ModelView>,
    n: int,
)
    ensures
        with_models(registry, setting, models, n).providers == registry.providers,
        with_models(registry, setting, models, n).index(setting.name) == registry.index(
            setting.name,
        ),
    decreases n,
{
    if n > 0 {
        same_index(registry, setting, models, n - 1);
    }
    index_by_providers(with_models(registry, setting, models, n), registry, setting.name, 0);
}

proof fn index_by_providers(a: RegistryView, b: RegistryView, name: Seq<char>, from: int)
    ensures
        a.providers == b.providers ==> a.index_from(name, from) == b.index_from(name, from),
    decreases a.providers.len() - from,
{
    if a.providers == b.providers && 0 <= from < a.providers.len() && a.providers[from].name
        != name {
        index_by_providers(a, b, name, from + 1);
    }
}

/// A provider is built as it is configured; only the one that carries a credential
/// reserves headers, and it reserves that credential and its identity.
pub proof fn providers_are_built_as_configured(setting: ProviderSetting, header: Seq<char>)
    ensures
        provider_of(setting).name == setting.name,
        provider_of(setting).base_url == without_slashes(setting.base_url),
        provider_of(setting).unversioned == setting.unversioned,
        setting.name != "copilot"@ ==> !provider_of(setting).reserved.contains_key(header),
        setting.name == "copilot"@ ==> {
            &&& provider_of(setting).reserved.contains_key(lowered("authorization"@))
            &&& provider_of(setting).reserved.contains_key(lowered("copilot-integration-id"@))
            &&& provider_of(setting).reserved.contains_key(lowered("editor-version"@))
            &&& provider_of(setting).reserved.contains_key(lowered("editor-plugin-version"@))
            &&& provider_of(setting).reserved.contains_key(lowered("x-github-api-version"@))
            &&& provider_of(setting).reserved.contains_key(lowered("openai-intent"@))
            &&& provider_of(setting).reserved.contains_key(lowered("user-agent"@))
        },
{
    if setting.name == "copilot"@ {
        let names = copilot_headers();
        let first = Map::<Seq<char>, ()>::empty().insert(lowered("authorization"@), ());
        assert(names.len() == 6);
        crate::domain::provider::reserved_names_are_these(first, names, 6, "authorization"@);
        assert(names[0] == "copilot-integration-id"@);
        crate::domain::provider::reserved_names_are_these(
            first,
            names,
            6,
            "copilot-integration-id"@,
        );
        assert(names[1] == "editor-version"@);
        crate::domain::provider::reserved_names_are_these(first, names, 6, "editor-version"@);
        assert(names[2] == "editor-plugin-version"@);
        crate::domain::provider::reserved_names_are_these(
            first,
            names,
            6,
            "editor-plugin-version"@,
        );
        assert(names[3] == "x-github-api-version"@);
        crate::domain::provider::reserved_names_are_these(
            first,
            names,
            6,
            "x-github-api-version"@,
        );
        assert(names[4] == "openai-intent"@);
        crate::domain::provider::reserved_names_are_these(first, names, 6, "openai-intent"@);
        assert(names[5] == "user-agent"@);
        crate::domain::provider::reserved_names_are_these(first, names, 6, "user-agent"@);
    }
}

proof fn listed_of_prefix(a: Seq<JsonView>, b: Seq<JsonView>, n: int)
    requires
        0 <= n <= a.len(),
        n <= b.len(),
        forall|i: int| 0 <= i < n ==> #[trigger] a[i] == b[i],
    ensures
        models_listed(a, n) == models_listed(b, n),
    decreases n,
{
    if n > 0 {
        listed_of_prefix(a, b, n - 1);
        assert(a[n - 1] == b[n - 1]);
    }
}

/// Every model with an id is in the catalogue, in their order, under the names that
/// backends use.
pub proof fn every_model_is_catalogued(list: Seq<JsonView>, model: JsonView)
    ensures
        models_listed(Seq::empty(), 0) == Seq::<ModelView>::empty(),
        ({
            let before = models_listed(list, list.len() as int);
            let after = models_listed(list.push(model), list.len() as int + 1);
            match model.get("id"@) {
                Some(JsonView::Str(id)) => after == before.push(
                    ModelView {
                        id,
                        display_name: match model.get("display_name"@) {
                            Some(JsonView::Str(t)) => Some(t),
                            _ => match model.get("name"@) {
                                Some(JsonView::Str(t)) => Some(t),
                                _ => None,
                            },
                        },
                        vendor: match model.get("vendor"@) {
                            Some(JsonView::Str(t)) => Some(t),
                            _ => match model.get("owned_by"@) {
                                Some(JsonView::Str(t)) => Some(t),
                                _ => None,
                            },
                        },
                    },
                ),
                _ => after == before,
            }
        }),
{
    listed_of_prefix(list, list.push(model), list.len() as int);
}

/// A model that is exposed is claimed, by its provider or by one before it.
pub proof fn exposed_models_are_claimed(
    registry: RegistryView,
    setting: ProviderSetting,
    models: Seq<ModelView>,
    n: int,
    k: int,
)
    requires
        0 <= k < n <= models.len(),
        setting.exposed(models[k].id),
        registry.index(setting.name) is Some,
    ensures
        ({
            let after = with_models(registry, setting, models, n);
            &&& after.index(setting.name) == registry.index(setting.name)
            &&& after.routes.contains_key(models[k].id)
        }),
    decreases n,
{
    let before = with_models(registry, setting, models, n - 1);
    let after = with_models(registry, setting, models, n);
    providers_stay(registry, setting, models, n - 1, setting.name);
    providers_stay(registry, setting, models, n, setting.name);
    if k < n - 1 {
        exposed_models_are_claimed(registry, setting, models, n - 1, k);
    }
}

proof fn providers_stay(
    registry: RegistryView,
    setting: ProviderSetting,
    models: Seq<ModelView>,
    n: int,
    name: Seq<char>,
)
    ensures
        with_models(registry, setting, models, n).providers == registry.providers,
        with_models(registry, setting, models, n).index(name) == registry.index(name),
    decreases n,
{
    if n > 0 {
        providers_stay(registry, setting, models, n - 1, name);
    }
    let after = with_models(registry, setting, models, n);
    crate::domain::registry::providers_are_found_by_name(registry, name);
    crate::domain::registry::providers_are_found_by_name(after, name);
}

/// A registry is built provider by provider, in their order: each claims the models
/// that it exposes and hides the others. One of which nothing is known claims
/// none.
pub proof fn registries_are_built_in_order(
    registry: RegistryView,
    list: Seq<ProviderSetting>,
    catalog: &Catalog,
    n: int,
)
    requires
        0 <= n < list.len(),
    ensures
        with_providers(registry, list, catalog, 0) == registry,
        ({
            let before = with_providers(registry, list, catalog, n);
            let after = with_providers(registry, list, catalog, n + 1);
            match catalog.of(list[n].name) {
                Some(models) => after == with_models(before, list[n], models, models.len() as int),
                None => after == before,
            }
        }),
        forall|r: RegistryView, setting: ProviderSetting, models: Seq<ModelView>, k: int|
            0 <= k < models.len() ==> #[trigger] with_models(r, setting, models, k + 1) == (
            if setting.exposed(models[k].id) {
                with_models(r, setting, models, k).routed(models[k].id, setting.name)
            } else {
                with_models(r, setting, models, k).with_hidden(models[k].id, setting.name)
            }),
{
}

proof fn decided_is(
    models: Map<Seq<char>, bool>,
    more: Seq<(Seq<char>, bool)>,
    n: int,
    model: Seq<char>,
)
    requires
        0 <= n <= more.len(),
    ensures
        ({
            let after = decided(models, more, n);
            let given = map_of(more.take(n));
            if given.contains_key(model) {
                after.contains_key(model) && after[model] == given[model]
            } else {
                after.contains_key(model) == models.contains_key(model) && (models.contains_key(
                    model,
                ) ==> after[model] == models[model])
            }
        }),
    decreases n,
{
    if n > 0 {
        decided_is(models, more, n - 1, model);
        assert(more.take(n).drop_last() =~= more.take(n - 1));
        assert(more.take(n).last() == more[n - 1]);
    } else {
        assert(more.take(0) =~= Seq::empty());
    }
}

/// An update decides on the models that it names, and on no other: what was decided
/// of those stays, unless the update clears it. The switches change only where it
/// says so, and name and place stay.
pub proof fn updates_change_what_they_say(
    setting: ProviderSetting,
    update: &ExposureUpdate,
    model: Seq<char>,
)
    ensures
        ({
            let after = updated(setting, update);
            let given = map_of(update.models.listed());
            &&& given.contains_key(model) ==> after.models.contains_key(model)
                && after.models[model] == given[model]
            &&& !given.contains_key(model) && update.clear_models ==> !after.models.contains_key(
                model,
            )
            &&& !given.contains_key(model) && !update.clear_models ==> after.models.contains_key(
                model,
            ) == setting.models.contains_key(model) && (setting.models.contains_key(model)
                ==> after.models[model] == setting.models[model])
            &&& after.enabled == (if update.enabled is Some {
                update.enabled->0
            } else {
                setting.enabled
            })
            &&& after.expose_by_default == (if update.expose_by_default is Some {
                update.expose_by_default->0
            } else {
                setting.expose_by_default
            })
            &&& after.name == setting.name && after.base_url == setting.base_url
            &&& after.unversioned == setting.unversioned
        }),
{
    let more = update.models.listed();
    let base = if update.clear_models {
        Map::empty()
    } else {
        setting.models
    };
    decided_is(base, more, more.len() as int, model);
    assert(more.take(more.len() as int) =~= more);
}

/// A provider that is added is enabled, and exposes its models unless it is said
/// otherwise.
pub proof fn added_providers_are_as_asked(new: &AddProvider, model: Seq<char>)
    ensures
        added(new).name == new.name@,
        added(new).base_url == new.base_url@,
        added(new).unversioned == new.unversioned,
        added(new).enabled,
        new.expose_by_default is None ==> added(new).exposed(model),
        new.expose_by_default matches Some(b) ==> added(new).exposed(model) == b,
{
}

proof fn but_for_prefix(a: Seq<ProviderSetting>, b: Seq<ProviderSetting>, name: Seq<char>, n: int)
    requires
        0 <= n <= a.len(),
        n <= b.len(),
        forall|i: int| 0 <= i < n ==> #[trigger] a[i] == b[i],
    ensures
        but_for(a, name, n) == but_for(b, name, n),
    decreases n,
{
    if n > 0 {
        but_for_prefix(a, b, name, n - 1);
        assert(a[n - 1] == b[n - 1]);
    }
}

/// Removing a provider leaves all others, in their order.
pub proof fn removing_leaves_the_others(
    config: Seq<ProviderSetting>,
    last: ProviderSetting,
    name: Seq<char>,
)
    ensures
        but_for(Seq::empty(), name, 0) == Seq::<ProviderSetting>::empty(),
        but_for(config.push(last), name, config.len() as int + 1) == (if last.name == name {
            but_for(config, name, config.len() as int)
        } else {
            but_for(config, name, config.len() as int).push(last)
        }),
{
    but_for_prefix(config, config.push(last), name, config.len() as int);
}

/// The last reply that lists any models is what is known of a provider.
pub proof fn the_last_listing_counts(
    before: Option<Seq<ModelView>>,
    replies: Seq<Reply>,
    name: Seq<char>,
    n: int,
)
    requires
        0 <= n < replies.len(),
    ensures
        replies[n].name@ == name ==> (replies[n].models matches Ok(models) ==> models@.len() > 0
            ==> known_after(before, replies, name, n + 1) == Some(model_views(models@))),
        replies[n].name@ != name ==> known_after(before, replies, name, n + 1) == known_after(
            before,
            replies,
            name,
            n,
        ),
        replies[n].models is Err ==> known_after(before, replies, name, n + 1) == known_after(
            before,
            replies,
            name,
            n,
        ),
        known_after(before, replies, name, 0) == before,
{
}

/// What is shown of a model is what is known of it, whether it is exposed and
/// enabled, and whether it is served.
pub proof fn models_are_shown_as_they_are(
    entry: ModelEntry,
    model: ModelView,
    setting: ProviderSetting,
    registry: RegistryView,
)
    ensures
        shows_model(entry, model, setting, registry) ==> {
            &&& entry.id@ == model.id
            &&& entry.exposed <==> setting.enabled && setting.exposed(model.id)
            &&& entry.routed <==> registry.routes.contains_key(model.id)
            &&& match entry.display_name {
                Some(t) => model.display_name == Some(t@),
                None => model.display_name is None,
            }
            &&& match entry.vendor {
                Some(t) => model.vendor == Some(t@),
                None => model.vendor is None,
            }
        },
{
}

/// What is reported of a discovery names the provider, how many models are known of
/// it now, and what went wrong.
pub proof fn discoveries_are_reported_as_they_went(
    entry: ProviderDiscovery,
    reply: Reply,
    known: Option<Seq<ModelView>>,
)
    ensures
        reports(entry, reply, known) ==> {
            &&& entry.name@ == reply.name@
            &&& known is None ==> entry.models == 0
            &&& known matches Some(models) ==> entry.models == models.len()
            &&& reply.models matches Ok(models) ==> entry.error is None && entry.refreshed == (
            models@.len() > 0)
            &&& reply.models matches Err(e) ==> !entry.refreshed && (entry.error matches Some(t)
                && t@ == e@)
        },
{
}

} // verus!
