//! The persisted configuration: the providers, and which of their models are
//! exposed.
use vstd::prelude::*;

use crate::json::{
    is_plain, json_of, json_text, parse, pretty_text, reads_back, render_pretty, seen, sorted_keys, views, Json,
    JsonObject, JsonView,
};
use super::stored::{config_names_twice, config_repeats, nothing_given_twice};
use crate::names::{map_of, NameMap};
use crate::text::{same_text, texts};
use crate::written::{block_text, line_text, push_line, write_block, write_text};

verus! {

/// One upstream, and what is exposed of it.
#[derive(Debug, PartialEq, Eq)]
pub struct ProviderConfig {
    pub name: String,
    pub base_url: String,
    /// Whether it is routed to. One that is not keeps what was decided of its
    /// models.
    pub enabled: bool,
    /// Whether it serves its routes at the root rather than under `/v1`.
    pub unversioned: bool,
    /// What was decided of each model: a model that goes and comes back keeps
    /// it.
    pub models: NameMap<bool>,
    /// What holds of a model of which nothing was decided.
    pub expose_by_default: bool,
}

/// A provider's configuration by views.
#[verifier::ext_equal]
pub struct ProviderSetting {
    pub name: Seq<char>,
    pub base_url: Seq<char>,
    pub enabled: bool,
    pub unversioned: bool,
    pub models: Map<Seq<char>, bool>,
    pub expose_by_default: bool,
}

impl View for ProviderConfig {
    type V = ProviderSetting;

    open spec fn view(&self) -> ProviderSetting {
        ProviderSetting {
            name: self.name@,
            base_url: self.base_url@,
            enabled: self.enabled,
            unversioned: self.unversioned,
            models: self.models@,
            expose_by_default: self.expose_by_default,
        }
    }
}

impl ProviderSetting {
    /// Whether a model is to be listed and served.
    pub open spec fn exposed(self, model: Seq<char>) -> bool {
        if self.models.contains_key(model) {
            self.models[model]
        } else {
            self.expose_by_default
        }
    }
}

/// What a switch is where nothing is said of it.
pub fn default_true() -> (yes: bool)
    ensures
        yes,
{
    true
}

impl ProviderConfig {
    /// A provider of which nothing was decided.
    pub fn new(name: &str, base_url: &str) -> (provider: ProviderConfig)
        ensures
            provider@ == fresh_setting(name@, base_url@),
    {
        ProviderConfig {
            name: name.to_owned(),
            base_url: base_url.to_owned(),
            enabled: true,
            unversioned: false,
            models: NameMap::new(),
            expose_by_default: true,
        }
    }

    /// Whether a model is to be listed and served.
    pub fn exposes(&self, model: &str) -> (yes: bool)
        ensures
            yes == self@.exposed(model@),
    {
        match self.models.get(model) {
            Some(decided) => decided,
            None => self.expose_by_default,
        }
    }

    /// Decides on a model.
    pub fn set_exposed(&mut self, model: &str, exposed: bool)
        ensures
            final(self)@ == (ProviderSetting {
                models: old(self)@.models.insert(model@, exposed),
                ..old(self)@
            }),
    {
        self.models.insert(model, exposed);
    }

    /// Reads a provider's configuration: an object, or the list of its fields in
    /// their order. Only name and URL must be given.
    pub fn from_json(v: &Json) -> (provider: Option<ProviderConfig>)
        ensures
            match provider {
                Some(p) => setting_in(v@) == Some(p@),
                None => setting_in(v@) is None,
            },
    {
        if let Json::Array(items) = v {
            broadcast use crate::json::array_view;

            if items.len() > 6 {
                return None;
            }
        }
        let name = match read_field(v, 0, "name") {
            Some(Json::Str(name)) => name.clone(),
            _ => {
                return None;
            },
        };
        let base_url = match read_field(v, 1, "base_url") {
            Some(Json::Str(url)) => url.clone(),
            _ => {
                return None;
            },
        };
        let enabled: bool = match read_switch(read_field(v, 2, "enabled"), default_true()) {
            Some(b) => b,
            None => {
                return None;
            },
        };
        let unversioned: bool = match read_switch(read_field(v, 3, "unversioned"), false) {
            Some(b) => b,
            None => {
                return None;
            },
        };
        let expose: bool = match read_switch(read_field(v, 5, "expose_by_default"), default_true()) {
            Some(b) => b,
            None => {
                return None;
            },
        };
        let models = match read_field(v, 4, "models") {
            Some(Json::Object(decisions)) => match read_decisions(decisions) {
                Some(models) => models,
                None => {
                    return None;
                },
            },
            Some(_) => {
                return None;
            },
            None => NameMap::new(),
        };
        Some(
            ProviderConfig {
                name,
                base_url,
                enabled,
                unversioned,
                models,
                expose_by_default: expose,
            },
        )
    }

    /// The text of a provider's configuration, two levels in.
    pub fn to_text(&self) -> (text: String)
        ensures
            text@ == setting_text(self@),
    {
        let models = write_block("{", &write_decision_lines(&self.models), "}", "      ");
        let mut lines: Vec<String> = Vec::new();
        assert(texts(lines@) =~= Seq::empty());
        push_line(&mut lines, "name", write_text(self.name.as_str()).as_str());
        push_line(&mut lines, "base_url", write_text(self.base_url.as_str()).as_str());
        push_line(&mut lines, "enabled", write_switch(self.enabled));
        push_line(&mut lines, "unversioned", write_switch(self.unversioned));
        push_line(&mut lines, "models", models.as_str());
        push_line(&mut lines, "expose_by_default", write_switch(self.expose_by_default));
        assert(texts(lines@) =~= setting_lines(self@));
        write_block("{", &lines, "}", "    ")
    }

    /// Writes a provider's configuration.
    pub fn to_json(&self) -> (json: Json)
        ensures
            json@ == setting_json(self@),
    {
        Json::Object(
            JsonObject::new().with("name", Json::text(self.name.as_str())).with(
                "base_url",
                Json::text(self.base_url.as_str()),
            ).with("enabled", Json::Bool(self.enabled)).with(
                "unversioned",
                Json::Bool(self.unversioned),
            ).with("models", Json::Object(write_decisions(&self.models))).with(
                "expose_by_default",
                Json::Bool(self.expose_by_default),
            ),
        )
    }
}

impl Clone for ProviderConfig {
    fn clone(&self) -> (copy: Self)
        ensures
            copy@ == self@,
    {
        ProviderConfig {
            name: self.name.clone(),
            base_url: self.base_url.clone(),
            enabled: self.enabled,
            unversioned: self.unversioned,
            models: self.models.copy(),
            expose_by_default: self.expose_by_default,
        }
    }
}

/// A provider of which nothing was decided.
pub open spec fn fresh_setting(name: Seq<char>, base_url: Seq<char>) -> ProviderSetting {
    ProviderSetting {
        name,
        base_url,
        enabled: true,
        unversioned: false,
        models: Map::empty(),
        expose_by_default: true,
    }
}

// ── JSON ────────────────────────────────────────────────────────────────────

/// A switch: its default where it is missing, an error where it is no boolean.
pub open spec fn switch_in(v: Option<JsonView>, default: bool) -> Option<bool> {
    match v {
        Some(JsonView::Bool(b)) => Some(b),
        Some(_) => None,
        None => Some(default),
    }
}

fn read_switch(v: Option<&Json>, default: bool) -> (b: Option<bool>)
    ensures
        b == switch_in(seen(v), default),
{
    match v {
        Some(Json::Bool(b)) => Some(*b),
        Some(_) => None,
        None => Some(default),
    }
}

/// The decisions that an object holds, if every member is one.
pub open spec fn decisions_in(members: Map<Seq<char>, JsonView>) -> Option<
    Map<Seq<char>, bool>,
> {
    if forall|k: Seq<char>| #[trigger] members.contains_key(k) ==> members[k] is Bool {
        Some(Map::new(|k: Seq<char>| members.contains_key(k), |k: Seq<char>| members[k]->Bool_0))
    } else {
        None
    }
}

/// Decisions as an object.
pub open spec fn decisions_json(models: Map<Seq<char>, bool>) -> Map<Seq<char>, JsonView> {
    Map::new(|k: Seq<char>| models.contains_key(k), |k: Seq<char>| JsonView::Bool(models[k]))
}

fn read_decisions(members: &JsonObject) -> (models: Option<NameMap<bool>>)
    ensures
        match models {
            Some(m) => decisions_in(members@) == Some(m@),
            None => decisions_in(members@) is None,
        },
{
    let n: usize = members.len();
    let ghost keys = sorted_keys(members@);
    let mut models: NameMap<bool> = NameMap::new();
    for i in 0..n
        invariant
            keys == sorted_keys(members@),
            n == keys.len(),
            crate::json::lists(keys, members@),
            forall|j: int| 0 <= j < i ==> members@[#[trigger] keys[j]] is Bool,
            forall|k: Seq<char>| #[trigger]
                models@.contains_key(k) <==> keys.take(i as int).contains(k),
            forall|k: Seq<char>| #[trigger]
                models@.contains_key(k) ==> members@.contains_key(k) && models@[k]
                    == members@[k]->Bool_0,
    {
        let (key, value) = members.entry(i);
        match value {
            Json::Bool(b) => {
                let ghost before = models@;
                let ghost fewer = keys.take(i as int);
                let ghost more = keys.take(i + 1);
                models.insert(key, *b);
                assert forall|k: Seq<char>| #[trigger]
                    models@.contains_key(k) <==> more.contains(k) by {
                    if models@.contains_key(k) {
                        if k == key@ {
                            assert(more[i as int] == k);
                        } else {
                            assert(before.contains_key(k));
                            let j = choose|j: int| 0 <= j < fewer.len() && fewer[j] == k;
                            assert(more[j] == k);
                        }
                    }
                    if more.contains(k) {
                        let j = choose|j: int| 0 <= j < more.len() && more[j] == k;
                        if j < i {
                            assert(fewer[j] == k);
                            assert(before.contains_key(k));
                        }
                    }
                }
            },
            _ => {
                assert(members@.contains_key(key@) && !(members@[key@] is Bool));
                return None;
            },
        }
    }
    proof {
        assert(keys.take(n as int) =~= keys);
        assert forall|k: Seq<char>| #[trigger] members@.contains_key(k) implies members@[k] is Bool by {
            assert(keys.contains(k));
            let j = choose|j: int| 0 <= j < keys.len() && keys[j] == k;
            assert(members@[keys[j]] is Bool);
        }
        assert(models@ =~= decisions_in(members@)->0);
    }
    Some(models)
}

fn write_decisions(models: &NameMap<bool>) -> (members: JsonObject)
    ensures
        members@ == decisions_json(models@),
{
    let n: usize = models.len();
    let ghost listed = models.listed();
    let mut members = JsonObject::new();
    for i in 0..n
        invariant
            n == listed.len(),
            listed == models.listed(),
            members@ == decisions_json(map_of(listed.take(i as int))),
            models@ == map_of(listed),
    {
        let (key, value) = models.entry(i);
        members.insert(key, Json::Bool(value));
        proof {
            assert(listed.take(i + 1).drop_last() =~= listed.take(i as int));
            assert(listed.take(i + 1).last() == (key@, value));
            assert(members@ =~= decisions_json(map_of(listed.take(i + 1))));
        }
    }
    assert(listed.take(n as int) =~= listed);
    assert(members@ =~= decisions_json(models@));
    members
}

/// A field: the member of an object, or the item in its place where a list of
/// fields stands for the object.
pub open spec fn field_of(v: JsonView, place: int, name: Seq<char>) -> Option<JsonView> {
    if v is Array {
        v.at(place)
    } else {
        v.get(name)
    }
}

fn read_field<'a>(v: &'a Json, place: usize, name: &str) -> (field: Option<&'a Json>)
    ensures
        seen(field) == field_of(v@, place as int, name@),
{
    match v {
        Json::Array(_) => v.at(place),
        _ => v.get(name),
    }
}

/// Whether a value is an object, or a list of no more than `n` fields.
pub open spec fn is_record(v: JsonView, n: int) -> bool {
    match v {
        JsonView::Object(_) => true,
        JsonView::Array(items) => items.len() <= n,
        _ => false,
    }
}

/// A provider's configuration as JSON gives it: by its names, or as the list of
/// its fields in their order. Only the first two must be given.
pub open spec fn setting_in(v: JsonView) -> Option<ProviderSetting> {
    let models = match field_of(v, 4, "models"@) {
        Some(JsonView::Object(members)) => decisions_in(members),
        Some(_) => None,
        None => Some(Map::empty()),
    };
    match (
        field_of(v, 0, "name"@),
        field_of(v, 1, "base_url"@),
        switch_in(field_of(v, 2, "enabled"@), true),
        switch_in(field_of(v, 3, "unversioned"@), false),
        models,
        switch_in(field_of(v, 5, "expose_by_default"@), true),
    ) {
        (
            Some(JsonView::Str(name)),
            Some(JsonView::Str(base_url)),
            Some(enabled),
            Some(unversioned),
            Some(models),
            Some(expose_by_default),
        ) => if is_record(v, 6) {
            Some(
                ProviderSetting { name, base_url, enabled, unversioned, models, expose_by_default },
            )
        } else {
            None
        },
        _ => None,
    }
}

/// A provider's configuration as JSON.
pub open spec fn setting_json(setting: ProviderSetting) -> JsonView {
    JsonView::Object(
        map![
            "name"@ => JsonView::Str(setting.name),
            "base_url"@ => JsonView::Str(setting.base_url),
            "enabled"@ => JsonView::Bool(setting.enabled),
            "unversioned"@ => JsonView::Bool(setting.unversioned),
            "models"@ => JsonView::Object(decisions_json(setting.models)),
            "expose_by_default"@ => JsonView::Bool(setting.expose_by_default),
        ],
    )
}

/// The text of a switch.
pub open spec fn switch_text(on: bool) -> Seq<char> {
    if on {
        "true"@
    } else {
        "false"@
    }
}

fn write_switch(on: bool) -> (text: &'static str)
    ensures
        text@ == switch_text(on),
{
    if on {
        "true"
    } else {
        "false"
    }
}

/// The lines of decisions, in the order of the models' names.
pub open spec fn decision_lines(models: Map<Seq<char>, bool>) -> Seq<Seq<char>> {
    sorted_keys(decisions_json(models)).map_values(
        |k: Seq<char>| line_text(k, switch_text(models[k])),
    )
}

/// The lines of a provider's configuration, in the order of its fields.
pub open spec fn setting_lines(setting: ProviderSetting) -> Seq<Seq<char>> {
    seq![
        line_text("name"@, json_text(JsonView::Str(setting.name))),
        line_text("base_url"@, json_text(JsonView::Str(setting.base_url))),
        line_text("enabled"@, switch_text(setting.enabled)),
        line_text("unversioned"@, switch_text(setting.unversioned)),
        line_text(
            "models"@,
            block_text("{"@, decision_lines(setting.models), "}"@, "      "@),
        ),
        line_text("expose_by_default"@, switch_text(setting.expose_by_default)),
    ]
}

/// The text of a provider's configuration, two levels in.
pub open spec fn setting_text(setting: ProviderSetting) -> Seq<char> {
    block_text("{"@, setting_lines(setting), "}"@, "    "@)
}

fn write_decision_lines(models: &NameMap<bool>) -> (lines: Vec<String>)
    ensures
        texts(lines@) == decision_lines(models@),
{
    let ghost all = decision_lines(models@);
    let members = write_decisions(models);
    let n: usize = members.len();
    let mut lines: Vec<String> = Vec::new();
    for i in 0..n
        invariant
            members@ == decisions_json(models@),
            n == sorted_keys(members@).len(),
            all == decision_lines(models@),
            texts(lines@) == all.take(i as int),
    {
        let (model, value) = members.entry(i);
        let ghost read = texts(lines@);
        if let Json::Bool(on) = value {
            push_line(&mut lines, model, write_switch(*on));
        }
        assert(texts(lines@) =~= read.push(all[i as int]));
        assert(texts(lines@) =~= all.take(i + 1));
    }
    assert(texts(lines@) =~= all);
    lines
}

/// The configuration.
#[derive(Debug, PartialEq, Eq)]
pub struct Config {
    /// The providers in routing order.
    pub providers: Vec<ProviderConfig>,
}

/// Settings by their views.
pub open spec fn settings(providers: Seq<ProviderConfig>) -> Seq<ProviderSetting> {
    providers.map_values(|p: ProviderConfig| p@)
}

impl View for Config {
    type V = Seq<ProviderSetting>;

    open spec fn view(&self) -> Seq<ProviderSetting> {
        settings(self.providers@)
    }
}

impl Default for Config {
    fn default() -> (config: Self)
        ensures
            config@ == Seq::<ProviderSetting>::empty(),
    {
        let config = Config { providers: Vec::new() };
        assert(config@ =~= Seq::empty());
        config
    }
}

impl Clone for Config {
    fn clone(&self) -> (copy: Self)
        ensures
            copy@ == self@,
    {
        let mut providers: Vec<ProviderConfig> = Vec::new();
        for i in 0..self.providers.len()
            invariant
                settings(providers@) == self@.take(i as int),
        {
            let copy = self.providers[i].clone();
            providers.push(copy);
            assert(settings(providers@) =~= self@.take(i as int).push(copy@));
            assert(settings(providers@) =~= self@.take(i + 1));
        }
        assert(settings(providers@) =~= self@);
        Config { providers }
    }
}

/// The configuration that a stored text holds. None is held by one that gives
/// more than once what is read of it.
pub open spec fn config_stored(text: Seq<char>) -> Option<Seq<ProviderSetting>> {
    match json_of(text) {
        Some(v) => if config_repeats(text) {
            None
        } else {
            config_in(v)
        },
        None => None,
    }
}

/// The text of a configuration with the fields in their order.
pub open spec fn config_text(config: Seq<ProviderSetting>) -> Seq<char> {
    let providers = block_text(
        "["@,
        config.map_values(|s: ProviderSetting| setting_text(s)),
        "]"@,
        "  "@,
    );
    block_text("{"@, seq![line_text("providers"@, providers)], "}"@, ""@)
}

/// The text that a configuration is stored as: the fields stand in their order,
/// where the text that has them so is read as the configuration.
pub open spec fn stored_text(config: Seq<ProviderSetting>) -> Seq<char> {
    if config_stored(config_text(config)) == Some(config) {
        config_text(config)
    } else {
        pretty_text(config_json(config))
    }
}

/// The place of the first provider of a name, from `from` on.
pub open spec fn place_from(config: Seq<ProviderSetting>, name: Seq<char>, from: int) -> Option<int>
    decreases config.len() - from,
{
    if !(0 <= from < config.len()) {
        None
    } else if config[from].name == name {
        Some(from)
    } else {
        place_from(config, name, from + 1)
    }
}

/// The place of the first provider of a name.
pub open spec fn place_of(config: Seq<ProviderSetting>, name: Seq<char>) -> Option<int> {
    place_from(config, name, 0)
}

/// The first `n` settings that are enabled.
pub open spec fn enabled_among(config: Seq<ProviderSetting>, n: int) -> Seq<ProviderSetting>
    decreases n,
{
    if n <= 0 {
        Seq::empty()
    } else if config[n - 1].enabled {
        enabled_among(config, n - 1).push(config[n - 1])
    } else {
        enabled_among(config, n - 1)
    }
}

/// Settings by their views, from references.
pub open spec fn borrowed_settings(list: Seq<&ProviderConfig>) -> Seq<ProviderSetting> {
    list.map_values(|p: &ProviderConfig| p@)
}

/// The settings that JSON items hold, if all of them do.
pub open spec fn settings_in(items: Seq<JsonView>) -> Option<Seq<ProviderSetting>> {
    if forall|i: int| 0 <= i < items.len() ==> setting_in(#[trigger] items[i]) is Some {
        Some(items.map_values(|v: JsonView| setting_in(v)->0))
    } else {
        None
    }
}

/// The configuration that a JSON value is: an object, or the list of its one
/// field. Without providers it is an empty one.
pub open spec fn config_in(v: JsonView) -> Option<Seq<ProviderSetting>> {
    if is_record(v, 1) {
        match field_of(v, 0, "providers"@) {
            Some(JsonView::Array(items)) => settings_in(items),
            Some(_) => None,
            None => Some(Seq::empty()),
        }
    } else {
        None
    }
}

/// A configuration as JSON.
pub open spec fn config_json(config: Seq<ProviderSetting>) -> JsonView {
    JsonView::Object(
        map![
            "providers"@ => JsonView::Array(
                config.map_values(|s: ProviderSetting| setting_json(s)),
            ),
        ],
    )
}

impl Config {
    /// The place of the first provider of a name.
    pub fn place(&self, name: &str) -> (place: Option<usize>)
        ensures
            match place {
                Some(i) => place_of(self@, name@) == Some(i as int) && i < self.providers@.len(),
                None => place_of(self@, name@) is None,
            },
    {
        for i in 0..self.providers.len()
            invariant
                place_of(self@, name@) == place_from(self@, name@, i as int),
        {
            assert(self@[i as int] == self.providers@[i as int]@);
            if same_text(self.providers[i].name.as_str(), name) {
                return Some(i);
            }
        }
        None
    }

    /// The first provider of a name.
    pub fn provider(&self, name: &str) -> (provider: Option<&ProviderConfig>)
        ensures
            match provider {
                Some(p) => place_of(self@, name@) matches Some(i) && p@ == self@[i],
                None => place_of(self@, name@) is None,
            },
    {
        match self.place(name) {
            Some(i) => Some(&self.providers[i]),
            None => None,
        }
    }

    /// The first provider of a name, to be changed.
    pub fn provider_mut(&mut self, name: &str) -> (provider: Option<&mut ProviderConfig>)
        ensures
            match provider {
                Some(p) => match place_of(old(self)@, name@) {
                    Some(i) => *p == old(self).providers@[i] && final(self).providers@
                        == old(self).providers@.update(i, *final(p)),
                    None => false,
                },
                None => place_of(old(self)@, name@) is None && *final(self) == *old(self),
            },
    {
        match self.place(name) {
            Some(i) => Some(&mut self.providers[i]),
            None => None,
        }
    }

    /// The configuration that a stored text holds; nothing where it is not one.
    pub fn from_text(text: &str) -> (config: Option<Config>)
        ensures
            match config {
                Some(c) => config_stored(text@) == Some(c@),
                None => config_stored(text@) is None,
            },
    {
        match parse(text) {
            Some(v) => if config_names_twice(text) {
                None
            } else {
                Config::from_json(&v)
            },
            None => None,
        }
    }

    fn write_fields(&self) -> (text: String)
        ensures
            text@ == config_text(self@),
    {
        let ghost all = self@.map_values(|s: ProviderSetting| setting_text(s));
        let mut items: Vec<String> = Vec::new();
        for i in 0..self.providers.len()
            invariant
                all == self@.map_values(|s: ProviderSetting| setting_text(s)),
                texts(items@) == all.take(i as int),
        {
            let ghost read = texts(items@);
            let item = self.providers[i].to_text();
            items.push(item);
            assert(texts(items@) =~= read.push(item@));
            assert(texts(items@) =~= all.take(i + 1));
        }
        assert(texts(items@) =~= all);
        let providers = write_block("[", &items, "]", "  ");
        let mut lines: Vec<String> = Vec::new();
        push_line(&mut lines, "providers", providers.as_str());
        assert(texts(lines@) =~= seq![line_text("providers"@, providers@)]);
        write_block("{", &lines, "}", "")
    }

    /// The text that a configuration is stored as: reading it gives the
    /// configuration back. It is read once before it is handed out.
    pub fn to_text(&self) -> (text: String)
        ensures
            text@ == stored_text(self@),
            config_stored(text@) == Some(self@),
    {
        let text = self.write_fields();
        let plain = render_pretty(&self.to_json());
        proof {
            config_is_plain(self@);
            config_round_trips(self@);
            nothing_given_twice(plain@);
        }
        match Config::from_text(text.as_str()) {
            Some(read) => {
                proof {
                    config_is_plain(read@);
                    config_round_trips(read@);
                }
                let again = render_pretty(&read.to_json());
                if same_text(again.as_str(), plain.as_str()) {
                    text
                } else {
                    plain
                }
            },
            None => plain,
        }
    }

    /// The providers that are routed to, in order.
    pub fn enabled_providers(&self) -> (list: Vec<&ProviderConfig>)
        ensures
            borrowed_settings(list@) == enabled_among(self@, self@.len() as int),
    {
        let mut list: Vec<&ProviderConfig> = Vec::new();
        assert(borrowed_settings(list@) =~= Seq::empty());
        for i in 0..self.providers.len()
            invariant
                borrowed_settings(list@) == enabled_among(self@, i as int),
        {
            let ghost read = borrowed_settings(list@);
            assert(self@[i as int] == self.providers@[i as int]@);
            if self.providers[i].enabled {
                list.push(&self.providers[i]);
                assert(borrowed_settings(list@) =~= read.push(self@[i as int]));
            }
        }
        list
    }

    /// Reads a configuration.
    pub fn from_json(v: &Json) -> (config: Option<Config>)
        ensures
            match config {
                Some(c) => config_in(v@) == Some(c@),
                None => config_in(v@) is None,
            },
    {
        broadcast use crate::json::array_view;

        let holds: bool = match v {
            Json::Object(_) => true,
            Json::Array(items) => items.len() <= 1,
            _ => false,
        };
        if !holds {
            return None;
        }
        match read_field(v, 0, "providers") {
            None => Some(Config::default()),
            Some(Json::Array(items)) => {
                let ghost all = views(items@);
                let mut providers: Vec<ProviderConfig> = Vec::new();
                assert(settings(providers@) =~= Seq::empty());
                for i in 0..items.len()
                    invariant
                        all == views(items@),
                        is_record(v@, 1),
                        field_of(v@, 0, "providers"@) == Some(JsonView::Array(all)),
                        forall|j: int| 0 <= j < i ==> setting_in(#[trigger] all[j]) is Some,
                        settings(providers@) == all.take(i as int).map_values(
                            |v: JsonView| setting_in(v)->0,
                        ),
                {
                    let ghost read = settings(providers@);
                    assert(all[i as int] == items@[i as int]@);
                    match ProviderConfig::from_json(&items[i]) {
                        Some(provider) => {
                            providers.push(provider);
                            assert(settings(providers@) =~= read.push(provider@));
                            assert(settings(providers@) =~= all.take(i + 1).map_values(
                                |v: JsonView| setting_in(v)->0,
                            ));
                        },
                        None => {
                            assert(settings_in(all) is None);
                            return None;
                        },
                    }
                }
                assert(all.take(all.len() as int) =~= all);
                Some(Config { providers })
            },
            Some(_) => None,
        }
    }

    /// Writes a configuration.
    pub fn to_json(&self) -> (json: Json)
        ensures
            json@ == config_json(self@),
    {
        broadcast use crate::json::array_view;

        let ghost all = self@.map_values(|s: ProviderSetting| setting_json(s));
        let mut items: Vec<Json> = Vec::new();
        for i in 0..self.providers.len()
            invariant
                all == self@.map_values(|s: ProviderSetting| setting_json(s)),
                views(items@) == all.take(i as int),
        {
            let ghost read = views(items@);
            let item = self.providers[i].to_json();
            items.push(item);
            assert(views(items@) =~= read.push(item@));
            assert(views(items@) =~= all.take(i + 1));
        }
        assert(views(items@) =~= all);
        Json::Object(JsonObject::new().with("providers", Json::Array(items)))
    }
}

// ── laws ────────────────────────────────────────────────────────────────────

/// A decision on a model holds for that model and changes nothing else, and the
/// last decision stands.
pub proof fn decisions_stand(
    setting: ProviderSetting,
    model: Seq<char>,
    exposed: bool,
    other: Seq<char>,
)
    ensures
        ({
            let after = ProviderSetting {
                models: setting.models.insert(model, exposed),
                ..setting
            };
            &&& after.exposed(model) == exposed
            &&& other != model ==> after.exposed(other) == setting.exposed(other)
        }),
{
}

/// A provider's configuration that is written is read back as it was.
pub proof fn setting_round_trips(setting: ProviderSetting)
    ensures
        setting_in(setting_json(setting)) == Some(setting),
{
    reveal_strlit("name");
    reveal_strlit("base_url");
    reveal_strlit("enabled");
    reveal_strlit("unversioned");
    reveal_strlit("models");
    reveal_strlit("expose_by_default");
    assert("name"@.len() == 4 && "base_url"@.len() == 8 && "enabled"@.len() == 7);
    assert("unversioned"@.len() == 11 && "models"@.len() == 6 && "expose_by_default"@.len() == 17);
    let v = setting_json(setting);
    assert(v.get("models"@) == Some(JsonView::Object(decisions_json(setting.models))));
    assert(decisions_in(decisions_json(setting.models))->0 =~= setting.models);
}

proof fn config_is_plain(config: Seq<ProviderSetting>)
    ensures
        reads_back(config_json(config)),
{
    let items = config.map_values(|s: ProviderSetting| setting_json(s));
    assert forall|i: int| 0 <= i < items.len() implies is_plain(#[trigger] items[i], 98) by {
        let s = config[i];
        let models = decisions_json(s.models);
        assert forall|k: Seq<char>| #[trigger] models.contains_key(k) implies is_plain(
            models[k],
            96,
        ) by {}
        assert(is_plain(JsonView::Object(models), 97));
        let members = setting_json(s)->Object_0;
        assert forall|k: Seq<char>| #[trigger] members.contains_key(k) implies is_plain(
            members[k],
            97,
        ) by {}
    }
    assert(is_plain(JsonView::Array(items), 99));
    let members = config_json(config)->Object_0;
    assert forall|k: Seq<char>| #[trigger] members.contains_key(k) implies is_plain(
        members[k],
        99,
    ) by {}
}

/// A configuration that is written is read back as it was.
pub proof fn config_round_trips(config: Seq<ProviderSetting>)
    ensures
        config_in(config_json(config)) == Some(config),
{
    let items = config.map_values(|s: ProviderSetting| setting_json(s));
    assert forall|i: int| 0 <= i < items.len() implies setting_in(#[trigger] items[i]) == Some(
        config[i],
    ) by {
        setting_round_trips(config[i]);
    }
    assert(items.map_values(|v: JsonView| setting_in(v)->0) =~= config);
    assert(config_json(config).get("providers"@) == Some(JsonView::Array(items)));
}

proof fn enabled_of_prefix(a: Seq<ProviderSetting>, b: Seq<ProviderSetting>, n: int)
    requires
        0 <= n <= a.len(),
        n <= b.len(),
        forall|i: int| 0 <= i < n ==> #[trigger] a[i] == b[i],
    ensures
        enabled_among(a, n) == enabled_among(b, n),
    decreases n,
{
    if n > 0 {
        enabled_of_prefix(a, b, n - 1);
        assert(a[n - 1] == b[n - 1]);
    }
}

/// The providers that are routed to are all that are enabled, in their order.
pub proof fn every_enabled_provider_is_routed_to(
    config: Seq<ProviderSetting>,
    last: ProviderSetting,
)
    ensures
        enabled_among(Seq::empty(), 0) == Seq::<ProviderSetting>::empty(),
        enabled_among(config.push(last), config.len() as int + 1) == (if last.enabled {
            enabled_among(config, config.len() as int).push(last)
        } else {
            enabled_among(config, config.len() as int)
        }),
{
    enabled_of_prefix(config, config.push(last), config.len() as int);
}

proof fn place_is_first(config: Seq<ProviderSetting>, name: Seq<char>, from: int)
    requires
        0 <= from,
    ensures
        match place_from(config, name, from) {
            Some(i) => from <= i < config.len() && config[i].name == name && forall|j: int|
                from <= j < i ==> (#[trigger] config[j]).name != name,
            None => forall|j: int| from <= j < config.len() ==> (#[trigger] config[j]).name != name,
        },
    decreases config.len() - from,
{
    if from < config.len() && config[from].name != name {
        place_is_first(config, name, from + 1);
    }
}

/// A provider is found by its name, the first of that name.
pub proof fn settings_are_found_by_name(config: Seq<ProviderSetting>, name: Seq<char>)
    ensures
        match place_of(config, name) {
            Some(i) => 0 <= i < config.len() && config[i].name == name && forall|j: int|
                0 <= j < i ==> (#[trigger] config[j]).name != name,
            None => forall|j: int| 0 <= j < config.len() ==> (#[trigger] config[j]).name != name,
        },
{
    place_is_first(config, name, 0);
}

/// A model is exposed as was decided of it, and else as the provider's default says;
/// of a provider of which nothing is said every model is exposed, and it is
/// enabled.
pub proof fn models_are_exposed_as_decided(
    setting: ProviderSetting,
    model: Seq<char>,
    name: Seq<char>,
    url: Seq<char>,
)
    ensures
        setting.models.contains_key(model) ==> setting.exposed(model) == setting.models[model],
        !setting.models.contains_key(model) ==> setting.exposed(model) == setting.expose_by_default,
        fresh_setting(name, url).exposed(model),
        fresh_setting(name, url).enabled,
        !fresh_setting(name, url).unversioned,
        fresh_setting(name, url).name == name && fresh_setting(name, url).base_url == url,
{
}

/// A provider that is read has the name and the URL that it is given, and for what
/// it is not given what holds where nothing is said.
pub proof fn settings_are_read_as_given(v: JsonView, setting: ProviderSetting)
    requires
        v is Object,
        setting_in(v) == Some(setting),
    ensures
        v.get("name"@) == Some(JsonView::Str(setting.name)),
        v.get("base_url"@) == Some(JsonView::Str(setting.base_url)),
        v.get("enabled"@) is None ==> setting.enabled,
        v.get("enabled"@) is Some ==> v.get("enabled"@) == Some(JsonView::Bool(setting.enabled)),
        v.get("unversioned"@) is None ==> !setting.unversioned,
        v.get("unversioned"@) is Some ==> v.get("unversioned"@) == Some(
            JsonView::Bool(setting.unversioned),
        ),
        v.get("expose_by_default"@) is None ==> setting.expose_by_default,
        v.get("expose_by_default"@) is Some ==> v.get("expose_by_default"@) == Some(
            JsonView::Bool(setting.expose_by_default),
        ),
        v.get("models"@) is None ==> setting.models == Map::<Seq<char>, bool>::empty(),
        v.get("models"@) is Some ==> (v.get("models"@) matches Some(JsonView::Object(members))
            && forall|model: Seq<char>|
            setting.models.contains_key(model) <==> #[trigger] members.contains_key(model)),
        v.get("models"@) matches Some(JsonView::Object(members)) ==> forall|model: Seq<char>| #[trigger]
            members.contains_key(model) ==> members[model] == JsonView::Bool(setting.models[model]),
{
}

} // verus!
