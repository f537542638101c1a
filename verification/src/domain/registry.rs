//! Which provider serves a model.
//!
//! Requests are routed by model id. An id that nobody claims goes to the first
//! provider; one that its provider deliberately hides is refused.
use vstd::prelude::*;

use super::provider::{Provider, ProviderView};
use crate::names::NameMap;
use crate::text::{
    chars_of, clear_where_absent, contains, find, find_is_contains, found_where_it_stands, same_text,
    search,
};

verus! {

/// Providers by their views.
pub open spec fn provider_views(providers: Seq<Provider>) -> Seq<ProviderView> {
    providers.map_values(|p: Provider| p@)
}

/// Providers and what they serve, by views.
#[verifier::ext_equal]
pub struct RegistryView {
    pub providers: Seq<ProviderView>,
    /// The place of the provider that claims a model.
    pub routes: Map<Seq<char>, usize>,
    /// The models that are hidden, each with the place of a provider that hides
    /// it.
    pub hidden: Set<(Seq<char>, int)>,
}

impl RegistryView {
    /// There is a provider, and every route and every hider is one.
    pub open spec fn wf(self) -> bool {
        &&& self.providers.len() > 0
        &&& forall|m: Seq<char>| #[trigger]
            self.routes.contains_key(m) ==> self.routes[m] < self.providers.len()
        &&& forall|h: (Seq<char>, int)| #[trigger]
            self.hidden.contains(h) ==> 0 <= h.1 < self.providers.len()
    }

    /// The place of the first provider of a name, from `from` on.
    pub open spec fn index_from(self, name: Seq<char>, from: int) -> Option<int>
        decreases self.providers.len() - from,
    {
        if !(0 <= from < self.providers.len()) {
            None
        } else if self.providers[from].name == name {
            Some(from)
        } else {
            self.index_from(name, from + 1)
        }
    }

    /// The place of the first provider of a name.
    pub open spec fn index(self, name: Seq<char>) -> Option<int> {
        self.index_from(name, 0)
    }

    /// Whether anyone hides a model.
    pub open spec fn somebody_hides(self, model: Seq<char>) -> bool {
        exists|i: int| #[trigger] self.hidden.contains((model, i))
    }

    /// The provider and the bare id that a qualified id `provider/id` names. An
    /// id that is claimed or hidden as it stands is no qualified one.
    pub open spec fn qualified(self, model: Seq<char>) -> Option<(int, Seq<char>)> {
        if self.routes.contains_key(model) || self.somebody_hides(model) {
            None
        } else {
            match find(model, "/"@) {
                Some(slash) => {
                    let bare = model.skip(slash + 1);
                    match self.index(model.take(slash)) {
                        Some(i) => if bare.len() > 0 {
                            Some((i, bare))
                        } else {
                            None
                        },
                        None => None,
                    }
                },
                None => None,
            }
        }
    }

    /// The place of the provider that a model resolves to; and the id to send
    /// it, where a qualifier was taken off.
    pub open spec fn target(self, model: Seq<char>) -> (int, Option<Seq<char>>) {
        if self.routes.contains_key(model) {
            (self.routes[model] as int, None)
        } else {
            match self.qualified(model) {
                Some((i, bare)) => (i, Some(bare)),
                None => (0, None),
            }
        }
    }

    /// The registry after a provider claims a model: the first claim stands.
    pub open spec fn routed(self, model: Seq<char>, provider: Seq<char>) -> RegistryView {
        match self.index(provider) {
            Some(i) => if self.routes.contains_key(model) {
                self
            } else {
                RegistryView { routes: self.routes.insert(model, i as usize), ..self }
            },
            None => self,
        }
    }

    /// The registry after a provider hides a model: its own claim to the model
    /// is withdrawn, and no other.
    pub open spec fn with_hidden(self, model: Seq<char>, provider: Seq<char>) -> RegistryView {
        match self.index(provider) {
            Some(i) => RegistryView {
                routes: if self.routes.contains_key(model) && self.routes[model] == i {
                    self.routes.remove(model)
                } else {
                    self.routes
                },
                hidden: self.hidden.insert((model, i)),
                ..self
            },
            None => self,
        }
    }

    /// Whether a request for a model is refused: it would reach a provider that
    /// hides it, or nobody serves it and somebody hides it.
    pub open spec fn refuses(self, model: Seq<char>) -> bool {
        let (i, upstream) = self.target(model);
        let id = match upstream {
            Some(bare) => bare,
            None => model,
        };
        self.somebody_hides(id) && (self.hidden.contains((id, i)) || !self.routes.contains_key(id))
    }
}

/// Providers, and the models that each serves.
#[derive(Debug)]
pub struct Registry {
    providers: Vec<Provider>,
    routes: NameMap<usize>,
    hidden: Vec<(String, usize)>,
}

/// Hidden models by their views.
spec fn hidden_views(hidden: Seq<(String, usize)>) -> Seq<(Seq<char>, int)> {
    hidden.map_values(|h: (String, usize)| (h.0@, h.1 as int))
}

impl View for Registry {
    type V = RegistryView;

    closed spec fn view(&self) -> RegistryView {
        RegistryView {
            providers: provider_views(self.providers@),
            routes: self.routes@,
            hidden: hidden_views(self.hidden@).to_set(),
        }
    }
}

impl Clone for Registry {
    fn clone(&self) -> (copy: Self)
        ensures
            copy@ == self@,
    {
        proof {
            use_type_invariant(self);
        }
        let mut providers: Vec<Provider> = Vec::new();
        for i in 0..self.providers.len()
            invariant
                provider_views(providers@) == provider_views(self.providers@).take(i as int),
        {
            let ghost read = provider_views(providers@);
            let copy = self.providers[i].clone();
            providers.push(copy);
            assert(provider_views(providers@) =~= read.push(copy@));
            assert(provider_views(providers@) =~= provider_views(self.providers@).take(i + 1));
        }
        let mut hidden: Vec<(String, usize)> = Vec::new();
        for i in 0..self.hidden.len()
            invariant
                hidden_views(hidden@) == hidden_views(self.hidden@).take(i as int),
        {
            let ghost read = hidden_views(hidden@);
            let name = self.hidden[i].0.clone();
            let place: usize = self.hidden[i].1;
            hidden.push((name, place));
            assert(hidden_views(hidden@) =~= read.push((name@, place as int)));
            assert(hidden_views(hidden@) =~= hidden_views(self.hidden@).take(i + 1));
        }
        assert(provider_views(providers@) =~= provider_views(self.providers@));
        assert(hidden_views(hidden@) =~= hidden_views(self.hidden@));
        Registry { providers, routes: self.routes.copy(), hidden }
    }
}

impl Registry {
    #[verifier::type_invariant]
    closed spec fn is_wf(self) -> bool {
        self@.wf()
    }

    /// A registry whose one provider serves everything.
    pub fn single(provider: Provider) -> (registry: Registry)
        ensures
            registry@ == (RegistryView {
                providers: seq![provider@],
                routes: Map::empty(),
                hidden: Set::empty(),
            }),
            registry@.wf(),
    {
        let mut providers: Vec<Provider> = Vec::new();
        providers.push(provider);
        let hidden: Vec<(String, usize)> = Vec::new();
        let routes: NameMap<usize> = NameMap::new();
        assert(provider_views(providers@) =~= seq![provider@]);
        assert(hidden_views(hidden@).to_set() =~= Set::empty());
        Registry { providers, routes, hidden }
    }

    /// Adds a provider, in place of any of the same name.
    pub fn replacing(providers: &mut Vec<Provider>, provider: Provider)
        ensures
            provider_views(final(providers)@) == others(
                provider_views(old(providers)@),
                provider@.name,
                old(providers)@.len() as int,
            ).push(provider@),
    {
        let ghost all = provider_views(providers@);
        let mut kept: Vec<Provider> = Vec::new();
        assert(provider_views(kept@) =~= Seq::empty());
        for i in 0..providers.len()
            invariant
                all == provider_views(providers@),
                providers@ == old(providers)@,
                provider_views(kept@) == others(all, provider@.name, i as int),
        {
            let ghost read = provider_views(kept@);
            assert(all[i as int] == providers@[i as int]@);
            if !same_text(providers[i].name(), provider.name()) {
                let copy = providers[i].clone();
                kept.push(copy);
                assert(provider_views(kept@) =~= read.push(copy@));
            }
        }
        let ghost read = provider_views(kept@);
        kept.push(provider);
        assert(provider_views(kept@) =~= read.push(provider@));
        *providers = kept;
    }

    /// A registry of providers in order, the first of which is the default;
    /// nothing where there is none.
    pub fn new(providers: Vec<Provider>) -> (registry: Option<Registry>)
        ensures
            match registry {
                Some(r) => providers@.len() > 0 && r@.wf() && r@ == (RegistryView {
                    providers: provider_views(providers@),
                    routes: Map::empty(),
                    hidden: Set::empty(),
                }),
                None => providers@.len() == 0,
            },
    {
        if providers.len() == 0 {
            return None;
        }
        let hidden: Vec<(String, usize)> = Vec::new();
        let routes: NameMap<usize> = NameMap::new();
        assert(hidden_views(hidden@).to_set() =~= Set::empty());
        Some(Registry { providers, routes, hidden })
    }

    /// Routes a model to a provider, if nobody claims it yet. Says whether the
    /// route is new.
    pub fn route(&mut self, model: &str, provider: &str) -> (claimed: bool)
        ensures
            claimed == (old(self)@.index(provider@) is Some && !old(self)@.routes.contains_key(
                model@,
            )),
            final(self)@ == old(self)@.routed(model@, provider@),
            final(self)@.wf(),
    {
        proof {
            use_type_invariant(&*self);
        }
        match self.index_of(provider) {
            Some(index) => if self.routes.contains_key(model) {
                false
            } else {
                let routes = self.routes.copy().with(model, index);
                assert(self@.routed(model@, provider@).wf());
                self.routes = routes;
                true
            },
            None => false,
        }
    }

    /// Records that a provider has a model and does not expose it. Only its own
    /// claim to the model is withdrawn.
    pub fn hide_model(&mut self, model: &str, provider: &str)
        ensures
            final(self)@ == old(self)@.with_hidden(model@, provider@),
            final(self)@.wf(),
    {
        proof {
            use_type_invariant(&*self);
        }
        let index: usize = match self.index_of(provider) {
            Some(index) => index,
            None => {
                return ;
            },
        };
        let claimed: bool = match self.routes.get(model) {
            Some(i) => i == index,
            None => false,
        };
        let ghost before = self@;
        let mut hidden: Vec<(String, usize)> = Vec::new();
        for k in 0..self.hidden.len()
            invariant
                hidden_views(hidden@) == hidden_views(self.hidden@).take(k as int),
        {
            let name = self.hidden[k].0.clone();
            let at: usize = self.hidden[k].1;
            hidden.push((name, at));
            assert(hidden_views(hidden@) =~= hidden_views(self.hidden@).take(k as int).push(
                (name@, at as int),
            ));
            assert(hidden_views(hidden@) =~= hidden_views(self.hidden@).take(k + 1));
        }
        assert(hidden_views(hidden@) =~= hidden_views(self.hidden@));
        let ghost seen = hidden_views(hidden@);
        hidden.push((model.to_owned(), index));
        proof {
            assert(hidden_views(hidden@) =~= seen.push((model@, index as int)));
            push_is_insert(seen, (model@, index as int));
            let next = RegistryView { hidden: before.hidden.insert((model@, index as int)), ..before };
            assert(next.wf());
        }
        self.hidden = hidden;
        if claimed {
            let routes = self.routes.copy().without(model);
            self.routes = routes;
        }
    }

    /// Whether a provider has a model and does not expose it.
    pub fn hides(&self, provider: &str, model: &str) -> (yes: bool)
        ensures
            yes == (self@.index(provider@) matches Some(i) && self@.hidden.contains((model@, i))),
    {
        match self.index_of(provider) {
            Some(index) => self.hidden_from(index, model),
            None => false,
        }
    }

    /// Whether a request for a model is refused.
    pub fn is_hidden(&self, model: &str) -> (yes: bool)
        ensures
            yes == self@.refuses(model@),
    {
        let (index, upstream) = self.target(model);
        let id: &str = match upstream {
            Some(bare) => bare,
            None => model,
        };
        if !self.anyone_hides(id) {
            return false;
        }
        self.hidden_from(index, id) || !self.routes.contains_key(id)
    }

    fn anyone_hides(&self, model: &str) -> (yes: bool)
        ensures
            yes == self@.somebody_hides(model@),
    {
        let ghost all = hidden_views(self.hidden@);
        for k in 0..self.hidden.len()
            invariant
                all == hidden_views(self.hidden@),
                forall|j: int| 0 <= j < k ==> (#[trigger] all[j]).0 != model@,
        {
            assert(all[k as int] == (self.hidden@[k as int].0@, self.hidden@[k as int].1 as int));
            if same_text(self.hidden[k].0.as_str(), model) {
                assert(all.to_set().contains(all[k as int]));
                assert(self@.hidden.contains((model@, self.hidden@[k as int].1 as int)));
                return true;
            }
        }
        assert forall|i: int| !(#[trigger] self@.hidden.contains((model@, i))) by {
            if all.to_set().contains((model@, i)) {
                let j = choose|j: int| 0 <= j < all.len() && all[j] == (model@, i);
                assert(all[j].0 == model@);
            }
        }
        false
    }

    fn hidden_from(&self, provider: usize, model: &str) -> (yes: bool)
        ensures
            yes == self@.hidden.contains((model@, provider as int)),
    {
        let ghost all = hidden_views(self.hidden@);
        for k in 0..self.hidden.len()
            invariant
                all == hidden_views(self.hidden@),
                forall|j: int| 0 <= j < k ==> #[trigger] all[j] != (model@, provider as int),
        {
            assert(all[k as int] == (self.hidden@[k as int].0@, self.hidden@[k as int].1 as int));
            if self.hidden[k].1 == provider && same_text(self.hidden[k].0.as_str(), model) {
                assert(all.to_set().contains(all[k as int]));
                return true;
            }
        }
        assert(!all.to_set().contains((model@, provider as int))) by {
            if all.to_set().contains((model@, provider as int)) {
                let j = choose|j: int| 0 <= j < all.len() && all[j] == (model@, provider as int);
                assert(all[j] == (model@, provider as int));
            }
        }
        false
    }

    fn index_of(&self, provider: &str) -> (index: Option<usize>)
        ensures
            match index {
                Some(i) => self@.index(provider@) == Some(i as int) && i < self@.providers.len(),
                None => self@.index(provider@) is None,
            },
    {
        for i in 0..self.providers.len()
            invariant
                self@.index(provider@) == self@.index_from(provider@, i as int),
                self@.providers == provider_views(self.providers@),
        {
            assert(self@.providers[i as int] == self.providers@[i as int]@);
            if same_text(self.providers[i].name(), provider) {
                return Some(i);
            }
        }
        None
    }

    /// The place of the provider that a model resolves to, and the id to send
    /// it where a qualifier was taken off.
    fn target<'a>(&self, model: &'a str) -> (result: (usize, Option<&'a str>))
        ensures
            (result.0 as int, crate::json::seen_text(result.1)) == self@.target(model@),
            result.0 < self@.providers.len(),
    {
        proof {
            use_type_invariant(self);
        }
        if let Some(index) = self.routes.get(model) {
            return (index, None);
        }
        match self.qualified(model) {
            Some((index, bare)) => (index, Some(bare)),
            None => (0, None),
        }
    }

    fn qualified<'a>(&self, model: &'a str) -> (result: Option<(usize, &'a str)>)
        ensures
            match result {
                Some((i, bare)) => self@.qualified(model@) == Some((i as int, bare@)) && i
                    < self@.providers.len(),
                None => self@.qualified(model@) is None,
            },
    {
        if self.routes.contains_key(model) || self.anyone_hides(model) {
            return None;
        }
        proof {
            reveal_strlit("/");
        }
        let chars = chars_of(model);
        match search(chars.as_slice(), "/") {
            Some(slash) => {
                let n: usize = chars.len();
                let name = model.substring_char(0, slash);
                let bare = model.substring_char(slash + 1, n);
                assert(name@ =~= model@.take(slash as int));
                assert(bare@ =~= model@.skip(slash + 1));
                if bare.is_empty() {
                    return None;
                }
                match self.index_of(name) {
                    Some(i) => Some((i, bare)),
                    None => None,
                }
            },
            None => None,
        }
    }

    /// The provider that serves a model; the default one where the id is not
    /// known or there is none. A hidden model is to be refused before.
    pub fn resolve(&self, model: Option<&str>) -> (provider: &Provider)
        ensures
            provider@ == self@.providers[match model {
                Some(m) => self@.target(m@).0,
                None => 0,
            }],
    {
        self.resolve_upstream(model).0
    }

    /// The provider that serves a model, and the id to send it where a
    /// qualifier was taken off.
    pub fn resolve_upstream<'a>(&self, model: Option<&'a str>) -> (result: (
        &Provider,
        Option<&'a str>,
    ))
        ensures
            match model {
                Some(m) => result.0@ == self@.providers[self@.target(m@).0]
                    && crate::json::seen_text(result.1) == self@.target(m@).1,
                None => result.0@ == self@.providers[0] && result.1 is None,
            },
    {
        proof {
            use_type_invariant(self);
        }
        match model {
            Some(model) => {
                let (index, upstream) = self.target(model);
                (&self.providers[index], upstream)
            },
            None => (&self.providers[0], None),
        }
    }

    /// The provider of unrouted requests.
    pub fn default_provider(&self) -> (provider: &Provider)
        ensures
            provider@ == self@.providers[0],
    {
        proof {
            use_type_invariant(self);
        }
        &self.providers[0]
    }

    /// The providers in order.
    pub fn providers(&self) -> (providers: &[Provider])
        ensures
            provider_views(providers@) == self@.providers,
    {
        self.providers.as_slice()
    }

    /// The number of providers, of which there is at least one.
    pub fn len(&self) -> (n: usize)
        ensures
            n == self@.providers.len(),
            n > 0,
    {
        proof {
            use_type_invariant(self);
        }
        self.providers.len()
    }

    /// A registry is never empty.
    pub fn is_empty(&self) -> (empty: bool)
        ensures
            empty == (self@.providers.len() == 0),
            !empty,
    {
        proof {
            use_type_invariant(self);
        }
        false
    }

    /// Whether anyone claims a model.
    pub fn has_route(&self, model: &str) -> (yes: bool)
        ensures
            yes == self@.routes.contains_key(model@),
    {
        self.routes.contains_key(model)
    }

    /// The routes in the order of the model ids.
    pub closed spec fn listed(&self) -> Seq<(Seq<char>, usize)> {
        self.routes.listed()
    }

    /// The models that are claimed, each with its provider's name, in the order
    /// of the ids.
    pub fn routes(&self) -> (routes: Vec<(&str, &str)>)
        ensures
            crate::names::in_order(self.listed()),
            self@.routes == crate::names::map_of(self.listed()),
            routes@.len() == self.listed().len(),
            forall|i: int|
                0 <= i < routes@.len() ==> (#[trigger] routes@[i]).0@ == self.listed()[i].0
                    && routes@[i].1@ == self@.providers[self.listed()[i].1 as int].name,
    {
        proof {
            use_type_invariant(self);
        }
        let mut routes: Vec<(&str, &str)> = Vec::new();
        let n: usize = self.routes.len();
        for i in 0..n
            invariant
                self@.wf(),
                n == self.listed().len(),
                routes@.len() == i,
                forall|j: int|
                    0 <= j < i ==> (#[trigger] routes@[j]).0@ == self.listed()[j].0
                        && routes@[j].1@ == self@.providers[self.listed()[j].1 as int].name,
        {
            let (model, index) = self.routes.entry(i);
            assert(self@.routes.contains_key(model@));
            let name = self.providers[index].name();
            assert(self@.providers[index as int] == self.providers@[index as int]@);
            routes.push((model, name));
        }
        routes
    }
}

/// The first `n` providers but for those of a name.
pub open spec fn others(providers: Seq<ProviderView>, name: Seq<char>, n: int) -> Seq<ProviderView>
    decreases n,
{
    if n <= 0 {
        Seq::empty()
    } else if providers[n - 1].name == name {
        others(providers, name, n - 1)
    } else {
        others(providers, name, n - 1).push(providers[n - 1])
    }
}

proof fn push_is_insert(s: Seq<(Seq<char>, int)>, x: (Seq<char>, int))
    ensures
        s.push(x).to_set() == s.to_set().insert(x),
{
    let a = s.push(x).to_set();
    let b = s.to_set().insert(x);
    assert forall|y: (Seq<char>, int)| a.contains(y) <==> b.contains(y) by {
        if a.contains(y) {
            let k = choose|k: int| 0 <= k < s.push(x).len() && s.push(x)[k] == y;
            if k < s.len() {
                assert(s[k] == y);
                assert(s.contains(y));
            }
        }
        if b.contains(y) {
            if y == x {
                assert(s.push(x)[s.len() as int] == y);
            } else {
                assert(s.contains(y));
                let k = choose|k: int| 0 <= k < s.len() && s[k] == y;
                assert(s.push(x)[k] == y);
            }
        }
    }
    assert(a =~= b);
}

// ── laws ────────────────────────────────────────────────────────────────────

/// A provider that is added in place of others of its name is the only one of
/// that name.
pub proof fn replacing_leaves_one(providers: Seq<ProviderView>, provider: ProviderView, i: int)
    requires
        0 <= i < others(providers, provider.name, providers.len() as int).len(),
    ensures
        others(providers, provider.name, providers.len() as int)[i].name != provider.name,
{
    others_have_other_names(providers, provider.name, providers.len() as int, i);
}

proof fn others_have_other_names(
    providers: Seq<ProviderView>,
    name: Seq<char>,
    n: int,
    i: int,
)
    requires
        0 <= i < others(providers, name, n).len(),
    ensures
        others(providers, name, n)[i].name != name,
    decreases n,
{
    if n > 0 && i < others(providers, name, n - 1).len() {
        others_have_other_names(providers, name, n - 1, i);
    }
}

proof fn index_is_in_range(registry: RegistryView, name: Seq<char>, from: int)
    requires
        0 <= from,
    ensures
        registry.index_from(name, from) matches Some(i) ==> from <= i < registry.providers.len()
            && registry.providers[i].name == name,
    decreases registry.providers.len() - from,
{
    if from < registry.providers.len() && registry.providers[from].name != name {
        index_is_in_range(registry, name, from + 1);
    }
}

/// Every request reaches a provider of the registry.
pub proof fn routing_never_fails(registry: RegistryView, model: Seq<char>)
    requires
        registry.wf(),
    ensures
        0 <= registry.target(model).0 < registry.providers.len(),
{
    if let Some(slash) = find(model, "/"@) {
        index_is_in_range(registry, model.take(slash), 0);
    }
}

/// A request that reaches a provider which hides the model is refused, whether
/// the id was qualified or not: a qualifier unhides nothing.
pub proof fn hidden_models_are_refused(registry: RegistryView, model: Seq<char>)
    ensures
        ({
            let (i, upstream) = registry.target(model);
            let id = match upstream {
                Some(bare) => bare,
                None => model,
            };
            registry.hidden.contains((id, i)) ==> registry.refuses(model)
        }),
{
}

/// A model that somebody hides and nobody claims is refused rather than sent to
/// the default provider.
pub proof fn hidden_everywhere_is_refused(registry: RegistryView, model: Seq<char>)
    requires
        registry.somebody_hides(model),
        !registry.routes.contains_key(model),
    ensures
        registry.refuses(model),
{
}

/// A model that its provider claims and does not hide is served, though another
/// provider hides it.
pub proof fn claimed_models_are_served(registry: RegistryView, model: Seq<char>)
    requires
        registry.routes.contains_key(model),
        !registry.hidden.contains((model, registry.routes[model] as int)),
    ensures
        !registry.refuses(model),
{
}

/// A model that nobody has heard of is served, by the default provider or by
/// the one that its qualifier names.
pub proof fn unknown_models_are_served(registry: RegistryView, model: Seq<char>)
    requires
        forall|id: Seq<char>| !registry.somebody_hides(id),
    ensures
        !registry.refuses(model),
{
}

proof fn index_from_is_first(registry: RegistryView, name: Seq<char>, from: int)
    requires
        0 <= from,
    ensures
        match registry.index_from(name, from) {
            Some(i) => from <= i < registry.providers.len() && registry.providers[i].name == name
                && forall|j: int| from <= j < i ==> (#[trigger] registry.providers[j]).name != name,
            None => forall|j: int|
                from <= j < registry.providers.len() ==> (#[trigger] registry.providers[j]).name
                    != name,
        },
    decreases registry.providers.len() - from,
{
    if from < registry.providers.len() && registry.providers[from].name != name {
        index_from_is_first(registry, name, from + 1);
    }
}

/// A provider is found by its name, the first of that name.
pub proof fn providers_are_found_by_name(registry: RegistryView, name: Seq<char>)
    ensures
        match registry.index(name) {
            Some(i) => 0 <= i < registry.providers.len() && registry.providers[i].name == name
                && forall|j: int| 0 <= j < i ==> (#[trigger] registry.providers[j]).name != name,
            None => forall|j: int|
                0 <= j < registry.providers.len() ==> (#[trigger] registry.providers[j]).name
                    != name,
        },
{
    index_from_is_first(registry, name, 0);
}

/// The first provider to claim a model serves it from then on; a later claim
/// changes nothing, nor does a claim by nobody, and no other model is touched.
pub proof fn the_first_claim_counts(
    registry: RegistryView,
    model: Seq<char>,
    provider: Seq<char>,
    other: Seq<char>,
)
    requires
        registry.wf(),
        registry.providers.len() <= usize::MAX,
    ensures
        ({
            let after = registry.routed(model, provider);
            &&& after.providers == registry.providers
            &&& after.hidden == registry.hidden
            &&& registry.routes.contains_key(model) ==> after == registry
            &&& registry.index(provider) is None ==> after == registry
            &&& !registry.routes.contains_key(model) && registry.index(provider) is Some
                ==> after.routes.contains_key(model) && after.target(model) == (
                registry.index(provider)->0,
                None::<Seq<char>>,
            )
            &&& other != model ==> after.routes.contains_key(other) == registry.routes.contains_key(
                other,
            ) && after.target(other) == registry.target(other)
        }),
{
    providers_are_found_by_name(registry, provider);
    let after = registry.routed(model, provider);
    assert forall|name: Seq<char>| after.index(name) == registry.index(name) by {
        providers_are_found_by_name(registry, name);
        providers_are_found_by_name(after, name);
    }
    if after.somebody_hides(other) {
        let k = choose|k: int| #[trigger] after.hidden.contains((other, k));
        assert(registry.hidden.contains((other, k)));
    }
    if registry.somebody_hides(other) {
        let k = choose|k: int| #[trigger] registry.hidden.contains((other, k));
        assert(after.hidden.contains((other, k)));
    }
    if other != model {
        if let Some(slash) = find(other, "/"@) {
            assert(after.index(other.take(slash)) == registry.index(other.take(slash)));
        }
        assert(after.qualified(other) == registry.qualified(other));
    }
}

/// A model that a provider claims is served by it, under its own name; one that
/// nobody claims is served by the first provider, unless its name says which.
pub proof fn models_go_where_they_are_claimed(registry: RegistryView, model: Seq<char>)
    ensures
        registry.routes.contains_key(model) ==> registry.target(model) == (
            registry.routes[model] as int,
            None::<Seq<char>>,
        ),
        !registry.routes.contains_key(model) && !contains(model, "/"@) ==> registry.target(model)
            == (0int, None::<Seq<char>>),
{
    find_is_contains(model, "/"@);
}

/// A model that nobody claims or hides under its whole name goes to the provider
/// that its name starts with, under the rest of its name.
pub proof fn qualified_models_go_where_they_say(
    registry: RegistryView,
    provider: Seq<char>,
    bare: Seq<char>,
)
    requires
        !contains(provider, "/"@),
        !registry.routes.contains_key(provider + "/"@ + bare),
        !registry.somebody_hides(provider + "/"@ + bare),
    ensures
        registry.index(provider) is Some && bare.len() > 0 ==> registry.target(
            provider + "/"@ + bare,
        ) == (registry.index(provider)->0, Some(bare)),
        registry.index(provider) is None || bare.len() == 0 ==> registry.target(
            provider + "/"@ + bare,
        ) == (0int, None::<Seq<char>>),
{
    reveal_strlit("/");
    let model = provider + "/"@ + bare;
    clear_where_absent(provider, "/"@, bare);
    found_where_it_stands(provider, "/"@, bare);
    assert(model.take(provider.len() as int) =~= provider);
    assert(model.skip(provider.len() as int + 1) =~= bare);
}

/// A model that its provider hides is no longer claimed by it, and is refused
/// unless another one claims it; no other model and no other provider is touched.
pub proof fn hiding_takes_a_model_away(
    registry: RegistryView,
    model: Seq<char>,
    provider: Seq<char>,
    other: Seq<char>,
    i: int,
)
    requires
        registry.wf(),
    ensures
        ({
            let after = registry.with_hidden(model, provider);
            &&& after.providers == registry.providers
            &&& registry.index(provider) is None ==> after == registry
            &&& registry.index(provider) is Some ==> {
                let at = registry.index(provider)->0;
                &&& after.hidden.contains((model, at))
                &&& after.somebody_hides(model)
                &&& registry.routes.contains_key(model) && registry.routes[model] == at
                    ==> !after.routes.contains_key(model) && after.refuses(model)
                &&& registry.routes.contains_key(model) && registry.routes[model] != at
                    ==> after.routes.contains_key(model) && after.routes[model]
                    == registry.routes[model]
                &&& !registry.routes.contains_key(model) ==> after.refuses(model)
                &&& i != at ==> after.hidden.contains((model, i)) == registry.hidden.contains(
                    (model, i),
                )
            }
            &&& other != model ==> after.hidden.contains((other, i)) == registry.hidden.contains(
                (other, i),
            ) && after.routes.contains_key(other) == registry.routes.contains_key(other) && (
            registry.routes.contains_key(other) ==> after.routes[other] == registry.routes[other])
        }),
{
    providers_are_found_by_name(registry, provider);
    let after = registry.with_hidden(model, provider);
    if let Some(at) = registry.index(provider) {
        assert(after.hidden.contains((model, at)));
    }
}

/// A claimed model is refused exactly where its own provider hides it; one that
/// nobody claims, where anybody does.
pub proof fn refusals_follow_the_hiding(registry: RegistryView, model: Seq<char>)
    ensures
        registry.routes.contains_key(model) ==> (registry.refuses(model) <==> registry.hidden.contains(
            (model, registry.routes[model] as int),
        )),
        !registry.routes.contains_key(model) && registry.somebody_hides(model) ==> registry.refuses(
            model,
        ),
        !registry.routes.contains_key(model) && !contains(model, "/"@)
            && !registry.somebody_hides(model) ==> !registry.refuses(model),
{
    find_is_contains(model, "/"@);
    if registry.routes.contains_key(model) && registry.hidden.contains(
        (model, registry.routes[model] as int),
    ) {
        assert(registry.somebody_hides(model));
    }
}

proof fn others_of_prefix(a: Seq<ProviderView>, b: Seq<ProviderView>, name: Seq<char>, n: int)
    requires
        0 <= n <= a.len(),
        n <= b.len(),
        forall|i: int| 0 <= i < n ==> #[trigger] a[i] == b[i],
    ensures
        others(a, name, n) == others(b, name, n),
    decreases n,
{
    if n > 0 {
        others_of_prefix(a, b, name, n - 1);
        assert(a[n - 1] == b[n - 1]);
    }
}

/// Of the providers all stay but those of the name, in their order.
pub proof fn all_others_stay(
    providers: Seq<ProviderView>,
    last: ProviderView,
    name: Seq<char>,
)
    ensures
        others(Seq::empty(), name, 0) == Seq::<ProviderView>::empty(),
        others(providers.push(last), name, providers.len() as int + 1) == (if last.name == name {
            others(providers, name, providers.len() as int)
        } else {
            others(providers, name, providers.len() as int).push(last)
        }),
{
    others_of_prefix(providers, providers.push(last), name, providers.len() as int);
}

} // verus!
