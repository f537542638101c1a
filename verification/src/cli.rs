//! What the command line says, checked.
use vstd::prelude::*;

use crate::domain::guardrails::Guardrails;
use crate::domain::provider::{without_slashes, Provider, ProviderView, DEFAULT_PROVIDER};
use crate::domain::registry::provider_views;
use crate::text::{
    chars_of, clear_where_absent, contains, decimal, decimal_text, find, found_where_it_stands,
    head_of, includes, nothing_without_a_token, occurs_at, same_text, search, tail_of, text_of, texts,
    trim, trimmed, trimmed_text,
};

verus! {

/// The address of the admin server.
#[derive(Debug, PartialEq, Eq)]
pub struct AdminAddress {
    pub text: String,
    /// Whether only this host reaches it.
    pub loopback: bool,
}

/// The options that decide something.
#[derive(Debug, PartialEq, Eq)]
pub struct Config {
    /// The backends, each as `URL` or `NAME=URL`.
    pub backends: Vec<String>,
    pub max_retries: u32,
    pub match_conversations: bool,
    /// Whether the proxy holds a Copilot credential.
    pub copilot: bool,
    pub admin_listen: Option<AdminAddress>,
}

/// Why the backends cannot be used.
#[derive(Debug, PartialEq, Eq)]
pub enum BackendError {
    /// Only the first may go without a name.
    NeedsName { index: usize, spec: String },
    NoUrl { name: String },
    Duplicate { name: String },
    NoBackend,
}

/// Why the backends cannot be used, by views.
#[verifier::ext_equal]
pub enum BackendErrorView {
    NeedsName { index: int, spec: Seq<char> },
    NoUrl { name: Seq<char> },
    Duplicate { name: Seq<char> },
    NoBackend,
}

impl View for BackendError {
    type V = BackendErrorView;

    open spec fn view(&self) -> BackendErrorView {
        match self {
            BackendError::NeedsName { index, spec } => BackendErrorView::NeedsName {
                index: *index as int,
                spec: spec@,
            },
            BackendError::NoUrl { name } => BackendErrorView::NoUrl { name: name@ },
            BackendError::Duplicate { name } => BackendErrorView::Duplicate { name: name@ },
            BackendError::NoBackend => BackendErrorView::NoBackend,
        }
    }
}

impl BackendErrorView {
    /// What the operator is told.
    pub open spec fn text(self) -> Seq<char> {
        match self {
            BackendErrorView::NeedsName { index, spec } => "backend "@ + decimal(index as nat)
                + " ("@ + spec
                + ") needs a name: pass it as NAME=URL so its metrics can be told apart"@,
            BackendErrorView::NoUrl { name } => "backend '"@ + name + "' has no URL"@,
            BackendErrorView::Duplicate { name } => "two backends are both named '"@ + name
                + "'; names must be unique so routing and metrics are unambiguous"@,
            BackendErrorView::NoBackend => "no backend configured"@,
        }
    }
}

impl BackendError {
    /// What the operator is told.
    pub fn message(&self) -> (text: String)
        ensures
            text@ == self@.text(),
    {
        match self {
            BackendError::NeedsName { index, spec } => "backend ".to_owned().concat(
                decimal_text(*index as u64).as_str(),
            ).concat(" (").concat(spec.as_str()).concat(
                ") needs a name: pass it as NAME=URL so its metrics can be told apart",
            ),
            BackendError::NoUrl { name } => "backend '".to_owned().concat(name.as_str()).concat(
                "' has no URL",
            ),
            BackendError::Duplicate { name } => "two backends are both named '".to_owned().concat(
                name.as_str(),
            ).concat("'; names must be unique so routing and metrics are unambiguous"),
            BackendError::NoBackend => "no backend configured".to_owned(),
        }
    }
}

/// The name and the URL that one backend gives. What stands before the first
/// `=` is a name, unless it is empty or part of a URL.
pub open spec fn name_and_url(spec: Seq<char>, index: int) -> Option<(Seq<char>, Seq<char>)> {
    match find(spec, "="@) {
        Some(i) => if i > 0 && !contains(spec.take(i), "//"@) {
            Some((trim(spec.take(i)), trim(spec.skip(i + 1))))
        } else if index == 0 {
            Some((DEFAULT_PROVIDER@, spec))
        } else {
            None
        },
        None => if index == 0 {
            Some((DEFAULT_PROVIDER@, spec))
        } else {
            None
        },
    }
}

/// Whether any of the providers has a name.
pub open spec fn is_taken(providers: Seq<ProviderView>, name: Seq<char>) -> bool {
    exists|i: int| 0 <= i < providers.len() && (#[trigger] providers[i]).name == name
}

/// A provider by its name and URL.
pub open spec fn plain_provider(name: Seq<char>, url: Seq<char>) -> ProviderView {
    ProviderView {
        name,
        base_url: without_slashes(url),
        reserved: Map::empty(),
        unversioned: false,
    }
}

/// The providers that the first `n` backends give, or why they give none.
pub open spec fn providers_given(backends: Seq<Seq<char>>, n: int) -> Result<
    Seq<ProviderView>,
    BackendErrorView,
>
    decreases n,
{
    if n <= 0 {
        Ok(Seq::empty())
    } else {
        match providers_given(backends, n - 1) {
            Ok(before) => {
                let spec = trim(backends[n - 1]);
                if spec.len() == 0 {
                    Ok(before)
                } else {
                    match name_and_url(spec, n - 1) {
                        None => Err(BackendErrorView::NeedsName { index: n - 1, spec }),
                        Some((name, url)) => if url.len() == 0 {
                            Err(BackendErrorView::NoUrl { name })
                        } else if is_taken(before, name) {
                            Err(BackendErrorView::Duplicate { name })
                        } else {
                            Ok(before.push(plain_provider(name, url)))
                        },
                    }
                }
            },
            Err(e) => Err(e),
        }
    }
}

/// The providers that all backends give; an error where they give none.
pub open spec fn providers_of(backends: Seq<Seq<char>>) -> Result<
    Seq<ProviderView>,
    BackendErrorView,
> {
    match providers_given(backends, backends.len() as int) {
        Ok(providers) => if providers.len() == 0 {
            Err(BackendErrorView::NoBackend)
        } else {
            Ok(providers)
        },
        Err(e) => Err(e),
    }
}

fn read_backend(spec: &str, index: usize) -> (pair: Option<(String, String)>)
    ensures
        match pair {
            Some((name, url)) => name_and_url(spec@, index as int) == Some((name@, url@)),
            None => name_and_url(spec@, index as int) is None,
        },
{
    proof {
        reveal_strlit("=");
    }
    let chars = chars_of(spec);
    if let Some(i) = search(chars.as_slice(), "=") {
        let name = text_of(head_of(chars.as_slice(), i));
        if i > 0 && !includes(name.as_str(), "//") {
            return Some(
                (
                    trimmed_text(name.as_str()),
                    text_of(trimmed(tail_of(chars.as_slice(), i + 1))),
                ),
            );
        }
    }
    if index == 0 {
        Some((DEFAULT_PROVIDER.to_owned(), spec.to_owned()))
    } else {
        None
    }
}

fn taken(providers: &Vec<Provider>, name: &str) -> (yes: bool)
    ensures
        yes == is_taken(provider_views(providers@), name@),
{
    let ghost all = provider_views(providers@);
    for i in 0..providers.len()
        invariant
            all == provider_views(providers@),
            forall|j: int| 0 <= j < i ==> (#[trigger] all[j]).name != name@,
    {
        assert(all[i as int] == providers@[i as int]@);
        if same_text(providers[i].name(), name) {
            return true;
        }
    }
    false
}

proof fn an_error_stays(backends: Seq<Seq<char>>, i: int, n: int)
    requires
        0 <= i <= n,
        providers_given(backends, i) is Err,
    ensures
        providers_given(backends, n) == providers_given(backends, i),
    decreases n - i,
{
    if i < n {
        an_error_stays(backends, i, n - 1);
    }
}

impl Config {
    /// The settings of the guardrails.
    pub fn guardrails(&self) -> (guardrails: Guardrails)
        ensures
            guardrails.max_retries == self.max_retries,
            guardrails.match_conversations == self.match_conversations,
    {
        Guardrails {
            max_retries: self.max_retries,
            match_conversations: self.match_conversations,
        }
    }

    /// The providers that the backends give, in order.
    pub fn providers(&self) -> (result: Result<Vec<Provider>, BackendError>)
        ensures
            match result {
                Ok(list) => providers_of(texts(self.backends@)) == Ok::<
                    Seq<ProviderView>,
                    BackendErrorView,
                >(provider_views(list@)),
                Err(e) => providers_of(texts(self.backends@)) == Err::<
                    Seq<ProviderView>,
                    BackendErrorView,
                >(e@),
            },
    {
        let ghost all = texts(self.backends@);
        let n: usize = self.backends.len();
        let mut providers: Vec<Provider> = Vec::new();
        assert(provider_views(providers@) =~= Seq::empty());
        for i in 0..n
            invariant
                n == all.len(),
                all == texts(self.backends@),
                providers_given(all, i as int) == Ok::<Seq<ProviderView>, BackendErrorView>(
                    provider_views(providers@),
                ),
        {
            let ghost before = provider_views(providers@);
            assert(all[i as int] == self.backends@[i as int]@);
            let spec = trimmed_text(self.backends[i].as_str());
            if !spec.as_str().is_empty() {
                match read_backend(spec.as_str(), i) {
                    None => {
                        proof {
                            an_error_stays(all, i + 1, n as int);
                        }
                        return Err(BackendError::NeedsName { index: i, spec });
                    },
                    Some((name, url)) => {
                        if url.as_str().is_empty() {
                            proof {
                                an_error_stays(all, i + 1, n as int);
                            }
                            return Err(BackendError::NoUrl { name });
                        }
                        if taken(&providers, name.as_str()) {
                            proof {
                                an_error_stays(all, i + 1, n as int);
                            }
                            return Err(BackendError::Duplicate { name });
                        }
                        let provider = Provider::new(name.as_str(), url.as_str());
                        let ghost p = provider@;
                        providers.push(provider);
                        assert(provider_views(providers@) =~= before.push(p));
                    },
                }
            }
        }
        if providers.len() == 0 {
            Err(BackendError::NoBackend)
        } else {
            Ok(providers)
        }
    }

    /// Refuses an admin server that others than this host reach while a
    /// credential is held: it asks for none itself.
    pub fn check_admin_exposure(&self) -> (result: Result<(), String>)
        ensures
            match result {
                Ok(()) => !self.copilot || (self.admin_listen matches Some(a) ==> a.loopback),
                Err(text) => self.copilot && (self.admin_listen matches Some(a) && !a.loopback
                    && text@ == exposure_text(a.text@)),
            },
    {
        if !self.copilot {
            return Ok(());
        }
        match &self.admin_listen {
            Some(address) => if address.loopback {
                Ok(())
            } else {
                Err(
                    "--admin-listen ".to_owned().concat(address.text.as_str()).concat(
                        " is not a loopback address, and --copilot makes the admin server able to start a login and use a Copilot credential. Bind it to 127.0.0.1 (or [::1]) instead.",
                    ),
                )
            },
            None => Ok(()),
        }
    }
}

/// What the operator is told whose admin server is exposed.
pub open spec fn exposure_text(address: Seq<char>) -> Seq<char> {
    "--admin-listen "@ + address
        + " is not a loopback address, and --copilot makes the admin server able to start a login and use a Copilot credential. Bind it to 127.0.0.1 (or [::1]) instead."@
}

// ── laws ────────────────────────────────────────────────────────────────────

/// Providers that are given have different names, so that routing and records
/// tell them apart.
pub proof fn given_names_differ(backends: Seq<Seq<char>>, n: int, i: int, j: int)
    requires
        providers_given(backends, n) matches Ok(list) && 0 <= i < j < list.len(),
    ensures
        providers_given(backends, n) matches Ok(list) && list[i].name != list[j].name,
    decreases n,
{
    if n > 0 {
        let list = providers_given(backends, n)->Ok_0;
        let before = providers_given(backends, n - 1)->Ok_0;
        if j < before.len() {
            given_names_differ(backends, n - 1, i, j);
        } else {
            assert(list[i] == before[i]);
        }
    }
}

/// A backend is named before its equals sign; one without a name is the default,
/// and only the first may be.
pub proof fn backends_are_named_or_first(name: Seq<char>, url: Seq<char>, index: int)
    requires
        !contains(name, "="@),
    ensures
        name.len() > 0 && !contains(name, "//"@) ==> name_and_url(name + "="@ + url, index) == Some(
            (trim(name), trim(url)),
        ),
        index == 0 ==> name_and_url(name, index) == Some(("default"@, name)),
        index != 0 ==> name_and_url(name, index) is None,
        contains(name, "//"@) && index == 0 ==> name_and_url(name + "="@ + url, index) == Some(
            ("default"@, name + "="@ + url),
        ),
        contains(name, "//"@) && index != 0 ==> name_and_url(name + "="@ + url, index) is None,
{
    reveal_strlit("=");
    let spec = name + "="@ + url;
    clear_where_absent(name, "="@, url);
    found_where_it_stands(name, "="@, url);
    assert(spec.take(name.len() as int) =~= name);
    assert(spec.skip(name.len() as int + 1) =~= url);
    nothing_without_a_token(name, "="@);
    reveal_strlit("//");
    if contains(name, "//"@) {
        let i = choose|i: int| occurs_at(name, "//"@, i);
        assert(name.len() >= 2);
    }
}

proof fn given_of_prefix(a: Seq<Seq<char>>, b: Seq<Seq<char>>, n: int)
    requires
        0 <= n <= a.len(),
        n <= b.len(),
        forall|i: int| 0 <= i < n ==> #[trigger] a[i] == b[i],
    ensures
        providers_given(a, n) == providers_given(b, n),
    decreases n,
{
    if n > 0 {
        given_of_prefix(a, b, n - 1);
        assert(a[n - 1] == b[n - 1]);
    }
}

/// The backends are taken in their order, each once; a blank one is passed over,
/// and the first fault is what is told.
pub proof fn backends_are_taken_in_order(
    backends: Seq<Seq<char>>,
    last: Seq<char>,
    list: Seq<ProviderView>,
)
    requires
        providers_given(backends, backends.len() as int) == Ok::<
            Seq<ProviderView>,
            BackendErrorView,
        >(list),
    ensures
        ({
            let n = backends.len() as int;
            let after = providers_given(backends.push(last), n + 1);
            let spec = trim(last);
            let found = name_and_url(spec, n);
            let taken = found is Some && exists|i: int|
                0 <= i < list.len() && (#[trigger] list[i]).name == (found->0).0;
            &&& spec.len() == 0 ==> after == Ok::<Seq<ProviderView>, BackendErrorView>(list)
            &&& spec.len() > 0 && found is None ==> after == Err::<
                Seq<ProviderView>,
                BackendErrorView,
            >(BackendErrorView::NeedsName { index: n, spec })
            &&& spec.len() > 0 && found is Some && (found->0).1.len() == 0 ==> after == Err::<
                Seq<ProviderView>,
                BackendErrorView,
            >(BackendErrorView::NoUrl { name: (found->0).0 })
            &&& spec.len() > 0 && found is Some && (found->0).1.len() > 0 && taken ==> after
                == Err::<Seq<ProviderView>, BackendErrorView>(
                BackendErrorView::Duplicate { name: (found->0).0 },
            )
            &&& spec.len() > 0 && found is Some && (found->0).1.len() > 0 && !taken ==> after
                == Ok::<Seq<ProviderView>, BackendErrorView>(
                list.push(
                    ProviderView {
                        name: (found->0).0,
                        base_url: without_slashes((found->0).1),
                        reserved: Map::empty(),
                        unversioned: false,
                    },
                ),
            )
        }),
        providers_of(backends) is Ok <==> list.len() > 0,
        list.len() > 0 ==> providers_of(backends) == Ok::<Seq<ProviderView>, BackendErrorView>(list),
{
    given_of_prefix(backends, backends.push(last), backends.len() as int);
}

/// A fault stays the fault, whatever follows.
pub proof fn the_first_fault_is_told(backends: Seq<Seq<char>>, last: Seq<char>)
    ensures
        providers_given(backends, backends.len() as int) matches Err(e) ==> providers_given(
            backends.push(last),
            backends.len() as int + 1,
        ) == Err::<Seq<ProviderView>, BackendErrorView>(e),
{
    given_of_prefix(backends, backends.push(last), backends.len() as int);
}

} // verus!
