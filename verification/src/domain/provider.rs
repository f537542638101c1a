//! The upstream servers, and what it takes to reach each.
//!
//! A provider with a credential of its own owns the headers that carry it: the
//! client's values for them are dropped, or they would displace the provider's.
use vstd::prelude::*;

use crate::names::{in_order, map_of, NameMap};
use crate::text::{chars_of, head_of, lowered, starts_with, strs, tail_of, text_of, to_lowered};

verus! {

/// The provider where none is configured.
pub const DEFAULT_PROVIDER: &'static str = "default";

/// The provider of outcomes of which none is known.
pub const UNKNOWN_PROVIDER: &'static str = "unknown";

/// `url` without the slashes it ends with.
pub open spec fn without_slashes(url: Seq<char>) -> Seq<char>
    decreases url.len(),
{
    if url.len() > 0 && url.last() == '/' {
        without_slashes(url.drop_last())
    } else {
        url
    }
}

/// The path that a provider is asked for: one that serves at the root has no
/// `/v1` before its routes.
pub open spec fn upstream_path(path: Seq<char>, unversioned: bool) -> Seq<char> {
    if unversioned && starts_with(path, "/v1/"@) {
        path.skip(3)
    } else {
        path
    }
}

/// An upstream server.
#[derive(Debug)]
pub struct Provider {
    name: String,
    base_url: String,
    reserved_headers: NameMap<()>,
    unversioned: bool,
}

/// An upstream server by views.
#[verifier::ext_equal]
pub struct ProviderView {
    /// What it is routed and recorded by.
    pub name: Seq<char>,
    /// Its URL, without a slash at the end.
    pub base_url: Seq<char>,
    /// The names of the headers it owns, in small letters.
    pub reserved: Map<Seq<char>, ()>,
    /// Whether it serves its routes at the root rather than under `/v1`.
    pub unversioned: bool,
}

impl View for Provider {
    type V = ProviderView;

    closed spec fn view(&self) -> ProviderView {
        ProviderView {
            name: self.name@,
            base_url: self.base_url@,
            reserved: self.reserved_headers@,
            unversioned: self.unversioned,
        }
    }
}

/// The reserved names after the first `n` of `names` are added.
pub open spec fn reserved_after(
    reserved: Map<Seq<char>, ()>,
    names: Seq<Seq<char>>,
    n: int,
) -> Map<Seq<char>, ()>
    decreases n,
{
    if n <= 0 {
        reserved
    } else {
        reserved_after(reserved, names, n - 1).insert(lowered(names[n - 1]), ())
    }
}

impl Provider {
    /// A provider that owns no headers.
    pub fn new(name: &str, base_url: &str) -> (provider: Provider)
        ensures
            provider@ == (ProviderView {
                name: name@,
                base_url: without_slashes(base_url@),
                reserved: Map::empty(),
                unversioned: false,
            }),
    {
        let chars = chars_of(base_url);
        let mut n: usize = chars.len();
        assert(chars@.take(n as int) =~= chars@);
        while n > 0 && chars[n - 1] == '/'
            invariant
                n <= chars@.len(),
                without_slashes(chars@) == without_slashes(chars@.take(n as int)),
            decreases n,
        {
            assert(chars@.take(n as int).drop_last() =~= chars@.take(n - 1));
            n = n - 1;
        }
        Provider {
            name: name.to_owned(),
            base_url: text_of(head_of(chars.as_slice(), n)),
            reserved_headers: NameMap::new(),
            unversioned: false,
        }
    }

    /// The provider with more headers of its own. Case does not count.
    pub fn reserving(self, names: &[&str]) -> (provider: Provider)
        ensures
            provider@ == (ProviderView {
                reserved: reserved_after(self@.reserved, strs(names@), names@.len() as int),
                ..self@
            }),
    {
        let ghost before = self@.reserved;
        let mut reserved = self.reserved_headers;
        for i in 0..names.len()
            invariant
                reserved@ == reserved_after(before, strs(names@), i as int),
        {
            assert(strs(names@)[i as int] == names@[i as int]@);
            reserved.insert(to_lowered(names[i]).as_str(), ());
        }
        Provider {
            name: self.name,
            base_url: self.base_url,
            reserved_headers: reserved,
            unversioned: self.unversioned,
        }
    }

    /// The provider as the owner of `authorization`, for one with a credential.
    pub fn owning_credential(self) -> (provider: Provider)
        ensures
            provider@ == (ProviderView {
                reserved: self@.reserved.insert(lowered("authorization"@), ()),
                ..self@
            }),
    {
        let mut reserved = self.reserved_headers;
        reserved.insert(to_lowered("authorization").as_str(), ());
        Provider {
            name: self.name,
            base_url: self.base_url,
            reserved_headers: reserved,
            unversioned: self.unversioned,
        }
    }

    /// The provider as one that serves its routes at the root.
    pub fn unversioned(self) -> (provider: Provider)
        ensures
            provider@ == (ProviderView { unversioned: true, ..self@ }),
    {
        Provider {
            name: self.name,
            base_url: self.base_url,
            reserved_headers: self.reserved_headers,
            unversioned: true,
        }
    }

    /// Whether it serves its routes at the root.
    pub fn is_unversioned(&self) -> (yes: bool)
        ensures
            yes == self@.unversioned,
    {
        self.unversioned
    }

    pub fn name(&self) -> (name: &str)
        ensures
            name@ == self@.name,
    {
        self.name.as_str()
    }

    pub fn base_url(&self) -> (url: &str)
        ensures
            url@ == self@.base_url,
    {
        self.base_url.as_str()
    }

    /// Whether it owns a header. Case does not count.
    pub fn reserves(&self, name: &str) -> (yes: bool)
        ensures
            yes == self@.reserved.contains_key(lowered(name@)),
    {
        self.reserved_headers.contains_key(to_lowered(name).as_str())
    }

    /// The names of the headers it owns, in small letters and in order: exactly
    /// those that it reserves.
    pub fn reserved_headers(&self) -> (names: Vec<&str>)
        ensures
            self@.reserved == map_of(self.listed()),
            in_order(self.listed()),
            names@.len() == self.listed().len(),
            forall|i: int|
                0 <= i < names@.len() ==> (#[trigger] names@[i])@ == self.listed()[i].0,
    {
        let mut names: Vec<&str> = Vec::new();
        let n: usize = self.reserved_headers.len();
        for i in 0..n
            invariant
                n == self.listed().len(),
                names@.len() == i,
                forall|j: int|
                    0 <= j < i ==> (#[trigger] names@[j])@ == self.listed()[j].0,
        {
            let (name, _) = self.reserved_headers.entry(i);
            names.push(name);
        }
        names
    }

    /// The reserved headers in order.
    pub closed spec fn listed(&self) -> Seq<(Seq<char>, ())> {
        self.reserved_headers.listed()
    }

    /// The URL that a request for a path goes to.
    pub fn target(&self, path_and_query: &str) -> (url: String)
        ensures
            url@ == self@.base_url + upstream_path(path_and_query@, self@.unversioned),
    {
        proof {
            reveal_strlit("/v1/");
        }
        if self.unversioned && crate::text::begins(path_and_query, "/v1/") {
            let chars = chars_of(path_and_query);
            let rest = text_of(tail_of(chars.as_slice(), 3));
            self.base_url.clone().concat(rest.as_str())
        } else {
            self.base_url.clone().concat(path_and_query)
        }
    }
}

impl Clone for Provider {
    fn clone(&self) -> (copy: Self)
        ensures
            copy@ == self@,
    {
        Provider {
            name: self.name.clone(),
            base_url: self.base_url.clone(),
            reserved_headers: self.reserved_headers.copy(),
            unversioned: self.unversioned,
        }
    }
}

/// A URL that is built from a base never has a slash doubled: the base that is
/// kept ends in none.
pub proof fn base_ends_in_no_slash(url: Seq<char>)
    ensures
        without_slashes(url).len() > 0 ==> without_slashes(url).last() != '/',
    decreases url.len(),
{
    if url.len() > 0 && url.last() == '/' {
        base_ends_in_no_slash(url.drop_last());
    }
}

/// Nothing but slashes is taken off the end of a base URL.
pub proof fn only_slashes_are_taken_off(url: Seq<char>)
    ensures
        without_slashes(url).len() <= url.len(),
        without_slashes(url) == url.take(without_slashes(url).len() as int),
        forall|i: int| without_slashes(url).len() <= i < url.len() ==> #[trigger] url[i] == '/',
    decreases url.len(),
{
    if url.len() > 0 && url.last() == '/' {
        let rest = url.drop_last();
        only_slashes_are_taken_off(rest);
        let n = without_slashes(url).len() as int;
        assert(rest.take(n) =~= url.take(n));
        assert forall|i: int| n <= i < url.len() implies #[trigger] url[i] == '/' by {
            if i < rest.len() {
                assert(rest[i] == url[i]);
            }
        }
    } else {
        assert(url.take(url.len() as int) =~= url);
    }
}

/// A path is sent upstream as it is; only to a provider that serves at its root is
/// it sent without the version that it starts with.
pub proof fn paths_lose_the_version_alone(rest: Seq<char>, path: Seq<char>)
    ensures
        upstream_path(path, false) == path,
        upstream_path("/v1/"@ + rest, true) == "/"@ + rest,
        !starts_with(path, "/v1/"@) ==> upstream_path(path, true) == path,
{
    reveal_strlit("/v1/");
    reveal_strlit("/");
    let whole = "/v1/"@ + rest;
    assert(whole.subrange(0, 4) =~= "/v1/"@);
    assert(whole.skip(3) =~= "/"@ + rest);
}

/// A header is reserved where it was, or where it is among the names, in whatever
/// case.
pub proof fn reserved_names_are_these(
    reserved: Map<Seq<char>, ()>,
    names: Seq<Seq<char>>,
    n: int,
    name: Seq<char>,
)
    requires
        0 <= n <= names.len(),
    ensures
        reserved_after(reserved, names, n).contains_key(lowered(name)) <==> reserved.contains_key(
            lowered(name),
        ) || exists|i: int| 0 <= i < n && lowered(#[trigger] names[i]) == lowered(name),
    decreases n,
{
    if n > 0 {
        reserved_names_are_these(reserved, names, n - 1, name);
    }
}

} // verus!
