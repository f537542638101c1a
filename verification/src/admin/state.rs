//! What the admin server tells of the proxy.
use vstd::prelude::*;

use crate::connector::{location_of, redact_backend_url, url_parts};
use crate::domain::metrics::{MAX_DAYS, MAX_ROWS};
use crate::domain::provider::{Provider, ProviderView};
use crate::domain::registry::provider_views;
use crate::domain::stats::{day_limit, row_limit};
use crate::text::{strs, texts};

verus! {

/// How the running proxy is configured.
#[derive(Debug, PartialEq, Eq)]
pub struct AdminInfo {
    pub version: String,
    /// Each provider as `name=scheme://host[:port]`, in routing order.
    pub providers: Vec<String>,
    /// Where model clients connect.
    pub proxy_listen: String,
    /// Where the admin server listens.
    pub admin_listen: String,
    pub max_retries: u32,
    /// The path of the database that the figures are read from.
    pub database: String,
}

/// What the admin server serves.
#[derive(Debug)]
pub struct AdminState {
    pub info: AdminInfo,
    /// Whether it signs in to Copilot.
    pub login: bool,
    /// Whether it changes what is exposed.
    pub management: bool,
}

/// The endpoints that there are. One that is not enabled is not told of.
pub open spec fn endpoint_list(login: bool, management: bool) -> Seq<Seq<char>> {
    seq!["/healthz"@, "/info"@, "/stats"@, "/activity"@, "/requests"@] + (if management {
        seq!["/providers"@]
    } else {
        Seq::empty()
    }) + (if login {
        seq!["/copilot/login"@]
    } else {
        Seq::empty()
    })
}

impl AdminState {
    /// A server that only reads.
    pub fn new(info: AdminInfo) -> (state: AdminState)
        ensures
            state == (AdminState { info, login: false, management: false }),
    {
        AdminState { info, login: false, management: false }
    }

    /// The server with management enabled.
    pub fn with_management(self) -> (state: AdminState)
        ensures
            state == (AdminState { management: true, ..self }),
    {
        AdminState { info: self.info, login: self.login, management: true }
    }

    /// The server with signing in to Copilot enabled.
    pub fn with_login(self) -> (state: AdminState)
        ensures
            state == (AdminState { login: true, ..self }),
    {
        AdminState { info: self.info, login: true, management: self.management }
    }

    /// The endpoints that there are.
    pub fn endpoints(&self) -> (list: Vec<&'static str>)
        ensures
            strs(list@) == endpoint_list(self.login, self.management),
    {
        let mut list: Vec<&'static str> = vec![
            "/healthz",
            "/info",
            "/stats",
            "/activity",
            "/requests",
        ];
        if self.management {
            list.push("/providers");
        }
        if self.login {
            list.push("/copilot/login");
        }
        assert(strs(list@) =~= endpoint_list(self.login, self.management));
        list
    }
}

/// The line that tells of a provider: its name, and where it is.
pub open spec fn provider_line(provider: ProviderView) -> Seq<char> {
    provider.name + "="@ + location_of(url_parts(provider.base_url))
}

/// The lines that tell of providers. What a URL says beyond the place is left
/// out: it may be a credential.
pub fn describe_providers(providers: &[Provider]) -> (list: Vec<String>)
    ensures
        texts(list@) == provider_views(providers@).map_values(
            |p: ProviderView| provider_line(p),
        ),
{
    let ghost all = provider_views(providers@).map_values(|p: ProviderView| provider_line(p));
    let mut list: Vec<String> = Vec::new();
    for i in 0..providers.len()
        invariant
            all == provider_views(providers@).map_values(|p: ProviderView| provider_line(p)),
            texts(list@) == all.take(i as int),
    {
        let ghost read = texts(list@);
        assert(provider_views(providers@)[i as int] == providers@[i as int]@);
        let line = providers[i].name().to_owned().concat("=").concat(
            redact_backend_url(providers[i].base_url()).as_str(),
        );
        let ghost l = line@;
        list.push(line);
        assert(texts(list@) =~= read.push(l));
        assert(texts(list@) =~= all.take(i + 1));
    }
    assert(texts(list@) =~= all);
    list
}

/// The days that are shown where nobody says how many.
pub const DEFAULT_DAY_LIMIT: i64 = 30;

/// The requests that are shown where nobody says how many.
pub const DEFAULT_ROW_LIMIT: i64 = 1000;

/// How many days are shown. A number out of range is brought into it rather
/// than refused.
pub fn applied_days(asked: Option<i64>) -> (days: i64)
    ensures
        days == day_limit(match asked {
            Some(n) => n as int,
            None => DEFAULT_DAY_LIMIT as int,
        }),
{
    let n: i64 = match asked {
        Some(n) => n,
        None => DEFAULT_DAY_LIMIT,
    };
    if n < 1 {
        1
    } else if n > MAX_DAYS {
        MAX_DAYS
    } else {
        n
    }
}

/// How many requests are shown. A number out of range is brought into it rather
/// than refused.
pub fn applied_rows(asked: Option<i64>) -> (rows: i64)
    ensures
        rows == row_limit(match asked {
            Some(n) => n as int,
            None => DEFAULT_ROW_LIMIT as int,
        }),
{
    let n: i64 = match asked {
        Some(n) => n,
        None => DEFAULT_ROW_LIMIT,
    };
    if n < 1 {
        1
    } else if n > MAX_ROWS {
        MAX_ROWS
    } else {
        n
    }
}

// ── laws ────────────────────────────────────────────────────────────────────

/// The endpoints are always these, and those of what is switched on.
pub proof fn endpoints_are_those_switched_on(login: bool, management: bool)
    ensures
        endpoint_list(login, management).len() == 5 + (if login {
            1int
        } else {
            0
        }) + (if management {
            1int
        } else {
            0
        }),
        endpoint_list(login, management).take(5) == seq![
            "/healthz"@,
            "/info"@,
            "/stats"@,
            "/activity"@,
            "/requests"@,
        ],
        management ==> endpoint_list(login, management)[5] == "/providers"@,
        login ==> endpoint_list(login, management).last() == "/copilot/login"@,
{
    let five = seq!["/healthz"@, "/info"@, "/stats"@, "/activity"@, "/requests"@];
    assert(endpoint_list(login, management).take(5) =~= five);
}

} // verus!
