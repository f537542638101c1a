//! What the recorded requests amount to.
use vstd::prelude::*;

use super::decode::{copy_text, owned_text};
use super::distribution::{distributes, Distribution};
use super::ledger::{conversation_of, Links, Row, INFERRED_PREFIX};
use super::metrics::{tool_call_tag_list, tool_call_tags, Usage, MAX_DAYS, MAX_ROWS};
use super::range::{always, Range, Span};
use super::tally::{ascending, count_key, distinct_keys, key, keys, occurrences, precedes, same_key};
use crate::text::{
    before, begins, chars_of, head_of, lowered, same_text, starts_with, strs,
    text_of, texts, to_lowered,
};

verus! {

// ── figures ─────────────────────────────────────────────────────────────────

/// The figures of one provider's model.
#[derive(Debug, PartialEq, Eq)]
pub struct ModelStats {
    pub provider: String,
    pub model: String,
    /// All requests.
    pub total: i64,
    /// Those that were a call to a declared tool.
    pub tool_calls: i64,
    /// Those that the guardrails could not fix.
    pub errors: i64,
    /// The requests of each outcome, by its tag.
    pub by_outcome: Vec<(String, i64)>,
    /// The usage, over the requests that reported any.
    pub usage: Usage,
    /// The requests that reported usage.
    pub usage_requests: i64,
    /// The prompt tokens with what a conversation resends counted once; absent
    /// where no request is known to belong to one.
    pub distinct_prompt_tokens: Option<i64>,
    /// The conversations, where they are known.
    pub conversations: Option<i64>,
    /// Whether any of the conversations was inferred.
    pub inferred_conversations: bool,
    /// How the prompt tokens of single requests are spread.
    pub prompt_distribution: Option<Distribution>,
    /// How their completion tokens are.
    pub completion_distribution: Option<Distribution>,
}

impl ModelStats {
    /// The tool calls that were delivered as valid.
    pub fn succeeded(&self) -> (n: i64)
        requires
            i64::MIN <= self.tool_calls - self.errors <= i64::MAX,
        ensures
            n == self.tool_calls - self.errors,
    {
        self.tool_calls - self.errors
    }

    /// The tokens that were charged for.
    pub fn billed_tokens(&self) -> (n: i64)
        requires
            i64::MIN <= self.usage.prompt_tokens + self.usage.completion_tokens <= i64::MAX,
        ensures
            n == self.usage.prompt_tokens + self.usage.completion_tokens,
    {
        self.usage.prompt_tokens + self.usage.completion_tokens
    }

    /// The tokens with what a conversation resends counted once.
    pub fn distinct_tokens(&self) -> (n: Option<i64>)
        requires
            self.distinct_prompt_tokens is Some ==> i64::MIN <= self.distinct_prompt_tokens->0
                + self.usage.completion_tokens <= i64::MAX,
        ensures
            n == (match self.distinct_prompt_tokens {
                Some(p) => Some((p + self.usage.completion_tokens) as i64),
                None => None,
            }),
    {
        match self.distinct_prompt_tokens {
            Some(p) => Some(p + self.usage.completion_tokens),
            None => None,
        }
    }
}

/// The figures of one day.
#[derive(Debug, PartialEq, Eq)]
pub struct DayActivity {
    /// The day in UTC, `YYYY-MM-DD`.
    pub date: String,
    /// All requests, whether or not they reported usage.
    pub requests: i64,
    /// Those that the guardrails could not fix.
    pub errors: i64,
    pub prompt_tokens: i64,
    pub completion_tokens: i64,
    pub cached_tokens: i64,
    /// The calls to backends, retries among them.
    pub billed_calls: i64,
    /// The requests that reported usage.
    pub usage_requests: i64,
}

impl DayActivity {
    /// The tokens that were charged for.
    pub fn billed_tokens(&self) -> (n: i64)
        requires
            i64::MIN <= self.prompt_tokens + self.completion_tokens <= i64::MAX,
        ensures
            n == self.prompt_tokens + self.completion_tokens,
    {
        self.prompt_tokens + self.completion_tokens
    }
}

/// A request that reported usage.
#[derive(Debug, PartialEq, Eq)]
pub struct RequestRow {
    pub ts: String,
    pub provider: String,
    pub model: String,
    pub outcome: String,
    pub prompt_tokens: i64,
    pub completion_tokens: i64,
    pub cached_tokens: i64,
    pub billed_calls: i64,
    pub response_id: Option<String>,
    pub parent_id: Option<String>,
}

/// Requests that could not be fixed, all for the same reason.
#[derive(Debug, PartialEq, Eq)]
pub struct ErrorGroup {
    pub provider: String,
    pub model: String,
    pub error_category: Option<String>,
    pub tool_name: Option<String>,
    pub detail: Option<String>,
    pub count: i64,
}

/// A sum that 64 bits do not hold.
#[derive(Debug, PartialEq, Eq)]
pub struct SumOverflow;

/// The figures of all models.
#[derive(Debug)]
pub struct Stats {
    pub per_model: Vec<ModelStats>,
    pub errors: Vec<ErrorGroup>,
}

impl Default for Stats {
    fn default() -> (stats: Self)
        ensures
            stats.per_model@.len() == 0,
            stats.errors@.len() == 0,
    {
        Stats { per_model: Vec::new(), errors: Vec::new() }
    }
}

// ── rows ────────────────────────────────────────────────────────────────────

/// The provider and the model of a row.
pub open spec fn who(row: Row) -> Seq<Seq<char>> {
    seq![
        match row.provider {
            Some(p) => p@,
            None => "unknown"@,
        },
        row.model@,
    ]
}

/// The name of the provider of a row.
pub fn provider_name(row: &Row) -> (name: &str)
    ensures
        name@ == who(*row)[0],
{
    match &row.provider {
        Some(p) => p.as_str(),
        None => "unknown",
    }
}

fn who_key(row: &Row) -> (k: Vec<String>)
    ensures
        key(k) == who(*row),
{
    let mut k: Vec<String> = Vec::new();
    k.push(provider_name(row).to_owned());
    k.push(row.model.clone());
    assert(key(k) =~= who(*row));
    k
}

/// The rows behind references.
pub open spec fn rows_of(list: Seq<&Row>) -> Seq<Row> {
    list.map_values(|r: &Row| *r)
}

/// The first `n` rows that fall in a window.
pub open spec fn in_range(rows: Seq<Row>, span: Span, n: int) -> Seq<Row>
    decreases n,
{
    if n <= 0 {
        Seq::empty()
    } else if span.holds(rows[n - 1].ts@) {
        in_range(rows, span, n - 1).push(rows[n - 1])
    } else {
        in_range(rows, span, n - 1)
    }
}

/// All rows that fall in a window.
pub open spec fn window(rows: Seq<Row>, span: Span) -> Seq<Row> {
    in_range(rows, span, rows.len() as int)
}

fn select<'a>(rows: &'a [Row], range: &Range) -> (list: Vec<&'a Row>)
    ensures
        rows_of(list@) == window(rows@, range@),
        list@.len() <= rows@.len(),
{
    let mut list: Vec<&'a Row> = Vec::new();
    assert(rows_of(list@) =~= Seq::empty());
    for i in 0..rows.len()
        invariant
            rows_of(list@) == in_range(rows@, range@, i as int),
            list@.len() <= i,
    {
        if range.admits(rows[i].ts.as_str()) {
            let ghost was = rows_of(list@);
            list.push(&rows[i]);
            assert(rows_of(list@) =~= was.push(rows@[i as int]));
        }
    }
    list
}

/// The first `n` rows of a provider's model.
pub open spec fn of_model(rows: Seq<Row>, k: Seq<Seq<char>>, n: int) -> Seq<Row>
    decreases n,
{
    if n <= 0 {
        Seq::empty()
    } else if who(rows[n - 1]) == k {
        of_model(rows, k, n - 1).push(rows[n - 1])
    } else {
        of_model(rows, k, n - 1)
    }
}

fn pick<'a>(rows: &Vec<&'a Row>, k: &Vec<String>) -> (list: Vec<&'a Row>)
    ensures
        rows_of(list@) == of_model(rows_of(rows@), key(*k), rows@.len() as int),
        list@.len() <= rows@.len(),
{
    let ghost all = rows_of(rows@);
    let mut list: Vec<&'a Row> = Vec::new();
    assert(rows_of(list@) =~= Seq::empty());
    for i in 0..rows.len()
        invariant
            all == rows_of(rows@),
            rows_of(list@) == of_model(all, key(*k), i as int),
            list@.len() <= i,
    {
        assert(all[i as int] == *rows@[i as int]);
        if same_key(&who_key(rows[i]), k) {
            let ghost was = rows_of(list@);
            list.push(rows[i]);
            assert(rows_of(list@) =~= was.push(all[i as int]));
        }
    }
    list
}

// ── sums and counts ─────────────────────────────────────────────────────────

/// The sum of the first `n` values, an absent one counting nothing; nothing
/// where 64 bits do not hold it on the way.
pub open spec fn sum(values: Seq<Option<i64>>, n: int) -> Option<int>
    decreases n,
{
    if n <= 0 {
        Some(0)
    } else {
        match (sum(values, n - 1), values[n - 1]) {
            (Some(s), Some(v)) => if i64::MIN <= s + v <= i64::MAX {
                Some(s + v)
            } else {
                None
            },
            (s, None) => s,
            (None, _) => None,
        }
    }
}

fn add_up(values: &Vec<Option<i64>>) -> (total: Result<i64, SumOverflow>)
    ensures
        match total {
            Ok(s) => sum(values@, values@.len() as int) == Some(s as int),
            Err(_) => sum(values@, values@.len() as int) is None,
        },
{
    let mut s: i64 = 0;
    for i in 0..values.len()
        invariant
            sum(values@, i as int) == Some(s as int),
    {
        if let Some(v) = values[i] {
            match s.checked_add(v) {
                Some(t) => {
                    s = t;
                },
                None => {
                    assert(sum(values@, i + 1) is None);
                    proof {
                        sum_stays_absent(values@, i + 1, values@.len() as int);
                    }
                    return Err(SumOverflow);
                },
            }
        }
    }
    Ok(s)
}

proof fn sum_stays_absent(values: Seq<Option<i64>>, n: int, m: int)
    requires
        0 <= n <= m,
        sum(values, n) is None,
    ensures
        sum(values, m) is None,
    decreases m,
{
    if n < m {
        sum_stays_absent(values, n, m - 1);
    }
}

/// The prompt tokens of rows.
pub open spec fn prompts(rows: Seq<Row>) -> Seq<Option<i64>> {
    rows.map_values(|r: Row| r.prompt_tokens)
}

/// The completion tokens of rows.
pub open spec fn completions(rows: Seq<Row>) -> Seq<Option<i64>> {
    rows.map_values(|r: Row| r.completion_tokens)
}

/// The cached tokens of rows.
pub open spec fn cached(rows: Seq<Row>) -> Seq<Option<i64>> {
    rows.map_values(|r: Row| r.cached_tokens)
}

/// The calls to backends of rows.
pub open spec fn calls(rows: Seq<Row>) -> Seq<Option<i64>> {
    rows.map_values(|r: Row| r.billed_calls)
}

/// The sums of the usage of rows; nothing where 64 bits do not hold one.
pub open spec fn usage_of(rows: Seq<Row>) -> Option<Usage> {
    let n = rows.len() as int;
    match (sum(prompts(rows), n), sum(completions(rows), n), sum(cached(rows), n), sum(calls(rows), n)) {
        (Some(p), Some(c), Some(k), Some(a)) => Some(
            Usage {
                prompt_tokens: p as i64,
                completion_tokens: c as i64,
                cached_tokens: k as i64,
                attempts: a as i64,
            },
        ),
        _ => None,
    }
}

fn sum_usage(rows: &Vec<&Row>) -> (usage: Result<Usage, SumOverflow>)
    ensures
        match usage {
            Ok(u) => usage_of(rows_of(rows@)) == Some(u),
            Err(_) => usage_of(rows_of(rows@)) is None,
        },
{
    let ghost all = rows_of(rows@);
    let mut p: Vec<Option<i64>> = Vec::new();
    let mut c: Vec<Option<i64>> = Vec::new();
    let mut k: Vec<Option<i64>> = Vec::new();
    let mut a: Vec<Option<i64>> = Vec::new();
    for i in 0..rows.len()
        invariant
            all == rows_of(rows@),
            p@ == prompts(all).take(i as int),
            c@ == completions(all).take(i as int),
            k@ == cached(all).take(i as int),
            a@ == calls(all).take(i as int),
    {
        assert(all[i as int] == *rows@[i as int]);
        p.push(rows[i].prompt_tokens);
        c.push(rows[i].completion_tokens);
        k.push(rows[i].cached_tokens);
        a.push(rows[i].billed_calls);
        assert(p@ =~= prompts(all).take(i + 1));
        assert(c@ =~= completions(all).take(i + 1));
        assert(k@ =~= cached(all).take(i + 1));
        assert(a@ =~= calls(all).take(i + 1));
    }
    assert(p@ =~= prompts(all));
    assert(c@ =~= completions(all));
    assert(k@ =~= cached(all));
    assert(a@ =~= calls(all));
    match (add_up(&p), add_up(&c), add_up(&k), add_up(&a)) {
        (Ok(prompt_tokens), Ok(completion_tokens), Ok(cached_tokens), Ok(attempts)) => Ok(
            Usage { prompt_tokens, completion_tokens, cached_tokens, attempts },
        ),
        _ => Err(SumOverflow),
    }
}

/// Whether a tag is one of a call to a declared tool.
pub open spec fn is_call(row: Row) -> bool {
    tool_call_tags().contains(row.outcome@)
}

fn calls_tool(row: &Row) -> (yes: bool)
    ensures
        yes == is_call(*row),
{
    let tags = tool_call_tag_list();
    let ghost all = strs(tags@);
    for i in 0..tags.len()
        invariant
            all == strs(tags@),
            all == tool_call_tags(),
            forall|j: int| 0 <= j < i ==> #[trigger] all[j] != row.outcome@,
    {
        assert(all[i as int] == tags@[i as int]@);
        if same_text(tags[i], row.outcome.as_str()) {
            return true;
        }
    }
    false
}

/// How many of the first `n` rows are calls to a declared tool.
pub open spec fn count_calls(rows: Seq<Row>, n: int) -> nat
    decreases n,
{
    if n <= 0 {
        0
    } else {
        count_calls(rows, n - 1) + if is_call(rows[n - 1]) {
            1nat
        } else {
            0nat
        }
    }
}

/// How many of the first `n` rows could not be fixed.
pub open spec fn count_errors(rows: Seq<Row>, n: int) -> nat
    decreases n,
{
    if n <= 0 {
        0
    } else {
        count_errors(rows, n - 1) + if rows[n - 1].fixed {
            0nat
        } else {
            1nat
        }
    }
}

/// How many of the first `n` rows report usage.
pub open spec fn count_measured(rows: Seq<Row>, n: int) -> nat
    decreases n,
{
    if n <= 0 {
        0
    } else {
        count_measured(rows, n - 1) + if rows[n - 1].prompt_tokens is Some {
            1nat
        } else {
            0nat
        }
    }
}

fn count_rows(rows: &Vec<&Row>) -> (counts: (i64, i64, i64))
    requires
        rows@.len() <= i64::MAX,
    ensures
        counts.0 == count_calls(rows_of(rows@), rows@.len() as int),
        counts.1 == count_errors(rows_of(rows@), rows@.len() as int),
        counts.2 == count_measured(rows_of(rows@), rows@.len() as int),
{
    let ghost all = rows_of(rows@);
    let mut calls: i64 = 0;
    let mut errors: i64 = 0;
    let mut measured: i64 = 0;
    for i in 0..rows.len()
        invariant
            all == rows_of(rows@),
            rows@.len() <= i64::MAX,
            calls == count_calls(all, i as int),
            errors == count_errors(all, i as int),
            measured == count_measured(all, i as int),
            0 <= calls <= i,
            0 <= errors <= i,
            0 <= measured <= i,
    {
        assert(all[i as int] == *rows@[i as int]);
        if calls_tool(rows[i]) {
            calls = calls + 1;
        }
        if !rows[i].fixed {
            errors = errors + 1;
        }
        if rows[i].prompt_tokens.is_some() {
            measured = measured + 1;
        }
    }
    (calls, errors, measured)
}

// ── outcomes ────────────────────────────────────────────────────────────────

/// The tags of rows, as keys.
pub open spec fn tags(rows: Seq<Row>) -> Seq<Seq<Seq<char>>> {
    rows.map_values(|r: Row| seq![r.outcome@])
}

/// Whether a list has an entry for a tag.
pub open spec fn lists_tag(list: Seq<(String, i64)>, tag: Seq<char>) -> bool {
    exists|j: int| 0 <= j < list.len() && (#[trigger] list[j]).0@ == tag
}

/// Whether a list counts the outcomes of rows: each that occurs, once, in the
/// order of the tags.
pub open spec fn counts_outcomes(list: Seq<(String, i64)>, rows: Seq<Row>) -> bool {
    &&& forall|i: int, j: int|
        0 <= i < j < list.len() ==> before((#[trigger] list[i]).0@, (#[trigger] list[j]).0@)
    &&& forall|i: int|
        0 <= i < list.len() ==> (#[trigger] list[i]).1 == occurrences(
            tags(rows),
            seq![list[i].0@],
            rows.len() as int,
        ) && list[i].1 > 0
    &&& forall|i: int|
        0 <= i < rows.len() ==> lists_tag(list, (#[trigger] rows[i]).outcome@)
}

proof fn occurring_is_counted(list: Seq<Seq<Seq<char>>>, k: Seq<Seq<char>>, i: int, n: int)
    requires
        0 <= i < n <= list.len(),
        list[i] == k,
    ensures
        occurrences(list, k, n) > 0,
    decreases n,
{
    if i < n - 1 {
        occurring_is_counted(list, k, i, n - 1);
    }
}

fn outcome_counts(rows: &Vec<&Row>) -> (list: Vec<(String, i64)>)
    requires
        rows@.len() <= i64::MAX,
    ensures
        counts_outcomes(list@, rows_of(rows@)),
{
    let ghost all = rows_of(rows@);
    let mut found: Vec<Vec<String>> = Vec::new();
    for i in 0..rows.len()
        invariant
            all == rows_of(rows@),
            keys(found@) == tags(all).take(i as int),
    {
        let ghost was = keys(found@);
        let mut k: Vec<String> = Vec::new();
        k.push(rows[i].outcome.clone());
        assert(key(k) =~= seq![rows@[i as int].outcome@]);
        let ghost added = key(k);
        found.push(k);
        assert(keys(found@) =~= was.push(added));
        assert(tags(all)[i as int] == added);
        assert(keys(found@) =~= tags(all).take(i + 1));
    }
    assert(keys(found@) =~= tags(all));
    let distinct = distinct_keys(&found);
    let ghost d = keys(distinct@);
    proof {
        assert forall|i: int| 0 <= i < d.len() implies (#[trigger] d[i]).len() == 1 by {
            assert(d.contains(d[i]));
            assert(tags(all).contains(d[i]));
        }
    }
    let mut list: Vec<(String, i64)> = Vec::new();
    for i in 0..distinct.len()
        invariant
            all == rows_of(rows@),
            rows@.len() <= i64::MAX,
            keys(found@) == tags(all),
            d == keys(distinct@),
            ascending(d),
            forall|x: Seq<Seq<char>>| #[trigger] d.contains(x) <==> tags(all).contains(x),
            forall|i: int| 0 <= i < d.len() ==> (#[trigger] d[i]).len() == 1,
            list@.len() == i,
            forall|j: int|
                0 <= j < i ==> (#[trigger] list@[j]).0@ == d[j][0] && list@[j].1 == occurrences(
                    tags(all),
                    d[j],
                    all.len() as int,
                ),
    {
        let k = &distinct[i];
        assert(d[i as int] == key(*k));
        assert(key(*k).len() == k@.len());
        assert(key(*k)[0] == k@[0]@);
        let n: usize = count_key(&found, k);
        assert(keys(found@).len() == found@.len());
        list.push((k[0].clone(), n as i64));
    }
    proof {
        assert forall|i: int| 0 <= i < list@.len() implies #[trigger] d[i] =~= seq![list@[i].0@] by {
            assert(d[i].len() == 1);
        }
        assert forall|i: int, j: int| 0 <= i < j < list@.len() implies before(
            (#[trigger] list@[i]).0@,
            (#[trigger] list@[j]).0@,
        ) by {
            assert(precedes(d[i], d[j]));
            assert(d[i].drop_first() =~= Seq::empty());
            assert(d[j].drop_first() =~= Seq::empty());
            assert(!precedes(d[i].drop_first(), d[j].drop_first()));
        }
        assert forall|i: int| 0 <= i < list@.len() implies (#[trigger] list@[i]).1 == occurrences(
            tags(all),
            seq![list@[i].0@],
            all.len() as int,
        ) && list@[i].1 > 0 by {
            assert(d[i] =~= seq![list@[i].0@]);
            assert(d.contains(d[i]));
            let m = choose|m: int| 0 <= m < tags(all).len() && tags(all)[m] == d[i];
            occurring_is_counted(tags(all), d[i], m, all.len() as int);
        }
        assert forall|i: int| 0 <= i < all.len() implies lists_tag(
            list@,
            (#[trigger] all[i]).outcome@,
        ) by {
            let t = tags(all)[i];
            assert(tags(all).contains(t));
            assert(d.contains(t));
            let j = choose|j: int| 0 <= j < d.len() && d[j] == t;
            assert(list@[j].0@ == d[j][0]);
        }
    }
    list
}

// ── conversations ───────────────────────────────────────────────────────────

/// The first `n` rows that report usage.
pub open spec fn measured(rows: Seq<Row>, n: int) -> Seq<Row>
    decreases n,
{
    if n <= 0 {
        Seq::empty()
    } else if rows[n - 1].prompt_tokens is Some {
        measured(rows, n - 1).push(rows[n - 1])
    } else {
        measured(rows, n - 1)
    }
}

/// Whether any recorded request is known to belong to a conversation.
pub open spec fn chained(all: Seq<Row>) -> bool {
    exists|i: int| 0 <= i < all.len() && (#[trigger] all[i]).response_id is Some
}

/// The conversations of rows.
pub open spec fn labels(all: Seq<Row>, rows: Seq<Row>) -> Seq<Seq<char>> {
    rows.map_values(|r: Row| conversation_of(all, r))
}

/// The first `n` texts, each once.
pub open spec fn first_seen(list: Seq<Seq<char>>, n: int) -> Seq<Seq<char>>
    decreases n,
{
    if n <= 0 {
        Seq::empty()
    } else if first_seen(list, n - 1).contains(list[n - 1]) {
        first_seen(list, n - 1)
    } else {
        first_seen(list, n - 1).push(list[n - 1])
    }
}

/// The largest prompt among the first `n` rows that belong to a conversation.
pub open spec fn peak(list: Seq<Seq<char>>, rows: Seq<Row>, label: Seq<char>, n: int) -> Option<i64>
    decreases n,
{
    if n <= 0 {
        None
    } else {
        let before = peak(list, rows, label, n - 1);
        match rows[n - 1].prompt_tokens {
            Some(p) => if list[n - 1] == label && (before is None || before->0 < p) {
                Some(p)
            } else {
                before
            },
            None => before,
        }
    }
}

/// The largest prompt of each conversation.
pub open spec fn peaks(list: Seq<Seq<char>>, rows: Seq<Row>) -> Seq<Option<i64>> {
    first_seen(list, list.len() as int).map_values(
        |l: Seq<char>| peak(list, rows, l, rows.len() as int),
    )
}

/// Whether a conversation was inferred, however its prefix is capitalized.
pub open spec fn was_inferred(label: Seq<char>) -> bool {
    starts_with(lowered(label), INFERRED_PREFIX@)
}

/// Whether any of some conversations was inferred.
pub open spec fn any_inferred(list: Seq<Seq<char>>) -> bool {
    exists|i: int| 0 <= i < list.len() && was_inferred(#[trigger] list[i])
}

/// The prompt tokens with what a conversation resends counted once: of each
/// conversation the largest prompt, which holds the others. Nothing where 64
/// bits do not hold the sum.
pub open spec fn distinct_prompts(all: Seq<Row>, rows: Seq<Row>) -> Option<int> {
    let m = measured(rows, rows.len() as int);
    let ps = peaks(labels(all, m), m);
    sum(ps, ps.len() as int)
}

/// The conversations that rows belong to.
pub open spec fn threads(all: Seq<Row>, rows: Seq<Row>) -> Seq<Seq<char>> {
    let m = measured(rows, rows.len() as int);
    first_seen(labels(all, m), m.len() as int)
}

fn pick_measured<'a>(rows: &Vec<&'a Row>) -> (list: Vec<&'a Row>)
    ensures
        rows_of(list@) == measured(rows_of(rows@), rows@.len() as int),
        list@.len() <= rows@.len(),
        forall|i: int| 0 <= i < list@.len() ==> (#[trigger] list@[i]).prompt_tokens is Some,
{
    let ghost all = rows_of(rows@);
    let mut list: Vec<&'a Row> = Vec::new();
    assert(rows_of(list@) =~= Seq::empty());
    for i in 0..rows.len()
        invariant
            all == rows_of(rows@),
            rows_of(list@) == measured(all, i as int),
            list@.len() <= i,
            forall|i: int| 0 <= i < list@.len() ==> (#[trigger] list@[i]).prompt_tokens is Some,
    {
        assert(all[i as int] == *rows@[i as int]);
        if rows[i].prompt_tokens.is_some() {
            let ghost was = rows_of(list@);
            list.push(rows[i]);
            assert(rows_of(list@) =~= was.push(all[i as int]));
        }
    }
    list
}

fn is_chained(all: &[Row]) -> (yes: bool)
    ensures
        yes == chained(all@),
{
    for i in 0..all.len()
        invariant
            forall|j: int| 0 <= j < i ==> (#[trigger] all@[j]).response_id is None,
    {
        if all[i].response_id.is_some() {
            return true;
        }
    }
    false
}

fn contains_text(list: &Vec<String>, text: &str) -> (yes: bool)
    ensures
        yes == texts(list@).contains(text@),
{
    let ghost all = texts(list@);
    for i in 0..list.len()
        invariant
            all == texts(list@),
            forall|j: int| 0 <= j < i ==> #[trigger] all[j] != text@,
    {
        assert(all[i as int] == list@[i as int]@);
        if same_text(list[i].as_str(), text) {
            return true;
        }
    }
    false
}

fn list_labels<'a>(all: &'a [Row], links: &Links<'a>, rows: &Vec<&'a Row>) -> (list: Vec<String>)
    requires
        links.are_of(all@),
    ensures
        texts(list@) == labels(all@, rows_of(rows@)),
{
    let ghost goal = labels(all@, rows_of(rows@));
    let mut list: Vec<String> = Vec::new();
    for i in 0..rows.len()
        invariant
            links.are_of(all@),
            goal == labels(all@, rows_of(rows@)),
            texts(list@) == goal.take(i as int),
    {
        let ghost was = texts(list@);
        let label = links.conversation_label(all, rows[i]);
        assert(goal[i as int] == label@) by {
            assert(rows_of(rows@)[i as int] == *rows@[i as int]);
        }
        let ghost l = label@;
        list.push(label);
        assert(texts(list@) =~= was.push(l));
        assert(texts(list@) =~= goal.take(i + 1));
    }
    assert(texts(list@) =~= goal);
    list
}

fn list_distinct(list: &Vec<String>) -> (seen: Vec<String>)
    ensures
        texts(seen@) == first_seen(texts(list@), list@.len() as int),
        seen@.len() <= list@.len(),
{
    let ghost all = texts(list@);
    let mut seen: Vec<String> = Vec::new();
    assert(texts(seen@) =~= Seq::empty());
    for i in 0..list.len()
        invariant
            all == texts(list@),
            texts(seen@) == first_seen(all, i as int),
            seen@.len() <= i,
    {
        assert(all[i as int] == list@[i as int]@);
        if !contains_text(&seen, list[i].as_str()) {
            let ghost was = texts(seen@);
            seen.push(list[i].clone());
            assert(texts(seen@) =~= was.push(all[i as int]));
        }
    }
    seen
}

fn find_peak(list: &Vec<String>, rows: &Vec<&Row>, label: &str) -> (found: Option<i64>)
    requires
        list@.len() == rows@.len(),
    ensures
        found == peak(texts(list@), rows_of(rows@), label@, rows@.len() as int),
{
    let ghost all = rows_of(rows@);
    let ghost ls = texts(list@);
    let mut found: Option<i64> = None;
    for i in 0..rows.len()
        invariant
            all == rows_of(rows@),
            ls == texts(list@),
            list@.len() == rows@.len(),
            found == peak(ls, all, label@, i as int),
    {
        assert(all[i as int] == *rows@[i as int]);
        assert(ls[i as int] == list@[i as int]@);
        if let Some(p) = rows[i].prompt_tokens {
            if same_text(list[i].as_str(), label) {
                let larger: bool = match found {
                    Some(b) => b < p,
                    None => true,
                };
                if larger {
                    found = Some(p);
                }
            }
        }
    }
    found
}

fn list_peaks(list: &Vec<String>, seen: &Vec<String>, rows: &Vec<&Row>) -> (ps: Vec<Option<i64>>)
    requires
        list@.len() == rows@.len(),
        texts(seen@) == first_seen(texts(list@), list@.len() as int),
    ensures
        ps@ == peaks(texts(list@), rows_of(rows@)),
{
    let ghost goal = peaks(texts(list@), rows_of(rows@));
    let mut ps: Vec<Option<i64>> = Vec::new();
    for i in 0..seen.len()
        invariant
            list@.len() == rows@.len(),
            goal == peaks(texts(list@), rows_of(rows@)),
            texts(seen@) == first_seen(texts(list@), list@.len() as int),
            ps@ == goal.take(i as int),
    {
        assert(texts(seen@)[i as int] == seen@[i as int]@);
        let p = find_peak(list, rows, seen[i].as_str());
        ps.push(p);
        assert(ps@ =~= goal.take(i + 1));
    }
    assert(texts(seen@).len() == seen@.len());
    assert(ps@ =~= goal);
    ps
}

fn has_inferred(list: &Vec<String>) -> (yes: bool)
    ensures
        yes == any_inferred(texts(list@)),
{
    let ghost all = texts(list@);
    for i in 0..list.len()
        invariant
            all == texts(list@),
            forall|j: int| 0 <= j < i ==> !was_inferred(#[trigger] all[j]),
    {
        assert(all[i as int] == list@[i as int]@);
        if begins(to_lowered(list[i].as_str()).as_str(), INFERRED_PREFIX) {
            return true;
        }
    }
    false
}

/// Whether a model's figures count what its conversations resend once.
pub open spec fn counts_distinct(m: ModelStats, all: Seq<Row>, rows: Seq<Row>) -> bool {
    if chained(all) && count_measured(rows, rows.len() as int) > 0 {
        &&& m.distinct_prompt_tokens is Some
        &&& distinct_prompts(all, rows) == Some(m.distinct_prompt_tokens->0 as int)
        &&& m.conversations is Some
        &&& m.conversations->0 == threads(all, rows).len()
        &&& m.inferred_conversations == any_inferred(
            labels(all, measured(rows, rows.len() as int)),
        )
    } else {
        m.distinct_prompt_tokens is None && m.conversations is None && !m.inferred_conversations
    }
}

/// Whether the figures of a model can be summed up.
pub open spec fn summable(all: Seq<Row>, rows: Seq<Row>) -> bool {
    usage_of(rows) is Some && (chained(all) ==> distinct_prompts(all, rows) is Some)
}

/// The prompts of rows that report usage.
pub open spec fn prompt_values(rows: Seq<Row>) -> Seq<i64> {
    rows.map_values(
        |r: Row|
            match r.prompt_tokens {
                Some(n) => n,
                None => 0,
            },
    )
}

/// The completions of rows that report usage, an absent one counting nothing.
pub open spec fn completion_values(rows: Seq<Row>) -> Seq<i64> {
    rows.map_values(
        |r: Row|
            match r.completion_tokens {
                Some(n) => n,
                None => 0,
            },
    )
}

/// Whether figures are those of a provider's model over some rows. Those of its
/// conversations look at all rows.
pub open spec fn summarises(
    m: ModelStats,
    all: Seq<Row>,
    rows: Seq<Row>,
    k: Seq<Seq<char>>,
) -> bool {
    let n = rows.len() as int;
    &&& seq![m.provider@, m.model@] == k
    &&& m.total == n
    &&& m.tool_calls == count_calls(rows, n)
    &&& m.errors == count_errors(rows, n)
    &&& counts_outcomes(m.by_outcome@, rows)
    &&& usage_of(rows) == Some(m.usage)
    &&& m.usage_requests == count_measured(rows, n)
    &&& counts_distinct(m, all, rows)
    &&& distributes(m.prompt_distribution, prompt_values(measured(rows, n)))
    &&& distributes(m.completion_distribution, completion_values(measured(rows, n)))
}

proof fn measured_are_counted(rows: Seq<Row>, n: int)
    requires
        0 <= n <= rows.len(),
    ensures
        measured(rows, n).len() == count_measured(rows, n),
    decreases n,
{
    if n > 0 {
        measured_are_counted(rows, n - 1);
    }
}

fn fold_distinct<'a>(all: &'a [Row], links: &Links<'a>, rows: &Vec<&'a Row>) -> (result: Result<
    (Option<i64>, Option<i64>, bool),
    SumOverflow,
>)
    requires
        links.are_of(all@),
        rows@.len() <= i64::MAX,
    ensures
        match result {
            Ok((distinct, conversations, inferred)) => {
                let list = rows_of(rows@);
                &&& chained(all@) ==> distinct_prompts(all@, list) is Some
                &&& if chained(all@) && count_measured(list, list.len() as int) > 0 {
                    &&& distinct is Some
                    &&& distinct_prompts(all@, list) == Some(distinct->0 as int)
                    &&& conversations is Some
                    &&& conversations->0 == threads(all@, list).len()
                    &&& inferred == any_inferred(
                        labels(all@, measured(list, list.len() as int)),
                    )
                } else {
                    distinct is None && conversations is None && !inferred
                }
            },
            Err(_) => chained(all@) && distinct_prompts(all@, rows_of(rows@)) is None,
        },
{
    if !is_chained(all) {
        return Ok((None, None, false));
    }
    let m = pick_measured(rows);
    proof {
        measured_are_counted(rows_of(rows@), rows@.len() as int);
        assert(rows_of(m@).len() == m@.len());
        assert(rows_of(rows@).len() == rows@.len());
    }
    if m.len() == 0 {
        assert(labels(all@, rows_of(m@)) =~= Seq::empty());
        assert(peaks(labels(all@, rows_of(m@)), rows_of(m@)) =~= Seq::empty());
        return Ok((None, None, false));
    }
    let list = list_labels(all, links, &m);
    assert(texts(list@).len() == list@.len());
    let seen = list_distinct(&list);
    assert(texts(seen@).len() == seen@.len());
    let ps = list_peaks(&list, &seen, &m);
    match add_up(&ps) {
        Ok(s) => Ok((Some(s), Some(seen.len() as i64), has_inferred(&list))),
        Err(e) => Err(e),
    }
}

fn list_values(rows: &Vec<&Row>) -> (lists: (Vec<i64>, Vec<i64>))
    ensures
        lists.0@ == prompt_values(rows_of(rows@)),
        lists.1@ == completion_values(rows_of(rows@)),
{
    let ghost all = rows_of(rows@);
    let mut prompts: Vec<i64> = Vec::new();
    let mut completions: Vec<i64> = Vec::new();
    for i in 0..rows.len()
        invariant
            all == rows_of(rows@),
            prompts@ == prompt_values(all).take(i as int),
            completions@ == completion_values(all).take(i as int),
    {
        assert(all[i as int] == *rows@[i as int]);
        let p: i64 = match rows[i].prompt_tokens {
            Some(n) => n,
            None => 0,
        };
        let c: i64 = match rows[i].completion_tokens {
            Some(n) => n,
            None => 0,
        };
        prompts.push(p);
        completions.push(c);
        assert(prompts@ =~= prompt_values(all).take(i + 1));
        assert(completions@ =~= completion_values(all).take(i + 1));
    }
    assert(prompts@ =~= prompt_values(all));
    assert(completions@ =~= completion_values(all));
    (prompts, completions)
}

fn summarise<'a>(
    all: &'a [Row],
    links: &Links<'a>,
    rows: &Vec<&'a Row>,
    k: &Vec<String>,
) -> (result: Result<ModelStats, SumOverflow>)
    requires
        links.are_of(all@),
        99 * rows@.len() + 99 <= i64::MAX,
        k@.len() == 2,
    ensures
        match result {
            Ok(m) => summarises(m, all@, rows_of(rows@), key(*k)) && summable(
                all@,
                rows_of(rows@),
            ),
            Err(_) => !summable(all@, rows_of(rows@)),
        },
{
    assert(rows_of(rows@).len() == rows@.len());
    let usage = match sum_usage(rows) {
        Ok(usage) => usage,
        Err(e) => {
            return Err(e);
        },
    };
    let (distinct_prompt_tokens, conversations, inferred_conversations) = match fold_distinct(
        all,
        links,
        rows,
    ) {
        Ok(found) => found,
        Err(e) => {
            return Err(e);
        },
    };
    let (tool_calls, errors, usage_requests) = count_rows(rows);
    let by_outcome = outcome_counts(rows);
    let m = pick_measured(rows);
    let (mut prompts, mut completions) = list_values(&m);
    assert(prompts@.len() == m@.len() && completions@.len() == m@.len()) by {
        assert(rows_of(m@).len() == m@.len());
    }
    let prompt_distribution = Distribution::of(prompts.as_mut_slice());
    let completion_distribution = Distribution::of(completions.as_mut_slice());
    let provider = k[0].clone();
    let model = k[1].clone();
    assert(seq![provider@, model@] =~= key(*k));
    Ok(
        ModelStats {
            provider,
            model,
            total: rows.len() as i64,
            tool_calls,
            errors,
            by_outcome,
            usage,
            usage_requests,
            distinct_prompt_tokens,
            conversations,
            inferred_conversations,
            prompt_distribution,
            completion_distribution,
        },
    )
}

// ── errors ──────────────────────────────────────────────────────────────────

/// An optional text as a part of a key: an absent one sorts first.
pub open spec fn marked(text: Option<Seq<char>>) -> Seq<char> {
    match text {
        Some(t) => seq!['+'] + t,
        None => Seq::empty(),
    }
}

fn mark(text: &Option<String>) -> (part: String)
    ensures
        part@ == marked(owned_text(*text)),
{
    match text {
        Some(t) => {
            let mut part = String::new();
            part.push('+');
            part.append(t.as_str());
            assert(part@ =~= seq!['+'] + t@);
            part
        },
        None => String::new(),
    }
}

/// What tells one failure from another.
pub open spec fn failure(row: Row) -> Seq<Seq<char>> {
    seq![
        who(row)[0],
        row.model@,
        marked(owned_text(row.error_category)),
        marked(owned_text(row.tool_name)),
        marked(owned_text(row.detail)),
    ]
}

/// What tells one group from another.
pub open spec fn failure_of(group: ErrorGroup) -> Seq<Seq<char>> {
    seq![
        group.provider@,
        group.model@,
        marked(owned_text(group.error_category)),
        marked(owned_text(group.tool_name)),
        marked(owned_text(group.detail)),
    ]
}

/// The first `n` rows that could not be fixed.
pub open spec fn unfixed(rows: Seq<Row>, n: int) -> Seq<Row>
    decreases n,
{
    if n <= 0 {
        Seq::empty()
    } else if rows[n - 1].fixed {
        unfixed(rows, n - 1)
    } else {
        unfixed(rows, n - 1).push(rows[n - 1])
    }
}

/// The failures of rows.
pub open spec fn failures(rows: Seq<Row>) -> Seq<Seq<Seq<char>>> {
    rows.map_values(|r: Row| failure(r))
}

/// The order of groups: the more frequent first, and those that are equally so
/// by what they are.
pub open spec fn comes_first(a: ErrorGroup, b: ErrorGroup) -> bool {
    a.count > b.count || (a.count == b.count && precedes(failure_of(a), failure_of(b)))
}

/// Whether there is a group for a failure.
pub open spec fn has_group(groups: Seq<ErrorGroup>, k: Seq<Seq<char>>) -> bool {
    exists|i: int| 0 <= i < groups.len() && failure_of(#[trigger] groups[i]) == k
}

/// Whether groups are those of the rows that could not be fixed: each failure
/// once, with the number of its rows, in order.
pub open spec fn groups_errors(groups: Seq<ErrorGroup>, rows: Seq<Row>) -> bool {
    let list = failures(unfixed(rows, rows.len() as int));
    &&& forall|i: int, j: int|
        0 <= i < j < groups.len() ==> comes_first(#[trigger] groups[i], #[trigger] groups[j])
    &&& forall|i: int|
        0 <= i < groups.len() ==> list.contains(failure_of(#[trigger] groups[i]))
            && groups[i].count == occurrences(list, failure_of(groups[i]), list.len() as int)
    &&& forall|k: Seq<Seq<char>>|
        #[trigger] list.contains(k) ==> has_group(groups, k)
}

fn failure_key(row: &Row) -> (k: Vec<String>)
    ensures
        key(k) == failure(*row),
{
    let mut k: Vec<String> = Vec::new();
    k.push(provider_name(row).to_owned());
    k.push(row.model.clone());
    k.push(mark(&row.error_category));
    k.push(mark(&row.tool_name));
    k.push(mark(&row.detail));
    assert(key(k) =~= failure(*row));
    k
}

fn pick_unfixed<'a>(rows: &Vec<&'a Row>) -> (list: Vec<&'a Row>)
    ensures
        rows_of(list@) == unfixed(rows_of(rows@), rows@.len() as int),
        list@.len() <= rows@.len(),
{
    let ghost all = rows_of(rows@);
    let mut list: Vec<&'a Row> = Vec::new();
    assert(rows_of(list@) =~= Seq::empty());
    for i in 0..rows.len()
        invariant
            all == rows_of(rows@),
            rows_of(list@) == unfixed(all, i as int),
            list@.len() <= i,
    {
        assert(all[i as int] == *rows@[i as int]);
        if !rows[i].fixed {
            let ghost was = rows_of(list@);
            list.push(rows[i]);
            assert(rows_of(list@) =~= was.push(all[i as int]));
        }
    }
    list
}

/// The group of a failure that occurs among some rows.
fn group_for(rows: &Vec<&Row>, found: &Vec<Vec<String>>, k: &Vec<String>) -> (group: ErrorGroup)
    requires
        keys(found@) == failures(rows_of(rows@)),
        rows@.len() <= i64::MAX,
        keys(found@).contains(key(*k)),
    ensures
        failure_of(group) == key(*k),
        group.count == occurrences(keys(found@), key(*k), found@.len() as int),
{
    let ghost all = rows_of(rows@);
    assert(found@.len() == keys(found@).len());
    assert(rows@.len() == all.len());
    let n: usize = count_key(found, k);
    for i in 0..rows.len()
        invariant
            keys(found@) == failures(all),
            all == rows_of(rows@),
            found@.len() == rows@.len(),
            rows@.len() <= i64::MAX,
            n == occurrences(keys(found@), key(*k), found@.len() as int),
            n <= found@.len(),
            forall|j: int| 0 <= j < i ==> (#[trigger] keys(found@)[j]) != key(*k),
    {
        let row = rows[i];
        assert(all[i as int] == *row);
        assert(keys(found@)[i as int] == failure(*row));
        assert(keys(found@)[i as int] == key(found@[i as int]));
        if same_key(&found[i], k) {
            let group = ErrorGroup {
                provider: provider_name(row).to_owned(),
                model: row.model.clone(),
                error_category: copy_text(&row.error_category),
                tool_name: copy_text(&row.tool_name),
                detail: copy_text(&row.detail),
                count: n as i64,
            };
            assert(failure_of(group) =~= failure(*row));
            return group;
        }
    }
    proof {
        let j = choose|j: int| 0 <= j < keys(found@).len() && keys(found@)[j] == key(*k);
        assert(keys(found@)[j] != key(*k));
    }
    ErrorGroup {
        provider: String::new(),
        model: String::new(),
        error_category: None,
        tool_name: None,
        detail: None,
        count: 0,
    }
}

/// Whether groups are in order.
spec fn in_turn(groups: Seq<ErrorGroup>) -> bool {
    forall|i: int, j: int|
        0 <= i < j < groups.len() ==> comes_first(#[trigger] groups[i], #[trigger] groups[j])
}

/// Whether a group is among others.
spec fn is_in(groups: Seq<ErrorGroup>, group: ErrorGroup) -> bool {
    exists|i: int| 0 <= i < groups.len() && #[trigger] groups[i] == group
}

/// Whether a group is for one of the first `n` failures.
spec fn is_for(group: ErrorGroup, d: Seq<Seq<Seq<char>>>, n: int) -> bool {
    exists|j: int| 0 <= j < n && failure_of(group) == #[trigger] d[j]
}

/// Puts a group behind those that are as frequent.
fn place_group(groups: &mut Vec<ErrorGroup>, group: ErrorGroup)
    requires
        in_turn(old(groups)@),
        forall|i: int|
            0 <= i < old(groups)@.len() ==> precedes(
                failure_of(#[trigger] old(groups)@[i]),
                failure_of(group),
            ),
    ensures
        in_turn(final(groups)@),
        forall|g: ErrorGroup| #[trigger]
            is_in(final(groups)@, g) <==> is_in(old(groups)@, g) || g == group,
{
    let ghost all = groups@;
    let mut at: usize = groups.len();
    while at > 0 && groups[at - 1].count < group.count
        invariant
            all == groups@,
            at <= all.len(),
            forall|j: int| at <= j < all.len() ==> (#[trigger] all[j]).count < group.count,
        decreases at,
    {
        at = at - 1;
    }
    proof {
        assert forall|i: int| 0 <= i < at implies (#[trigger] all[i]).count >= group.count by {
            if i < at - 1 {
                assert(comes_first(all[i], all[at - 1]));
            }
        }
    }
    groups.insert(at, group);
    proof {
        let now = groups@;
        assert(now =~= all.insert(at as int, group));
        assert forall|i: int, j: int| 0 <= i < j < now.len() implies comes_first(
            #[trigger] now[i],
            #[trigger] now[j],
        ) by {
            if i == at {
                assert(now[j] == all[j - 1]);
            } else if j == at {
                assert(now[i] == all[i]);
            } else {
                let a = if i < at {
                    i
                } else {
                    i - 1
                };
                let b = if j < at {
                    j
                } else {
                    j - 1
                };
                assert(now[i] == all[a] && now[j] == all[b]);
            }
        }
        assert forall|g: ErrorGroup| #[trigger] is_in(now, g) <==> is_in(all, g) || g == group by {
            if is_in(now, g) {
                let i = choose|i: int| 0 <= i < now.len() && #[trigger] now[i] == g;
                if i < at {
                    assert(all[i] == g);
                } else if i > at {
                    assert(all[i - 1] == g);
                }
            }
            if is_in(all, g) {
                let i = choose|i: int| 0 <= i < all.len() && #[trigger] all[i] == g;
                if i < at {
                    assert(now[i] == g);
                } else {
                    assert(now[i + 1] == g);
                }
            }
            assert(now[at as int] == group);
        }
    }
}

fn group_errors(rows: &Vec<&Row>) -> (groups: Vec<ErrorGroup>)
    requires
        rows@.len() <= i64::MAX,
    ensures
        groups_errors(groups@, rows_of(rows@)),
{
    let broken = pick_unfixed(rows);
    let ghost all = rows_of(broken@);
    assert(rows_of(rows@).len() == rows@.len());
    let mut found: Vec<Vec<String>> = Vec::new();
    for i in 0..broken.len()
        invariant
            all == rows_of(broken@),
            keys(found@) == failures(all).take(i as int),
    {
        let ghost was = keys(found@);
        let k = failure_key(broken[i]);
        let ghost added = key(k);
        found.push(k);
        assert(keys(found@) =~= was.push(added));
        assert(all[i as int] == *broken@[i as int]);
        assert(failures(all)[i as int] == added);
        assert(keys(found@) =~= failures(all).take(i + 1));
    }
    assert(keys(found@) =~= failures(all));
    let ghost list = failures(all);
    assert(list.len() == found@.len());
    let distinct = distinct_keys(&found);
    let ghost d = keys(distinct@);
    let mut groups: Vec<ErrorGroup> = Vec::new();
    for i in 0..distinct.len()
        invariant
            all == rows_of(broken@),
            list == failures(all),
            list.len() == found@.len(),
            broken@.len() <= i64::MAX,
            keys(found@) == list,
            d == keys(distinct@),
            ascending(d),
            forall|x: Seq<Seq<char>>| #[trigger] d.contains(x) <==> list.contains(x),
            in_turn(groups@),
            forall|g: int| 0 <= g < groups@.len() ==> is_for(#[trigger] groups@[g], d, i as int),
            forall|g: int|
                0 <= g < groups@.len() ==> (#[trigger] groups@[g]).count == occurrences(
                    list,
                    failure_of(groups@[g]),
                    list.len() as int,
                ),
            forall|j: int| 0 <= j < i ==> has_group(groups@, #[trigger] d[j]),
    {
        let k = &distinct[i];
        let ghost kk = key(*k);
        assert(d[i as int] == kk);
        assert(d.contains(kk));
        let group = group_for(&broken, &found, k);
        let ghost g0 = group;
        let ghost was = groups@;
        proof {
            assert forall|g: int| 0 <= g < was.len() implies precedes(
                failure_of(#[trigger] was[g]),
                kk,
            ) by {
                let j = choose|j: int| 0 <= j < i && failure_of(was[g]) == #[trigger] d[j];
                assert(precedes(d[j], d[i as int]));
            }
        }
        place_group(&mut groups, group);
        proof {
            let now = groups@;
            assert forall|g: int| 0 <= g < now.len() implies is_for(#[trigger] now[g], d, i + 1)
                && now[g].count == occurrences(list, failure_of(now[g]), list.len() as int) by {
                assert(is_in(now, now[g]));
                if now[g] == g0 {
                    assert(failure_of(now[g]) == d[i as int]);
                } else {
                    assert(is_in(was, now[g]));
                    let h = choose|h: int| 0 <= h < was.len() && #[trigger] was[h] == now[g];
                    assert(is_for(was[h], d, i as int));
                    let j = choose|j: int| 0 <= j < i && failure_of(was[h]) == #[trigger] d[j];
                    assert(failure_of(now[g]) == d[j]);
                }
            }
            assert forall|j: int| 0 <= j < i + 1 implies has_group(now, #[trigger] d[j]) by {
                if j == i {
                    assert(is_in(now, g0));
                    let g = choose|g: int| 0 <= g < now.len() && #[trigger] now[g] == g0;
                    assert(failure_of(now[g]) == d[j]);
                } else {
                    assert(has_group(was, d[j]));
                    let h = choose|h: int|
                        0 <= h < was.len() && failure_of(#[trigger] was[h]) == d[j];
                    assert(is_in(was, was[h]));
                    assert(is_in(now, was[h]));
                    let g = choose|g: int| 0 <= g < now.len() && #[trigger] now[g] == was[h];
                    assert(failure_of(now[g]) == d[j]);
                }
            }
        }
    }
    proof {
        assert forall|g: int| 0 <= g < groups@.len() implies list.contains(
            failure_of(#[trigger] groups@[g]),
        ) by {
            assert(is_for(groups@[g], d, d.len() as int));
            let j = choose|j: int| 0 <= j < d.len() && failure_of(groups@[g]) == #[trigger] d[j];
            assert(d.contains(d[j]));
        }
        assert forall|k: Seq<Seq<char>>| #[trigger] list.contains(k) implies has_group(
            groups@,
            k,
        ) by {
            assert(d.contains(k));
            let j = choose|j: int| 0 <= j < d.len() && d[j] == k;
            assert(has_group(groups@, d[j]));
        }
    }
    groups
}

// ── the whole ───────────────────────────────────────────────────────────────

/// The provider and the model of each row.
pub open spec fn whos(rows: Seq<Row>) -> Seq<Seq<Seq<char>>> {
    rows.map_values(|r: Row| who(r))
}

/// The provider and the model of each summary.
pub open spec fn models_of(list: Seq<ModelStats>) -> Seq<Seq<Seq<char>>> {
    list.map_values(|m: ModelStats| seq![m.provider@, m.model@])
}

/// The rows of a provider's model that fall in a window.
pub open spec fn model_rows(rows: Seq<Row>, span: Span, k: Seq<Seq<char>>) -> Seq<Row> {
    of_model(window(rows, span), k, window(rows, span).len() as int)
}

/// Whether figures are those of the rows in a window: a summary of each
/// provider's model in order, and the failures.
pub open spec fn describes(stats: Stats, rows: Seq<Row>, span: Span) -> bool {
    &&& ascending(models_of(stats.per_model@))
    &&& forall|k: Seq<Seq<char>>|
        #[trigger] models_of(stats.per_model@).contains(k) <==> whos(
            window(rows, span),
        ).contains(k)
    &&& forall|i: int|
        0 <= i < stats.per_model@.len() ==> summarises(
            #[trigger] stats.per_model@[i],
            rows,
            model_rows(rows, span, models_of(stats.per_model@)[i]),
            models_of(stats.per_model@)[i],
        )
    &&& groups_errors(stats.errors@, window(rows, span))
}

/// Whether there is a provider's model whose figures cannot be summed up.
pub open spec fn overflows(rows: Seq<Row>, span: Span) -> bool {
    exists|k: Seq<Seq<char>>| #[trigger]
        whos(window(rows, span)).contains(k) && !summable(rows, model_rows(rows, span, k))
}

fn list_models(rows: &Vec<&Row>) -> (found: Vec<Vec<String>>)
    ensures
        keys(found@) == whos(rows_of(rows@)),
{
    let ghost all = rows_of(rows@);
    let mut found: Vec<Vec<String>> = Vec::new();
    for i in 0..rows.len()
        invariant
            all == rows_of(rows@),
            keys(found@) == whos(all).take(i as int),
    {
        let ghost was = keys(found@);
        let k = who_key(rows[i]);
        let ghost added = key(k);
        found.push(k);
        assert(keys(found@) =~= was.push(added));
        assert(all[i as int] == *rows@[i as int]);
        assert(whos(all)[i as int] == added);
        assert(keys(found@) =~= whos(all).take(i + 1));
    }
    assert(keys(found@) =~= whos(all));
    found
}

impl Stats {
    /// The figures of all recorded requests.
    pub fn read(rows: &[Row]) -> (result: Result<Stats, SumOverflow>)
        requires
            99 * rows@.len() + 99 <= i64::MAX,
        ensures
            match result {
                Ok(stats) => describes(stats, rows@, always()) && !overflows(rows@, always()),
                Err(_) => overflows(rows@, always()),
            },
    {
        let range = Range::all();
        Stats::read_in(rows, &range)
    }

    /// The figures of the recorded requests in a window.
    pub fn read_in(rows: &[Row], range: &Range) -> (result: Result<Stats, SumOverflow>)
        requires
            99 * rows@.len() + 99 <= i64::MAX,
        ensures
            match result {
                Ok(stats) => describes(stats, rows@, range@) && !overflows(rows@, range@),
                Err(_) => overflows(rows@, range@),
            },
    {
        let chosen = select(rows, range);
        let ghost w = window(rows@, range@);
        assert(chosen@.len() == w.len());
        let found = list_models(&chosen);
        let distinct = distinct_keys(&found);
        let ghost d = keys(distinct@);
        proof {
            assert forall|i: int| 0 <= i < d.len() implies (#[trigger] d[i]).len() == 2 by {
                assert(d.contains(d[i]));
                assert(whos(w).contains(d[i]));
            }
        }
        let links = Links::of(rows);
        let mut per_model: Vec<ModelStats> = Vec::new();
        for i in 0..distinct.len()
            invariant
                links.are_of(rows@),
                99 * rows@.len() + 99 <= i64::MAX,
                w == window(rows@, range@),
                rows_of(chosen@) == w,
                chosen@.len() <= rows@.len(),
                chosen@.len() == w.len(),
                d == keys(distinct@),
                forall|i: int| 0 <= i < d.len() ==> (#[trigger] d[i]).len() == 2,
                forall|x: Seq<Seq<char>>| #[trigger] d.contains(x) <==> whos(w).contains(x),
                per_model@.len() == i,
                forall|j: int|
                    0 <= j < i ==> summarises(
                        #[trigger] per_model@[j],
                        rows@,
                        model_rows(rows@, range@, d[j]),
                        d[j],
                    ),
                forall|j: int|
                    0 <= j < i ==> summable(rows@, model_rows(rows@, range@, #[trigger] d[j])),
        {
            let k = &distinct[i];
            assert(d[i as int] == key(*k));
            assert(key(*k).len() == k@.len());
            let group = pick(&chosen, k);
            assert(rows_of(group@) == model_rows(rows@, range@, d[i as int]));
            match summarise(rows, &links, &group, k) {
                Ok(m) => {
                    per_model.push(m);
                },
                Err(e) => {
                    assert(d.contains(d[i as int]));
                    assert(whos(w).contains(d[i as int]));
                    return Err(e);
                },
            }
        }
        let errors = group_errors(&chosen);
        proof {
            let names = models_of(per_model@);
            assert forall|i: int| 0 <= i < d.len() implies names[i] == #[trigger] d[i] by {
                assert(summarises(
                    per_model@[i],
                    rows@,
                    model_rows(rows@, range@, d[i]),
                    d[i],
                ));
            }
            assert(names =~= d);
            assert forall|k: Seq<Seq<char>>| #[trigger] whos(w).contains(k) implies summable(
                rows@,
                model_rows(rows@, range@, k),
            ) by {
                assert(d.contains(k));
                let j = choose|j: int| 0 <= j < d.len() && d[j] == k;
                assert(summable(rows@, model_rows(rows@, range@, d[j])));
            }
        }
        Ok(Stats { per_model, errors })
    }

    /// The requests that reported usage, the latest first. The limit is brought
    /// into the range from 1 to the largest that is allowed.
    pub fn read_rows(rows: &[Row], limit: i64) -> (list: Vec<RequestRow>)
        ensures
            shows_rows(
                list@,
                latest_rows(rows@, rows@.len() as int, row_limit(limit as int) as nat),
            ),
    {
        let bounded: usize = clamp_limit(limit, MAX_ROWS);
        let ghost all = latest_rows(rows@, rows@.len() as int, bounded as nat);
        let ghost mut done: Seq<Row> = Seq::empty();
        let mut list: Vec<RequestRow> = Vec::new();
        let mut n: usize = rows.len();
        assert(done + all =~= all);
        while n > 0 && list.len() < bounded
            invariant
                n <= rows@.len(),
                list@.len() <= bounded,
                shows_rows(list@, done),
                all == done + latest_rows(rows@, n as int, (bounded - list@.len()) as nat),
            decreases n,
        {
            let row = &rows[n - 1];
            if row.prompt_tokens.is_some() {
                let ghost rest = latest_rows(rows@, n - 1, (bounded - list@.len() - 1) as nat);
                list.push(request_row(row));
                proof {
                    assert(done + (seq![*row] + rest) =~= done.push(*row) + rest);
                    done = done.push(*row);
                }
            }
            n = n - 1;
        }
        assert(done + Seq::<Row>::empty() =~= done);
        list
    }

    /// The figures of each day of a window, the latest first. The limit is
    /// brought into the range from 1 to the largest that is allowed; a day is
    /// left out only where so many later ones have traffic.
    pub fn read_activity(rows: &[Row], range: &Range, limit: i64) -> (result: Result<
        Vec<DayActivity>,
        SumOverflow,
    >)
        requires
            rows@.len() <= i64::MAX,
        ensures
            ({
                let w = window(rows@, range@);
                match result {
                    Ok(list) => shows_days(list@, w, day_limit(limit as int)) && forall|i: int|
                        0 <= i < w.len() ==> usage_of(
                            of_day(w, day(#[trigger] w[i]), w.len() as int),
                        ) is Some,
                    Err(_) => exists|i: int|
                        0 <= i < w.len() && usage_of(
                            of_day(w, day(#[trigger] w[i]), w.len() as int),
                        ) is None,
                }
            }),
    {
        let bounded: usize = clamp_limit(limit, MAX_DAYS);
        let chosen = select(rows, range);
        days_of(&chosen, bounded)
    }
}

// ── limits ──────────────────────────────────────────────────────────────────

/// A limit on rows, brought into its range.
pub open spec fn row_limit(limit: int) -> int {
    if limit < 1 {
        1
    } else if limit > MAX_ROWS {
        MAX_ROWS as int
    } else {
        limit
    }
}

/// A limit on days, brought into its range.
pub open spec fn day_limit(limit: int) -> int {
    if limit < 1 {
        1
    } else if limit > MAX_DAYS {
        MAX_DAYS as int
    } else {
        limit
    }
}

fn clamp_limit(limit: i64, most: i64) -> (bounded: usize)
    requires
        1 <= most <= 1_000_000,
    ensures
        bounded == (if limit < 1 {
            1
        } else if limit > most {
            most
        } else {
            limit
        }),
{
    if limit < 1 {
        1
    } else if limit > most {
        most as usize
    } else {
        limit as usize
    }
}

// ── single requests ─────────────────────────────────────────────────────────

/// The last `room` of the first `n` rows that report usage, the latest first.
pub open spec fn latest_rows(rows: Seq<Row>, n: int, room: nat) -> Seq<Row>
    decreases n,
{
    if n <= 0 || room == 0 {
        Seq::empty()
    } else if rows[n - 1].prompt_tokens is Some {
        seq![rows[n - 1]] + latest_rows(rows, n - 1, (room - 1) as nat)
    } else {
        latest_rows(rows, n - 1, room)
    }
}

/// A count, or nothing where it is absent.
pub open spec fn or_zero(n: Option<i64>) -> i64 {
    match n {
        Some(v) => v,
        None => 0,
    }
}

fn or_none(n: Option<i64>) -> (v: i64)
    ensures
        v == or_zero(n),
{
    match n {
        Some(v) => v,
        None => 0,
    }
}

/// Whether a request is shown as it was recorded.
pub open spec fn shows_row(shown: RequestRow, row: Row) -> bool {
    &&& shown.ts@ == row.ts@
    &&& seq![shown.provider@, shown.model@] == who(row)
    &&& shown.outcome@ == row.outcome@
    &&& shown.prompt_tokens == or_zero(row.prompt_tokens)
    &&& shown.completion_tokens == or_zero(row.completion_tokens)
    &&& shown.cached_tokens == or_zero(row.cached_tokens)
    &&& shown.billed_calls == or_zero(row.billed_calls)
    &&& owned_text(shown.response_id) == owned_text(row.response_id)
    &&& owned_text(shown.parent_id) == owned_text(row.parent_id)
}

/// Whether requests are shown as they were recorded.
pub open spec fn shows_rows(list: Seq<RequestRow>, rows: Seq<Row>) -> bool {
    &&& list.len() == rows.len()
    &&& forall|i: int| 0 <= i < rows.len() ==> shows_row(#[trigger] list[i], rows[i])
}

fn request_row(row: &Row) -> (shown: RequestRow)
    ensures
        shows_row(shown, *row),
{
    let shown = RequestRow {
        ts: row.ts.clone(),
        provider: provider_name(row).to_owned(),
        model: row.model.clone(),
        outcome: row.outcome.clone(),
        prompt_tokens: or_none(row.prompt_tokens),
        completion_tokens: or_none(row.completion_tokens),
        cached_tokens: or_none(row.cached_tokens),
        billed_calls: or_none(row.billed_calls),
        response_id: copy_text(&row.response_id),
        parent_id: copy_text(&row.parent_id),
    };
    assert(seq![shown.provider@, shown.model@] =~= who(*row));
    shown
}

// ── days ────────────────────────────────────────────────────────────────────

/// The day that a time falls on, as it is written.
pub open spec fn day_in(ts: Seq<char>) -> Seq<char> {
    if ts.len() < 10 {
        ts
    } else {
        ts.take(10)
    }
}

/// The day of a row.
pub open spec fn day(row: Row) -> Seq<char> {
    day_in(row.ts@)
}

fn day_text(ts: &str) -> (text: String)
    ensures
        text@ == day_in(ts@),
{
    let chars = chars_of(ts);
    if chars.len() < 10 {
        text_of(chars.as_slice())
    } else {
        text_of(head_of(chars.as_slice(), 10))
    }
}

/// The first `n` rows of a day.
pub open spec fn of_day(rows: Seq<Row>, date: Seq<char>, n: int) -> Seq<Row>
    decreases n,
{
    if n <= 0 {
        Seq::empty()
    } else if day(rows[n - 1]) == date {
        of_day(rows, date, n - 1).push(rows[n - 1])
    } else {
        of_day(rows, date, n - 1)
    }
}

/// Whether figures are those of a day's rows.
pub open spec fn shows_day(shown: DayActivity, rows: Seq<Row>) -> bool {
    let g = of_day(rows, shown.date@, rows.len() as int);
    let n = g.len() as int;
    &&& shown.requests == n
    &&& n > 0
    &&& shown.errors == count_errors(g, n)
    &&& usage_of(g) == Some(
        Usage {
            prompt_tokens: shown.prompt_tokens,
            completion_tokens: shown.completion_tokens,
            cached_tokens: shown.cached_tokens,
            attempts: shown.billed_calls,
        },
    )
    &&& shown.usage_requests == count_measured(g, n)
}

/// Whether a day is listed.
pub open spec fn lists_day(list: Seq<DayActivity>, date: Seq<char>) -> bool {
    exists|i: int| 0 <= i < list.len() && (#[trigger] list[i]).date@ == date
}

/// Whether a day comes before all that are listed.
pub open spec fn before_all(list: Seq<DayActivity>, date: Seq<char>) -> bool {
    forall|i: int| 0 <= i < list.len() ==> before(date, (#[trigger] list[i]).date@)
}

/// Whether the days of some rows are listed, the latest first. Where there are
/// more than `limit`, the earliest are left out.
pub open spec fn shows_days(list: Seq<DayActivity>, rows: Seq<Row>, limit: int) -> bool {
    &&& list.len() <= limit
    &&& forall|i: int, j: int|
        0 <= i < j < list.len() ==> before((#[trigger] list[j]).date@, (#[trigger] list[i]).date@)
    &&& forall|i: int| 0 <= i < list.len() ==> shows_day(#[trigger] list[i], rows)
    &&& forall|i: int|
        0 <= i < rows.len() ==> lists_day(list, day(#[trigger] rows[i])) || (list.len() == limit
            && before_all(list, day(rows[i])))
}

fn pick_day<'a>(rows: &Vec<&'a Row>, date: &str) -> (list: Vec<&'a Row>)
    ensures
        rows_of(list@) == of_day(rows_of(rows@), date@, rows@.len() as int),
        list@.len() <= rows@.len(),
{
    let ghost all = rows_of(rows@);
    let mut list: Vec<&'a Row> = Vec::new();
    assert(rows_of(list@) =~= Seq::empty());
    for i in 0..rows.len()
        invariant
            all == rows_of(rows@),
            rows_of(list@) == of_day(all, date@, i as int),
            list@.len() <= i,
    {
        assert(all[i as int] == *rows@[i as int]);
        if same_text(day_text(rows[i].ts.as_str()).as_str(), date) {
            let ghost was = rows_of(list@);
            list.push(rows[i]);
            assert(rows_of(list@) =~= was.push(all[i as int]));
        }
    }
    list
}

/// The days of rows, as keys.
spec fn day_keys(rows: Seq<Row>) -> Seq<Seq<Seq<char>>> {
    rows.map_values(|r: Row| seq![day(r)])
}

proof fn days_have_rows(rows: Seq<Row>, i: int, n: int)
    requires
        0 <= i < n <= rows.len(),
    ensures
        of_day(rows, day(rows[i]), n).len() > 0,
    decreases n,
{
    if i < n - 1 {
        days_have_rows(rows, i, n - 1);
    }
}

fn list_days(rows: &Vec<&Row>) -> (distinct: Vec<Vec<String>>)
    ensures
        ascending(keys(distinct@)),
        forall|x: Seq<Seq<char>>|
            #[trigger] keys(distinct@).contains(x) <==> day_keys(rows_of(rows@)).contains(x),
        forall|i: int| 0 <= i < distinct@.len() ==> (#[trigger] distinct@[i])@.len() == 1,
{
    let ghost all = rows_of(rows@);
    let mut found: Vec<Vec<String>> = Vec::new();
    for i in 0..rows.len()
        invariant
            all == rows_of(rows@),
            keys(found@) == day_keys(all).take(i as int),
    {
        let ghost was = keys(found@);
        let mut k: Vec<String> = Vec::new();
        k.push(day_text(rows[i].ts.as_str()));
        assert(key(k) =~= seq![day(*rows@[i as int])]);
        let ghost added = key(k);
        found.push(k);
        assert(keys(found@) =~= was.push(added));
        assert(all[i as int] == *rows@[i as int]);
        assert(day_keys(all)[i as int] == added);
        assert(keys(found@) =~= day_keys(all).take(i + 1));
    }
    assert(keys(found@) =~= day_keys(all));
    let distinct = distinct_keys(&found);
    proof {
        assert forall|i: int| 0 <= i < distinct@.len() implies (#[trigger] distinct@[i])@.len()
            == 1 by {
            let k = keys(distinct@)[i];
            assert(keys(distinct@).contains(k));
            assert(day_keys(all).contains(k));
            assert(k.len() == distinct@[i]@.len());
        }
    }
    distinct
}

fn days_of(rows: &Vec<&Row>, limit: usize) -> (result: Result<Vec<DayActivity>, SumOverflow>)
    requires
        rows@.len() <= i64::MAX,
    ensures
        ({
            let w = rows_of(rows@);
            match result {
                Ok(list) => shows_days(list@, w, limit as int) && forall|i: int|
                    0 <= i < w.len() ==> usage_of(
                        of_day(w, day(#[trigger] w[i]), w.len() as int),
                    ) is Some,
                Err(_) => exists|i: int|
                    0 <= i < w.len() && usage_of(
                        of_day(w, day(#[trigger] w[i]), w.len() as int),
                    ) is None,
            }
        }),
{
    let ghost w = rows_of(rows@);
    assert(w.len() == rows@.len());
    let distinct = list_days(rows);
    let ghost d = keys(distinct@);
    let mut list: Vec<DayActivity> = Vec::new();
    let mut n: usize = distinct.len();
    while n > 0
        invariant
            w == rows_of(rows@),
            w.len() == rows@.len(),
            rows@.len() <= i64::MAX,
            n <= distinct@.len(),
            d == keys(distinct@),
            ascending(d),
            forall|x: Seq<Seq<char>>| #[trigger] d.contains(x) <==> day_keys(w).contains(x),
            forall|i: int| 0 <= i < distinct@.len() ==> (#[trigger] distinct@[i])@.len() == 1,
            list@.len() == (if distinct@.len() - n < limit {
                distinct@.len() - n
            } else {
                limit as int
            }),
            forall|i: int|
                0 <= i < list@.len() ==> (#[trigger] list@[i]).date@ == d[d.len() - 1 - i][0]
                    && shows_day(list@[i], w),
            forall|i: int|
                n <= i < d.len() ==> usage_of(
                    of_day(w, (#[trigger] d[i])[0], w.len() as int),
                ) is Some,
        decreases n,
    {
        n = n - 1;
        let k = &distinct[n];
        let date = &k[0];
        assert(d[n as int] == key(*k));
        assert(d[n as int][0] == date@);
        let group = pick_day(rows, date.as_str());
        assert(rows_of(group@).len() == group@.len());
        proof {
            assert(d.contains(d[n as int]));
            let r = choose|r: int| 0 <= r < day_keys(w).len() && day_keys(w)[r] == d[n as int];
            assert(day_keys(w)[r][0] == day(w[r]));
            days_have_rows(w, r, w.len() as int);
        }
        let usage = match sum_usage(&group) {
            Ok(usage) => usage,
            Err(e) => {
                proof {
                    let r = choose|r: int|
                        0 <= r < day_keys(w).len() && day_keys(w)[r] == d[n as int];
                    assert(day_keys(w)[r][0] == day(w[r]));
                }
                return Err(e);
            },
        };
        if list.len() < limit {
            let (_, errors, usage_requests) = count_rows(&group);
            let shown = DayActivity {
                date: date.clone(),
                requests: group.len() as i64,
                errors,
                prompt_tokens: usage.prompt_tokens,
                completion_tokens: usage.completion_tokens,
                cached_tokens: usage.cached_tokens,
                billed_calls: usage.attempts,
                usage_requests,
            };
            list.push(shown);
        }
    }
    proof {
        assert forall|i: int| 0 <= i < d.len() implies (#[trigger] d[i]).len() == 1 by {
            assert(d[i] == key(distinct@[i]));
        }
        assert forall|i: int, j: int| 0 <= i < j < d.len() implies before(
            (#[trigger] d[i])[0],
            (#[trigger] d[j])[0],
        ) by {
            assert(precedes(d[i], d[j]));
            assert(d[i].drop_first() =~= Seq::empty());
            assert(d[j].drop_first() =~= Seq::empty());
            assert(!precedes(d[i].drop_first(), d[j].drop_first()));
        }
        assert forall|i: int| 0 <= i < w.len() implies (lists_day(list@, day(#[trigger] w[i])) || (
        list@.len() == limit && before_all(list@, day(w[i])))) && usage_of(
            of_day(w, day(w[i]), w.len() as int),
        ) is Some by {
            let t = day_keys(w)[i];
            assert(t == seq![day(w[i])]);
            assert(day_keys(w).contains(t));
            assert(d.contains(t));
            let j = choose|j: int| 0 <= j < d.len() && d[j] == t;
            assert(d[j][0] == day(w[i]));
            if d.len() - 1 - j < list@.len() {
                assert(list@[d.len() - 1 - j].date@ == day(w[i]));
            } else {
                assert forall|k: int| 0 <= k < list@.len() implies before(
                    day(w[i]),
                    (#[trigger] list@[k]).date@,
                ) by {
                    assert(before(d[j][0], d[d.len() - 1 - k][0]));
                }
            }
        }
    }
    Ok(list)
}

// ── laws ────────────────────────────────────────────────────────────────────

/// The sum of the first `n` counts of a list.
pub open spec fn count_sum(list: Seq<(String, i64)>, n: int) -> int
    decreases n,
{
    if n <= 0 {
        0
    } else {
        count_sum(list, n - 1) + list[n - 1].1
    }
}

spec fn occurrence_sum(
    list: Seq<(String, i64)>,
    rows: Seq<Row>,
    m: int,
    n: int,
) -> int
    decreases m,
{
    if m <= 0 {
        0
    } else {
        occurrence_sum(list, rows, m - 1, n) + occurrences(tags(rows), seq![list[m - 1].0@], n)
    }
}

proof fn one_more_row(list: Seq<(String, i64)>, rows: Seq<Row>, m: int, n: int)
    requires
        0 <= m <= list.len(),
        0 < n <= rows.len(),
        forall|i: int, j: int|
            0 <= i < j < list.len() ==> before((#[trigger] list[i]).0@, (#[trigger] list[j]).0@),
    ensures
        occurrence_sum(list, rows, m, n) == occurrence_sum(list, rows, m, n - 1) + (if exists|
            j: int,
        |
            0 <= j < m && (#[trigger] list[j]).0@ == rows[n - 1].outcome@ {
            1int
        } else {
            0int
        }),
    decreases m,
{
    if m > 0 {
        one_more_row(list, rows, m - 1, n);
        let here = seq![list[m - 1].0@];
        let row = seq![rows[n - 1].outcome@];
        assert(tags(rows)[n - 1] == row);
        if list[m - 1].0@ == rows[n - 1].outcome@ {
            assert(here == row);
            assert forall|j: int| 0 <= j < m - 1 implies (#[trigger] list[j]).0@
                != rows[n - 1].outcome@ by {
                crate::text::before_is_total(list[j].0@, list[m - 1].0@);
            }
        } else {
            assert(here[0] != row[0]);
            assert(here != row);
        }
    }
}

proof fn all_rows_occur(list: Seq<(String, i64)>, rows: Seq<Row>, n: int)
    requires
        counts_outcomes(list, rows),
        0 <= n <= rows.len(),
    ensures
        occurrence_sum(list, rows, list.len() as int, n) == n,
    decreases n,
{
    if n > 0 {
        all_rows_occur(list, rows, n - 1);
        one_more_row(list, rows, list.len() as int, n);
        assert(lists_tag(list, rows[n - 1].outcome@));
    } else {
        nothing_occurs(list, rows, list.len() as int);
    }
}

proof fn nothing_occurs(list: Seq<(String, i64)>, rows: Seq<Row>, m: int)
    ensures
        occurrence_sum(list, rows, m, 0) == 0,
    decreases m,
{
    if m > 0 {
        nothing_occurs(list, rows, m - 1);
    }
}

proof fn counts_are_occurrences(list: Seq<(String, i64)>, rows: Seq<Row>, m: int)
    requires
        counts_outcomes(list, rows),
        0 <= m <= list.len(),
    ensures
        count_sum(list, m) == occurrence_sum(list, rows, m, rows.len() as int),
    decreases m,
{
    if m > 0 {
        counts_are_occurrences(list, rows, m - 1);
    }
}

/// The counts of the outcomes add up to the number of the requests.
pub proof fn outcomes_add_up(list: Seq<(String, i64)>, rows: Seq<Row>)
    requires
        counts_outcomes(list, rows),
    ensures
        count_sum(list, list.len() as int) == rows.len(),
{
    counts_are_occurrences(list, rows, list.len() as int);
    all_rows_occur(list, rows, rows.len() as int);
}

/// The sum of the first `n` values, whatever its size.
spec fn plain_sum(values: Seq<Option<i64>>, n: int) -> int
    decreases n,
{
    if n <= 0 {
        0
    } else {
        plain_sum(values, n - 1) + (match values[n - 1] {
            Some(v) => v as int,
            None => 0,
        })
    }
}

proof fn sums_agree(values: Seq<Option<i64>>, n: int)
    requires
        sum(values, n) is Some,
    ensures
        sum(values, n) == Some(plain_sum(values, n)),
    decreases n,
{
    if n > 0 {
        sums_agree(values, n - 1);
    }
}

spec fn some_peaks(
    list: Seq<Seq<char>>,
    rows: Seq<Row>,
    seen: Seq<Seq<char>>,
    n: int,
) -> Seq<Option<i64>> {
    seen.map_values(|l: Seq<char>| peak(list, rows, l, n))
}

proof fn peaks_are_positive(list: Seq<Seq<char>>, rows: Seq<Row>, label: Seq<char>, n: int)
    requires
        0 <= n <= rows.len(),
        rows.len() == list.len(),
        forall|i: int|
            0 <= i < rows.len() ==> (#[trigger] rows[i]).prompt_tokens is Some
                && rows[i].prompt_tokens->0 >= 0,
    ensures
        peak(list, rows, label, n) is Some ==> peak(list, rows, label, n)->0 >= 0,
        first_seen(list, n).contains(label) ==> peak(list, rows, label, n) is Some,
    decreases n,
{
    if n > 0 {
        peaks_are_positive(list, rows, label, n - 1);
        let seen = first_seen(list, n - 1);
        if first_seen(list, n).contains(label) && !seen.contains(label) {
            let next = seen.push(list[n - 1]);
            let i = choose|i: int| 0 <= i < next.len() && next[i] == label;
            if i < seen.len() {
                assert(seen[i] == label);
            }
            assert(list[n - 1] == label);
        }
        assert(rows[n - 1].prompt_tokens is Some);
    }
}

/// What one more request adds to the largest prompts of some conversations: at
/// most its own prompt.
proof fn one_more_prompt(
    list: Seq<Seq<char>>,
    rows: Seq<Row>,
    seen: Seq<Seq<char>>,
    m: int,
    n: int,
)
    requires
        0 <= m <= seen.len(),
        0 < n <= rows.len(),
        rows.len() == list.len(),
        forall|i: int|
            0 <= i < rows.len() ==> (#[trigger] rows[i]).prompt_tokens is Some
                && rows[i].prompt_tokens->0 >= 0,
        forall|i: int, j: int| 0 <= i < j < seen.len() ==> #[trigger] seen[i] != #[trigger] seen[j],
    ensures
        plain_sum(some_peaks(list, rows, seen, n), m) <= plain_sum(
            some_peaks(list, rows, seen, n - 1),
            m,
        ) + (if exists|j: int| 0 <= j < m && #[trigger] seen[j] == list[n - 1] {
            rows[n - 1].prompt_tokens->0 as int
        } else {
            0
        }),
    decreases m,
{
    if m > 0 {
        one_more_prompt(list, rows, seen, m - 1, n);
        peaks_are_positive(list, rows, seen[m - 1], n - 1);
        assert(rows[n - 1].prompt_tokens is Some && rows[n - 1].prompt_tokens->0 >= 0);
        if seen[m - 1] == list[n - 1] {
            assert forall|j: int| 0 <= j < m - 1 implies #[trigger] seen[j] != list[n - 1] by {}
            assert(exists|j: int| 0 <= j < m && #[trigger] seen[j] == list[n - 1]);
        }
    }
}

proof fn seen_once(list: Seq<Seq<char>>, n: int)
    requires
        0 <= n <= list.len(),
    ensures
        forall|i: int, j: int|
            0 <= i < j < first_seen(list, n).len() ==> #[trigger] first_seen(list, n)[i]
                != #[trigger] first_seen(list, n)[j],
        forall|i: int| 0 <= i < n ==> first_seen(list, n).contains(#[trigger] list[i]),
    decreases n,
{
    if n > 0 {
        seen_once(list, n - 1);
        let was = first_seen(list, n - 1);
        let now = first_seen(list, n);
        if !was.contains(list[n - 1]) {
            assert forall|i: int, j: int| 0 <= i < j < now.len() implies #[trigger] now[i]
                != #[trigger] now[j] by {
                if j == was.len() {
                    assert(was.contains(was[i]));
                }
            }
            assert forall|i: int| 0 <= i < n implies now.contains(#[trigger] list[i]) by {
                if i < n - 1 {
                    assert(was.contains(list[i]));
                    let j = choose|j: int| 0 <= j < was.len() && was[j] == list[i];
                    assert(now[j] == list[i]);
                } else {
                    assert(now[was.len() as int] == list[i]);
                }
            }
        }
    }
}

proof fn peaks_are_bounded(list: Seq<Seq<char>>, rows: Seq<Row>, n: int)
    requires
        0 <= n <= rows.len(),
        rows.len() == list.len(),
        forall|i: int|
            0 <= i < rows.len() ==> (#[trigger] rows[i]).prompt_tokens is Some
                && rows[i].prompt_tokens->0 >= 0,
    ensures
        plain_sum(
            some_peaks(list, rows, first_seen(list, n), n),
            first_seen(list, n).len() as int,
        ) <= plain_sum(prompts(rows), n),
    decreases n,
{
    if n > 0 {
        peaks_are_bounded(list, rows, n - 1);
        let was = first_seen(list, n - 1);
        let now = first_seen(list, n);
        seen_once(list, n - 1);
        seen_once(list, n);
        one_more_prompt(list, rows, now, now.len() as int, n);
        let p = rows[n - 1].prompt_tokens->0;
        assert(prompts(rows)[n - 1] == rows[n - 1].prompt_tokens);
        assert(rows[n - 1].prompt_tokens is Some && p >= 0);
        if !was.contains(list[n - 1]) {
            same_prefix(
                some_peaks(list, rows, now, n - 1),
                some_peaks(list, rows, was, n - 1),
                was.len() as int,
            );
            unseen_has_no_peak(list, rows, list[n - 1], n - 1);
        }
    }
}

proof fn same_prefix(a: Seq<Option<i64>>, b: Seq<Option<i64>>, n: int)
    requires
        0 <= n <= a.len(),
        n <= b.len(),
        forall|i: int| 0 <= i < n ==> a[i] == b[i],
    ensures
        plain_sum(a, n) == plain_sum(b, n),
    decreases n,
{
    if n > 0 {
        same_prefix(a, b, n - 1);
    }
}

proof fn unseen_has_no_peak(list: Seq<Seq<char>>, rows: Seq<Row>, label: Seq<char>, n: int)
    requires
        0 <= n <= rows.len(),
        rows.len() == list.len(),
        !first_seen(list, n).contains(label),
    ensures
        peak(list, rows, label, n) is None,
    decreases n,
{
    if n > 0 {
        seen_once(list, n);
        assert(first_seen(list, n).contains(list[n - 1]));
        let was = first_seen(list, n - 1);
        if was.contains(label) {
            let j = choose|j: int| 0 <= j < was.len() && was[j] == label;
            assert(first_seen(list, n)[j] == label);
        }
        unseen_has_no_peak(list, rows, label, n - 1);
    }
}

proof fn measured_only(rows: Seq<Row>, n: int)
    requires
        0 <= n <= rows.len(),
    ensures
        forall|i: int|
            0 <= i < measured(rows, n).len() ==> (#[trigger] measured(rows, n)[i]).prompt_tokens
                is Some,
        plain_sum(prompts(measured(rows, n)), measured(rows, n).len() as int) == plain_sum(
            prompts(rows),
            n,
        ),
        forall|i: int|
            0 <= i < measured(rows, n).len() ==> rows.contains(#[trigger] measured(rows, n)[i]),
    decreases n,
{
    if n > 0 {
        measured_only(rows, n - 1);
        let was = measured(rows, n - 1);
        let now = measured(rows, n);
        assert(prompts(rows)[n - 1] == rows[n - 1].prompt_tokens);
        if rows[n - 1].prompt_tokens is Some {
            same_prefix(prompts(now), prompts(was), was.len() as int);
            assert(prompts(now)[was.len() as int] == rows[n - 1].prompt_tokens);
            assert forall|i: int| 0 <= i < now.len() implies rows.contains(#[trigger] now[i]) by {
                if i < was.len() {
                    assert(rows.contains(was[i]));
                } else {
                    assert(now[i] == rows[n - 1]);
                }
            }
        }
    }
}

/// What is counted with resent prompts left out is never more than what was
/// billed for prompts.
pub proof fn distinct_is_at_most_billed(all: Seq<Row>, rows: Seq<Row>)
    requires
        usage_of(rows) is Some,
        distinct_prompts(all, rows) is Some,
        forall|i: int|
            0 <= i < rows.len() && (#[trigger] rows[i]).prompt_tokens is Some
                ==> rows[i].prompt_tokens->0 >= 0,
    ensures
        distinct_prompts(all, rows)->0 <= usage_of(rows)->0.prompt_tokens,
{
    let n = rows.len() as int;
    let m = measured(rows, n);
    let ls = labels(all, m);
    measured_only(rows, n);
    assert forall|i: int| 0 <= i < m.len() implies (#[trigger] m[i]).prompt_tokens is Some
        && m[i].prompt_tokens->0 >= 0 by {
        assert(rows.contains(m[i]));
        let j = choose|j: int| 0 <= j < rows.len() && rows[j] == m[i];
        assert(rows[j].prompt_tokens is Some);
    }
    peaks_are_bounded(ls, m, m.len() as int);
    let ps = peaks(ls, m);
    sums_agree(ps, ps.len() as int);
    sums_agree(prompts(rows), n);
    assert(ps =~= some_peaks(ls, m, first_seen(ls, m.len() as int), m.len() as int));
    sum_fits(prompts(rows), n);
}

proof fn sum_fits(values: Seq<Option<i64>>, n: int)
    ensures
        sum(values, n) matches Some(s) ==> i64::MIN <= s <= i64::MAX,
    decreases n,
{
    if n > 0 {
        sum_fits(values, n - 1);
    }
}

proof fn rows_of_prefix(a: Seq<Row>, b: Seq<Row>, n: int, span: Span, k: Seq<Seq<char>>, d: Seq<char>)
    requires
        0 <= n <= a.len(),
        n <= b.len(),
        forall|i: int| 0 <= i < n ==> #[trigger] a[i] == b[i],
    ensures
        in_range(a, span, n) == in_range(b, span, n),
        of_model(a, k, n) == of_model(b, k, n),
        of_day(a, d, n) == of_day(b, d, n),
        measured(a, n) == measured(b, n),
        unfixed(a, n) == unfixed(b, n),
        count_calls(a, n) == count_calls(b, n),
        count_errors(a, n) == count_errors(b, n),
        count_measured(a, n) == count_measured(b, n),
    decreases n,
{
    if n > 0 {
        rows_of_prefix(a, b, n - 1, span, k, d);
        assert(a[n - 1] == b[n - 1]);
    }
}

/// Every row counts once: as a call to a declared tool by its outcome, as an error
/// where it was not mended, as measured where it tells its tokens.
pub proof fn every_row_is_counted(rows: Seq<Row>, row: Row)
    ensures
        ({
            let n = rows.len() as int;
            let all = rows.push(row);
            let tool = row.outcome@ == "native_valid"@ || row.outcome@ == "rescued"@ || row.outcome@
                == "repaired"@ || row.outcome@ == "recovered_after_retry"@ || row.outcome@
                == "retries_exhausted"@ || row.outcome@ == "write_refused"@;
            &&& count_calls(all, n + 1) == count_calls(rows, n) + (if tool {
                1int
            } else {
                0
            })
            &&& count_errors(all, n + 1) == count_errors(rows, n) + (if row.fixed {
                0int
            } else {
                1
            })
            &&& count_measured(all, n + 1) == count_measured(rows, n) + (
            if row.prompt_tokens is Some {
                1int
            } else {
                0
            })
            &&& count_calls(rows, 0) == 0 && count_errors(rows, 0) == 0 && count_measured(rows, 0)
                == 0
        }),
{
    rows_of_prefix(rows, rows.push(row), rows.len() as int, always_span(), Seq::empty(), Seq::empty());
    let tags = tool_call_tags();
    assert(tags[0] == "native_valid"@ && tags[1] == "rescued"@ && tags[2] == "repaired"@);
    assert(tags[3] == "recovered_after_retry"@ && tags[4] == "retries_exhausted"@);
    assert(tags[5] == "write_refused"@ && tags.len() == 6);
    if is_call(row) {
        let i = choose|i: int| 0 <= i < tags.len() && tags[i] == row.outcome@;
        assert(i == 0 || i == 1 || i == 2 || i == 3 || i == 4 || i == 5);
    }
}

spec fn always_span() -> Span {
    Span { since: None, until: None }
}

/// A row is taken into a window by its time, to a model by its provider and model,
/// to a day by its date, and in its order.
pub proof fn rows_are_taken_where_they_belong(
    rows: Seq<Row>,
    row: Row,
    span: Span,
    k: Seq<Seq<char>>,
    date: Seq<char>,
)
    ensures
        ({
            let n = rows.len() as int;
            let all = rows.push(row);
            let provider = match row.provider {
                Some(p) => p@,
                None => "unknown"@,
            };
            &&& window(all, span) == (if span.holds(row.ts@) {
                window(rows, span).push(row)
            } else {
                window(rows, span)
            })
            &&& of_model(all, k, n + 1) == (if k == seq![provider, row.model@] {
                of_model(rows, k, n).push(row)
            } else {
                of_model(rows, k, n)
            })
            &&& of_day(all, date, n + 1) == (if date == (if row.ts@.len() < 10 {
                row.ts@
            } else {
                row.ts@.take(10)
            }) {
                of_day(rows, date, n).push(row)
            } else {
                of_day(rows, date, n)
            })
            &&& measured(all, n + 1) == (if row.prompt_tokens is Some {
                measured(rows, n).push(row)
            } else {
                measured(rows, n)
            })
            &&& unfixed(all, n + 1) == (if !row.fixed {
                unfixed(rows, n).push(row)
            } else {
                unfixed(rows, n)
            })
        }),
        window(Seq::empty(), span) == Seq::<Row>::empty(),
{
    rows_of_prefix(rows, rows.push(row), rows.len() as int, span, k, date);
    let provider = match row.provider {
        Some(p) => p@,
        None => "unknown"@,
    };
    assert(who(row) =~= seq![provider, row.model@]);
}

proof fn sum_of_prefix(a: Seq<Option<i64>>, b: Seq<Option<i64>>, n: int)
    requires
        0 <= n <= a.len(),
        n <= b.len(),
        forall|i: int| 0 <= i < n ==> #[trigger] a[i] == b[i],
    ensures
        sum(a, n) == sum(b, n),
    decreases n,
{
    if n > 0 {
        sum_of_prefix(a, b, n - 1);
        assert(a[n - 1] == b[n - 1]);
    }
}

/// A sum adds up every value that is there; one that 64 bits do not hold is none.
pub proof fn sums_add_every_value(values: Seq<Option<i64>>, value: i64)
    ensures
        ({
            let n = values.len() as int;
            &&& sum(values, 0) == Some(0int)
            &&& sum(values.push(None), n + 1) == sum(values, n)
            &&& sum(values, n) matches Some(s) ==> sum(values.push(Some(value)), n + 1) == (if i64::MIN
                <= s + value <= i64::MAX {
                Some(s + value)
            } else {
                None
            })
            &&& sum(values, n) is None ==> sum(values.push(Some(value)), n + 1) is None
        }),
{
    sum_of_prefix(values, values.push(None), values.len() as int);
    sum_of_prefix(values, values.push(Some(value)), values.len() as int);
}

/// The tokens of rows are the sums of their figures, each of its own.
pub proof fn tokens_are_the_sums_of_the_rows(rows: Seq<Row>, i: int)
    ensures
        ({
            let n = rows.len() as int;
            &&& usage_of(rows) matches Some(u) ==> {
                &&& sum(prompts(rows), n) == Some(u.prompt_tokens as int)
                &&& sum(completions(rows), n) == Some(u.completion_tokens as int)
                &&& sum(cached(rows), n) == Some(u.cached_tokens as int)
                &&& sum(calls(rows), n) == Some(u.attempts as int)
            }
            &&& 0 <= i < n ==> prompts(rows)[i] == rows[i].prompt_tokens && completions(rows)[i]
                == rows[i].completion_tokens && cached(rows)[i] == rows[i].cached_tokens
                && calls(rows)[i] == rows[i].billed_calls
            &&& sum(prompts(rows), n) is Some && sum(completions(rows), n) is Some && sum(
                cached(rows),
                n,
            ) is Some && sum(calls(rows), n) is Some ==> usage_of(rows) is Some
        }),
{
    let n = rows.len() as int;
    sum_fits(prompts(rows), n);
    sum_fits(completions(rows), n);
    sum_fits(cached(rows), n);
    sum_fits(calls(rows), n);
}

proof fn peak_is(list: Seq<Seq<char>>, rows: Seq<Row>, label: Seq<char>, n: int) -> (at: int)
    requires
        0 <= n <= rows.len(),
    ensures
        match peak(list, rows, label, n) {
            Some(p) => 0 <= at < n && list[at] == label && rows[at].prompt_tokens == Some(p),
            None => true,
        },
        forall|i: int|
            0 <= i < n && list[i] == label && (#[trigger] rows[i]).prompt_tokens is Some ==> (peak(
                list,
                rows,
                label,
                n,
            ) is Some && rows[i].prompt_tokens->0 <= peak(list, rows, label, n)->0),
    decreases n,
{
    if n > 0 {
        let at = peak_is(list, rows, label, n - 1);
        let before = peak(list, rows, label, n - 1);
        match rows[n - 1].prompt_tokens {
            Some(p) => if list[n - 1] == label && (before is None || before->0 < p) {
                n - 1
            } else {
                at
            },
            None => at,
        }
    } else {
        0
    }
}

/// What counts of a conversation is the largest prompt among its turns.
pub proof fn the_largest_prompt_counts(
    list: Seq<Seq<char>>,
    rows: Seq<Row>,
    label: Seq<char>,
) -> (at: int)
    ensures
        match peak(list, rows, label, rows.len() as int) {
            Some(p) => 0 <= at < rows.len() && list[at] == label && rows[at].prompt_tokens == Some(
                p,
            ),
            None => true,
        },
        forall|i: int|
            0 <= i < rows.len() && list[i] == label && (#[trigger] rows[i]).prompt_tokens is Some
                ==> (peak(list, rows, label, rows.len() as int) is Some && rows[i].prompt_tokens->0
                <= peak(list, rows, label, rows.len() as int)->0),
{
    peak_is(list, rows, label, rows.len() as int)
}

/// Each conversation counts once, and every one counts.
pub proof fn each_conversation_counts_once(list: Seq<Seq<char>>, n: int)
    requires
        0 <= n <= list.len(),
    ensures
        first_seen(list, n).no_duplicates(),
        forall|i: int| 0 <= i < n ==> first_seen(list, n).contains(#[trigger] list[i]),
        forall|j: int|
            0 <= j < first_seen(list, n).len() ==> list.contains(#[trigger] first_seen(list, n)[j]),
    decreases n,
{
    if n > 0 {
        each_conversation_counts_once(list, n - 1);
        let before = first_seen(list, n - 1);
        let now = first_seen(list, n);
        assert forall|i: int| 0 <= i < n implies now.contains(#[trigger] list[i]) by {
            if before.contains(list[i]) {
                let k = choose|k: int| 0 <= k < before.len() && before[k] == list[i];
                assert(now[k] == list[i]);
            } else {
                assert(i == n - 1);
                assert(now[before.len() as int] == list[i]);
            }
        }
        assert forall|j: int| 0 <= j < now.len() implies list.contains(#[trigger] now[j]) by {
            if j < before.len() {
                assert(now[j] == before[j]);
            } else {
                assert(now[j] == list[n - 1]);
            }
        }
        assert(now.no_duplicates()) by {
            if now.len() > before.len() {
                assert forall|a: int, b: int| 0 <= a < b < now.len() implies now[a] != now[b] by {
                    if b == before.len() {
                        assert(before.contains(before[a]));
                    }
                }
            }
        }
    }
}

/// The distinct prompt tokens are the largest prompts of all conversations added
/// up, over the rows that tell their tokens.
pub proof fn distinct_tokens_are_the_largest_prompts(all: Seq<Row>, rows: Seq<Row>, i: int)
    ensures
        ({
            let m = measured(rows, rows.len() as int);
            let list = m.map_values(|r: Row| conversation_of(all, r));
            let found = threads(all, rows);
            let ps = peaks(list, m);
            &&& found == first_seen(list, m.len() as int)
            &&& ps.len() == found.len()
            &&& 0 <= i < found.len() ==> ps[i] == peak(list, m, found[i], m.len() as int)
            &&& distinct_prompts(all, rows) == sum(ps, ps.len() as int)
        }),
{
}
proof fn latest_of_prefix(a: Seq<Row>, b: Seq<Row>, n: int, room: nat)
    requires
        0 <= n <= a.len(),
        n <= b.len(),
        forall|i: int| 0 <= i < n ==> #[trigger] a[i] == b[i],
    ensures
        latest_rows(a, n, room) == latest_rows(b, n, room),
    decreases n,
{
    if n > 0 && room > 0 {
        latest_of_prefix(a, b, n - 1, room);
        latest_of_prefix(a, b, n - 1, (room - 1) as nat);
        assert(a[n - 1] == b[n - 1]);
    }
}

/// The rows that are shown are those that tell their tokens, the latest first, as
/// many as there is room for.
pub proof fn the_latest_rows_are_shown(rows: Seq<Row>, row: Row, room: nat)
    ensures
        latest_rows(rows, rows.len() as int, 0) == Seq::<Row>::empty(),
        ({
            let n = rows.len() as int;
            let now = latest_rows(rows.push(row), n + 1, room);
            if row.prompt_tokens is Some && room > 0 {
                now == seq![row] + latest_rows(rows, n, (room - 1) as nat)
            } else {
                now == latest_rows(rows, n, room)
            }
        }),
{
    let n = rows.len() as int;
    latest_of_prefix(rows, rows.push(row), n, room);
    if room > 0 {
        latest_of_prefix(rows, rows.push(row), n, (room - 1) as nat);
    }
}

/// A limit is what is asked for, but at least one and at most what there may be.
pub proof fn limits_are_kept(limit: int)
    ensures
        1 <= limit <= 10_000 ==> row_limit(limit) == limit,
        limit < 1 ==> row_limit(limit) == 1 && day_limit(limit) == 1,
        limit > 10_000 ==> row_limit(limit) == 10_000,
        1 <= limit <= 1_100 ==> day_limit(limit) == limit,
        limit > 1_100 ==> day_limit(limit) == 1_100,
{
}

/// A row is shown as it was recorded; tokens that it does not tell are shown as
/// none.
pub proof fn rows_are_shown_as_recorded(shown: RequestRow, row: Row)
    requires
        shows_row(shown, row),
    ensures
        shown.ts@ == row.ts@,
        shown.model@ == row.model@,
        shown.outcome@ == row.outcome@,
        row.provider matches Some(p) ==> shown.provider@ == p@,
        row.provider is None ==> shown.provider@ == "unknown"@,
        row.prompt_tokens matches Some(n) ==> shown.prompt_tokens == n,
        row.completion_tokens matches Some(n) ==> shown.completion_tokens == n,
        row.cached_tokens matches Some(n) ==> shown.cached_tokens == n,
        row.billed_calls matches Some(n) ==> shown.billed_calls == n,
        row.prompt_tokens is None ==> shown.prompt_tokens == 0,
        row.completion_tokens is None ==> shown.completion_tokens == 0,
        row.cached_tokens is None ==> shown.cached_tokens == 0,
        row.billed_calls is None ==> shown.billed_calls == 0,
        owned_text(shown.response_id) == owned_text(row.response_id),
        owned_text(shown.parent_id) == owned_text(row.parent_id),
{
    let pair = seq![shown.provider@, shown.model@];
    assert(pair[0] == who(row)[0] && pair[1] == who(row)[1]);
}

/// What is told of a model covers all of its rows in the window: how many there
/// are, how many were calls and how many failed, and what they cost.
pub proof fn summaries_cover_all_rows(
    stats: Stats,
    rows: Seq<Row>,
    span: Span,
    i: int,
)
    requires
        describes(stats, rows, span),
        0 <= i < stats.per_model@.len(),
    ensures
        ({
            let m = stats.per_model@[i];
            let k = seq![m.provider@, m.model@];
            let own = model_rows(rows, span, k);
            let n = own.len() as int;
            &&& own == of_model(window(rows, span), k, window(rows, span).len() as int)
            &&& m.total == n
            &&& m.tool_calls == count_calls(own, n)
            &&& m.errors == count_errors(own, n)
            &&& m.usage_requests == count_measured(own, n)
            &&& usage_of(own) == Some(m.usage)
            &&& m.distinct_prompt_tokens matches Some(p) ==> distinct_prompts(rows, own) == Some(
                p as int,
            )
            &&& m.conversations matches Some(c) ==> c == threads(rows, own).len()
            &&& m.distinct_prompt_tokens is Some <==> chained(rows) && count_measured(own, n) > 0
        }),
{
}

/// The failures are listed by how often they came, the most frequent first, each
/// once, and none is left out.
pub proof fn failures_are_listed_by_frequency(
    groups: Seq<ErrorGroup>,
    rows: Seq<Row>,
    i: int,
    j: int,
)
    requires
        groups_errors(groups, rows),
        0 <= i < groups.len(),
    ensures
        i < j < groups.len() ==> groups[i].count >= groups[j].count,
        ({
            let failed = unfixed(rows, rows.len() as int);
            let list = failed.map_values(|r: Row| failure(r));
            groups[i].count == occurrences(list, failure_of(groups[i]), list.len() as int)
        }),
        ({
            let failed = unfixed(rows, rows.len() as int);
            0 <= j < failed.len() ==> has_group(groups, failure(failed[j]))
        }),
{
    if i < j < groups.len() {
        assert(comes_first(groups[i], groups[j]));
    }
    let failed = unfixed(rows, rows.len() as int);
    let list = failures(failed);
    assert(list =~= failed.map_values(|r: Row| failure(r)));
    if 0 <= j < failed.len() {
        assert(list[j] == failure(failed[j]));
        assert(list.contains(failure(failed[j])));
    }
}

/// A failure is told by provider, model, category, tool and detail, and one that is
/// missing is told apart from one that is empty.
pub proof fn failures_are_told_apart(row: Row, text: Seq<char>, other: Seq<char>)
    ensures
        failure(row).len() == 5,
        failure(row)[1] == row.model@,
        failure(row)[2] == marked(owned_text(row.error_category)),
        failure(row)[3] == marked(owned_text(row.tool_name)),
        failure(row)[4] == marked(owned_text(row.detail)),
        marked(None) != marked(Some(text)),
        text != other ==> marked(Some(text)) != marked(Some(other)),
{
    assert(marked(Some(text)).len() == text.len() + 1);
    if marked(Some(text)) == marked(Some(other)) {
        assert(marked(Some(text)).drop_first() =~= text);
        assert(marked(Some(other)).drop_first() =~= other);
    }
}

/// What is told of a day covers all of its rows, and the latest days are told, the
/// latest first.
pub proof fn days_cover_all_rows(list: Seq<DayActivity>, rows: Seq<Row>, limit: int, i: int, j: int)
    requires
        shows_days(list, rows, limit),
        0 <= i < list.len(),
    ensures
        ({
            let own = of_day(rows, list[i].date@, rows.len() as int);
            let n = own.len() as int;
            &&& list[i].requests == n
            &&& list[i].errors == count_errors(own, n)
            &&& list[i].usage_requests == count_measured(own, n)
            &&& usage_of(own) matches Some(u) && u.prompt_tokens == list[i].prompt_tokens
                && u.completion_tokens == list[i].completion_tokens && u.cached_tokens
                == list[i].cached_tokens && u.attempts == list[i].billed_calls
        }),
        i < j < list.len() ==> before(list[j].date@, list[i].date@),
        list.len() <= limit,
        0 <= j < rows.len() && list.len() < limit ==> lists_day(list, day_in(rows[j].ts@)),
{
    assert(shows_day(list[i], rows));
    if 0 <= j < rows.len() {
        assert(day(rows[j]) == day_in(rows[j].ts@));
    }
}

} // verus!
