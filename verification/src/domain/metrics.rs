//! What is recorded of every request: how it ended, and what it cost.
use vstd::prelude::*;

use super::conversation::PrefixChain;
use super::validate::{arguments_object, arguments_of, ErrorCategory};
use crate::json::{field, field_of, lists, same_names_same_order, seen, sorted_keys, Json, JsonView};
use crate::text::{chars_of, decimal, decimal_text, head_of, join, strs, text_of};

pub use super::clock::now_rfc3339;
pub use super::distribution::Distribution;
pub use super::ledger::{Row, INFERRED_PREFIX};
pub use super::range::Range;
pub use super::stats::{DayActivity, ErrorGroup, ModelStats, RequestRow, Stats};

verus! {

/// The most rows that one read returns.
pub const MAX_ROWS: i64 = 10_000;

/// The most days that one read returns.
pub const MAX_DAYS: i64 = 1_100;

// ── outcomes ────────────────────────────────────────────────────────────────

/// How a request ended. Every guarded request ends in exactly one way.
#[derive(Debug, Clone, Copy, PartialEq, Eq, Structural)]
pub enum Outcome {
    /// Valid native tool calls, forwarded.
    NativeValid,
    /// Tool calls recovered from the model's text.
    Rescued,
    /// Tool calls made valid by the deterministic repairs.
    Repaired,
    /// Valid after one or more corrective retries.
    RecoveredAfterRetry,
    /// The synthetic `respond` tool carried a text answer.
    RespondIntercept,
    /// Still invalid when the retry budget was spent.
    RetriesExhausted,
    /// Refused by a precondition.
    WriteRefused,
    /// Plain text without a tool call.
    PassthroughNoCalls,
    /// A streaming request without tools, forwarded unguarded.
    StreamedPassthrough,
    /// A request without tools, forwarded unguarded.
    NonToolPassthrough,
    /// The backend's answer was not JSON and was forwarded unverified.
    NonJson,
    /// The backend could not be reached.
    BackendError,
    /// The request could not be carried out.
    InternalError,
}

impl Outcome {
    /// The tag that the outcome is stored under.
    pub open spec fn tag(self) -> Seq<char> {
        match self {
            Outcome::NativeValid => "native_valid"@,
            Outcome::Rescued => "rescued"@,
            Outcome::Repaired => "repaired"@,
            Outcome::RecoveredAfterRetry => "recovered_after_retry"@,
            Outcome::RespondIntercept => "respond_intercept"@,
            Outcome::RetriesExhausted => "retries_exhausted"@,
            Outcome::WriteRefused => "write_refused"@,
            Outcome::PassthroughNoCalls => "passthrough_no_calls"@,
            Outcome::StreamedPassthrough => "streamed_passthrough"@,
            Outcome::NonToolPassthrough => "non_tool_passthrough"@,
            Outcome::NonJson => "non_json"@,
            Outcome::BackendError => "backend_error"@,
            Outcome::InternalError => "internal_error"@,
        }
    }

    /// The tag that the outcome is stored under.
    pub fn as_str(self) -> (tag: &'static str)
        ensures
            tag@ == self.tag(),
    {
        match self {
            Outcome::NativeValid => "native_valid",
            Outcome::Rescued => "rescued",
            Outcome::Repaired => "repaired",
            Outcome::RecoveredAfterRetry => "recovered_after_retry",
            Outcome::RespondIntercept => "respond_intercept",
            Outcome::RetriesExhausted => "retries_exhausted",
            Outcome::WriteRefused => "write_refused",
            Outcome::PassthroughNoCalls => "passthrough_no_calls",
            Outcome::StreamedPassthrough => "streamed_passthrough",
            Outcome::NonToolPassthrough => "non_tool_passthrough",
            Outcome::NonJson => "non_json",
            Outcome::BackendError => "backend_error",
            Outcome::InternalError => "internal_error",
        }
    }

    /// Whether the outcome is of a call to a tool that the client declared. A
    /// `respond` call is the model's text answer, and is none.
    pub open spec fn calls_tool(self) -> bool {
        ||| self == Outcome::NativeValid
        ||| self == Outcome::Rescued
        ||| self == Outcome::Repaired
        ||| self == Outcome::RecoveredAfterRetry
        ||| self == Outcome::RetriesExhausted
        ||| self == Outcome::WriteRefused
    }

    pub fn is_tool_call(self) -> (yes: bool)
        ensures
            yes == self.calls_tool(),
    {
        matches!(
            self,
            Outcome::NativeValid
            | Outcome::Rescued
            | Outcome::Repaired
            | Outcome::RecoveredAfterRetry
            | Outcome::RetriesExhausted
            | Outcome::WriteRefused
        )
    }

    /// Whether the guardrails produced a usable result.
    pub fn fixed(self) -> (yes: bool)
        ensures
            yes == !(self == Outcome::RetriesExhausted || self == Outcome::WriteRefused),
    {
        !matches!(self, Outcome::RetriesExhausted | Outcome::WriteRefused)
    }
}

/// The tags of the outcomes that are calls to a declared tool.
pub open spec fn tool_call_tags() -> Seq<Seq<char>> {
    seq![
        "native_valid"@,
        "rescued"@,
        "repaired"@,
        "recovered_after_retry"@,
        "retries_exhausted"@,
        "write_refused"@,
    ]
}

/// The tags of the outcomes that are calls to a declared tool.
pub fn tool_call_tag_list() -> (tags: Vec<&'static str>)
    ensures
        strs(tags@) == tool_call_tags(),
{
    let tags: Vec<&'static str> = vec![
        "native_valid",
        "rescued",
        "repaired",
        "recovered_after_retry",
        "retries_exhausted",
        "write_refused",
    ];
    assert(strs(tags@) =~= tool_call_tags());
    tags
}

proof fn tags_by_length()
    ensures
        "native_valid"@.len() == 12,
        "rescued"@.len() == 7,
        "repaired"@.len() == 8,
        "recovered_after_retry"@.len() == 21,
        "respond_intercept"@.len() == 17,
        "retries_exhausted"@.len() == 17,
        "write_refused"@.len() == 13,
        "passthrough_no_calls"@.len() == 20,
        "streamed_passthrough"@.len() == 20,
        "non_tool_passthrough"@.len() == 20,
        "non_json"@.len() == 8,
        "backend_error"@.len() == 13,
        "internal_error"@.len() == 14,
        "respond_intercept"@[2] == 's',
        "retries_exhausted"@[2] == 't',
        "passthrough_no_calls"@[0] == 'p',
        "streamed_passthrough"@[0] == 's',
        "non_tool_passthrough"@[0] == 'n',
        "repaired"@[0] == 'r',
        "non_json"@[0] == 'n',
        "write_refused"@[0] == 'w',
        "backend_error"@[0] == 'b',
{
    reveal_strlit("native_valid");
    reveal_strlit("rescued");
    reveal_strlit("repaired");
    reveal_strlit("recovered_after_retry");
    reveal_strlit("respond_intercept");
    reveal_strlit("retries_exhausted");
    reveal_strlit("write_refused");
    reveal_strlit("passthrough_no_calls");
    reveal_strlit("streamed_passthrough");
    reveal_strlit("non_tool_passthrough");
    reveal_strlit("non_json");
    reveal_strlit("backend_error");
    reveal_strlit("internal_error");
}

/// Two outcomes with one tag are one outcome.
pub proof fn tags_are_distinct(a: Outcome, b: Outcome)
    ensures
        a.tag() == b.tag() ==> a == b,
{
    tags_by_length();
}

/// The tags that count as tool calls are those of the outcomes that do: what is
/// counted by tag and what is counted by outcome never drift apart.
pub proof fn tool_call_tags_agree(outcome: Outcome)
    ensures
        tool_call_tags().contains(outcome.tag()) <==> outcome.calls_tool(),
{
    tags_by_length();
    let tags = tool_call_tags();
    if outcome.calls_tool() {
        let i: int = match outcome {
            Outcome::NativeValid => 0,
            Outcome::Rescued => 1,
            Outcome::Repaired => 2,
            Outcome::RecoveredAfterRetry => 3,
            Outcome::RetriesExhausted => 4,
            _ => 5,
        };
        assert(tags[i] == outcome.tag());
    }
    if tags.contains(outcome.tag()) {
        let i = choose|i: int| 0 <= i < tags.len() && tags[i] == outcome.tag();
        assert(i == 0 || i == 1 || i == 2 || i == 3 || i == 4 || i == 5);
    }
}

// ── usage ───────────────────────────────────────────────────────────────────

/// Token usage over every backend attempt of a request.
#[derive(Debug, Clone, Copy, PartialEq, Eq, Structural)]
pub struct Usage {
    /// Tokens in the prompts. A later turn's prompt holds the earlier turns, so
    /// over a conversation this is what was billed, not what was said.
    pub prompt_tokens: i64,
    /// Tokens that the model generated.
    pub completion_tokens: i64,
    /// Of the prompt tokens, those served from the prompt cache.
    pub cached_tokens: i64,
    /// The backend calls that the totals span.
    pub attempts: i64,
}

impl Default for Usage {
    fn default() -> (usage: Self)
        ensures
            usage == no_usage(),
    {
        Usage { prompt_tokens: 0, completion_tokens: 0, cached_tokens: 0, attempts: 0 }
    }
}

/// No tokens in no attempts.
pub open spec fn no_usage() -> Usage {
    Usage { prompt_tokens: 0, completion_tokens: 0, cached_tokens: 0, attempts: 0 }
}

/// `n`, or the nearest number that `i64` holds.
pub open spec fn clamped(n: int) -> i64 {
    if n > i64::MAX {
        i64::MAX
    } else if n < i64::MIN {
        i64::MIN
    } else {
        n as i64
    }
}

fn sum_clamped(a: i64, b: i64) -> (sum: i64)
    ensures
        sum == clamped(a + b),
{
    let wide: i128 = a as i128 + b as i128;
    if wide > i64::MAX as i128 {
        i64::MAX
    } else if wide < i64::MIN as i128 {
        i64::MIN
    } else {
        wide as i64
    }
}

/// Two usages together.
pub open spec fn usage_sum(a: Usage, b: Usage) -> Usage {
    Usage {
        prompt_tokens: clamped(a.prompt_tokens + b.prompt_tokens),
        completion_tokens: clamped(a.completion_tokens + b.completion_tokens),
        cached_tokens: clamped(a.cached_tokens + b.cached_tokens),
        attempts: clamped(a.attempts + b.attempts),
    }
}

impl Usage {
    /// Whether nothing was reported.
    pub open spec fn reports_nothing(self) -> bool {
        self.prompt_tokens == 0 && self.completion_tokens == 0 && self.cached_tokens == 0
    }

    pub fn is_empty(self) -> (empty: bool)
        ensures
            empty == self.reports_nothing(),
    {
        self.prompt_tokens == 0 && self.completion_tokens == 0 && self.cached_tokens == 0
    }

    /// Prompt tokens that missed the cache: never fewer than none.
    pub open spec fn uncached(self) -> i64 {
        if self.prompt_tokens > self.cached_tokens {
            clamped(self.prompt_tokens - self.cached_tokens)
        } else {
            0
        }
    }

    /// Prompt tokens that missed the cache.
    pub fn uncached_prompt_tokens(self) -> (n: i64)
        ensures
            n == self.uncached(),
    {
        if self.prompt_tokens > self.cached_tokens {
            let wide: i128 = self.prompt_tokens as i128 - self.cached_tokens as i128;
            if wide > i64::MAX as i128 {
                i64::MAX
            } else {
                wide as i64
            }
        } else {
            0
        }
    }

    /// Adds another total to this one, its attempts included. A sum that `i64`
    /// does not hold stops at its limit.
    pub fn add(&mut self, other: Usage)
        ensures
            *final(self) == usage_sum(*old(self), other),
    {
        *self = Usage {
            prompt_tokens: sum_clamped(self.prompt_tokens, other.prompt_tokens),
            completion_tokens: sum_clamped(self.completion_tokens, other.completion_tokens),
            cached_tokens: sum_clamped(self.cached_tokens, other.cached_tokens),
            attempts: sum_clamped(self.attempts, other.attempts),
        };
    }
}

/// Whether 64 bits hold every sum of two usages.
pub open spec fn sums_fit(a: Usage, b: Usage) -> bool {
    &&& i64::MIN <= a.prompt_tokens + b.prompt_tokens <= i64::MAX
    &&& i64::MIN <= a.completion_tokens + b.completion_tokens <= i64::MAX
    &&& i64::MIN <= a.cached_tokens + b.cached_tokens <= i64::MAX
    &&& i64::MIN <= a.attempts + b.attempts <= i64::MAX
}

/// Usages add up to the same total in whatever order; and in whatever grouping,
/// as long as the sums of neighbours fit.
pub proof fn usage_adds_up(a: Usage, b: Usage, c: Usage)
    ensures
        usage_sum(a, b) == usage_sum(b, a),
        usage_sum(no_usage(), a) == a,
        sums_fit(a, b) && sums_fit(b, c) ==> usage_sum(usage_sum(a, b), c) == usage_sum(
            a,
            usage_sum(b, c),
        ),
{
}

/// The integer of 64 bits under one of two names.
pub open spec fn count_under(usage: JsonView, first: Seq<char>, second: Seq<char>) -> i64 {
    match int64_in(usage.get(first)) {
        Some(n) => n,
        None => match int64_in(usage.get(second)) {
            Some(n) => n,
            None => 0,
        },
    }
}

/// The integer of 64 bits that an optional value is.
pub open spec fn int64_in(value: Option<JsonView>) -> Option<i64> {
    match value {
        Some(JsonView::Int(n)) => if i64::MIN <= n <= i64::MAX {
            Some(n as i64)
        } else {
            None
        },
        _ => None,
    }
}

fn int64_of(value: Option<&Json>) -> (n: Option<i64>)
    ensures
        n == int64_in(seen(value)),
{
    match value {
        Some(Json::Unsigned(n)) => if *n <= 0x7fff_ffff_ffff_ffff {
            Some(*n as i64)
        } else {
            None
        },
        Some(Json::Signed(n)) => Some(*n),
        _ => None,
    }
}

fn count_of(usage: &Json, first: &str, second: &str) -> (n: i64)
    ensures
        n == count_under(usage@, first@, second@),
{
    match int64_of(usage.get(first)) {
        Some(n) => n,
        None => match int64_of(usage.get(second)) {
            Some(n) => n,
            None => 0,
        },
    }
}

/// The usage that a body or a chunk reports, in the words of either API;
/// nothing where it has no `usage`.
pub open spec fn usage_in(value: JsonView) -> Option<Usage> {
    match value.get("usage"@) {
        Some(usage) => Some(
            Usage {
                prompt_tokens: count_under(usage, "prompt_tokens"@, "input_tokens"@),
                completion_tokens: count_under(usage, "completion_tokens"@, "output_tokens"@),
                cached_tokens: match int64_in(
                    field(usage.get("prompt_tokens_details"@), "cached_tokens"@),
                ) {
                    Some(n) => n,
                    None => match int64_in(
                        field(usage.get("input_tokens_details"@), "cached_tokens"@),
                    ) {
                        Some(n) => n,
                        None => 0,
                    },
                },
                attempts: 1,
            },
        ),
        None => None,
    }
}

/// Reads the usage that a body or a chunk reports.
pub fn extract_usage(value: &Json) -> (found: Option<Usage>)
    ensures
        found == usage_in(value@),
{
    let usage = match value.get("usage") {
        Some(usage) => usage,
        None => {
            return None;
        },
    };
    let cached: i64 = match int64_of(
        field_of(usage.get("prompt_tokens_details"), "cached_tokens"),
    ) {
        Some(n) => n,
        None => match int64_of(field_of(usage.get("input_tokens_details"), "cached_tokens")) {
            Some(n) => n,
            None => 0,
        },
    };
    Some(
        Usage {
            prompt_tokens: count_of(usage, "prompt_tokens", "input_tokens"),
            completion_tokens: count_of(usage, "completion_tokens", "output_tokens"),
            cached_tokens: cached,
            attempts: 1,
        },
    )
}

// ── records ─────────────────────────────────────────────────────────────────

/// Where a request stands in a conversation: its own id, and that of the turn
/// it continues.
#[derive(Debug, PartialEq, Eq)]
pub struct Conversation {
    pub id: String,
    pub parent: Option<String>,
}

/// One row: how a request ended.
#[derive(Debug)]
pub struct OutcomeRecord {
    /// The time of the outcome, RFC 3339 in UTC.
    pub ts: String,
    pub provider: String,
    pub model: String,
    pub outcome: Outcome,
    /// Why, where the retry budget was spent.
    pub error_category: Option<ErrorCategory>,
    /// The format that a rescue read.
    pub parser: Option<String>,
    /// The tool that was called, or that failed.
    pub tool_name: Option<String>,
    /// The retries before the outcome.
    pub retries: u32,
    /// The last nudge and a redacted view of the arguments, on failure.
    pub detail: Option<String>,
    /// The usage over all attempts, where any was reported.
    pub usage: Option<Usage>,
    /// The place in a conversation, where the API gives one.
    pub conversation: Option<Conversation>,
    /// The prefix hashes of the messages, where conversations are matched.
    pub prefix_chain: Option<PrefixChain>,
}

/// Where records go.
pub trait Recorder {
    fn record(&self, record: OutcomeRecord);
}

/// Records nothing.
#[derive(Debug, Clone, Copy)]
pub struct NoopRecorder;

impl Recorder for NoopRecorder {
    fn record(&self, _record: OutcomeRecord) {
    }
}

// ── redaction ───────────────────────────────────────────────────────────────

/// What is told of a value: its type, and its size where it has one.
pub open spec fn value_tag(value: JsonView) -> Seq<char> {
    match value {
        JsonView::Null => "null"@,
        JsonView::Bool(_) => "<bool>"@,
        JsonView::Int(_) => "<number>"@,
        JsonView::Real(_) => "<number>"@,
        JsonView::Str(s) => "<str:"@ + decimal(s.len()) + ">"@,
        JsonView::Array(items) => "<array:"@ + decimal(items.len()) + ">"@,
        JsonView::Object(members) => "<object:"@ + decimal(sorted_keys(members).len()) + ">"@,
    }
}

/// A tag that tells a value's type and size, never what it holds.
pub fn redact_value(value: &Json) -> (tag: String)
    ensures
        tag@ == value_tag(value@),
{
    match value {
        Json::Null => "null".to_owned(),
        Json::Bool(_) => "<bool>".to_owned(),
        Json::Unsigned(_) => "<number>".to_owned(),
        Json::Signed(_) => "<number>".to_owned(),
        Json::Real(_) => "<number>".to_owned(),
        Json::Str(s) => {
            let n: usize = s.as_str().unicode_len();
            "<str:".to_owned().concat(decimal_text(n as u64).as_str()).concat(">")
        },
        Json::Array(items) => "<array:".to_owned().concat(
            decimal_text(items.len() as u64).as_str(),
        ).concat(">"),
        Json::Object(members) => "<object:".to_owned().concat(
            decimal_text(members.len() as u64).as_str(),
        ).concat(">"),
    }
}

/// What is told of each member, in the order of the names.
pub open spec fn member_tags(arguments: Map<Seq<char>, JsonView>) -> Seq<Seq<char>> {
    sorted_keys(arguments).map_values(
        |k: Seq<char>| k + ": "@ + value_tag(arguments[k]),
    )
}

/// What is told of arguments before it is cut.
pub open spec fn arguments_tag(arguments: Seq<char>) -> Seq<char> {
    match arguments_of(arguments) {
        Some(members) => "{"@ + join(member_tags(members), ", "@) + "}"@,
        None => "<non-object: "@ + decimal(arguments.len()) + " chars>"@,
    }
}

/// The most characters that are told of arguments.
pub const MAX_SNIPPET: usize = 200;

/// What is told of arguments: the names of the members and the tags of their
/// values, cut where it is long.
pub open spec fn redacted(arguments: Seq<char>) -> Seq<char> {
    let tag = arguments_tag(arguments);
    if tag.len() > MAX_SNIPPET {
        tag.take(MAX_SNIPPET as int).push('…')
    } else {
        tag
    }
}

/// A snippet of arguments that shows their shape and none of their values.
pub fn redact_args(arguments: &str) -> (snippet: String)
    ensures
        snippet@ == redacted(arguments@),
{
    let full = match arguments_object(arguments) {
        Some(members) => {
            let ghost keys = sorted_keys(members@);
            let ghost tags = member_tags(members@);
            let n: usize = members.len();
            let mut text = String::new();
            for i in 0..n
                invariant
                    keys == sorted_keys(members@),
                    tags == member_tags(members@),
                    n == keys.len(),
                    text@ == join(tags.take(i as int), ", "@),
            {
                proof {
                    assert(tags.take(i + 1).drop_last() =~= tags.take(i as int));
                }
                let (key, value) = members.entry(i);
                let tag = redact_value(value);
                let part = key.to_owned().concat(": ").concat(tag.as_str());
                assert(part@ == tags[i as int]);
                if i > 0 {
                    text.append(", ");
                }
                text.append(part.as_str());
                assert(text@ =~= join(tags.take(i + 1), ", "@));
            }
            assert(tags.take(tags.len() as int) =~= tags);
            "{".to_owned().concat(text.as_str()).concat("}")
        },
        None => {
            let n: usize = arguments.unicode_len();
            "<non-object: ".to_owned().concat(decimal_text(n as u64).as_str()).concat(" chars>")
        },
    };
    let chars = chars_of(full.as_str());
    if chars.len() > MAX_SNIPPET {
        let mut cut = text_of(head_of(chars.as_slice(), MAX_SNIPPET));
        cut.push('…');
        cut
    } else {
        full
    }
}

/// A snippet is never longer than its limit and a mark.
pub proof fn redaction_is_bounded(arguments: Seq<char>)
    ensures
        redacted(arguments).len() <= MAX_SNIPPET + 1,
{
}

/// What is told of members depends on their names, types and sizes alone, never
/// on their values.
pub proof fn redaction_hides_values(a: Map<Seq<char>, JsonView>, b: Map<Seq<char>, JsonView>)
    requires
        lists(sorted_keys(a), a),
        a.dom() == b.dom(),
        forall|k: Seq<char>| #[trigger] a.contains_key(k) ==> value_tag(a[k]) == value_tag(b[k]),
    ensures
        member_tags(a) == member_tags(b),
{
    same_names_same_order(a, b);
    let keys = sorted_keys(a);
    assert forall|i: int| 0 <= i < keys.len() implies value_tag(a[keys[i]]) == value_tag(
        b[keys[i]],
    ) by {
        assert(keys.contains(keys[i]));
        assert(a.contains_key(keys[i]));
    }
    assert(member_tags(a) =~= member_tags(b));
}

/// Whether a member is an integer of 64 bits.
pub open spec fn counts(usage: JsonView, name: Seq<char>, n: i64) -> bool {
    usage.get(name) == Some(JsonView::Int(n as int))
}

/// Whether a member is no integer of 64 bits.
pub open spec fn counts_nothing(usage: JsonView, name: Seq<char>) -> bool {
    forall|n: i64| !#[trigger] counts(usage, name, n)
}

/// The tokens of a body are what its `usage` says, in the words of either API, and
/// none where it does not say. One body is one attempt.
pub proof fn tokens_are_read_in_either_wording(value: JsonView, usage: JsonView, n: i64)
    requires
        value.get("usage"@) == Some(usage),
    ensures
        ({
            let found = usage_in(value);
            &&& found is Some
            &&& found->0.attempts == 1
            &&& counts(usage, "prompt_tokens"@, n) ==> found->0.prompt_tokens == n
            &&& counts_nothing(usage, "prompt_tokens"@) && counts(usage, "input_tokens"@, n)
                ==> found->0.prompt_tokens == n
            &&& counts_nothing(usage, "prompt_tokens"@) && counts_nothing(usage, "input_tokens"@)
                ==> found->0.prompt_tokens == 0
            &&& counts(usage, "completion_tokens"@, n) ==> found->0.completion_tokens == n
            &&& counts_nothing(usage, "completion_tokens"@) && counts(usage, "output_tokens"@, n)
                ==> found->0.completion_tokens == n
            &&& counts_nothing(usage, "completion_tokens"@) && counts_nothing(
                usage,
                "output_tokens"@,
            ) ==> found->0.completion_tokens == 0
            &&& usage.get("prompt_tokens_details"@) matches Some(details) ==> counts(
                details,
                "cached_tokens"@,
                n,
            ) ==> found->0.cached_tokens == n
            &&& usage.get("prompt_tokens_details"@) is None && usage.get(
                "input_tokens_details"@,
            ) is None ==> found->0.cached_tokens == 0
            &&& usage.get("prompt_tokens_details"@) is None ==> (usage.get(
                "input_tokens_details"@,
            ) matches Some(details) ==> counts(details, "cached_tokens"@, n)
                ==> found->0.cached_tokens == n)
        }),
{
    if let Some(k) = int64_in(usage.get("prompt_tokens"@)) {
        assert(counts(usage, "prompt_tokens"@, k));
    }
    if let Some(k) = int64_in(usage.get("input_tokens"@)) {
        assert(counts(usage, "input_tokens"@, k));
    }
    if let Some(k) = int64_in(usage.get("completion_tokens"@)) {
        assert(counts(usage, "completion_tokens"@, k));
    }
    if let Some(k) = int64_in(usage.get("output_tokens"@)) {
        assert(counts(usage, "output_tokens"@, k));
    }
}

/// A body without `usage` reports none.
pub proof fn no_usage_is_made_up(value: JsonView)
    requires
        value.get("usage"@) is None,
    ensures
        usage_in(value) is None,
{
}

/// Two usages together are the sum of each figure, attempts included, as long as
/// the sums fit.
pub proof fn usages_are_summed(a: Usage, b: Usage)
    requires
        sums_fit(a, b),
    ensures
        usage_sum(a, b).prompt_tokens == a.prompt_tokens + b.prompt_tokens,
        usage_sum(a, b).completion_tokens == a.completion_tokens + b.completion_tokens,
        usage_sum(a, b).cached_tokens == a.cached_tokens + b.cached_tokens,
        usage_sum(a, b).attempts == a.attempts + b.attempts,
{
}

/// Prompt tokens are cached or not, as long as no more are cached than there are.
pub proof fn prompts_are_cached_or_not(usage: Usage)
    requires
        0 <= usage.cached_tokens <= usage.prompt_tokens,
    ensures
        usage.uncached() + usage.cached_tokens == usage.prompt_tokens,
        usage.cached_tokens == usage.prompt_tokens ==> usage.uncached() == 0,
{
}

/// Every outcome is stored under its own name, and counts as a call to a declared
/// tool where it is one.
pub proof fn outcomes_are_stored_by_name()
    ensures
        Outcome::NativeValid.tag() == "native_valid"@ && Outcome::NativeValid.calls_tool(),
        Outcome::Rescued.tag() == "rescued"@ && Outcome::Rescued.calls_tool(),
        Outcome::Repaired.tag() == "repaired"@ && Outcome::Repaired.calls_tool(),
        Outcome::RecoveredAfterRetry.tag() == "recovered_after_retry"@
            && Outcome::RecoveredAfterRetry.calls_tool(),
        Outcome::RetriesExhausted.tag() == "retries_exhausted"@
            && Outcome::RetriesExhausted.calls_tool(),
        Outcome::WriteRefused.tag() == "write_refused"@ && Outcome::WriteRefused.calls_tool(),
        Outcome::RespondIntercept.tag() == "respond_intercept"@
            && !Outcome::RespondIntercept.calls_tool(),
        Outcome::PassthroughNoCalls.tag() == "passthrough_no_calls"@
            && !Outcome::PassthroughNoCalls.calls_tool(),
        Outcome::StreamedPassthrough.tag() == "streamed_passthrough"@
            && !Outcome::StreamedPassthrough.calls_tool(),
        Outcome::NonToolPassthrough.tag() == "non_tool_passthrough"@
            && !Outcome::NonToolPassthrough.calls_tool(),
        Outcome::NonJson.tag() == "non_json"@ && !Outcome::NonJson.calls_tool(),
        Outcome::BackendError.tag() == "backend_error"@ && !Outcome::BackendError.calls_tool(),
        Outcome::InternalError.tag() == "internal_error"@ && !Outcome::InternalError.calls_tool(),
{
}

/// A value is told by its kind and its size: two texts of one length are told the
/// same, and a text is told apart from every other kind.
pub proof fn values_are_told_by_kind_and_size(a: Seq<char>, b: Seq<char>, value: JsonView)
    ensures
        a.len() == b.len() ==> value_tag(JsonView::Str(a)) == value_tag(JsonView::Str(b)),
        value_tag(JsonView::Str(a)) == "<str:"@ + decimal(a.len()) + ">"@,
        match value {
            JsonView::Null => value_tag(value) == "null"@,
            JsonView::Bool(_) => value_tag(value) == "<bool>"@,
            JsonView::Int(_) => value_tag(value) == "<number>"@,
            JsonView::Real(_) => value_tag(value) == "<number>"@,
            JsonView::Array(items) => value_tag(value) == "<array:"@ + decimal(items.len())
                + ">"@,
            JsonView::Object(members) => value_tag(value) == "<object:"@ + decimal(
                sorted_keys(members).len(),
            ) + ">"@,
            _ => true,
        },
{
}

/// What is told of arguments names every member, in the order of their names, with
/// what is told of its value; it is cut only where it is too long.
pub proof fn every_member_is_told(arguments: Seq<char>, members: Map<Seq<char>, JsonView>, i: int)
    requires
        arguments_of(arguments) == Some(members),
    ensures
        ({
            let tags = member_tags(members);
            let whole = "{"@ + join(tags, ", "@) + "}"@;
            &&& tags.len() == sorted_keys(members).len()
            &&& 0 <= i < tags.len() ==> tags[i] == sorted_keys(members)[i] + ": "@ + value_tag(
                members[sorted_keys(members)[i]],
            )
            &&& whole.len() <= 200 ==> redacted(arguments) == whole
            &&& whole.len() > 200 ==> redacted(arguments) == whole.take(200).push('…')
        }),
{
}

/// Of arguments that are no object only the length is told.
pub proof fn only_the_length_of_other_arguments_is_told(arguments: Seq<char>)
    requires
        arguments_of(arguments) is None,
    ensures
        ({
            let whole = "<non-object: "@ + decimal(arguments.len()) + " chars>"@;
            whole.len() <= 200 ==> redacted(arguments) == whole
        }),
{
}

} // verus!
