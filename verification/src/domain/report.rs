//! The figures as a report in plain text.
use vstd::prelude::*;

use super::distribution::Distribution;
use super::stats::{ErrorGroup, ModelStats, Stats};
use crate::text::{chars_of, signed_decimal, signed_text};

verus! {

/// The ratios of a model as they are written; each is absent where it would be
/// a ratio to nothing.
#[derive(Debug)]
pub struct Ratios {
    /// The tool calls that succeeded, in a hundred.
    pub success: Option<String>,
    /// The prompt tokens that the cache served, in a hundred.
    pub cache: Option<String>,
    /// The calls to backends per request.
    pub calls: Option<String>,
}

/// A ratio as it is shown.
pub open spec fn ratio_text(ratio: Option<String>) -> Seq<char> {
    match ratio {
        Some(t) => t@,
        None => "n/a"@,
    }
}

fn ratio_of(ratio: &Option<String>) -> (text: &str)
    ensures
        text@ == ratio_text(*ratio),
{
    match ratio {
        Some(t) => t.as_str(),
        None => "n/a",
    }
}

/// An integer as it is written.
pub open spec fn int_text(n: int) -> Seq<char> {
    signed_decimal(n)
}

/// Text with spaces behind it until it is `width` characters long.
pub open spec fn space_padded(text: Seq<char>, width: nat) -> Seq<char>
    decreases width - text.len(),
{
    if text.len() >= width {
        text
    } else {
        space_padded(text.push(' '), width)
    }
}

fn pad_spaces(text: &str, width: usize) -> (padded: String)
    ensures
        padded@ == space_padded(text@, width as nat),
{
    let mut padded = text.to_owned();
    let mut n: usize = chars_of(text).len();
    while n < width
        invariant
            n == padded@.len(),
            space_padded(padded@, width as nat) == space_padded(text@, width as nat),
        decreases width - n,
    {
        padded.push(' ');
        n = n + 1;
    }
    padded
}

/// The lines that head a model's figures.
pub open spec fn heading(m: ModelStats, r: Ratios) -> Seq<char> {
    "\n"@ + m.provider@ + " / "@ + m.model@ + "\n  total: "@ + int_text(m.total as int)
        + "  |  tool calls: "@ + int_text(m.tool_calls as int) + "  |  succeeded: "@ + int_text(
        m.tool_calls - m.errors,
    ) + "  |  errors: "@ + int_text(m.errors as int) + "  |  success rate: "@ + ratio_text(
        r.success,
    ) + "\n"@
}

fn write_heading(m: &ModelStats, r: &Ratios) -> (text: String)
    requires
        i64::MIN <= m.tool_calls - m.errors <= i64::MAX,
    ensures
        text@ == heading(*m, *r),
{
    "\n".to_owned().concat(m.provider.as_str()).concat(" / ").concat(m.model.as_str()).concat(
        "\n  total: ",
    ).concat(signed_text(m.total).as_str()).concat("  |  tool calls: ").concat(
        signed_text(m.tool_calls).as_str(),
    ).concat("  |  succeeded: ").concat(signed_text(m.succeeded()).as_str()).concat(
        "  |  errors: ",
    ).concat(signed_text(m.errors).as_str()).concat("  |  success rate: ").concat(
        ratio_of(&r.success),
    ).concat("\n")
}

/// The line of an outcome.
pub open spec fn outcome_line(entry: (String, i64)) -> Seq<char> {
    "    "@ + space_padded(entry.0@, 22) + " "@ + int_text(entry.1 as int) + "\n"@
}

/// The lines of the first `n` outcomes.
pub open spec fn outcome_lines(list: Seq<(String, i64)>, n: int) -> Seq<char>
    decreases n,
{
    if n <= 0 {
        Seq::empty()
    } else {
        outcome_lines(list, n - 1) + outcome_line(list[n - 1])
    }
}

fn write_outcomes(list: &Vec<(String, i64)>) -> (text: String)
    ensures
        text@ == outcome_lines(list@, list@.len() as int),
{
    let mut text = String::new();
    for i in 0..list.len()
        invariant
            text@ == outcome_lines(list@, i as int),
    {
        let line = "    ".to_owned().concat(pad_spaces(list[i].0.as_str(), 22).as_str()).concat(
            " ",
        ).concat(signed_text(list[i].1).as_str()).concat("\n");
        text.append(line.as_str());
    }
    text
}

/// The line of the tokens that were billed.
pub open spec fn token_line(m: ModelStats) -> Seq<char> {
    "  tokens billed: "@ + int_text(m.usage.prompt_tokens + m.usage.completion_tokens)
        + "  |  prompt: "@ + int_text(m.usage.prompt_tokens as int) + " ("@ + int_text(
        m.usage.uncached() as int,
    ) + " new, "@ + int_text(m.usage.cached_tokens as int) + " cached)  |  completion: "@
        + int_text(m.usage.completion_tokens as int) + "\n"@
}

fn write_tokens(m: &ModelStats) -> (text: String)
    requires
        i64::MIN <= m.usage.prompt_tokens + m.usage.completion_tokens <= i64::MAX,
    ensures
        text@ == token_line(*m),
{
    "  tokens billed: ".to_owned().concat(signed_text(m.billed_tokens()).as_str()).concat(
        "  |  prompt: ",
    ).concat(signed_text(m.usage.prompt_tokens).as_str()).concat(" (").concat(
        signed_text(m.usage.uncached_prompt_tokens()).as_str(),
    ).concat(" new, ").concat(signed_text(m.usage.cached_tokens).as_str()).concat(
        " cached)  |  completion: ",
    ).concat(signed_text(m.usage.completion_tokens).as_str()).concat("\n")
}

/// The line of what the usage was measured over.
pub open spec fn measure_line(m: ModelStats, r: Ratios) -> Seq<char> {
    "  cache hit rate: "@ + ratio_text(r.cache) + "  |  backend calls per request: "@ + ratio_text(
        r.calls,
    ) + "  |  measured over "@ + int_text(m.usage_requests as int) + " of "@ + int_text(
        m.total as int,
    ) + " requests\n"@
}

fn write_measure(m: &ModelStats, r: &Ratios) -> (text: String)
    ensures
        text@ == measure_line(*m, *r),
{
    "  cache hit rate: ".to_owned().concat(ratio_of(&r.cache)).concat(
        "  |  backend calls per request: ",
    ).concat(ratio_of(&r.calls)).concat("  |  measured over ").concat(
        signed_text(m.usage_requests).as_str(),
    ).concat(" of ").concat(signed_text(m.total).as_str()).concat(" requests\n")
}

/// The mark of a figure that rests on inferred conversations.
pub open spec fn approximate(inferred: bool) -> Seq<char> {
    if inferred {
        "~"@
    } else {
        ""@
    }
}

/// The line of the tokens with what a conversation resends counted once; none
/// where conversations are not known.
pub open spec fn distinct_line(m: ModelStats) -> Seq<char> {
    match (m.distinct_prompt_tokens, m.conversations) {
        (Some(p), Some(c)) => "  distinct tokens: "@ + approximate(m.inferred_conversations)
            + int_text(p + m.usage.completion_tokens) + " over "@ + approximate(
            m.inferred_conversations,
        ) + int_text(c as int) + " conversation(s)\n"@,
        _ => Seq::empty(),
    }
}

fn write_distinct(m: &ModelStats) -> (text: String)
    requires
        m.distinct_prompt_tokens is Some ==> i64::MIN <= m.distinct_prompt_tokens->0
            + m.usage.completion_tokens <= i64::MAX,
    ensures
        text@ == distinct_line(*m),
{
    let mark: &str = if m.inferred_conversations {
        "~"
    } else {
        ""
    };
    match (m.distinct_tokens(), m.conversations) {
        (Some(distinct), Some(conversations)) => "  distinct tokens: ".to_owned().concat(
            mark,
        ).concat(signed_text(distinct).as_str()).concat(" over ").concat(mark).concat(
            signed_text(conversations).as_str(),
        ).concat(" conversation(s)\n"),
        _ => String::new(),
    }
}

/// The line of how a figure is spread; none where it is not known.
pub open spec fn spread_line(label: Seq<char>, found: Option<Distribution>) -> Seq<char> {
    match found {
        Some(d) => label + "min "@ + int_text(d.min as int) + " | p50 "@ + int_text(d.p50 as int)
            + " | p90 "@ + int_text(d.p90 as int) + " | p99 "@ + int_text(d.p99 as int)
            + " | max "@ + int_text(d.max as int) + "\n"@,
        None => Seq::empty(),
    }
}

fn write_spread(label: &str, found: Option<Distribution>) -> (text: String)
    ensures
        text@ == spread_line(label@, found),
{
    match found {
        Some(d) => label.to_owned().concat("min ").concat(signed_text(d.min).as_str()).concat(
            " | p50 ",
        ).concat(signed_text(d.p50).as_str()).concat(" | p90 ").concat(
            signed_text(d.p90).as_str(),
        ).concat(" | p99 ").concat(signed_text(d.p99).as_str()).concat(" | max ").concat(
            signed_text(d.max).as_str(),
        ).concat("\n"),
        None => String::new(),
    }
}

/// What is reported of a model. Its tokens are left out where no request
/// reported usage: unmeasured is not free.
pub open spec fn model_text(m: ModelStats, r: Ratios) -> Seq<char> {
    let head = heading(m, r) + outcome_lines(m.by_outcome@, m.by_outcome@.len() as int);
    if m.usage_requests > 0 {
        head + token_line(m) + measure_line(m, r) + distinct_line(m) + spread_line(
            "  prompt per request:     "@,
            m.prompt_distribution,
        ) + spread_line("  completion per request: "@, m.completion_distribution)
    } else {
        head
    }
}

/// Whether 64 bits hold the sums that are reported of a model.
pub open spec fn reportable(m: ModelStats) -> bool {
    &&& i64::MIN <= m.tool_calls - m.errors <= i64::MAX
    &&& i64::MIN <= m.usage.prompt_tokens + m.usage.completion_tokens <= i64::MAX
    &&& m.distinct_prompt_tokens is Some ==> i64::MIN <= m.distinct_prompt_tokens->0
        + m.usage.completion_tokens <= i64::MAX
}

fn write_model(m: &ModelStats, r: &Ratios) -> (text: String)
    requires
        reportable(*m),
    ensures
        text@ == model_text(*m, *r),
{
    let head = write_heading(m, r).concat(write_outcomes(&m.by_outcome).as_str());
    if m.usage_requests > 0 {
        head.concat(write_tokens(m).as_str()).concat(write_measure(m, r).as_str()).concat(
            write_distinct(m).as_str(),
        ).concat(
            write_spread("  prompt per request:     ", m.prompt_distribution).as_str(),
        ).concat(
            write_spread("  completion per request: ", m.completion_distribution).as_str(),
        )
    } else {
        head
    }
}

/// What is reported of the first `n` models.
pub open spec fn models_text(list: Seq<ModelStats>, ratios: Seq<Ratios>, n: int) -> Seq<char>
    decreases n,
{
    if n <= 0 {
        Seq::empty()
    } else {
        models_text(list, ratios, n - 1) + model_text(list[n - 1], ratios[n - 1])
    }
}

/// Whether any figure rests on inferred conversations.
pub open spec fn any_approximate(list: Seq<ModelStats>) -> bool {
    exists|i: int| 0 <= i < list.len() && (#[trigger] list[i]).inferred_conversations
}

/// An optional text as it is shown.
pub open spec fn or_unknown(text: Option<String>) -> Seq<char> {
    match text {
        Some(t) => t@,
        None => "?"@,
    }
}

fn known_text(text: &Option<String>) -> (shown: &str)
    ensures
        shown@ == or_unknown(*text),
{
    match text {
        Some(t) => t.as_str(),
        None => "?",
    }
}

/// The lines of a group of errors.
pub open spec fn error_lines(e: ErrorGroup) -> Seq<char> {
    "\n  ["@ + int_text(e.count as int) + "x] "@ + e.provider@ + " / "@ + e.model@ + " / "@
        + or_unknown(e.error_category) + " / "@ + or_unknown(e.tool_name) + "\n"@ + (
    match e.detail {
        Some(d) => "        "@ + d@ + "\n"@,
        None => Seq::empty(),
    })
}

fn write_error(e: &ErrorGroup) -> (text: String)
    ensures
        text@ == error_lines(*e),
{
    let detail: String = match &e.detail {
        Some(d) => "        ".to_owned().concat(d.as_str()).concat("\n"),
        None => String::new(),
    };
    "\n  [".to_owned().concat(signed_text(e.count).as_str()).concat("x] ").concat(
        e.provider.as_str(),
    ).concat(" / ").concat(e.model.as_str()).concat(" / ").concat(
        known_text(&e.error_category),
    ).concat(" / ").concat(known_text(&e.tool_name)).concat("\n").concat(detail.as_str())
}

/// The lines of the first `n` groups of errors.
pub open spec fn errors_text(list: Seq<ErrorGroup>, n: int) -> Seq<char>
    decreases n,
{
    if n <= 0 {
        Seq::empty()
    } else {
        errors_text(list, n - 1) + error_lines(list[n - 1])
    }
}

/// The report.
pub open spec fn report(stats: Stats, ratios: Seq<Ratios>) -> Seq<char> {
    if stats.per_model@.len() == 0 {
        "No metrics recorded yet.\n"@
    } else {
        "Requests by provider and model\n"@ + "==============================\n"@ + models_text(
            stats.per_model@,
            ratios,
            stats.per_model@.len() as int,
        ) + (if any_approximate(stats.per_model@) {
            "\n  ~ conversations inferred from message prefixes\n"@
        } else {
            ""@
        }) + "\nErrors (triage list)\n"@ + "====================\n"@ + (if stats.errors@.len()
            == 0 {
            "  none — every tool call was delivered valid.\n"@
        } else {
            errors_text(stats.errors@, stats.errors@.len() as int)
        })
    }
}

impl Stats {
    /// The report for the command line, with the ratios of each model as they
    /// are written.
    pub fn render(&self, ratios: &[Ratios]) -> (text: String)
        requires
            ratios@.len() == self.per_model@.len(),
            forall|i: int|
                0 <= i < self.per_model@.len() ==> reportable(#[trigger] self.per_model@[i]),
        ensures
            text@ == report(*self, ratios@),
    {
        if self.per_model.len() == 0 {
            return "No metrics recorded yet.\n".to_owned();
        }
        let mut models = String::new();
        let mut inferred: bool = false;
        for i in 0..self.per_model.len()
            invariant
                ratios@.len() == self.per_model@.len(),
                forall|i: int|
                    0 <= i < self.per_model@.len() ==> reportable(#[trigger] self.per_model@[i]),
                models@ == models_text(self.per_model@, ratios@, i as int),
                inferred == (exists|j: int|
                    0 <= j < i && (#[trigger] self.per_model@[j]).inferred_conversations),
        {
            models.append(write_model(&self.per_model[i], &ratios[i]).as_str());
            if self.per_model[i].inferred_conversations {
                inferred = true;
            }
        }
        let mut errors = String::new();
        for i in 0..self.errors.len()
            invariant
                errors@ == errors_text(self.errors@, i as int),
        {
            errors.append(write_error(&self.errors[i]).as_str());
        }
        let legend: &str = if inferred {
            "\n  ~ conversations inferred from message prefixes\n"
        } else {
            ""
        };
        let list: &str = if self.errors.len() == 0 {
            "  none — every tool call was delivered valid.\n"
        } else {
            errors.as_str()
        };
        "Requests by provider and model\n".to_owned().concat(
            "==============================\n",
        ).concat(models.as_str()).concat(legend).concat("\nErrors (triage list)\n").concat(
            "====================\n",
        ).concat(list)
    }
}

// ── laws ────────────────────────────────────────────────────────────────────

proof fn lines_of_prefix(
    a: Seq<(String, i64)>,
    b: Seq<(String, i64)>,
    n: int,
)
    requires
        0 <= n <= a.len(),
        n <= b.len(),
        forall|i: int| 0 <= i < n ==> #[trigger] a[i] == b[i],
    ensures
        outcome_lines(a, n) == outcome_lines(b, n),
    decreases n,
{
    if n > 0 {
        lines_of_prefix(a, b, n - 1);
        assert(a[n - 1] == b[n - 1]);
    }
}

/// Every outcome has its line, in their order, with its name and its count.
pub proof fn every_outcome_has_its_line(list: Seq<(String, i64)>, last: (String, i64))
    ensures
        outcome_lines(list.push(last), list.len() as int + 1) == outcome_lines(
            list,
            list.len() as int,
        ) + ("    "@ + space_padded(last.0@, 22) + " "@ + signed_decimal(last.1 as int) + "\n"@),
        outcome_lines(Seq::empty(), 0) == Seq::<char>::empty(),
{
    lines_of_prefix(list, list.push(last), list.len() as int);
}

/// Padding adds blanks behind a text until it is wide enough, and nothing else.
pub proof fn padding_adds_blanks_behind(text: Seq<char>, width: nat)
    ensures
        text.len() >= width ==> space_padded(text, width) == text,
        text.len() < width ==> space_padded(text, width).len() == width,
        space_padded(text, width).len() >= text.len(),
        space_padded(text, width).take(text.len() as int) == text,
        forall|i: int|
            text.len() <= i < space_padded(text, width).len() ==> #[trigger] space_padded(
                text,
                width,
            )[i] == ' ',
    decreases width - text.len(),
{
    if text.len() < width {
        let more = text.push(' ');
        padding_adds_blanks_behind(more, width);
        let all = space_padded(text, width);
        assert(all.take(text.len() as int) =~= text) by {
            assert forall|i: int| 0 <= i < text.len() implies all[i] == text[i] by {
                assert(all.take(more.len() as int)[i] == more[i]);
            }
        }
        assert(all[text.len() as int] == ' ') by {
            assert(all.take(more.len() as int)[text.len() as int] == more[text.len() as int]);
        }
    } else {
        assert(text.take(text.len() as int) =~= text);
    }
}

/// The first lines of a model name it, and tell how many requests there were, how
/// many were calls, how many of those succeeded and how many failed.
pub proof fn headings_tell_the_counts(m: ModelStats, r: Ratios)
    ensures
        heading(m, r) == "\n"@ + m.provider@ + " / "@ + m.model@ + "\n  total: "@ + signed_decimal(
            m.total as int,
        ) + "  |  tool calls: "@ + signed_decimal(m.tool_calls as int) + "  |  succeeded: "@
            + signed_decimal(m.tool_calls - m.errors) + "  |  errors: "@ + signed_decimal(
            m.errors as int,
        ) + "  |  success rate: "@ + ratio_text(r.success) + "\n"@,
        token_line(m) == "  tokens billed: "@ + signed_decimal(
            m.usage.prompt_tokens + m.usage.completion_tokens,
        ) + "  |  prompt: "@ + signed_decimal(m.usage.prompt_tokens as int) + " ("@
            + signed_decimal(m.usage.uncached() as int) + " new, "@ + signed_decimal(
            m.usage.cached_tokens as int,
        ) + " cached)  |  completion: "@ + signed_decimal(m.usage.completion_tokens as int)
            + "\n"@,
        measure_line(m, r) == "  cache hit rate: "@ + ratio_text(r.cache)
            + "  |  backend calls per request: "@ + ratio_text(r.calls) + "  |  measured over "@
            + signed_decimal(m.usage_requests as int) + " of "@ + signed_decimal(m.total as int)
            + " requests\n"@,
        r.success is None ==> ratio_text(r.success) == "n/a"@,
        r.success matches Some(t) ==> ratio_text(r.success) == t@,
{
}

/// What a conversation view adds is told only where it is known, and marked where
/// it was inferred.
pub proof fn inferred_figures_are_marked(m: ModelStats, p: i64, c: i64)
    ensures
        m.distinct_prompt_tokens == Some(p) && m.conversations == Some(c)
            && m.inferred_conversations ==> distinct_line(m) == "  distinct tokens: "@ + "~"@
            + signed_decimal(p + m.usage.completion_tokens) + " over "@ + "~"@ + signed_decimal(
            c as int,
        ) + " conversation(s)\n"@,
        m.distinct_prompt_tokens == Some(p) && m.conversations == Some(c)
            && !m.inferred_conversations ==> distinct_line(m) == "  distinct tokens: "@ + ""@
            + signed_decimal(p + m.usage.completion_tokens) + " over "@ + ""@ + signed_decimal(
            c as int,
        ) + " conversation(s)\n"@,
        m.distinct_prompt_tokens is None || m.conversations is None ==> distinct_line(m).len() == 0,
{
}

/// A spread is told from the least to the greatest.
pub proof fn spreads_are_told_in_order(label: Seq<char>, d: Distribution)
    ensures
        spread_line(label, Some(d)) == label + "min "@ + signed_decimal(d.min as int) + " | p50 "@
            + signed_decimal(d.p50 as int) + " | p90 "@ + signed_decimal(d.p90 as int)
            + " | p99 "@ + signed_decimal(d.p99 as int) + " | max "@ + signed_decimal(d.max as int)
            + "\n"@,
        spread_line(label, None).len() == 0,
{
}

/// A report tells of every model and every failure, in their order; where nothing
/// was recorded it says so.
pub proof fn reports_tell_of_all(stats: Stats, ratios: Seq<Ratios>, n: int)
    requires
        0 <= n,
    ensures
        stats.per_model@.len() == 0 ==> report(stats, ratios) == "No metrics recorded yet.\n"@,
        n < stats.per_model@.len() ==> models_text(stats.per_model@, ratios, n + 1) == models_text(
            stats.per_model@,
            ratios,
            n,
        ) + model_text(stats.per_model@[n], ratios[n]),
        n < stats.errors@.len() ==> errors_text(stats.errors@, n + 1) == errors_text(
            stats.errors@,
            n,
        ) + error_lines(stats.errors@[n]),
        stats.per_model@.len() > 0 && stats.errors@.len() > 0 ==> {
            let end = errors_text(stats.errors@, stats.errors@.len() as int);
            let all = report(stats, ratios);
            &&& all.len() >= end.len()
            &&& all.skip(all.len() - end.len()) == end
        },
{
    if stats.per_model@.len() > 0 && stats.errors@.len() > 0 {
        let end = errors_text(stats.errors@, stats.errors@.len() as int);
        let all = report(stats, ratios);
        assert(all.skip(all.len() - end.len()) =~= end);
    }
}

/// A failure is told with how often it came, whose it is, what it is, and its
/// detail.
pub proof fn failures_are_told_in_full(e: ErrorGroup)
    ensures
        ({
            let head = "\n  ["@ + signed_decimal(e.count as int) + "x] "@ + e.provider@ + " / "@
                + e.model@ + " / "@ + or_unknown(e.error_category) + " / "@ + or_unknown(
                e.tool_name,
            ) + "\n"@;
            &&& e.detail matches Some(d) ==> error_lines(e) == head + ("        "@ + d@ + "\n"@)
            &&& e.detail is None ==> error_lines(e) == head
        }),
        e.error_category is None ==> or_unknown(e.error_category) == "?"@,
        e.error_category matches Some(t) ==> or_unknown(e.error_category) == t@,
{
    if e.detail is None {
        assert(error_lines(e) =~= "\n  ["@ + signed_decimal(e.count as int) + "x] "@ + e.provider@
            + " / "@ + e.model@ + " / "@ + or_unknown(e.error_category) + " / "@ + or_unknown(
            e.tool_name,
        ) + "\n"@);
    }
}

} // verus!
