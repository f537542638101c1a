use guardrail::domain::civil::civil_from_days;
use guardrail::domain::conversation::PrefixChain;
use guardrail::domain::ledger::{infer_conversation, insert};
use guardrail::domain::metrics::{
    extract_usage, now_rfc3339, redact_args, Conversation, Distribution, ModelStats, Outcome,
    OutcomeRecord, Range, Row, Stats, Usage, INFERRED_PREFIX, MAX_ROWS,
};
use guardrail::domain::range::{days_from_civil, floor_day, parse_ymd};
use guardrail::domain::report::Ratios;
use guardrail::domain::validate::ErrorCategory;
use guardrail::json::{parse, Json};

fn json(text: &str) -> Json {
    parse(text).expect("valid JSON")
}

/// What a recorder writes, in order.
struct Log {
    rows: Vec<Row>,
}

impl Log {
    fn new() -> Self {
        Log { rows: Vec::new() }
    }

    fn record(&mut self, mut record: OutcomeRecord) {
        infer_conversation(&self.rows, &mut record);
        let id = self.rows.len() as i64 + 1;
        self.rows.push(insert(&record, id));
    }
}

fn success_rate(m: &ModelStats) -> Option<f64> {
    (m.tool_calls != 0).then(|| m.succeeded() as f64 / m.tool_calls as f64)
}

fn cache_hit_rate(m: &ModelStats) -> Option<f64> {
    (m.usage.prompt_tokens != 0)
        .then(|| m.usage.cached_tokens as f64 / m.usage.prompt_tokens as f64)
}

fn calls_per_request(m: &ModelStats) -> Option<f64> {
    (m.usage_requests != 0).then(|| m.usage.attempts as f64 / m.usage_requests as f64)
}

fn report_of(stats: &Stats) -> String {
    let ratios: Vec<Ratios> = stats
        .per_model
        .iter()
        .map(|m| Ratios {
            success: success_rate(m).map(|r| format!("{:.1}%", r * 100.0)),
            cache: cache_hit_rate(m).map(|r| format!("{:.1}%", r * 100.0)),
            calls: calls_per_request(m).map(|c| format!("{c:.2}")),
        })
        .collect();
    stats.render(&ratios)
}

fn rec(model: &str, outcome: Outcome) -> OutcomeRecord {
    rec_from("default", model, outcome)
}

fn rec_from(provider: &str, model: &str, outcome: Outcome) -> OutcomeRecord {
    OutcomeRecord {
        ts: now_rfc3339(),
        provider: provider.into(),
        model: model.into(),
        outcome,
        error_category: None,
        parser: None,
        tool_name: None,
        retries: 0,
        detail: None,
        usage: None,
        conversation: None,
        prefix_chain: None,
    }
}

#[test]
fn now_rfc3339_is_well_formed_utc() {
    let ts = now_rfc3339();
    assert_eq!(ts.len(), 24, "expected YYYY-MM-DDThh:mm:ss.mmmZ, got {ts}");
    assert_eq!(&ts[19..20], ".", "expected sub-second precision, got {ts}");
    assert!(ts[20..23].chars().all(|c| c.is_ascii_digit()), "got {ts}");
    assert!(ts.ends_with('Z'));
    assert_eq!(&ts[4..5], "-");
    assert_eq!(civil_from_days(0), (1970, 1, 1));
    assert_eq!(civil_from_days(10_957), (2000, 1, 1));
}

#[test]
fn respond_intercept_is_not_counted_as_a_tool_call() {
    assert!(!Outcome::RespondIntercept.is_tool_call());
}

#[test]
fn tool_call_outcomes_are_distinguished_from_passthrough() {
    assert!(Outcome::NativeValid.is_tool_call());
    assert!(Outcome::RetriesExhausted.is_tool_call());
    assert!(!Outcome::PassthroughNoCalls.is_tool_call());
    assert!(!Outcome::StreamedPassthrough.is_tool_call());
    assert!(!Outcome::NonToolPassthrough.is_tool_call());
    assert!(!Outcome::NonJson.is_tool_call());
    assert!(!Outcome::BackendError.is_tool_call());
    assert!(!Outcome::InternalError.is_tool_call());
}

#[test]
fn forwarded_passthroughs_are_not_errors() {
    assert!(Outcome::StreamedPassthrough.fixed());
    assert!(Outcome::NonToolPassthrough.fixed());
}

#[test]
fn only_fallback_is_unfixed() {
    assert!(Outcome::Rescued.fixed());
    assert!(Outcome::Repaired.fixed());
    assert!(Outcome::RecoveredAfterRetry.fixed());
    assert!(!Outcome::RetriesExhausted.fixed());
}

#[test]
fn usage_is_read_from_both_api_dialects() {
    let chat = json(r#"{
        "usage": {
            "prompt_tokens": 100, "completion_tokens": 20, "total_tokens": 120,
            "prompt_tokens_details": {"cached_tokens": 80}
        }
    }"#);
    let u = extract_usage(&chat).expect("chat usage");
    assert_eq!(u.prompt_tokens, 100);
    assert_eq!(u.completion_tokens, 20);
    assert_eq!(u.cached_tokens, 80);
    assert_eq!(u.uncached_prompt_tokens(), 20);

    let responses = json(r#"{
        "usage": {
            "input_tokens": 100, "output_tokens": 20,
            "input_tokens_details": {"cached_tokens": 80}
        }
    }"#);
    assert_eq!(extract_usage(&responses), Some(u));
}

#[test]
fn a_backend_reporting_no_cache_details_reads_as_zero_cached() {
    let value = json(r#"{
        "usage": {"prompt_tokens": 7, "completion_tokens": 3}
    }"#);
    let u = extract_usage(&value).expect("usage without cache details");
    assert_eq!(u.cached_tokens, 0);
    assert_eq!(u.prompt_tokens, 7);
    assert_eq!(u.uncached_prompt_tokens(), 7);
}

#[test]
fn a_chunk_without_usage_reports_none() {
    let chunk = json(r#"{"choices": [{"delta": {"content": "hi"}}]}"#);
    assert_eq!(extract_usage(&chunk), None);
}

#[test]
fn usage_sums_across_attempts_so_retries_show_their_cost() {
    let mut billed = Usage::default();
    assert!(billed.is_empty());

    for _ in 0..3 {
        billed.add(Usage {
            prompt_tokens: 100,
            completion_tokens: 10,
            cached_tokens: 40,
            attempts: 1,
        });
    }
    assert_eq!(billed.prompt_tokens, 300);
    assert_eq!(billed.completion_tokens, 30);
    assert_eq!(billed.cached_tokens, 120);
    assert_eq!(billed.attempts, 3, "three backend calls were billed");
    assert!(!billed.is_empty());
}

#[test]
fn folding_an_aggregated_total_preserves_the_call_count() {
    let attempt = Usage { prompt_tokens: 100, completion_tokens: 10, cached_tokens: 40, attempts: 1 };

    let mut one_at_a_time = Usage::default();
    for _ in 0..4 {
        one_at_a_time.add(attempt);
    }

    let mut left = Usage::default();
    left.add(attempt);
    left.add(attempt);
    let mut right = Usage::default();
    right.add(attempt);
    right.add(attempt);
    let mut combined = left;
    combined.add(right);

    assert_eq!(combined, one_at_a_time);
    assert_eq!(combined.attempts, 4, "four backend calls, however grouped");
}

#[test]
fn cached_tokens_never_exceed_the_prompt_in_the_uncached_split() {
    let u = Usage { prompt_tokens: 10, completion_tokens: 0, cached_tokens: 25, attempts: 1 };
    assert_eq!(u.uncached_prompt_tokens(), 0);
}

#[test]
fn redact_args_keeps_shape_but_never_values() {
    assert_eq!(
        redact_args("{\"filePath\":\"/etc/secret\",\"count\":3}"),
        "{count: <number>, filePath: <str:11>}"
    );
    assert!(!redact_args("{\"token\":\"sk-abc123xyz\"}").contains("sk-abc123xyz"));
    let r = redact_args("not json, has a secret\nvalue");
    assert!(r.starts_with("<non-object:"));
    assert!(!r.contains("secret"));
    assert!(!r.contains('\n'));
    let long = format!("{{\"k\":\"{}\"}}", "x".repeat(500));
    assert!(redact_args(&long).chars().count() <= 201);
}

#[test]
fn records_round_trip_to_the_database() {
    let mut recorder = Log::new();
    recorder.record(OutcomeRecord {
        tool_name: Some("get_weather".into()),
        ..rec_from("default", "qwen2.5", Outcome::NativeValid)
    });
    recorder.record(OutcomeRecord {
        error_category: Some(ErrorCategory::MissingArgument),
        tool_name: Some("Edit".into()),
        retries: 2,
        detail: Some("missing filePath | args: {}".into()),
        ..rec_from("default", "qwen2.5", Outcome::RetriesExhausted)
    });
    assert_eq!(recorder.rows.len(), 2);

    let row = recorder.rows.iter().find(|r| r.outcome == "retries_exhausted").unwrap();
    assert_eq!(row.outcome, "retries_exhausted");
    assert_eq!(row.error_category.as_deref(), Some("missing_argument"));
    assert!(!row.fixed);
}

#[test]
fn the_same_model_on_two_providers_stays_separate() {
    let mut recorder = Log::new();
    recorder.record(rec_from("copilot", "gpt-4o", Outcome::NativeValid));
    recorder.record(rec_from("copilot", "gpt-4o", Outcome::RetriesExhausted));
    recorder.record(rec_from("azure", "gpt-4o", Outcome::NativeValid));

    let stats = Stats::read(&recorder.rows).unwrap();
    assert_eq!(
        stats.per_model.len(),
        2,
        "one row per (provider, model), got: {:?}",
        stats
            .per_model
            .iter()
            .map(|m| (&m.provider, &m.model))
            .collect::<Vec<_>>()
    );

    let copilot = stats
        .per_model
        .iter()
        .find(|m| m.provider == "copilot")
        .expect("copilot row");
    assert_eq!(copilot.total, 2);
    assert_eq!(copilot.errors, 1);

    let azure = stats
        .per_model
        .iter()
        .find(|m| m.provider == "azure")
        .expect("azure row");
    assert_eq!(azure.total, 1);
    assert_eq!(
        azure.errors, 0,
        "the failing provider's errors must not be attributed here"
    );

    assert_eq!(stats.errors.len(), 1);
    assert_eq!(stats.errors[0].provider, "copilot");
}

#[test]
fn stats_separate_total_tool_calls_and_errors() {
    let mut recorder = Log::new();
    recorder.record(rec("m", Outcome::NativeValid));
    recorder.record(rec("m", Outcome::RetriesExhausted));
    recorder.record(rec("m", Outcome::RespondIntercept));
    recorder.record(rec("m", Outcome::PassthroughNoCalls));

    let stats = Stats::read(&recorder.rows).unwrap();
    let m = &stats.per_model[0];
    assert_eq!(m.total, 4);
    assert_eq!(m.tool_calls, 2);
    assert_eq!(m.errors, 1);
    assert_eq!(m.succeeded(), 1);
    assert_eq!(success_rate(m), Some(0.5));
}

fn rec_with_usage(model: &str, outcome: Outcome, usage: Usage) -> OutcomeRecord {
    OutcomeRecord {
        usage: Some(usage),
        ..rec_from("default", model, outcome)
    }
}

#[test]
fn token_usage_is_summed_per_provider_and_model() {
    let mut recorder = Log::new();
    recorder.record(rec_with_usage(
        "m",
        Outcome::NativeValid,
        Usage { prompt_tokens: 100, completion_tokens: 10, cached_tokens: 60, attempts: 1 },
    ));
    recorder.record(rec_with_usage(
        "m",
        Outcome::RecoveredAfterRetry,
        Usage { prompt_tokens: 300, completion_tokens: 30, cached_tokens: 140, attempts: 2 },
    ));

    let stats = Stats::read(&recorder.rows).unwrap();
    let m = &stats.per_model[0];
    assert_eq!(m.usage.prompt_tokens, 400);
    assert_eq!(m.usage.completion_tokens, 40);
    assert_eq!(m.usage.cached_tokens, 200);
    assert_eq!(m.billed_tokens(), 440);
    assert_eq!(m.usage.uncached_prompt_tokens(), 200);
    assert_eq!(cache_hit_rate(m), Some(0.5));
    assert_eq!(m.usage.attempts, 3);
    assert_eq!(m.usage_requests, 2);
    assert_eq!(calls_per_request(m), Some(1.5));
}

fn rec_chained(
    model: &str,
    usage: Usage,
    id: &str,
    parent: Option<&str>,
) -> OutcomeRecord {
    OutcomeRecord {
        usage: Some(usage),
        conversation: Some(Conversation {
            id: id.to_string(),
            parent: parent.map(str::to_string),
        }),
        ..rec_from("default", model, Outcome::NativeValid)
    }
}

fn usage_of(prompt: i64, completion: i64) -> Usage {
    Usage { prompt_tokens: prompt, completion_tokens: completion, cached_tokens: 0, attempts: 1 }
}

#[test]
fn the_activity_floor_counts_back_from_the_newest_day() {
    assert_eq!(floor_day("2026-08-22", 1).as_deref(), Some("2026-08-22"));
    assert_eq!(floor_day("2026-08-22", 30).as_deref(), Some("2026-07-24"));
    assert_eq!(floor_day("2026-01-01", 2).as_deref(), Some("2025-12-31"));
    assert_eq!(floor_day("2024-03-01", 2).as_deref(), Some("2024-02-29"));
    assert_eq!(floor_day("not-a-date", 30), None);
}

#[test]
fn the_civil_date_conversions_round_trip() {
    for date in [
        "1970-01-01", "1999-12-31", "2000-02-29", "2024-02-29",
        "2026-08-22", "2100-03-01",
    ] {
        let (y, m, d) = parse_ymd(date).unwrap();
        let days = days_from_civil(y, m, d);
        let (ry, rm, rd) = civil_from_days(days);
        assert_eq!(
            (y, m, d), (ry, rm, rd),
            "round trip failed for {date}"
        );
    }
}

#[test]
fn a_window_still_deduplicates_a_conversation_that_began_before_it() {
    let at = |ts: &str, r: OutcomeRecord| OutcomeRecord { ts: ts.to_string(), ..r };
    let mut recorder = Log::new();
    recorder.record(at(
        "2026-08-01T10:00:00.000Z",
        rec_chained("m", usage_of(100, 10), "resp_1", None),
    ));
    recorder.record(at(
        "2026-08-05T10:00:00.000Z",
        rec_chained("m", usage_of(300, 20), "resp_2", Some("resp_1")),
    ));
    recorder.record(at(
        "2026-08-09T10:00:00.000Z",
        rec_chained("m", usage_of(600, 30), "resp_3", Some("resp_2")),
    ));

    let range = Range {
        since: Some("2026-08-05T00:00:00.000Z".into()),
        until: Some("2026-08-10T00:00:00.000Z".into()),
    };
    let stats = Stats::read_in(&recorder.rows, &range).unwrap();
    let m = &stats.per_model[0];

    assert_eq!(m.usage.prompt_tokens, 900);
    assert_eq!(m.distinct_prompt_tokens, Some(600));
    assert_eq!(m.conversations, Some(1));

    let all = Stats::read(&recorder.rows).unwrap();
    assert_eq!(all.per_model[0].distinct_prompt_tokens, Some(600));
    assert_eq!(all.per_model[0].usage.prompt_tokens, 1000);
}

#[test]
fn a_conversation_counts_its_resent_prefix_once() {
    let mut recorder = Log::new();
    recorder.record(rec_chained("m", usage_of(100, 10), "resp_1", None));
    recorder.record(rec_chained("m", usage_of(300, 20), "resp_2", Some("resp_1")));
    recorder.record(rec_chained("m", usage_of(600, 30), "resp_3", Some("resp_2")));

    let stats = Stats::read(&recorder.rows).unwrap();
    let m = &stats.per_model[0];

    assert_eq!(m.usage.prompt_tokens, 1000);
    assert_eq!(m.billed_tokens(), 1060);

    assert_eq!(m.distinct_prompt_tokens, Some(600));
    assert_eq!(m.distinct_tokens(), Some(660));
    assert_eq!(m.conversations, Some(1), "three turns, one conversation");
    assert!(m.usage.prompt_tokens > m.distinct_prompt_tokens.unwrap());
}

#[test]
fn a_conversations_cache_hits_are_recorded_against_its_resent_prefixes() {
    let cached = |prompt: i64, cached: i64| Usage {
        prompt_tokens: prompt,
        completion_tokens: 0,
        cached_tokens: cached,
        attempts: 1,
    };

    let mut recorder = Log::new();
    recorder.record(rec_chained("m", cached(1000, 0), "c1", None));
    recorder.record(rec_chained("m", cached(2500, 1500), "c2", Some("c1")));
    recorder.record(rec_chained("m", cached(4200, 3200), "c3", Some("c2")));

    let stats = Stats::read(&recorder.rows).unwrap();
    let m = &stats.per_model[0];

    assert_eq!(m.usage.prompt_tokens, 7700);
    assert_eq!(m.usage.cached_tokens, 4700);
    assert_eq!(m.distinct_prompt_tokens, Some(4200));

    let hit = cache_hit_rate(m).unwrap();
    assert!((hit - 4700.0 / 7700.0).abs() < 1e-9, "got {hit}");
    assert!(hit > 0.6, "the resends are mostly cache hits");
    assert_eq!(m.usage.uncached_prompt_tokens(), 3000);

    let report = report_of(&stats);
    assert!(report.contains("cache hit rate"));
    assert!(report.contains("distinct tokens"));
}

#[test]
fn unrelated_requests_each_count_in_full() {
    let mut recorder = Log::new();
    recorder.record(rec_chained("m", usage_of(100, 10), "resp_a", None));
    recorder.record(rec_chained("m", usage_of(200, 10), "resp_b", None));
    recorder.record(rec_chained("m", usage_of(300, 10), "resp_c", None));

    let stats = Stats::read(&recorder.rows).unwrap();
    let m = &stats.per_model[0];
    assert_eq!(m.usage.prompt_tokens, 600);
    assert_eq!(m.distinct_prompt_tokens, Some(600), "nothing to dedupe");
    assert_eq!(m.conversations, Some(3));
    assert_eq!(
        m.distinct_prompt_tokens,
        Some(m.usage.prompt_tokens),
        "with nothing resent, distinct equals billed"
    );
}

#[test]
fn two_conversations_are_deduplicated_independently() {
    let mut recorder = Log::new();
    recorder.record(rec_chained("m", usage_of(100, 5), "a1", None));
    recorder.record(rec_chained("m", usage_of(250, 5), "a2", Some("a1")));
    recorder.record(rec_chained("m", usage_of(400, 5), "b1", None));
    recorder.record(rec_chained("m", usage_of(900, 5), "b2", Some("b1")));

    let stats = Stats::read(&recorder.rows).unwrap();
    let m = &stats.per_model[0];
    assert_eq!(m.usage.prompt_tokens, 1650, "billed sum");
    assert_eq!(m.distinct_prompt_tokens, Some(1150));
    assert_eq!(m.conversations, Some(2));
}

#[test]
fn chat_completions_traffic_reports_no_deduplication_rather_than_a_false_one() {
    let mut recorder = Log::new();
    recorder.record(rec_with_usage("m", Outcome::NativeValid, usage_of(100, 10)));
    recorder.record(rec_with_usage("m", Outcome::NativeValid, usage_of(300, 20)));

    let stats = Stats::read(&recorder.rows).unwrap();
    let m = &stats.per_model[0];
    assert_eq!(m.usage.prompt_tokens, 400, "billed is still reported");
    assert_eq!(m.distinct_prompt_tokens, None);
    assert_eq!(m.distinct_tokens(), None);
    assert_eq!(m.conversations, None);
    assert!(!report_of(&stats).contains("distinct tokens"));
}

#[test]
fn a_chain_groups_regardless_of_how_its_ids_happen_to_sort() {
    let mut recorder = Log::new();
    recorder.record(rec_chained("m", usage_of(1000, 10), "zzz_first", None));
    recorder.record(rec_chained("m", usage_of(2500, 20), "mmm_second", Some("zzz_first")));
    recorder.record(rec_chained("m", usage_of(4200, 30), "aaa_third", Some("mmm_second")));

    let stats = Stats::read(&recorder.rows).unwrap();
    let m = &stats.per_model[0];

    assert_eq!(m.usage.prompt_tokens, 7700, "billed is unaffected");
    assert_eq!(
        m.conversations,
        Some(1),
        "lexically-descending ids must not split the chain"
    );
    assert_eq!(m.distinct_prompt_tokens, Some(4200));
}

#[test]
fn a_cycle_in_the_parent_links_terminates_instead_of_hanging() {
    let mut recorder = Log::new();
    recorder.record(rec_chained("m", usage_of(100, 5), "x", Some("y")));
    recorder.record(rec_chained("m", usage_of(200, 5), "y", Some("x")));

    let stats = Stats::read(&recorder.rows).expect("a cycle must not hang or error");
    let m = &stats.per_model[0];
    assert_eq!(m.usage.prompt_tokens, 300);
    assert!(m.distinct_prompt_tokens.is_some());
}

#[test]
fn a_chain_whose_first_turn_was_never_recorded_still_groups() {
    let mut recorder = Log::new();
    recorder.record(rec_chained("m", usage_of(300, 10), "resp_2", Some("resp_missing")));
    recorder.record(rec_chained("m", usage_of(700, 10), "resp_3", Some("resp_2")));

    let stats = Stats::read(&recorder.rows).unwrap();
    let m = &stats.per_model[0];
    assert_eq!(m.usage.prompt_tokens, 1000);
    assert_eq!(m.distinct_prompt_tokens, Some(700));
    assert_eq!(m.conversations, Some(1));
}

#[test]
fn requests_without_a_usage_report_are_left_out_of_the_totals() {
    let mut recorder = Log::new();
    recorder.record(rec_with_usage(
        "m",
        Outcome::NativeValid,
        Usage { prompt_tokens: 50, completion_tokens: 5, cached_tokens: 0, attempts: 1 },
    ));
    recorder.record(rec("m", Outcome::NativeValid));
    recorder.record(rec_with_usage("m", Outcome::NativeValid, Usage::default()));

    let stats = Stats::read(&recorder.rows).unwrap();
    let m = &stats.per_model[0];
    assert_eq!(m.total, 3, "every request is still counted");
    assert_eq!(m.usage_requests, 1, "only one carried a usage report");
    assert_eq!(m.billed_tokens(), 55);
    assert_eq!(calls_per_request(m), Some(1.0));
}

#[test]
fn reading_a_database_older_than_the_current_schema_degrades_instead_of_failing() {
    let old = |id: i64, outcome: &str, fixed: bool, category: Option<&str>| Row {
        id,
        ts: "t".into(),
        provider: None,
        model: "old-model".into(),
        outcome: outcome.into(),
        error_category: category.map(str::to_string),
        parser: None,
        tool_name: None,
        retries: if fixed { 0 } else { 2 },
        fixed,
        detail: None,
        prompt_tokens: None,
        completion_tokens: None,
        cached_tokens: None,
        billed_calls: None,
        response_id: None,
        parent_id: None,
        prefix_chain: None,
        head_hash: None,
    };
    let rows = vec![
        old(1, "native_valid", true, None),
        old(2, "retries_exhausted", false, Some("missing_argument")),
    ];

    let stats = Stats::read(&rows).expect("an old database must still be readable");
    assert_eq!(stats.per_model.len(), 1);
    let m = &stats.per_model[0];
    assert_eq!(m.model, "old-model");
    assert_eq!(m.provider, "unknown", "no provider was recorded back then");
    assert_eq!(m.total, 2);
    assert_eq!(m.errors, 1);
    assert_eq!(m.usage_requests, 0);
    assert_eq!(m.billed_tokens(), 0);
    assert_eq!(stats.errors.len(), 1, "triage list still reads");
    assert!(report_of(&stats).contains("old-model"));
    assert!(Stats::read_rows(&rows, 100).is_empty());
}

#[test]
fn per_request_distributions_are_reported_without_a_conversation_key() {
    let mut recorder = Log::new();
    for _ in 0..9 {
        recorder.record(rec_with_usage("m", Outcome::NativeValid, usage_of(500, 50)));
    }
    recorder.record(rec_with_usage("m", Outcome::NativeValid, usage_of(100_000, 900)));

    let stats = Stats::read(&recorder.rows).unwrap();
    let m = &stats.per_model[0];

    assert_eq!(m.distinct_prompt_tokens, None);
    assert_eq!(m.conversations, None);

    let d = m.prompt_distribution.expect("prompt distribution");
    assert_eq!(d.count, 10);
    assert_eq!(d.min, 500);
    assert_eq!(d.p50, 500, "the median request is small");
    assert_eq!(d.max, 100_000, "and the outlier is visible");
    assert!(d.p50 < 1_000 && d.max > 50_000);

    let c = m.completion_distribution.expect("completion distribution");
    assert_eq!(c.count, 10);
    assert_eq!(c.min, 50);
    assert_eq!(c.max, 900);

    let report = report_of(&stats);
    assert!(report.contains("prompt per request"), "got: {report}");
    assert!(report.contains("completion per request"));
    assert!(!report.contains("distinct tokens"), "still not deduplicated");
}

#[test]
fn percentiles_name_values_that_were_actually_observed() {
    let mut values: Vec<i64> = (1..=100).collect();
    let d = Distribution::of(&mut values).expect("100 values");
    assert_eq!(d.count, 100);
    assert_eq!(d.min, 1);
    assert_eq!(d.p50, 50);
    assert_eq!(d.p90, 90);
    assert_eq!(d.p99, 99);
    assert_eq!(d.max, 100);

    let d = Distribution::of(&mut [42]).expect("one value");
    assert_eq!((d.count, d.min, d.p50, d.p99, d.max), (1, 42, 42, 42, 42));

    let d = Distribution::of(&mut [10, 20]).expect("two values");
    assert_eq!((d.p50, d.p90, d.p99, d.max), (10, 20, 20, 20));

    let d = Distribution::of(&mut [900, 100, 500]).expect("three values");
    assert_eq!((d.min, d.p50, d.max), (100, 500, 900));

    assert_eq!(Distribution::of(&mut []), None);
}

#[test]
fn a_model_without_usage_reports_has_no_distribution() {
    let mut recorder = Log::new();
    recorder.record(rec("m", Outcome::NativeValid));

    let stats = Stats::read(&recorder.rows).unwrap();
    let m = &stats.per_model[0];
    assert_eq!(m.total, 1);
    assert_eq!(m.prompt_distribution, None);
    assert_eq!(m.completion_distribution, None);
    assert!(!report_of(&stats).contains("per request"));
}

#[test]
fn distributions_are_kept_separate_per_provider_and_model() {
    let mut recorder = Log::new();
    for _ in 0..3 {
        recorder.record(OutcomeRecord {
            usage: Some(usage_of(100, 10)),
            ..rec_from("small", "gpt-4o", Outcome::NativeValid)
        });
        recorder.record(OutcomeRecord {
            usage: Some(usage_of(9_000, 800)),
            ..rec_from("large", "gpt-4o", Outcome::NativeValid)
        });
    }

    let stats = Stats::read(&recorder.rows).unwrap();
    let small = stats
        .per_model
        .iter()
        .find(|m| m.provider == "small")
        .expect("small provider");
    let large = stats
        .per_model
        .iter()
        .find(|m| m.provider == "large")
        .expect("large provider");

    assert_eq!(small.prompt_distribution.unwrap().max, 100);
    assert_eq!(large.prompt_distribution.unwrap().min, 9_000);
    assert_eq!(small.prompt_distribution.unwrap().count, 3);
    assert_eq!(large.prompt_distribution.unwrap().count, 3);
}

#[test]
fn raw_rows_are_exposed_newest_first_for_consumers_to_group_themselves() {
    let mut recorder = Log::new();
    recorder.record(rec_with_usage("m", Outcome::NativeValid, usage_of(100, 10)));
    recorder.record(rec_with_usage("m", Outcome::RetriesExhausted, usage_of(200, 20)));
    recorder.record(rec("m", Outcome::NativeValid));

    let rows = Stats::read_rows(&recorder.rows, 100);
    assert_eq!(rows.len(), 2, "the unmeasured request is not served");
    assert_eq!(rows[0].prompt_tokens, 200);
    assert_eq!(rows[0].outcome, "retries_exhausted");
    assert_eq!(rows[1].prompt_tokens, 100);
    assert_eq!(rows[0].provider, "default");
    assert_eq!(rows[0].response_id, None);

    assert_eq!(Stats::read_rows(&recorder.rows, 1).len(), 1);
}

#[test]
fn interleaved_conversations_still_find_their_own_previous_turn() {
    let mut recorder = Log::new();
    let opening = |conv: i64| vec![json(&format!(r#"{{"role": "user", "content": {conv}}}"#))];

    const CONVERSATIONS: i64 = 300;
    for conv in 0..CONVERSATIONS {
        recorder.record(OutcomeRecord {
            usage: Some(usage_of(100, 10)),
            prefix_chain: Some(PrefixChain::of(&opening(conv))),
            ..rec_from("default", "m", Outcome::NativeValid)
        });
    }
    let mut second = opening(0);
    second.push(json(r#"{"role": "assistant", "content": "ok"}"#));
    second.push(json(r#"{"role": "user", "content": "more"}"#));
    recorder.record(OutcomeRecord {
        usage: Some(usage_of(500, 10)),
        prefix_chain: Some(PrefixChain::of(&second)),
        ..rec_from("default", "m", Outcome::NativeValid)
    });

    let parent = &recorder.rows.last().unwrap().parent_id;
    assert!(
        parent.is_some(),
        "the continuing turn must find its opening turn across the interleaving"
    );

    let stats = Stats::read(&recorder.rows).unwrap();
    let m = &stats.per_model[0];
    assert_eq!(
        m.conversations,
        Some(CONVERSATIONS),
        "the two turns of conversation 0 are one conversation, not two"
    );
}

#[test]
fn a_synthetic_id_belongs_to_the_row_that_holds_it() {
    let mut recorder = Log::new();
    for turn in 0..20 {
        let messages = vec![json(&format!(r#"{{"role": "user", "content": {turn}}}"#))];
        recorder.record(OutcomeRecord {
            usage: Some(usage_of(100, 10)),
            prefix_chain: Some(PrefixChain::of(&messages)),
            ..rec_from("default", "m", Outcome::NativeValid)
        });
    }

    let pairs: Vec<(i64, String)> =
        recorder.rows.iter().map(|r| (r.id, r.response_id.clone().unwrap())).collect();
    assert_eq!(pairs.len(), 20);
    for (rowid, id) in &pairs {
        assert!(
            id.ends_with(&format!("-{rowid:x}")),
            "id {id} should carry its own rowid {rowid}"
        );
        assert!(id.starts_with(INFERRED_PREFIX));
    }

    let distinct: std::collections::HashSet<_> = pairs.iter().map(|(_, id)| id).collect();
    assert_eq!(distinct.len(), 20, "ids must be unique");
}

#[test]
fn repeated_identical_transcripts_do_not_explode_the_chain_walk() {
    let mut recorder = Log::new();
    let mut messages = vec![json(r#"{"role": "system", "content": "go"}"#)];
    for turn in 0..10 {
        messages.push(json(&format!(r#"{{"role": "user", "content": {turn}}}"#)));
        for _ in 0..3 {
            recorder.record(OutcomeRecord {
                usage: Some(usage_of(100 * (turn + 1), 10)),
                prefix_chain: Some(PrefixChain::of(&messages)),
                ..rec_from("default", "m", Outcome::NativeValid)
            });
        }
        messages.push(json(r#"{"role": "assistant", "content": "ok"}"#));
    }

    let found: Vec<&String> =
        recorder.rows.iter().filter_map(|r| r.response_id.as_ref()).collect();
    let rows = found.len();
    let ids = found.iter().collect::<std::collections::HashSet<_>>().len();
    assert_eq!(rows, 30);
    assert_eq!(ids, 30, "each row needs its own id, or the walk explodes");

    let stats = Stats::read(&recorder.rows).unwrap();
    let m = &stats.per_model[0];
    assert_eq!(m.conversations, Some(3), "one root per resend of turn 1");
    assert!(
        m.distinct_prompt_tokens.unwrap() < m.usage.prompt_tokens,
        "grouping still removes the resent prefixes"
    );
    assert!(m.inferred_conversations);
}

#[test]
fn a_negative_row_limit_does_not_read_the_whole_history() {
    let mut recorder = Log::new();
    for i in 0..5 {
        recorder.record(rec_with_usage("m", Outcome::NativeValid, usage_of(100 + i, 10)));
    }

    for limit in [-1, -9999, i64::MIN] {
        let rows = Stats::read_rows(&recorder.rows, limit);
        assert_eq!(rows.len(), 1, "limit {limit} must clamp to one row, not five");
    }
    assert_eq!(Stats::read_rows(&recorder.rows, 0).len(), 1);

    assert_eq!(Stats::read_rows(&recorder.rows, MAX_ROWS + 1).len(), 5);
    assert_eq!(Stats::read_rows(&recorder.rows, i64::MAX).len(), 5);
    assert_eq!(Stats::read_rows(&recorder.rows, 3).len(), 3);
    assert_eq!(Stats::read_rows(&recorder.rows, 100).len(), 5);
}

#[test]
fn success_rate_is_none_without_tool_calls() {
    let mut recorder = Log::new();
    recorder.record(rec("text-only", Outcome::PassthroughNoCalls));

    let stats = Stats::read(&recorder.rows).unwrap();
    let m = &stats.per_model[0];
    assert_eq!(m.total, 1);
    assert_eq!(m.tool_calls, 0);
    assert_eq!(success_rate(m), None);
}
