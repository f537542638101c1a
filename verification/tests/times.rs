use guardrail::domain::civil::{civil_from_days, write_date};
use guardrail::domain::clock::{now_rfc3339 as now, rfc3339};
use guardrail::domain::conversation::{
    days_from_civil, epoch_seconds, gap_floor, within_gap, PrefixChain,
};
use guardrail::domain::distribution::{percentile, Distribution};
use guardrail::domain::ledger::{insert, must_reset, synthetic_id};
use guardrail::domain::metrics::{
    DayActivity, NoopRecorder, Outcome, OutcomeRecord, Range, Recorder, Row, Stats, Usage,
};
use guardrail::domain::range::normalize_bound;
use guardrail::domain::report::Ratios;
use guardrail::domain::stats::SumOverflow;
use guardrail::domain::tally::distinct_keys;

fn record(ts: &str, model: &str, outcome: Outcome, prompt: Option<i64>) -> OutcomeRecord {
    OutcomeRecord {
        ts: ts.to_string(),
        provider: "p".to_string(),
        model: model.to_string(),
        outcome,
        error_category: None,
        parser: None,
        tool_name: Some("Edit".to_string()),
        retries: 0,
        detail: None,
        usage: prompt.map(|n| Usage {
            prompt_tokens: n,
            completion_tokens: 1,
            cached_tokens: 0,
            attempts: 1,
        }),
        conversation: None,
        prefix_chain: None,
    }
}

fn rows(list: Vec<OutcomeRecord>) -> Vec<Row> {
    list.iter().enumerate().map(|(i, r)| insert(r, i as i64 + 1)).collect()
}

#[test]
fn instants_are_written_and_read_back() {
    assert_eq!(rfc3339(0, 0), "1970-01-01T00:00:00.000Z");
    assert_eq!(rfc3339(1_787_392_800, 7), "2026-08-22T10:00:00.007Z");
    for secs in [0, 86_399, 951_782_400, 4_102_444_799, 253_402_300_799] {
        assert_eq!(epoch_seconds(&rfc3339(secs, 999)), Some(secs as i64));
    }
    let text = now();
    assert!(text.as_str() > "2020" && text.ends_with('Z'));
}

#[test]
fn instants_sort_as_their_texts_do() {
    let times = [(0, 0), (0, 1), (59, 999), (60, 0), (86_399, 0), (86_400, 0), (31_536_000, 5)];
    for pair in times.windows(2) {
        assert!(rfc3339(pair[0].0, pair[0].1) < rfc3339(pair[1].0, pair[1].1));
    }
}

#[test]
fn dates_before_the_epoch_are_counted_back() {
    assert_eq!(civil_from_days(-1), (1969, 12, 31));
    assert_eq!(civil_from_days(-719_528), (0, 1, 1));
    assert_eq!(days_from_civil(0, 1, 1), -719_528);
    assert_eq!(write_date(33, 4, 5), "0033-04-05");
    assert_eq!(write_date(-7, 12, 31), "-007-12-31");
}

#[test]
fn the_floor_is_two_hours_back() {
    assert_eq!(gap_floor("2026-08-22T01:00:00.000Z"), "2026-08-21T23:00:00.000Z");
    assert_eq!(gap_floor("nonsense"), "");
    assert!(within_gap("2026-08-21T23:00:00.000Z", "2026-08-22T01:00:00.000Z"));
    assert!(!within_gap("2026-08-21T22:59:59.000Z", "2026-08-22T01:00:00.000Z"));
    assert!(within_gap("nonsense", "2026-08-22T01:00:00.000Z"));
}

#[test]
fn a_bound_to_the_second_is_written_to_the_millisecond() {
    assert_eq!(normalize_bound(" 2026-08-05T00:00:00Z "), "2026-08-05T00:00:00.000Z");
    assert_eq!(normalize_bound("2026-08-05"), "2026-08-05");
    assert_eq!(normalize_bound("2026-08-05T10"), "2026-08-05T10");
    assert_eq!(normalize_bound("2026-08-05 00:00:00Z"), "2026-08-05 00:00:00Z");
    let range = Range::parse(Some("2026-08-05T00:00:00Z"), Some("2026-08-06T00:00:00Z"));
    assert!(range.admits("2026-08-05T00:00:00.000Z"));
    assert!(range.admits("2026-08-05T23:59:59.999Z"));
    assert!(!range.admits("2026-08-06T00:00:00.000Z"));
    assert!(!range.is_unbounded());
    assert!(Range::all().is_unbounded() && Range::all().admits(""));
}

#[test]
fn ids_given_to_turns_name_their_row() {
    let chain = PrefixChain::from_hashes(vec![1, 0xabc]);
    assert_eq!(synthetic_id(&chain, 255), "inferred:0000000000000abc-ff");
    assert_eq!(synthetic_id(&chain, -1), "inferred:0000000000000abc-ffffffffffffffff");
    assert_eq!(synthetic_id(&PrefixChain::from_hashes(vec![]), 1), "");
    let mut turn = record("t", "m", Outcome::NativeValid, None);
    turn.prefix_chain = Some(PrefixChain::from_hashes(vec![u64::MAX]));
    assert_eq!(insert(&turn, 1).head_hash, Some(-1));
}

#[test]
fn an_outdated_table_is_given_up() {
    assert!(!must_reset(false, false, false));
    assert!(must_reset(true, false, false));
    assert!(must_reset(true, true, false));
    assert!(!must_reset(true, true, true));
}

#[test]
fn days_are_listed_from_the_latest_back() {
    let list = rows(vec![
        record("2026-08-01T10:00:00.000Z", "m", Outcome::NativeValid, Some(10)),
        record("2026-08-03T10:00:00.000Z", "m", Outcome::RetriesExhausted, Some(20)),
        record("2026-08-03T11:00:00.000Z", "m", Outcome::NativeValid, None),
        record("2026-08-04T00:00:00.000Z", "m", Outcome::NativeValid, Some(40)),
    ]);
    let days = Stats::read_activity(&list, &Range::all(), 30).unwrap();
    let dates: Vec<&str> = days.iter().map(|d| d.date.as_str()).collect();
    assert_eq!(dates, vec!["2026-08-04", "2026-08-03", "2026-08-01"]);
    assert_eq!(
        days[1],
        DayActivity {
            date: "2026-08-03".to_string(),
            requests: 2,
            errors: 1,
            prompt_tokens: 20,
            completion_tokens: 1,
            cached_tokens: 0,
            billed_calls: 1,
            usage_requests: 1,
        }
    );
    assert_eq!(days[1].billed_tokens(), 21);

    let two = Stats::read_activity(&list, &Range::all(), 2).unwrap();
    assert_eq!(two.len(), 2, "the earliest is left out");
    let window = Range::parse(Some("2026-08-01"), Some("2026-08-04"));
    assert_eq!(Stats::read_activity(&list, &window, 30).unwrap().len(), 2);
    assert!(Stats::read_activity(&[], &Range::all(), 30).unwrap().is_empty());
}

#[test]
fn no_day_of_the_window_is_lost() {
    let list = rows(vec![
        record("2026-01-05T10:00:00.000Z", "m", Outcome::NativeValid, Some(10)),
        record("2026-08-22T10:00:00.000Z", "m", Outcome::NativeValid, Some(20)),
    ]);
    let range = Range { since: None, until: Some("2026-02-01".to_string()) };
    let days = Stats::read_activity(&list, &range, 30).unwrap();
    assert_eq!(days.len(), 1);
    assert_eq!(days[0].date, "2026-01-05");
    assert_eq!(days[0].requests, 1);
    assert_eq!(Stats::read_activity(&list, &Range::all(), 30).unwrap().len(), 2);
    assert_eq!(Stats::read_activity(&list, &Range::all(), 1).unwrap()[0].date, "2026-08-22");
}

#[test]
fn only_a_timestamp_is_read_as_one() {
    for text in [
        "2000/01/01 00:00:00",
        "2000-01-01T00:00:00",
        "2000-01-01 00:00:00Z",
        "2000-01-01T00:00:00.00Z",
        "2000-01-01T00:00:00.000",
        "2000-01-01T00:00:00.000Zx",
        "+200-01-01T00:00:00.000Z",
        "2000-01-01T00:00:0aZ",
    ] {
        assert_eq!(epoch_seconds(text), None, "{text}");
    }
    assert_eq!(epoch_seconds("2000-01-01T00:00:01Z"), Some(946_684_801));
    assert_eq!(epoch_seconds("2000-01-01T00:00:01.500Z"), Some(946_684_801));
}

#[test]
fn a_damaged_chain_matches_nothing() {
    assert!(PrefixChain::decode("0000000000000001.zzz").is_empty());
    assert!(PrefixChain::decode("0000000000000001.").is_empty());
    assert_eq!(PrefixChain::decode("0000000000000001.00000000000000ff").hashes(), [1, 255]);
}

#[test]
fn failures_are_grouped_by_how_often_they_occur() {
    let mut rare = record("t", "m", Outcome::RetriesExhausted, None);
    rare.detail = Some("rare".to_string());
    let list = rows(vec![
        record("t", "m", Outcome::RetriesExhausted, None),
        rare,
        record("t", "m", Outcome::RetriesExhausted, None),
        record("t", "m", Outcome::NativeValid, None),
        record("t", "a", Outcome::WriteRefused, None),
    ]);
    let stats = Stats::read(&list).unwrap();
    let found: Vec<(&str, Option<&str>, i64)> = stats
        .errors
        .iter()
        .map(|e| (e.model.as_str(), e.detail.as_deref(), e.count))
        .collect();
    assert_eq!(found, vec![("m", None, 2), ("a", None, 1), ("m", Some("rare"), 1)]);
    let models: Vec<&str> = stats.per_model.iter().map(|m| m.model.as_str()).collect();
    assert_eq!(models, vec!["a", "m"]);
    assert_eq!(
        stats.per_model[1].by_outcome,
        vec![("native_valid".to_string(), 1), ("retries_exhausted".to_string(), 3)]
    );
}

#[test]
fn a_sum_that_does_not_fit_is_an_error() {
    let list = rows(vec![
        record("t", "m", Outcome::NativeValid, Some(i64::MAX)),
        record("t", "m", Outcome::NativeValid, Some(1)),
    ]);
    assert_eq!(Stats::read(&list).err(), Some(SumOverflow));
    assert_eq!(Stats::read_activity(&list, &Range::all(), 30).err(), Some(SumOverflow));
}

#[test]
fn the_report_is_written_line_by_line() {
    let list = rows(vec![
        record("2026-08-01T10:00:00.000Z", "m", Outcome::NativeValid, Some(10)),
        record("2026-08-03T10:00:00.000Z", "m", Outcome::RetriesExhausted, Some(30)),
    ]);
    let stats = Stats::read(&list).unwrap();
    let ratios = vec![Ratios {
        success: Some("50.0%".to_string()),
        cache: None,
        calls: Some("1.00".to_string()),
    }];
    assert_eq!(
        stats.render(&ratios),
        "Requests by provider and model\n\
         ==============================\n\
         \n\
         p / m\n\
         \x20 total: 2  |  tool calls: 2  |  succeeded: 1  |  errors: 1  |  success rate: 50.0%\n\
         \x20   native_valid           1\n\
         \x20   retries_exhausted      1\n\
         \x20 tokens billed: 42  |  prompt: 40 (40 new, 0 cached)  |  completion: 2\n\
         \x20 cache hit rate: n/a  |  backend calls per request: 1.00  |  measured over 2 of 2 requests\n\
         \x20 prompt per request:     min 10 | p50 10 | p90 30 | p99 30 | max 30\n\
         \x20 completion per request: min 1 | p50 1 | p90 1 | p99 1 | max 1\n\
         \n\
         Errors (triage list)\n\
         ====================\n\
         \n\
         \x20 [1x] p / m / ? / Edit\n"
    );
    assert_eq!(Stats::default().render(&[]), "No metrics recorded yet.\n");
}

#[test]
fn values_are_put_in_order_and_ranked() {
    let mut values = [5, 1, 4, 2, 3];
    let d = Distribution::of(&mut values).unwrap();
    assert_eq!(values, [1, 2, 3, 4, 5]);
    assert_eq!(d.p50, 3);
    assert_eq!(percentile(&values, 0), 1);
    assert_eq!(percentile(&values, 20), 1);
    assert_eq!(percentile(&values, 21), 2);
    assert_eq!(percentile(&values, 100), 5);
}

#[test]
fn keys_are_listed_once_and_in_order() {
    let key = |parts: &[&str]| parts.iter().map(|p| p.to_string()).collect::<Vec<String>>();
    let list = vec![key(&["b", "a"]), key(&["a", "z"]), key(&["b", "a"]), key(&["a"])];
    assert_eq!(distinct_keys(&list), vec![key(&["a"]), key(&["a", "z"]), key(&["b", "a"])]);
}

#[test]
fn a_recorder_may_record_nothing() {
    NoopRecorder.record(record("t", "m", Outcome::NativeValid, None));
}
