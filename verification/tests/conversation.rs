use guardrail::domain::conversation::{epoch_seconds, match_parent, Candidate, PrefixChain};
use guardrail::json::{parse, Json};

fn json(text: &str) -> Json {
    parse(text).expect("valid JSON")
}

fn msg(role: &str, content: &str) -> Json {
    json(&format!(r#"{{"role": "{role}", "content": "{content}"}}"#))
}

fn turns() -> (Vec<Json>, Vec<Json>, Vec<Json>) {
    let t1 = vec![msg("system", "be helpful"), msg("user", "hello")];
    let mut t2 = t1.clone();
    t2.push(msg("assistant", "hi there"));
    t2.push(msg("user", "what is rust"));
    let mut t3 = t2.clone();
    t3.push(msg("assistant", "a language"));
    t3.push(msg("user", "who made it"));
    (t1, t2, t3)
}

#[test]
fn a_later_turn_extends_an_earlier_one() {
    let (t1, t2, t3) = turns();
    let (c1, c2, c3) = (
        PrefixChain::of(&t1),
        PrefixChain::of(&t2),
        PrefixChain::of(&t3),
    );

    assert!(c2.extends(&c1));
    assert!(c3.extends(&c2));
    assert!(c3.extends(&c1), "containment is transitive down the chain");

    assert!(!c1.extends(&c2));
    assert!(!c2.extends(&c3));
}

#[test]
fn an_identical_transcript_does_not_extend_itself() {
    let (t1, _, _) = turns();
    let chain = PrefixChain::of(&t1);
    assert!(!chain.extends(&PrefixChain::of(&t1)));
    assert!(!chain.extends(&chain.clone()));
}

#[test]
fn conversations_sharing_an_opening_stay_separate() {
    let opening = vec![msg("system", "be helpful"), msg("user", "hi")];

    let mut a = opening.clone();
    a.push(msg("assistant", "hello"));
    a.push(msg("user", "tell me about cats"));

    let mut b = opening.clone();
    b.push(msg("assistant", "hello"));
    b.push(msg("user", "tell me about dogs"));

    let (ca, cb) = (PrefixChain::of(&a), PrefixChain::of(&b));
    assert!(!ca.extends(&cb));
    assert!(!cb.extends(&ca));

    let shared = PrefixChain::of(&opening);
    assert!(ca.extends(&shared));
    assert!(cb.extends(&shared));
}

#[test]
fn a_trimmed_history_breaks_the_chain_without_merging_anything() {
    let (_, t2, _) = turns();
    let trimmed: Vec<Json> = t2.iter().skip(2).cloned().collect();
    assert!(!PrefixChain::of(&trimmed).extends(&PrefixChain::of(&t2)));
}

#[test]
fn key_order_does_not_change_the_hash() {
    let a = vec![json(r#"{"role": "user", "content": "hi"}"#)];
    let b = vec![json(r#"{"content": "hi", "role": "user"}"#)];
    assert_eq!(PrefixChain::of(&a), PrefixChain::of(&b));

    let c = vec![json(r#"{"role": "user", "meta": {"a": 1, "b": 2}}"#)];
    let d = vec![json(r#"{"meta": {"b": 2, "a": 1}, "role": "user"}"#)];
    assert_eq!(PrefixChain::of(&c), PrefixChain::of(&d));
}

#[test]
fn differing_content_produces_a_different_chain() {
    let a = vec![msg("user", "hello")];
    let b = vec![msg("user", "hellp")];
    assert_ne!(PrefixChain::of(&a), PrefixChain::of(&b));
    assert_ne!(
        PrefixChain::of(&[msg("user", "x")]),
        PrefixChain::of(&[msg("assistant", "x")])
    );
}

#[test]
fn an_empty_array_matches_nothing() {
    let empty = PrefixChain::of(&[]);
    assert!(empty.is_empty());
    assert_eq!(empty.head(), None);

    let (t1, _, _) = turns();
    let chain = PrefixChain::of(&t1);
    assert!(!chain.extends(&empty), "everything trivially contains empty");
    assert!(!empty.extends(&chain));
}

#[test]
fn a_chain_round_trips_through_storage() {
    let (_, t2, _) = turns();
    let chain = PrefixChain::of(&t2);
    let restored = PrefixChain::decode(&chain.encode());
    assert_eq!(restored, chain);
    assert_eq!(restored.len(), 4);

    assert!(PrefixChain::decode("").is_empty());
    assert!(PrefixChain::decode("zzz.not-hex").is_empty());
}

fn candidate(id: &str, ts: &str, messages: &[Json]) -> Candidate {
    Candidate {
        id: id.into(),
        ts: ts.into(),
        chain: PrefixChain::of(messages),
        prompt_tokens: 0,
        cached_tokens: 0,
    }
}

#[test]
fn the_most_recent_qualifying_candidate_wins() {
    let (t1, t2, t3) = turns();
    let candidates = vec![
        candidate("c1", "2026-08-22T10:00:00.000Z", &t1),
        candidate("c2", "2026-08-22T10:00:05.000Z", &t2),
    ];

    let parent = match_parent(
        &PrefixChain::of(&t3),
        "2026-08-22T10:00:09.000Z",
        &candidates,
    )
    .expect("turn 3 continues turn 2");
    assert_eq!(parent.id, "c2");
}

#[test]
fn a_stale_candidate_is_refused() {
    let (t1, t2, _) = turns();
    let candidates = vec![candidate("old", "2026-08-22T01:00:00.000Z", &t1)];

    assert!(
        match_parent(
            &PrefixChain::of(&t2),
            "2026-08-22T09:00:00.000Z",
            &candidates
        )
        .is_none(),
        "eight hours apart is not one conversation"
    );

    assert!(match_parent(
        &PrefixChain::of(&t2),
        "2026-08-22T02:30:00.000Z",
        &candidates
    )
    .is_some());
}

#[test]
fn an_unrelated_request_finds_no_parent() {
    let (t1, _, _) = turns();
    let candidates = vec![candidate("c1", "2026-08-22T10:00:00.000Z", &t1)];
    let unrelated = vec![msg("system", "different"), msg("user", "unrelated")];

    assert!(match_parent(
        &PrefixChain::of(&unrelated),
        "2026-08-22T10:00:01.000Z",
        &candidates
    )
    .is_none());
}

#[test]
fn parallel_siblings_both_match_the_same_parent() {
    let (t1, _, _) = turns();
    let parent = candidate("p", "2026-08-22T10:00:00.000Z", &t1);

    let mut branch_a = t1.clone();
    branch_a.push(msg("user", "question a"));
    let mut branch_b = t1.clone();
    branch_b.push(msg("user", "question b"));

    let candidates = vec![parent];
    let a = match_parent(
        &PrefixChain::of(&branch_a),
        "2026-08-22T10:00:01.000Z",
        &candidates,
    );
    let b = match_parent(
        &PrefixChain::of(&branch_b),
        "2026-08-22T10:00:01.500Z",
        &candidates,
    );
    assert_eq!(a.map(|c| c.id.as_str()), Some("p"));
    assert_eq!(b.map(|c| c.id.as_str()), Some("p"));
}

#[test]
fn epoch_conversion_matches_known_dates() {
    assert_eq!(epoch_seconds("1970-01-01T00:00:00.000Z"), Some(0));
    assert_eq!(epoch_seconds("2000-01-01T00:00:00.000Z"), Some(946_684_800));
    assert_eq!(epoch_seconds("2026-08-22T10:00:00.000Z"), Some(1_787_392_800));
    assert_eq!(epoch_seconds("2000-01-01T00:00:00Z"), Some(946_684_800));
    assert_eq!(epoch_seconds("nonsense"), None);
    assert_eq!(epoch_seconds(""), None);
}

#[test]
fn an_unparseable_timestamp_does_not_discard_a_containment_match() {
    let (t1, t2, _) = turns();
    let candidates = vec![candidate("c1", "not-a-timestamp", &t1)];
    assert!(match_parent(&PrefixChain::of(&t2), "also-garbage", &candidates).is_some());
}
