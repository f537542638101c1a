use guardrail::domain::repetition::{detect, truncated, Repetition};

fn cfg() -> Repetition {
    Repetition::default()
}

#[test]
fn clean_prose_is_not_flagged() {
    let text = "The quick brown fox jumps over the lazy dog. \
                It was a bright cold day in April and the clocks were striking thirteen.";
    assert_eq!(detect(text, &cfg()), None);
}

#[test]
fn repeated_line_is_detected() {
    let text = "Here is my answer.\n".to_string() + &"I cannot help with that.\n".repeat(8);
    let det = detect(&text, &cfg()).expect("loop should be detected");
    assert!(det.repeats >= 4);
    let kept = truncated(&text, &det);
    assert!(kept.starts_with("Here is my answer.\n"));
    assert_eq!(kept.matches("I cannot help with that.").count(), 1);
}

#[test]
fn single_token_runaway_is_detected() {
    let text = "loading the the the the the the the the the the the the ";
    let det = detect(text, &cfg()).expect("token loop should be detected");
    assert_eq!(det.unit_len, 4);
    assert!(det.repeats >= 4);
}

#[test]
fn short_repeat_below_run_length_is_ignored() {
    assert_eq!(detect("value=abababab", &cfg()), None);
}

#[test]
fn horizontal_rule_is_not_flagged() {
    let text = "Section\n".to_string() + &"-".repeat(80);
    assert_eq!(detect(&text, &cfg()), None);
}

#[test]
fn separator_line_run_is_not_flagged() {
    let text = "----\n".repeat(20);
    assert_eq!(detect(&text, &cfg()), None);
}

#[test]
fn single_letter_runaway_is_flagged() {
    let text = format!("hmm {}", "a".repeat(80));
    let det = detect(&text, &cfg()).expect("letter runaway should be detected");
    assert_eq!(det.unit_len, 1);
}

#[test]
fn disabled_config_detects_nothing() {
    let disabled = Repetition {
        min_repeats: 0,
        ..Repetition::default()
    };
    assert!(!disabled.enabled());
    let text = "stuck stuck stuck stuck stuck stuck stuck stuck ";
    assert_eq!(detect(text, &disabled), None);
}

#[test]
fn detects_loop_only_at_the_tail_after_good_content() {
    let good = "First, consider the tradeoffs between latency and throughput. \
                Then weigh the operational cost of each option carefully.\n";
    let text = format!("{good}{}", "no ".repeat(20));
    let det = detect(&text, &cfg()).expect("tail loop should be detected");
    let kept = truncated(&text, &det);
    assert!(kept.starts_with("First, consider"));
    assert!(kept.len() < text.len());
    assert!(kept.matches("no no").count() <= 1);
}

#[test]
fn run_start_and_boundary_are_consistent() {
    let text = format!("prefix {}", "xy".repeat(40));
    let det = detect(&text, &cfg()).unwrap();
    assert_eq!(det.run_start + det.repeats as usize * det.unit_len, text.chars().count());
    assert_eq!(det.keep_boundary(), det.run_start + det.unit_len);
}

#[test]
fn handles_multibyte_characters() {
    let text = "résultat: ".to_string() + &"café café café café café café ".repeat(3);
    let det = detect(&text, &cfg()).expect("unicode loop should be detected");
    let kept = truncated(&text, &det);
    assert!(kept.starts_with("résultat: "));
    assert!(kept.chars().count() < text.chars().count());
}

#[test]
fn empty_and_tiny_text_are_safe() {
    assert_eq!(detect("", &cfg()), None);
    assert_eq!(detect("hello", &cfg()), None);
}
