use guardrail::domain::provider::Provider;

#[test]
fn trims_a_trailing_slash_so_targets_do_not_double_up() {
    let provider = Provider::new("p", "http://host:1234/");
    assert_eq!(provider.base_url(), "http://host:1234");
    assert_eq!(
        provider.target("/v1/chat/completions"),
        "http://host:1234/v1/chat/completions"
    );
}

#[test]
fn a_plain_provider_reserves_nothing() {
    let provider = Provider::new("lmstudio", "http://127.0.0.1:1234");
    assert!(!provider.reserves("authorization"));
    assert_eq!(provider.reserved_headers().len(), 0);
}

#[test]
fn a_credentialed_provider_reserves_authorization() {
    let provider = Provider::new("copilot", "https://api.githubcopilot.com").owning_credential();
    assert!(provider.reserves("authorization"));
    assert!(provider.reserves("Authorization"));
    assert!(provider.reserves("AUTHORIZATION"));
}

#[test]
fn reserving_is_case_insensitive_in_both_directions() {
    let provider = Provider::new("p", "http://h").reserving(&["User-Agent", "X-Custom"]);
    assert!(provider.reserves("user-agent"));
    assert!(provider.reserves("USER-AGENT"));
    assert!(provider.reserves("x-custom"));
    assert!(!provider.reserves("x-other"));
}

#[test]
fn reserving_accumulates_rather_than_replacing() {
    let provider = Provider::new("p", "http://h")
        .reserving(&["user-agent"])
        .owning_credential();
    assert!(provider.reserves("user-agent"));
    assert!(provider.reserves("authorization"));
}
