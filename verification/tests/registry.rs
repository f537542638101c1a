use guardrail::domain::provider::Provider;
use guardrail::domain::registry::Registry;

#[test]
fn a_provider_replaces_one_of_the_same_name() {
    let mut providers = vec![
        Provider::new("mlx", "http://127.0.0.1:8000"),
        Provider::new("copilot", "https://api.githubcopilot.com"),
    ];
    Registry::replacing(
        &mut providers,
        Provider::new("copilot", "https://api.githubcopilot.com").unversioned(),
    );

    assert_eq!(providers.len(), 2, "no duplicate entry");
    assert_eq!(providers.iter().filter(|p| p.name() == "copilot").count(), 1);
    let copilot = providers.iter().find(|p| p.name() == "copilot").unwrap();
    assert!(copilot.is_unversioned(), "the constructed provider must win");
    assert_eq!(providers[0].name(), "mlx");
}

fn registry() -> Registry {
    Registry::new(vec![
        Provider::new("lmstudio", "http://127.0.0.1:1234"),
        Provider::new("copilot", "https://api.githubcopilot.com"),
    ])
    .expect("two providers is not empty")
}

#[test]
fn routes_a_model_to_its_provider() {
    let mut registry = registry();
    assert!(registry.route("gpt-4o", "copilot"));
    assert!(registry.route("qwen2.5-7b", "lmstudio"));

    assert_eq!(registry.resolve(Some("gpt-4o")).name(), "copilot");
    assert_eq!(registry.resolve(Some("qwen2.5-7b")).name(), "lmstudio");
}

#[test]
fn an_unknown_model_falls_back_to_the_default() {
    let mut registry = registry();
    registry.route("gpt-4o", "copilot");
    assert_eq!(registry.resolve(Some("never-heard-of-it")).name(), "lmstudio");
}

#[test]
fn an_absent_model_falls_back_to_the_default() {
    assert_eq!(registry().resolve(None).name(), "lmstudio");
}

#[test]
fn the_first_provider_is_the_default() {
    assert_eq!(registry().default_provider().name(), "lmstudio");
}

#[test]
fn a_duplicate_model_id_keeps_the_first_registration() {
    let mut registry = registry();
    assert!(registry.route("gpt-4o", "lmstudio"));
    assert!(
        !registry.route("gpt-4o", "copilot"),
        "the second claim must be refused, not silently applied"
    );
    assert_eq!(registry.resolve(Some("gpt-4o")).name(), "lmstudio");
}

#[test]
fn routing_to_an_unknown_provider_is_refused() {
    let mut registry = registry();
    assert!(!registry.route("gpt-4o", "no-such-provider"));
    assert!(!registry.has_route("gpt-4o"));
}

#[test]
fn a_hidden_model_is_distinguishable_from_an_unknown_one() {
    let mut registry = registry();
    registry.route("gpt-4o", "copilot");
    registry.hide_model("gpt-4o", "copilot");

    assert!(registry.is_hidden("gpt-4o"));
    assert!(!registry.has_route("gpt-4o"));
    assert!(!registry.is_hidden("never-discovered"));
}

#[test]
fn hiding_removes_the_route_so_it_is_not_listed() {
    let mut registry = registry();
    registry.route("gpt-4o", "copilot");
    registry.route("qwen2.5-7b", "lmstudio");
    registry.hide_model("gpt-4o", "copilot");

    let routes: Vec<(&str, &str)> = registry.routes();
    assert_eq!(routes, vec![("qwen2.5-7b", "lmstudio")]);
}

#[test]
fn hiding_on_one_provider_leaves_another_serving_the_same_id() {
    let mut registry = registry();
    registry.hide_model("gpt-4o", "lmstudio");
    assert!(
        registry.route("gpt-4o", "copilot"),
        "the id lmstudio withdrew is free for copilot to claim"
    );

    assert!(!registry.is_hidden("gpt-4o"), "copilot still exposes it");
    assert_eq!(registry.resolve(Some("gpt-4o")).name(), "copilot");
    assert!(registry.hides("lmstudio", "gpt-4o"), "hidden in the listing");
    assert!(!registry.hides("copilot", "gpt-4o"));
}

#[test]
fn hiding_survives_the_other_provider_claiming_first() {
    let mut registry = registry();
    registry.route("gpt-4o", "copilot");
    registry.hide_model("gpt-4o", "lmstudio");

    assert!(registry.has_route("gpt-4o"), "copilot's claim is untouched");
    assert_eq!(registry.resolve(Some("gpt-4o")).name(), "copilot");
    assert!(!registry.is_hidden("gpt-4o"));
}

#[test]
fn an_id_hidden_everywhere_is_refused_rather_than_falling_back() {
    let mut registry = registry();
    registry.hide_model("gpt-4o", "lmstudio");
    registry.hide_model("gpt-4o", "copilot");

    assert!(!registry.has_route("gpt-4o"));
    assert!(registry.is_hidden("gpt-4o"));
}

#[test]
fn hiding_the_only_copy_is_refused_even_from_a_non_hiding_default() {
    let mut registry = registry();
    registry.hide_model("text-embedding-3-small", "copilot");

    assert_eq!(registry.default_provider().name(), "lmstudio");
    assert!(registry.is_hidden("text-embedding-3-small"));
}

#[test]
fn a_provider_qualified_id_reaches_that_provider() {
    let mut registry = registry();
    registry.route("gpt-4o", "lmstudio");

    let (provider, upstream) = registry.resolve_upstream(Some("copilot/gpt-4o"));
    assert_eq!(provider.name(), "copilot");
    assert_eq!(
        upstream,
        Some("gpt-4o"),
        "the qualifier is the proxy's, not the upstream's"
    );
}

#[test]
fn an_unqualified_id_is_sent_on_unchanged() {
    let mut registry = registry();
    registry.route("gpt-4o", "copilot");
    assert_eq!(registry.resolve_upstream(Some("gpt-4o")).1, None);
    assert_eq!(registry.resolve_upstream(None).1, None);
}

#[test]
fn a_model_id_containing_a_slash_is_not_a_qualifier() {
    let mut registry = Registry::new(vec![
        Provider::new("lmstudio", "http://127.0.0.1:1234"),
        Provider::new("lmstudio-community", "http://127.0.0.1:9999"),
    ])
    .unwrap();
    let id = "lmstudio-community/Qwen2.5-Coder-7B-Instruct-GGUF";
    registry.route(id, "lmstudio");

    let (provider, upstream) = registry.resolve_upstream(Some(id));
    assert_eq!(provider.name(), "lmstudio", "the exact route wins");
    assert_eq!(upstream, None, "the id goes upstream whole");
}

#[test]
fn an_unknown_prefix_is_not_treated_as_a_provider() {
    let registry = registry();
    let (provider, upstream) = registry.resolve_upstream(Some("someorg/some-model"));
    assert_eq!(provider.name(), "lmstudio");
    assert_eq!(
        upstream, None,
        "an unrouted id must reach the default provider unchanged"
    );
}

#[test]
fn a_qualifier_does_not_unhide_a_model() {
    let mut registry = registry();
    registry.route("gpt-4o", "copilot");
    registry.hide_model("gpt-4o", "copilot");

    assert!(registry.is_hidden("copilot/gpt-4o"));
    assert!(!registry.is_hidden("copilot/qwen2.5-7b"));
}

#[test]
fn a_qualifier_is_refused_only_on_the_provider_that_hid_it() {
    let mut registry = registry();
    registry.hide_model("gpt-4o", "lmstudio");
    registry.route("gpt-4o", "copilot");

    assert!(registry.is_hidden("lmstudio/gpt-4o"));
    assert!(!registry.is_hidden("copilot/gpt-4o"));
    let (provider, upstream) = registry.resolve_upstream(Some("copilot/gpt-4o"));
    assert_eq!(provider.name(), "copilot");
    assert_eq!(upstream, Some("gpt-4o"));
}

#[test]
fn a_single_provider_registry_serves_everything() {
    let registry = Registry::single(Provider::new("default", "http://127.0.0.1:1234"));
    assert_eq!(registry.len(), 1);
    assert_eq!(registry.resolve(Some("anything")).name(), "default");
    assert_eq!(registry.resolve(None).name(), "default");
}

#[test]
fn an_empty_provider_list_is_rejected() {
    assert!(Registry::new(vec![]).is_none());
}

#[test]
fn routes_are_enumerable_for_reporting() {
    let mut registry = registry();
    registry.route("gpt-4o", "copilot");
    registry.route("qwen2.5-7b", "lmstudio");
    let routes: Vec<(&str, &str)> = registry.routes();
    assert_eq!(
        routes,
        vec![("gpt-4o", "copilot"), ("qwen2.5-7b", "lmstudio")]
    );
}

#[test]
fn a_copy_of_a_registry_goes_its_own_way() {
    let mut first = registry();
    assert!(first.route("gpt-4o", "copilot"));
    first.hide_model("old", "lmstudio");
    let mut copy = first.clone();
    assert_eq!(copy.routes(), first.routes());
    assert_eq!(copy.len(), 2);
    assert!(copy.hides("lmstudio", "old"));

    assert!(copy.route("new", "copilot"));
    copy.hide_model("gpt-4o", "copilot");
    assert!(!first.has_route("new"));
    assert!(!first.hides("copilot", "gpt-4o"));
    assert_eq!(first.resolve(Some("gpt-4o")).name(), "copilot");
}
