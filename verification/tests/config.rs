use guardrail::domain::config::{Config, ProviderConfig};
use guardrail::json::parse;

fn stored(config: &Config) -> Config {
    Config::from_text(&config.to_text()).expect("a configuration")
}

#[test]
fn a_model_with_no_decision_takes_the_default() {
    let provider = ProviderConfig::new("lmstudio", "http://127.0.0.1:1234");
    assert!(provider.exposes("brand-new-model"));
}

#[test]
fn an_explicit_decision_beats_the_default() {
    let mut provider = ProviderConfig::new("lmstudio", "http://127.0.0.1:1234");
    provider.set_exposed("noisy-model", false);
    assert!(!provider.exposes("noisy-model"));
    assert!(provider.exposes("other-model"));
}

#[test]
fn expose_by_default_false_hides_undecided_models() {
    let mut provider = ProviderConfig::new("remote", "https://example.com");
    provider.expose_by_default = false;
    assert!(!provider.exposes("anything"));
    provider.set_exposed("chosen", true);
    assert!(provider.exposes("chosen"));
}

#[test]
fn a_decision_survives_a_model_disappearing_and_returning() {
    let mut provider = ProviderConfig::new("lmstudio", "http://127.0.0.1:1234");
    provider.set_exposed("gone-for-now", false);

    let config = Config { providers: vec![provider] };
    let loaded = stored(&config);
    assert!(!loaded.provider("lmstudio").unwrap().exposes("gone-for-now"));
}

#[test]
fn a_round_trip_preserves_everything() {
    let mut lmstudio = ProviderConfig::new("lmstudio", "http://127.0.0.1:1234");
    lmstudio.set_exposed("a", true);
    lmstudio.set_exposed("b", false);
    let mut copilot = ProviderConfig::new("copilot", "https://api.githubcopilot.com");
    copilot.unversioned = true;
    copilot.enabled = false;

    let config = Config { providers: vec![lmstudio, copilot] };
    assert_eq!(stored(&config), config);
}

#[test]
fn a_malformed_file_is_an_error_rather_than_a_silent_default() {
    for text in [
        r#"3"#,
        r#"{"providers": {}}"#,
        r#"{"providers": [{"name": "p"}]}"#,
        r#"{"providers": [{"name": "p", "base_url": 3}]}"#,
        r#"{"providers": [{"name": "p", "base_url": "http://h", "enabled": "yes"}]}"#,
    ] {
        assert!(Config::from_text(text).is_none(), "{text}");
    }
    assert!(Config::from_text("{ not json").is_none());
}

#[test]
fn a_disabled_provider_keeps_its_model_choices() {
    let mut provider = ProviderConfig::new("remote", "https://example.com");
    provider.set_exposed("kept", false);
    provider.enabled = false;

    let config = Config { providers: vec![provider] };
    assert_eq!(config.enabled_providers().len(), 0);
    assert!(!config.provider("remote").unwrap().exposes("kept"));
}

#[test]
fn fields_absent_from_the_json_take_sensible_defaults() {
    let value = parse(r#"{"providers":[{"name":"p","base_url":"http://h"}]}"#).unwrap();
    let config = Config::from_json(&value).unwrap();
    let provider = config.provider("p").unwrap();
    assert!(provider.enabled);
    assert!(provider.expose_by_default);
    assert!(!provider.unversioned);
    assert!(provider.exposes("anything"));
}

#[test]
fn a_provider_is_changed_in_place() {
    let mut config = Config {
        providers: vec![ProviderConfig::new("a", "http://a"), ProviderConfig::new("b", "http://b")],
    };
    config.provider_mut("b").unwrap().enabled = false;
    assert!(config.provider("a").unwrap().enabled);
    assert!(!config.provider("b").unwrap().enabled);
    assert!(config.provider_mut("c").is_none());
    assert_eq!(config.place("b"), Some(1));
    assert_eq!(config.place("c"), None);
}

#[test]
fn the_stored_text_is_meant_to_be_edited() {
    let config = Config { providers: vec![ProviderConfig::new("p", "http://h")] };
    let text = config.to_text();
    assert!(text.contains("\n  \"providers\": [\n"), "got: {text}");
    assert!(text.contains("\"base_url\": \"http://h\""));
}

#[test]
fn the_stored_text_has_the_fields_in_their_order() {
    assert_eq!(Config::default().to_text(), "{\n  \"providers\": []\n}");

    let mut provider = ProviderConfig::new("p \"1\"", "http://h");
    provider.set_exposed("z", true);
    provider.set_exposed("a", false);
    let config = Config { providers: vec![provider, ProviderConfig::new("q", "http://i")] };
    let text = config.to_text();
    assert_eq!(
        text,
        r#"{
  "providers": [
    {
      "name": "p \"1\"",
      "base_url": "http://h",
      "enabled": true,
      "unversioned": false,
      "models": {
        "a": false,
        "z": true
      },
      "expose_by_default": true
    },
    {
      "name": "q",
      "base_url": "http://i",
      "enabled": true,
      "unversioned": false,
      "models": {},
      "expose_by_default": true
    }
  ]
}"#
    );
    assert_eq!(Config::from_text(&text), Some(config));
}

#[test]
fn a_field_given_twice_is_refused() {
    let name = r#""name": "p", "base_url": "http://h""#;
    for text in [
        r#"{"providers": [], "providers": []}"#.to_string(),
        r#"{"providers": [], "\u0070roviders": []}"#.to_string(),
        format!(r#"{{"providers": [{{{name}, "name": "q"}}]}}"#),
        format!(r#"{{"providers": [{{{name}, "base_url": "http://i"}}]}}"#),
        format!(r#"{{"providers": [{{{name}, "enabled": true, "enabled": true}}]}}"#),
        format!(r#"{{"providers": [{{{name}, "unversioned": true, "unversioned": false}}]}}"#),
        format!(r#"{{"providers": [{{{name}, "models": {{}}, "models": {{}}}}]}}"#),
        format!(r#"[[{{{name}, "expose_by_default": true, "expose_by_default": true}}]]"#),
        format!(r#"{{"providers": [{{{name}, "models": {{"m": 1, "m": true}}}}]}}"#),
        r#"[[["p", "http://h", true, false, {"m": 1, "m": true}]]]"#.to_string(),
    ] {
        assert!(parse(&text).is_some(), "{text}");
        assert!(Config::from_text(&text).is_none(), "{text}");
    }
}

#[test]
fn what_is_not_read_may_be_given_twice() {
    let text = r#"{"note": 1, "note": 2, "providers": [{"name": "p", "base_url": "http://h",
        "note": "name", "note": {"name": 1, "name": 2}, "models": {"m": true, "m": false}}]}"#;
    let config = Config::from_text(text).unwrap();
    assert_eq!(config.providers.len(), 1);
    assert!(!config.providers[0].exposes("m"), "the last decision stands");
}

#[test]
fn a_list_of_fields_stands_for_an_object() {
    assert_eq!(Config::from_text("[]").unwrap().providers.len(), 0);
    let config = Config::from_text(
        r#"[[["p", "http://h"], ["q", "http://i", false, true, {"m": false}, false]]]"#,
    )
    .unwrap();
    assert_eq!(config.providers[0], ProviderConfig::new("p", "http://h"));
    let other = &config.providers[1];
    assert_eq!((other.name.as_str(), other.base_url.as_str()), ("q", "http://i"));
    assert!(!other.enabled && other.unversioned && !other.expose_by_default);
    assert!(other.models.contains_key("m") && !other.exposes("m"));
    for text in [
        r#"[[], []]"#,
        r#"[{}]"#,
        r#"[[["p"]]]"#,
        r#"[[["p", "http://h", null]]]"#,
        r#"[[["p", "http://h", true, false, [], true]]]"#,
        r#"[[["p", "http://h", true, false, {}, true, 0]]]"#,
    ] {
        assert!(parse(text).is_some(), "{text}");
        assert!(Config::from_text(text).is_none(), "{text}");
    }
}
