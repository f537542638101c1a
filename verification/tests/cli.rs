use guardrail::cli::{AdminAddress, BackendError, Config};
use guardrail::domain::provider::DEFAULT_PROVIDER;

/// The options that these arguments give.
fn config(args: &[&str]) -> Config {
    let mut config = Config {
        backends: Vec::new(),
        max_retries: 2,
        match_conversations: false,
        copilot: false,
        admin_listen: None,
    };
    let mut rest = args.iter();
    while let Some(flag) = rest.next() {
        match *flag {
            "--backend" => {
                let list = rest.next().unwrap();
                config.backends.extend(list.split(',').map(str::to_string));
            }
            "--copilot" => config.copilot = true,
            "--admin-listen" => {
                let text = rest.next().unwrap();
                let host = text.rsplit_once(':').unwrap().0;
                config.admin_listen = Some(AdminAddress {
                    text: text.to_string(),
                    loopback: host == "127.0.0.1" || host == "[::1]",
                });
            }
            other => panic!("unknown option {other}"),
        }
    }
    if config.backends.is_empty() {
        config.backends.push("http://127.0.0.1:1234".to_string());
    }
    config
}

#[test]
fn a_bare_url_is_the_default_provider() {
    let providers = config(&["--backend", "http://127.0.0.1:1234"]).providers().unwrap();
    assert_eq!(providers.len(), 1);
    assert_eq!(providers[0].name(), DEFAULT_PROVIDER);
    assert_eq!(providers[0].base_url(), "http://127.0.0.1:1234");
}

#[test]
fn no_backend_flag_still_yields_the_default() {
    let providers = config(&[]).providers().unwrap();
    assert_eq!(providers.len(), 1);
    assert_eq!(providers[0].base_url(), "http://127.0.0.1:1234");
}

#[test]
fn named_backends_keep_their_order() {
    let providers = config(&[
        "--backend",
        "lmstudio=http://127.0.0.1:1234",
        "--backend",
        "copilot=https://api.githubcopilot.com",
    ])
    .providers()
    .unwrap();

    assert_eq!(providers.len(), 2);
    assert_eq!(providers[0].name(), "lmstudio");
    assert_eq!(providers[1].name(), "copilot");
    assert_eq!(providers[1].base_url(), "https://api.githubcopilot.com");
}

#[test]
fn a_url_containing_equals_survives_parsing() {
    let providers = config(&["--backend", "azure=https://host/openai?api-version=2024-02-01"])
        .providers()
        .unwrap();
    assert_eq!(providers[0].name(), "azure");
    assert_eq!(providers[0].base_url(), "https://host/openai?api-version=2024-02-01");
}

#[test]
fn only_the_first_backend_may_be_anonymous() {
    let error = config(&[
        "--backend",
        "http://127.0.0.1:1234",
        "--backend",
        "https://api.githubcopilot.com",
    ])
    .providers()
    .unwrap_err();
    assert!(error.message().contains("needs a name"), "got: {}", error.message());
}

#[test]
fn duplicate_names_are_rejected() {
    let error = config(&["--backend", "a=http://one", "--backend", "a=http://two"])
        .providers()
        .unwrap_err();
    assert!(error.message().contains("both named"), "got: {}", error.message());
}

#[test]
fn a_named_backend_without_a_url_is_rejected() {
    let error = config(&["--backend", "lmstudio="]).providers().unwrap_err();
    assert!(error.message().contains("no URL"), "got: {}", error.message());
}

#[test]
fn no_backends_at_all_are_rejected() {
    let mut none = config(&[]);
    none.backends.clear();
    assert_eq!(none.providers().unwrap_err(), BackendError::NoBackend);
}

#[test]
fn copilot_refuses_an_admin_server_bound_off_host() {
    let error = config(&["--copilot", "--admin-listen", "0.0.0.0:8081"])
        .check_admin_exposure()
        .unwrap_err();
    assert!(error.contains("loopback"), "got: {error}");
}

#[test]
fn copilot_allows_a_loopback_admin_server() {
    for addr in ["127.0.0.1:8081", "[::1]:8081"] {
        config(&["--copilot", "--admin-listen", addr])
            .check_admin_exposure()
            .expect("loopback must be allowed");
    }
}

#[test]
fn without_copilot_the_admin_bind_is_unconstrained() {
    config(&["--admin-listen", "0.0.0.0:8081"])
        .check_admin_exposure()
        .expect("unchanged without --copilot");
}

#[test]
fn copilot_without_an_admin_server_is_fine() {
    config(&["--copilot"]).check_admin_exposure().unwrap();
}

#[test]
fn the_environment_variable_accepts_a_comma_separated_list() {
    let providers = config(&["--backend", "a=http://one,b=http://two"]).providers().unwrap();
    assert_eq!(providers.len(), 2);
    assert_eq!(providers[0].name(), "a");
    assert_eq!(providers[1].name(), "b");
}

#[test]
fn the_options_reach_the_guardrails() {
    let mut options = config(&[]);
    options.max_retries = 7;
    options.match_conversations = true;
    let guardrails = options.guardrails();
    assert_eq!(guardrails.max_retries, 7);
    assert!(guardrails.match_conversations);
}
