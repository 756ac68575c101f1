use quotamiser::config::{
    Bind, Clock, Config, ConfigError, Environment, Ledger, Model, OpenRouterModelSection,
    OpenRouterSection, Pool, Resolved, Safety, Server, Upstream, OPENROUTER_POOL,
};
use quotamiser::epoch::PolicyError;

fn sample() -> Config {
    Config {
        server: Server {
            bind: "127.0.0.1:8787".into(),
        },
        upstream: Upstream {
            base_url: "https://api.openai.com/v1".into(),
            api_key_env: "QM_TEST_KEY".into(),
            admin_key_env: "QM_TEST_ADMIN".into(),
            project: None,
            connect_timeout_seconds: 10,
            read_timeout_seconds: 120,
        },
        ledger: Ledger {
            path: "state/ledger.db".into(),
            external_record_path: "state/external/hwm".into(),
            lock_dir: "state/locks".into(),
            organization: "org-test".into(),
            allow_same_volume_external_record: true,
        },
        clock: Clock::default(),
        safety: Safety::default(),
        openrouter: None,
        pools: vec![Pool {
            id: "openai:small".into(),
            granted_per_day: 2_500_000,
        }],
        models: vec![Model {
            id: "gpt-5.6-terra".into(),
            pool: "openai:small".into(),
            max_output_tokens: 128_000,
            byte_level_encoding_known: false,
        }],
    }
}

fn route() -> OpenRouterSection {
    let model = |id: &str| OpenRouterModelSection {
        id: id.into(),
        function_tools: true,
        custom_tools: false,
        namespace_tools: true,
        structured_outputs: false,
    };
    OpenRouterSection {
        enabled: true,
        base_url: "https://openrouter.ai/api/v1".into(),
        api_key_env: "QM_TEST_OR".into(),
        management_key_env: None,
        daily_request_limit: 50,
        max_requests_per_window: 20,
        window_seconds: 60,
        account_ttl_seconds: 900,
        models: vec![model("nex-agi/nex-n2.5-pro:free"), model("openrouter/free")],
    }
}

const LOOPBACK: Bind = Bind::Address { loopback: true };

fn credentials() -> Environment {
    Environment {
        variables: vec![
            ("QM_TEST_KEY".into(), "sk-test".into()),
            ("QM_TEST_ADMIN".into(), "sk-admin-test".into()),
            ("QM_TEST_OR".into(), "sk-or-test".into()),
            ("QM_TEST_BLANK".into(), " \t".into()),
        ],
    }
}

fn resolve(config: Config) -> Resolved {
    match config.resolve(LOOPBACK, &credentials()) {
        Ok(resolved) => resolved,
        Err(error) => panic!("{}", error.message()),
    }
}

fn refuse(config: Config) -> ConfigError {
    match config.resolve(LOOPBACK, &credentials()) {
        Err(error) => error,
        Ok(_) => panic!("expected the configuration to be refused"),
    }
}

#[test]
fn the_sample_resolves() {
    let resolved = resolve(sample());
    assert_eq!(resolved.upstream.api_key, "sk-test");
    assert_eq!(resolved.admin_key, "sk-admin-test");
    assert_eq!(
        resolved.grants,
        vec![("openai:small".to_string(), 2_500_000)]
    );
    let entry = resolved
        .catalog
        .get("gpt-5.6-terra")
        .expect("in the catalog");
    assert_eq!(entry.pool_id, "openai:small");
    assert_eq!(entry.spec.max_output_tokens, 128_000);
    assert!(
        !entry.spec.byte_level_encoding_known,
        "an unpublished encoding is not assumed"
    );
    assert_eq!(resolved.ledger.pools, vec!["openai:small".to_string()]);
    assert_eq!(resolved.data_sharing_ttl, 900);
    assert_eq!(resolved.safety_budget_divisor, 4);
    assert_eq!(resolved.clock_refresh_seconds, 120);
    assert_eq!(resolved.clock_policy.open_delay(), 300);
}

#[test]
fn a_non_loopback_bind_is_refused() {
    let mut config = sample();
    config.server.bind = "0.0.0.0:8787".into();
    let error = config.resolve(Bind::Address { loopback: false }, &credentials());
    assert!(matches!(error, Err(ConfigError::NotLoopback)));

    let mut config = sample();
    config.server.bind = "here".into();
    let error = config.resolve(Bind::NotAnAddress, &credentials());
    assert!(matches!(error, Err(ConfigError::BadBindAddress(text)) if text == "here"));
}

#[test]
fn a_model_must_name_a_configured_pool() {
    let mut config = sample();
    config.models[0].pool = "openai:large".into();
    assert!(matches!(refuse(config), ConfigError::UnknownPool { .. }));
}

#[test]
fn a_missing_credential_stops_startup() {
    for absent in ["QM_TEST_ABSENT", "QM_TEST_BLANK"] {
        let mut config = sample();
        config.upstream.api_key_env = absent.into();
        assert!(
            matches!(refuse(config), ConfigError::MissingCredential(name) if name == absent)
        );
    }
}

#[test]
fn the_openrouter_route_resolves_with_its_measured_capabilities() {
    let mut config = sample();
    config.openrouter = Some(route());
    let route = resolve(config).openrouter.expect("the route is configured");
    assert_eq!(route.pool_id, OPENROUTER_POOL);
    assert_eq!(route.daily_request_limit, 50);
    assert_eq!(route.window.max_in_window, 20);
    assert_eq!(route.window.window_seconds, 60);
    assert_eq!(route.management_key, None, "BYOK is simply not checked");
    assert_eq!(route.models.len(), 2);
    assert_eq!(route.models[0].id, "nex-agi/nex-n2.5-pro:free");
    assert!(route.models[0].function_tools);
    assert!(
        !route.models[0].custom_tools,
        "custom tools default to unavailable until measured"
    );
    assert!(route.models[0].namespace_tools);
    assert_eq!(
        route.models[1].id, "openrouter/free",
        "the catch-all router comes last"
    );
}

#[test]
fn an_absent_or_disabled_openrouter_route_resolves_to_none() {
    assert!(resolve(sample()).openrouter.is_none());

    let mut off = sample();
    off.openrouter = Some(OpenRouterSection {
        enabled: false,
        ..route()
    });
    assert!(resolve(off).openrouter.is_none());
}

#[test]
fn an_enabled_route_with_no_models_is_refused() {
    let mut config = sample();
    config.openrouter = Some(OpenRouterSection {
        models: vec![],
        ..route()
    });
    assert!(matches!(refuse(config), ConfigError::NoOpenRouterModels));
}

#[test]
fn a_token_pool_may_not_take_the_request_counters_name() {
    let mut config = sample();
    config.pools[0].id = "openrouter:free".into();
    config.models[0].pool = "openrouter:free".into();
    assert!(matches!(refuse(config), ConfigError::PoolNameReserved(_)));
}

#[test]
fn duplicates_are_refused() {
    let mut config = sample();
    config.pools.push(Pool {
        id: "openai:small".into(),
        granted_per_day: 1,
    });
    assert!(matches!(refuse(config), ConfigError::DuplicatePool(_)));

    let mut config = sample();
    config.models.push(Model {
        id: "gpt-5.6-terra".into(),
        pool: "openai:small".into(),
        max_output_tokens: 1,
        byte_level_encoding_known: false,
    });
    assert!(matches!(refuse(config), ConfigError::DuplicateModel(_)));
}

#[test]
fn what_startup_depends_on_must_be_there() {
    let mut config = sample();
    config.models.clear();
    assert!(matches!(refuse(config), ConfigError::Empty));

    let mut config = sample();
    config.models[0].max_output_tokens = 0;
    assert!(matches!(refuse(config), ConfigError::ZeroOutput(_)));

    let mut config = sample();
    config.clock.open_delay_seconds = 299;
    assert!(matches!(
        refuse(config),
        ConfigError::Clock(PolicyError::OpenDelayTooShort)
    ));

    let mut config = sample();
    config.openrouter = Some(OpenRouterSection {
        max_requests_per_window: 0,
        ..route()
    });
    assert!(matches!(
        refuse(config),
        ConfigError::EmptyOpenRouterWindow
    ));
}

#[test]
fn a_management_key_is_read_where_it_is_named() {
    let mut config = sample();
    config.openrouter = Some(OpenRouterSection {
        management_key_env: Some("QM_TEST_ADMIN".into()),
        ..route()
    });
    let route = resolve(config).openrouter.unwrap();
    assert_eq!(route.management_key.as_deref(), Some("sk-admin-test"));
    assert_eq!(route.api_key, "sk-or-test");
}
