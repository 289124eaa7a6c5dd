use that_tools::channels::{
    finish_plan, http_settings, required, telegram_settings, AdapterConfig, AdapterSettings,
    AdapterType, ChannelBuildError, ChannelBuildMode, ChannelConfig, ChannelFactory,
    ChannelFactoryRegistry, RouterPlan,
};
use that_tools::json::{JsonNumber, JsonValue};

type Factory = fn(&AdapterConfig, &str) -> String;

fn base_adapter(ty: &str) -> AdapterConfig {
    AdapterConfig {
        id: None,
        adapter_type: AdapterType::new(ty),
        enabled: true,
        bot_token: None,
        chat_id: None,
        allowed_chats: Vec::new(),
        allowed_senders: Vec::new(),
        extra: Vec::new(),
    }
}

fn telegram(id: Option<&str>, token: &str, chat: &str) -> AdapterConfig {
    let mut a = base_adapter(AdapterType::TELEGRAM);
    a.id = id.map(String::from);
    a.bot_token = Some(token.into());
    a.chat_id = Some(chat.into());
    a
}

fn channel_ids(plan: &RouterPlan) -> String {
    plan.channels.iter().map(|c| c.id.clone()).collect::<Vec<_>>().join(",")
}

/// Builds every planned channel the way the registry's factories would, and
/// finishes the plan: the ids of the built channels and the primary index.
fn build<F: Fn(&AdapterConfig, &str) -> String>(
    registry: &ChannelFactoryRegistry<F>,
    config: &ChannelConfig,
    mode: ChannelBuildMode,
) -> Result<(Vec<String>, usize), String> {
    let plan = registry.plan_router(config, mode);
    let mut built = Vec::new();
    for c in &plan.channels {
        let cfg = &config.adapters[c.config_index];
        let factory = registry.get(cfg.adapter_type.as_str()).unwrap();
        match factory.builtin_settings(cfg, &c.id) {
            Some(Ok(AdapterSettings::Telegram(t))) => built.push(t.id),
            Some(Ok(AdapterSettings::Http(h))) => built.push(h.id),
            Some(Err(e)) => return Err(e.message()),
            None => match factory {
                ChannelFactory::Custom(f) => built.push(f(cfg, &c.id)),
                _ => unreachable!(),
            },
        }
    }
    match finish_plan(&plan, mode) {
        Ok(primary) => Ok((built, primary)),
        Err(e) => Err(e.message()),
    }
}

#[test]
fn builds_primary_by_id() {
    let a1 = telegram(Some("main"), "token-1", "chat-1");
    let a2 = telegram(Some("ops"), "token-2", "chat-2");
    let config = ChannelConfig { primary: Some("ops".into()), adapters: vec![a1, a2] };

    let registry: ChannelFactoryRegistry<Factory> = ChannelFactoryRegistry::with_builtin_adapters();
    let (ids, primary) = build(&registry, &config, ChannelBuildMode::Headless).unwrap();
    assert_eq!(ids[primary], "ops");
}

#[test]
fn auto_suffixes_duplicate_ids() {
    let a1 = telegram(None, "token-1", "chat-1");
    let a2 = telegram(None, "token-2", "chat-2");
    let config = ChannelConfig { primary: None, adapters: vec![a1, a2] };

    let registry: ChannelFactoryRegistry<Factory> = ChannelFactoryRegistry::with_builtin_adapters();
    let plan = registry.plan_router(&config, ChannelBuildMode::Headless);
    assert_eq!(channel_ids(&plan), "telegram,telegram-2");
    let (ids, _) = build(&registry, &config, ChannelBuildMode::Headless).unwrap();
    assert_eq!(ids.join(","), "telegram,telegram-2");
}

#[test]
fn headless_skips_tui() {
    let config = ChannelConfig { primary: Some("tui".into()), adapters: vec![base_adapter(AdapterType::TUI)] };
    let registry: ChannelFactoryRegistry<Factory> = ChannelFactoryRegistry::with_builtin_adapters();
    match build(&registry, &config, ChannelBuildMode::Headless) {
        Ok(_) => panic!("expected headless build to fail when only tui adapters are enabled"),
        Err(err) => assert!(err.contains("No enabled channels configured")),
    }
}

#[test]
fn supports_custom_factory_registration() {
    let adapter = base_adapter("mock");
    let config = ChannelConfig { primary: Some("mock".into()), adapters: vec![adapter] };

    let registry = ChannelFactoryRegistry::new()
        .register("mock", |cfg: &AdapterConfig, id: &str| cfg.id.clone().unwrap_or_else(|| id.to_string()));
    let (ids, primary) = build(&registry, &config, ChannelBuildMode::All).unwrap();
    assert_eq!(ids.join(","), "mock");
    assert_eq!(primary, 0);
}

#[test]
fn builtin_registry_knows_telegram_and_http_only() {
    let registry: ChannelFactoryRegistry<Factory> = ChannelFactoryRegistry::with_builtin_adapters();
    assert!(registry.contains("telegram"));
    assert!(registry.contains("http"));
    assert!(!registry.contains("tui"));
    assert!(matches!(registry.get("telegram"), Some(ChannelFactory::Telegram)));
    assert!(matches!(registry.get("http"), Some(ChannelFactory::Http)));
    assert!(registry.get("mock").is_none());
}

#[test]
fn default_registry_is_empty() {
    let registry: ChannelFactoryRegistry<Factory> = ChannelFactoryRegistry::default();
    assert!(!registry.contains("telegram"));
    assert!(!registry.contains("http"));
}

#[test]
fn registering_again_replaces_the_factory() {
    fn first(_: &AdapterConfig, _: &str) -> String {
        "first".to_string()
    }
    fn second(_: &AdapterConfig, _: &str) -> String {
        "second".to_string()
    }
    let mut registry: ChannelFactoryRegistry<Factory> = ChannelFactoryRegistry::with_builtin_adapters();
    registry.register_mut("mock", first).register_mut("mock", second);
    registry.register_mut("telegram", first);
    let cfg = base_adapter("mock");
    match registry.get("mock") {
        Some(ChannelFactory::Custom(f)) => assert_eq!(f(&cfg, "x"), "second"),
        _ => panic!("mock should be registered"),
    }
    match registry.get("telegram") {
        Some(ChannelFactory::Custom(f)) => assert_eq!(f(&cfg, "x"), "first"),
        _ => panic!("telegram should be replaced"),
    }
    assert!(matches!(registry.get("http"), Some(ChannelFactory::Http)));
}

#[test]
fn missing_factory_stops_the_plan_there() {
    let mut unknown = base_adapter("sms");
    unknown.id = Some("text".into());
    let config = ChannelConfig {
        primary: None,
        adapters: vec![telegram(None, "t", "c"), unknown, telegram(Some("later"), "t", "c")],
    };
    let registry: ChannelFactoryRegistry<Factory> = ChannelFactoryRegistry::with_builtin_adapters();
    let plan = registry.plan_router(&config, ChannelBuildMode::All);
    assert_eq!(channel_ids(&plan), "telegram");
    assert_eq!(plan.missing_factory.as_deref(), Some("sms"));
    let err = build(&registry, &config, ChannelBuildMode::All).unwrap_err();
    assert_eq!(
        err,
        "No channel factory registered for adapter type 'sms'. Register one via ChannelFactoryRegistry::register[_mut]()."
    );
}

#[test]
fn disabled_and_tui_adapters_are_left_out() {
    let mut off = telegram(Some("off"), "t", "c");
    off.enabled = false;
    let tui = base_adapter(AdapterType::TUI);
    let config = ChannelConfig {
        primary: Some("  ".into()),
        adapters: vec![off, tui, telegram(Some(" bot "), "t", "c")],
    };
    let mut registry: ChannelFactoryRegistry<Factory> = ChannelFactoryRegistry::with_builtin_adapters();
    fn tui_factory(_: &AdapterConfig, id: &str) -> String {
        id.to_string()
    }
    registry.register_mut(AdapterType::TUI, tui_factory);
    let headless = registry.plan_router(&config, ChannelBuildMode::Headless);
    assert_eq!(channel_ids(&headless), "bot");
    assert_eq!(headless.channels[0].config_index, 2);
    let all = registry.plan_router(&config, ChannelBuildMode::All);
    assert_eq!(channel_ids(&all), "tui,bot");
    assert_eq!(all.primary_idx, 0);
}

#[test]
fn primary_matches_id_base_id_or_type_and_last_match_wins() {
    let config = ChannelConfig {
        primary: Some(" telegram ".into()),
        adapters: vec![telegram(None, "t", "c"), telegram(Some("ops"), "t", "c"), telegram(None, "t", "c")],
    };
    let registry: ChannelFactoryRegistry<Factory> = ChannelFactoryRegistry::with_builtin_adapters();
    let plan = registry.plan_router(&config, ChannelBuildMode::All);
    assert_eq!(channel_ids(&plan), "telegram,ops,telegram-2");
    assert_eq!(plan.primary_idx, 2);
    let by_suffixed = ChannelConfig { primary: Some("telegram-2".into()), adapters: config.adapters };
    let plan2 = registry.plan_router(&by_suffixed, ChannelBuildMode::All);
    assert_eq!(plan2.primary_idx, 2);
}

#[test]
fn suffixes_count_occurrences_of_each_base_id() {
    let config = ChannelConfig {
        primary: None,
        adapters: vec![
            telegram(Some("a"), "t", "c"),
            telegram(Some("b"), "t", "c"),
            telegram(Some("a"), "t", "c"),
            telegram(Some("a"), "t", "c"),
            telegram(Some("b"), "t", "c"),
        ],
    };
    let registry: ChannelFactoryRegistry<Factory> = ChannelFactoryRegistry::with_builtin_adapters();
    let plan = registry.plan_router(&config, ChannelBuildMode::All);
    assert_eq!(channel_ids(&plan), "a,b,a-2,a-3,b-2");
}

#[test]
fn a_base_id_that_looks_suffixed_can_meet_a_suffixed_id() {
    // The second "a" becomes "a-2"; an adapter that asks for "a-2" keeps it.
    let config = ChannelConfig {
        primary: None,
        adapters: vec![telegram(Some("a"), "t", "c"), telegram(Some("a"), "t", "c"), telegram(Some("a-2"), "t", "c")],
    };
    let registry: ChannelFactoryRegistry<Factory> = ChannelFactoryRegistry::with_builtin_adapters();
    let plan = registry.plan_router(&config, ChannelBuildMode::All);
    assert_eq!(channel_ids(&plan), "a,a-2,a-2");
}

#[test]
fn a_failing_builtin_adapter_fails_the_build() {
    let config = ChannelConfig {
        primary: None,
        adapters: vec![telegram(None, "t", "c"), telegram(Some("ops"), "token", "  ")],
    };
    let registry: ChannelFactoryRegistry<Factory> = ChannelFactoryRegistry::with_builtin_adapters();
    assert_eq!(
        build(&registry, &config, ChannelBuildMode::Headless).unwrap_err(),
        "telegram adapter: chat_id is required"
    );
}

#[test]
fn no_channels_error_names_the_mode() {
    let config = ChannelConfig { primary: None, adapters: vec![] };
    let registry: ChannelFactoryRegistry<Factory> = ChannelFactoryRegistry::new();
    let plan = registry.plan_router(&config, ChannelBuildMode::All);
    match finish_plan(&plan, ChannelBuildMode::All) {
        Err(e) => assert_eq!(
            e.message(),
            "No enabled channels configured for mode All. Add channel adapters under [channels] in the agent config."
        ),
        Ok(_) => panic!("nothing to build"),
    }
}

#[test]
fn required_trims_and_rejects_blank_values() {
    assert_eq!(required(&Some("  tok ".into()), "telegram", "bot_token").unwrap(), "tok");
    for v in [None, Some(String::new()), Some(" \t".to_string())] {
        let e = required(&v, "telegram", "bot_token").unwrap_err();
        assert!(matches!(e, ChannelBuildError::MissingField { .. }));
        assert_eq!(e.message(), "telegram adapter: bot_token is required");
    }
}

#[test]
fn telegram_settings_need_token_then_chat() {
    let mut cfg = telegram(None, " token ", " chat ");
    cfg.allowed_chats = vec!["1".into(), "2".into()];
    cfg.allowed_senders = vec!["me".into()];
    let t = telegram_settings(&cfg, "telegram-2").unwrap();
    assert_eq!(t.id, "telegram-2");
    assert_eq!(t.bot_token, "token");
    assert_eq!(t.chat_id, "chat");
    assert_eq!(t.allowed_chats, vec!["1".to_string(), "2".to_string()]);
    assert_eq!(t.allowed_senders, vec!["me".to_string()]);
    let mut no_token = cfg;
    no_token.bot_token = None;
    no_token.chat_id = None;
    assert_eq!(
        telegram_settings(&no_token, "x").unwrap_err().message(),
        "telegram adapter: bot_token is required"
    );
    let no_chat = telegram(None, "t", " ");
    assert_eq!(telegram_settings(&no_chat, "x").unwrap_err().message(), "telegram adapter: chat_id is required");
}

#[test]
fn http_settings_read_extra_values_with_defaults() {
    let cfg = base_adapter(AdapterType::HTTP);
    let h = http_settings(&cfg, "http");
    assert_eq!(h.id, "http");
    assert_eq!(h.bind_addr, "0.0.0.0:8080");
    assert_eq!(h.auth_token, None);
    assert_eq!(h.request_timeout_secs, 300);

    let mut cfg2 = base_adapter(AdapterType::HTTP);
    cfg2.extra = vec![
        ("bind_addr".to_string(), JsonValue::String("127.0.0.1:9000".to_string())),
        ("auth_token".to_string(), JsonValue::String("s3".to_string())),
        ("request_timeout_secs".to_string(), JsonValue::Number(JsonNumber::PosInt(12))),
    ];
    let h2 = http_settings(&cfg2, "api");
    assert_eq!(h2.bind_addr, "127.0.0.1:9000");
    assert_eq!(h2.auth_token.as_deref(), Some("s3"));
    assert_eq!(h2.request_timeout_secs, 12);

    let mut cfg3 = base_adapter(AdapterType::HTTP);
    cfg3.extra = vec![
        ("bind_addr".to_string(), JsonValue::Number(JsonNumber::PosInt(1))),
        ("auth_token".to_string(), JsonValue::Bool(true)),
        ("request_timeout_secs".to_string(), JsonValue::Number(JsonNumber::NegInt(-5))),
    ];
    let h3 = http_settings(&cfg3, "api");
    assert_eq!(h3.bind_addr, "0.0.0.0:8080");
    assert_eq!(h3.auth_token, None);
    assert_eq!(h3.request_timeout_secs, 300);
}

#[test]
fn base_id_prefers_a_trimmed_explicit_id() {
    let mut a = base_adapter("telegram");
    assert_eq!(a.base_id(), "telegram");
    a.id = Some("  ".into());
    assert_eq!(a.base_id(), "telegram");
    a.id = Some(" ops ".into());
    assert_eq!(a.base_id(), "ops");
    assert!(AdapterType::new("tui").is_tui());
    assert!(!AdapterType::new("telegram").is_tui());
}

#[test]
fn extra_value_finds_a_setting() {
    let mut a = base_adapter("http");
    a.extra = vec![("k".to_string(), JsonValue::Bool(true))];
    assert!(matches!(a.extra_value("k"), Some(JsonValue::Bool(true))));
    assert!(a.extra_value("missing").is_none());
}
