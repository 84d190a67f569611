use claux::config::{
    apply_project_overrides, load_mcp_json, read_project_overrides, Config, HookTrigger,
    McpJsonConfig, McpJsonServerEntry, ModelProfile, OpenAIProtocol, ProjectOverrides,
    ProviderConfig, ProviderKind, ResolvedModel,
};
use claux::command_sandbox::BashFilesystemPolicy;
use claux::defaults::Defaults;
use claux::model::ModelPricing;
use claux::permissions::PermissionMode;
use claux::sandbox::NativeToolFilesystemPolicy;
use claux::table::Table;
use claux::trust::ProjectTrust;

fn defaults() -> Defaults {
    Defaults {
        model: "sonnet-5".to_string(),
        routed_model: "anthropic/sonnet-5".to_string(),
        instruction_file: "NOTES.md".to_string(),
        instruction_dir: ".notes".to_string(),
    }
}

fn config() -> Config {
    Config::new(&defaults())
}

fn provider(kind: ProviderKind, base_url: Option<&str>) -> ProviderConfig {
    ProviderConfig {
        kind,
        base_url: base_url.map(|u| u.to_string()),
        name: None,
        protocol: OpenAIProtocol::ChatCompletions,
        api_key: None,
        api_key_env: None,
        api_key_cmd: None,
        prompt_caching: false,
        allow_eof_without_finish_reason: false,
    }
}

fn profile(provider: &str, model: &str) -> ModelProfile {
    ModelProfile {
        provider: provider.to_string(),
        model: model.to_string(),
        display_name: None,
        reasoning_effort: None,
        context_window: None,
        pricing: None,
    }
}

fn found(r: Result<ResolvedModel, String>) -> ResolvedModel {
    match r {
        Ok(model) => model,
        Err(error) => panic!("{error}"),
    }
}

fn overrides() -> ProjectOverrides {
    ProjectOverrides {
        model: None,
        permission_mode: None,
        native_tool_filesystem_policy: None,
        bash_filesystem_policy: None,
    }
}

#[test]
fn openai_defaults_to_standard_environment_and_legacy_protocol() {
    let config = config();
    assert_eq!(config.openai_api_key_env, "OPENAI_API_KEY");
    assert_eq!(config.openai_protocol, OpenAIProtocol::ChatCompletions);
    assert_eq!(config.model, "sonnet-5");
}

#[test]
fn available_models_puts_default_first_and_deduplicates() {
    let mut config = config();
    config.model = "primary".to_string();
    config.models = vec![
        "fast".to_string(),
        "primary".to_string(),
        "  review  ".to_string(),
        String::new(),
    ];

    assert_eq!(config.available_models(), vec!["primary", "fast", "review"]);
}

#[test]
fn named_profiles_resolve_across_providers_with_default_first() {
    let mut config = config();
    config.default_profile = Some("sonnet".to_string());
    let mut anthropic = provider(ProviderKind::Anthropic, Some("https://gateway.example/v1"));
    anthropic.api_key_env = Some("ANTHROPIC_TEST_KEY".to_string());
    let mut openrouter = provider(ProviderKind::Openai, Some("https://openrouter.ai/api/v1"));
    openrouter.name = Some("openrouter".to_string());
    openrouter.api_key_env = Some("OPENROUTER_TEST_KEY".to_string());
    openrouter.prompt_caching = true;
    openrouter.allow_eof_without_finish_reason = true;
    config.providers = config
        .providers
        .with("anthropic".to_string(), anthropic)
        .with("openrouter".to_string(), openrouter);
    let mut sonnet = profile("anthropic", "sonnet-model");
    sonnet.display_name = Some("Sonnet".to_string());
    let mut gpt = profile("openrouter", "openai/gpt");
    gpt.display_name = Some("GPT via OpenRouter".to_string());
    config.model_profiles =
        config.model_profiles.with("sonnet".to_string(), sonnet).with("gpt".to_string(), gpt);

    let models = config.selectable_models().ok().unwrap();
    assert_eq!(models[0].binding.profile, "sonnet");
    assert_eq!(models[0].binding.provider_kind, ProviderKind::Anthropic);
    assert_eq!(models[0].binding.base_url.as_deref(), Some("https://gateway.example/v1"));
    assert_eq!(models[1].binding.profile, "gpt");
    assert_eq!(models[1].binding.base_url.as_deref(), Some("https://openrouter.ai/api/v1"));
    assert!(models[1].binding.prompt_caching);
    assert!(models[1].binding.allow_eof_without_finish_reason);
}

#[test]
fn saved_binding_keeps_transport_but_refreshes_credentials() {
    let mut config = config();
    let mut local = provider(ProviderKind::Openai, Some("http://old.invalid/v1"));
    local.api_key = Some("new-secret".to_string());
    config.providers = config.providers.with("local".to_string(), local);
    let mut coder = profile("local", "coder");
    coder.context_window = Some(64_000);
    config.model_profiles = config.model_profiles.with("local".to_string(), coder);

    let mut binding = found(config.resolve_model("local")).binding;
    binding.base_url = Some("http://saved.invalid/v1".to_string());
    let mut changed = provider(ProviderKind::Openai, Some("http://changed.invalid/v1"));
    changed.api_key = Some("new-secret".to_string());
    config.providers = config.providers.with("local".to_string(), changed);
    let mut coder = profile("local", "coder");
    coder.context_window = Some(32_000);
    config.model_profiles = config.model_profiles.with("local".to_string(), coder);

    let restored = config.resolve_binding(&binding);
    assert_eq!(restored.binding.base_url.as_deref(), Some("http://saved.invalid/v1"));
    assert_eq!(restored.api_key.as_deref(), Some("new-secret"));
    assert_eq!(restored.metadata.context_window, 32_000);
    let kept = [
        &binding.profile,
        &binding.display_name,
        &binding.provider,
        &binding.provider_name,
        &binding.model,
        &binding.api_key_env,
    ];
    assert!(kept.iter().all(|text| !text.contains("new-secret")));
}

#[test]
fn duplicate_model_ids_require_profile_name() {
    let mut config = config();
    config.providers = config
        .providers
        .with("a".to_string(), provider(ProviderKind::Anthropic, None))
        .with("b".to_string(), provider(ProviderKind::Anthropic, None));
    config.model_profiles = config
        .model_profiles
        .with("first".to_string(), profile("a", "same"))
        .with("second".to_string(), profile("b", "same"));

    assert!(config.resolve_model("same").is_err());
    assert_eq!(found(config.resolve_model("first")).binding.provider, "a");
}

#[test]
fn hosted_openai_compatible_providers_require_keys() {
    for (name, url) in [
        ("openai", "https://api.openai.com/v1"),
        ("openrouter", "https://openrouter.ai/api/v1"),
    ] {
        let mut config = config();
        config.openai_provider_name = Some(name.to_string());
        config.openai_base_url = Some(url.to_string());
        assert!(config.openai_requires_api_key());
    }

    let mut ollama = config();
    ollama.openai_provider_name = Some("ollama".to_string());
    ollama.openai_base_url = Some("http://localhost:11434/v1".to_string());
    assert!(!ollama.openai_requires_api_key());
}

const CUSTOM: ModelPricing =
    ModelPricing { input: 500_000, output: 1_500_000, cache_read: 50_000, cache_write: 625_000 };

const LEGACY: ModelPricing =
    ModelPricing { input: 800_000, output: 1_800_000, cache_read: 0, cache_write: 0 };

#[test]
fn profile_metadata_overrides_built_ins_and_legacy_pricing() {
    let mut config = config();
    config.providers = config.providers.with(
        "openrouter".to_string(),
        provider(ProviderKind::Openai, Some("https://openrouter.ai/api/v1")),
    );
    config.model_pricing = config.model_pricing.with("sonnet-model".to_string(), LEGACY);
    let mut custom = profile("openrouter", "sonnet-model");
    custom.context_window = Some(64_000);
    custom.pricing = Some(CUSTOM);
    config.model_profiles = config.model_profiles.with("custom".to_string(), custom);

    let resolved = found(config.resolve_model("custom"));
    assert_eq!(resolved.metadata.context_window, 64_000);
    assert_eq!(resolved.metadata.pricing, Some(CUSTOM));
}

#[test]
fn legacy_pricing_combines_with_built_in_context_window() {
    let mut config = config();
    config.model = "sonnet-model".to_string();
    config.model_pricing = config.model_pricing.with("sonnet-model".to_string(), LEGACY);

    let resolved = found(config.resolve_model("sonnet-model"));
    assert_eq!(resolved.metadata.context_window, 200_000);
    assert_eq!(resolved.metadata.pricing.unwrap().input, 800_000);
}

#[test]
fn untrusted_project_permission_can_only_tighten() {
    let mut config = config();
    config.permission_mode = PermissionMode::Default;
    let mut project = overrides();
    project.permission_mode = Some("bypass".to_string());
    project.model = Some("project-model".to_string());

    apply_project_overrides(&mut config, &project, false);

    assert_eq!(config.permission_mode, PermissionMode::Default);
    assert_eq!(config.model, "project-model");

    let mut project = overrides();
    project.permission_mode = Some("plan".to_string());
    apply_project_overrides(&mut config, &project, false);
    assert_eq!(config.permission_mode, PermissionMode::Plan);
}

#[test]
fn untrusted_project_native_tool_policy_can_only_tighten() {
    let mut config = config();
    config.native_tool_filesystem_policy = NativeToolFilesystemPolicy::WorkspaceOnly;
    let mut project = overrides();
    project.native_tool_filesystem_policy = Some("unrestricted".to_string());

    apply_project_overrides(&mut config, &project, false);
    assert_eq!(
        config.native_tool_filesystem_policy,
        NativeToolFilesystemPolicy::WorkspaceOnly
    );

    config.native_tool_filesystem_policy = NativeToolFilesystemPolicy::Unrestricted;
    project.native_tool_filesystem_policy = Some("workspace_only".to_string());
    apply_project_overrides(&mut config, &project, false);
    assert_eq!(
        config.native_tool_filesystem_policy,
        NativeToolFilesystemPolicy::WorkspaceOnly
    );
}

#[test]
fn trusted_project_native_tool_policy_may_loosen() {
    let mut config = config();
    config.native_tool_filesystem_policy = NativeToolFilesystemPolicy::WorkspaceOnly;
    let mut project = overrides();
    project.native_tool_filesystem_policy = Some("unrestricted".to_string());

    apply_project_overrides(&mut config, &project, true);

    assert_eq!(
        config.native_tool_filesystem_policy,
        NativeToolFilesystemPolicy::Unrestricted
    );
}

#[test]
fn untrusted_project_bash_policy_can_only_tighten() {
    let mut config = config();
    config.bash_filesystem_policy = BashFilesystemPolicy::Auto;
    let mut project = overrides();
    project.bash_filesystem_policy = Some("unrestricted".to_string());

    apply_project_overrides(&mut config, &project, false);
    assert_eq!(config.bash_filesystem_policy, BashFilesystemPolicy::Auto);

    project.bash_filesystem_policy = Some("workspace_write".to_string());
    apply_project_overrides(&mut config, &project, false);
    assert_eq!(config.bash_filesystem_policy, BashFilesystemPolicy::WorkspaceWrite);
}

#[test]
fn trusted_project_bash_policy_may_loosen() {
    let mut config = config();
    config.bash_filesystem_policy = BashFilesystemPolicy::WorkspaceWrite;
    let mut project = overrides();
    project.bash_filesystem_policy = Some("unrestricted".to_string());

    apply_project_overrides(&mut config, &project, true);

    assert_eq!(config.bash_filesystem_policy, BashFilesystemPolicy::Unrestricted);
}

#[test]
fn project_model_selects_a_named_profile() {
    let mut config = config();
    config.providers =
        config.providers.with("p".to_string(), provider(ProviderKind::Anthropic, None));
    config.model_profiles = config
        .model_profiles
        .with("fast".to_string(), profile("p", "fast-id"))
        .with("deep".to_string(), profile("p", "deep-id"));
    let mut project = overrides();
    project.model = Some("deep".to_string());

    apply_project_overrides(&mut config, &project, false);

    assert_eq!(config.default_profile.as_deref(), Some("deep"));
}

#[test]
fn trusted_project_permission_may_loosen() {
    let mut config = config();
    config.permission_mode = PermissionMode::Plan;
    let mut project = overrides();
    project.permission_mode = Some("bypass".to_string());

    apply_project_overrides(&mut config, &project, true);

    assert_eq!(config.permission_mode, PermissionMode::Bypass);
}

fn servers(name: &str, command: &str) -> McpJsonConfig {
    McpJsonConfig {
        mcp_servers: Table::new().with(
            name.to_string(),
            McpJsonServerEntry {
                command: command.to_string(),
                args: vec![],
                env: Table::new(),
            },
        ),
    }
}

#[test]
fn untrusted_project_does_not_load_mcp_json() {
    let trust = ProjectTrust::for_test("/work".to_string(), false);

    assert!(load_mcp_json(&trust, Some(servers("evil", "false"))).is_empty());
}

#[test]
fn trusted_project_loads_mcp_json() {
    let trust = ProjectTrust::for_test("/work".to_string(), true);

    let servers = load_mcp_json(&trust, Some(servers("safe", "true")));
    assert_eq!(servers.len(), 1);
    assert_eq!(servers[0].name, "safe");
    assert!(load_mcp_json(&trust, None).is_empty());
}

#[test]
fn is_project_trusted_reflects_resolved_trust() {
    let mut config = config();
    assert!(!config.is_project_trusted());

    config.project_trust = Some(ProjectTrust::for_test(".".to_string(), true));
    assert!(config.is_project_trusted());

    config.project_trust = Some(ProjectTrust::for_test(".".to_string(), false));
    assert!(!config.is_project_trusted());
}

#[test]
fn a_project_asks_for_what_its_configuration_holds() {
    let text = "model = \"m\"\npermission_mode = \"plan\"\nbash_filesystem_policy = 3\n";
    let overrides = read_project_overrides(text).ok().unwrap();
    assert_eq!(overrides.model.as_deref(), Some("m"));
    assert_eq!(overrides.permission_mode.as_deref(), Some("plan"));
    assert_eq!(overrides.native_tool_filesystem_policy, None);
    assert_eq!(overrides.bash_filesystem_policy, None);
    assert!(read_project_overrides("model = ").is_err());
}

#[test]
fn a_key_comes_from_the_config_the_command_the_environment_or_a_login() {
    let mut config = config();
    config.model = "m".to_string();
    let mut resolved = config.resolve_legacy_model("m");
    assert_eq!(
        resolved.resolve_api_key(Some(b"  from-command\n"), Some("from-env"), Some("token")).as_deref(),
        Some("from-env")
    );
    resolved.api_key_cmd = Some("print-key".to_string());
    assert_eq!(resolved.credential_command(), Some("print-key"));
    assert_eq!(
        resolved.resolve_api_key(Some(b"  from-command\n"), Some("from-env"), Some("token")).as_deref(),
        Some("from-command")
    );
    resolved.api_key = Some("configured".to_string());
    assert_eq!(resolved.credential_command(), None);
    assert_eq!(
        resolved.resolve_api_key(Some(b"x"), Some("y"), Some("token")).as_deref(),
        Some("configured")
    );
    resolved.api_key = None;
    resolved.api_key_cmd = None;
    assert_eq!(resolved.resolve_api_key(None, None, Some("token")).as_deref(), Some("token"));
    assert_eq!(resolved.resolve_api_key(None, Some(""), Some("")), None);
    assert_eq!(resolved.resolve_api_key(None, None, None), None);
    resolved.binding.provider_kind = ProviderKind::Openai;
    assert_eq!(resolved.resolve_api_key(None, None, Some("token")), None);
    resolved.binding.provider_kind = ProviderKind::Anthropic;
    assert!(resolved.requires_api_key());
}

#[test]
fn an_unknown_profile_or_provider_is_an_error() {
    let mut config = config();
    config.model_profiles =
        config.model_profiles.with("lost".to_string(), profile("nowhere", "m"));
    assert!(config.resolve_profile("absent").is_err());
    assert!(config.resolve_profile("lost").is_err());
    assert!(config.selectable_models().is_err());
    config.default_profile = Some("absent".to_string());
    assert!(config.default_resolved_model().is_err());
}

#[test]
fn the_table_keeps_one_value_under_each_name() {
    let table: Table<u32> =
        Table::new().with("a".to_string(), 1).with("b".to_string(), 2).with("a".to_string(), 3);
    assert_eq!(table.len(), 2);
    assert_eq!(table.get("a"), Some(&3));
    assert_eq!(table.get("c"), None);
    assert!(table.contains_key("b"));
    assert_eq!(table.keys(), ["a", "b"]);
    assert_eq!(table.into_entries().len(), 2);
}

#[test]
fn hooks_run_when_context_is_built_by_default() {
    assert_eq!(HookTrigger::default(), HookTrigger::OnContextBuild);
}
