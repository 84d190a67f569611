use claux::api::types::ImageSource;
use claux::config::{
    Config, HookTrigger, McpServerConfig, ModelProfile, OpenAIProtocol, PluginConfig,
    ProviderConfig, ProviderKind,
};
use claux::defaults::Defaults;
use claux::image_input::{
    check_image, detect_media_type, load_image, load_images, ImageFile, MAX_IMAGE_BYTES,
};
use claux::permissions::PermissionMode;
use claux::plugin::{
    combine_outputs, keep_output, plugin_output, CommandPlugin, PluginRegistry, PluginResult,
    HOOK_OUTPUT_LIMIT, HOOK_TIMEOUT_MS,
};
use claux::shutdown::{classify_one_shot_response, INTERRUPTED_MESSAGE};
use claux::startup::{
    all_servers, build_engine, build_provider, log_filter, parse_permission_mode,
    put_requested_first, session_model, unresolved_session, Provider,
};
use claux::table::Table;
use claux::theme::{default_theme, Color, Theme, ThemeName};

#[test]
fn detects_supported_image_signatures() {
    assert_eq!(detect_media_type(b"\x89PNG\r\n\x1a\nrest"), Some("image/png"));
    assert_eq!(detect_media_type(b"\xff\xd8\xffrest"), Some("image/jpeg"));
    assert_eq!(detect_media_type(b"GIF89arest"), Some("image/gif"));
    assert_eq!(detect_media_type(b"RIFFxxxxWEBPrest"), Some("image/webp"));
    assert_eq!(detect_media_type(b"not an image"), None);
}

fn image(bytes: &[u8]) -> ImageFile {
    ImageFile {
        path: "sample.png".to_string(),
        inspected: Some((true, bytes.len() as u64)),
        bytes: Some(bytes.to_vec()),
    }
}

#[test]
fn loads_and_encodes_an_image() {
    let image = load_image(&image(b"\x89PNG\r\n\x1a\ncontents")).ok().unwrap();
    assert_eq!(image.media_type, "image/png");
    assert_eq!(image.source_type, "base64");
    assert_eq!(image.data, "iVBORw0KGgpjb250ZW50cw==");
}

#[test]
fn images_that_cannot_be_attached_are_refused() {
    assert!(check_image("a", None).is_err());
    assert!(check_image("a", Some((false, 1))).is_err());
    assert!(check_image("a", Some((true, MAX_IMAGE_BYTES + 1))).is_err());
    assert!(check_image("a", Some((true, MAX_IMAGE_BYTES))).is_ok());
    assert!(load_image(&image(b"plain text")).is_err());
    let both: Result<Vec<ImageSource>, String> =
        load_images(&[image(b"GIF87a"), image(b"plain text")]);
    assert!(both.is_err());
    assert_eq!(load_images(&[image(b"GIF87a"), image(b"GIF89a")]).ok().unwrap().len(), 2);
}

#[test]
fn test_plugin_name() {
    let plugin = CommandPlugin::new("my-plugin", "echo", &[], HookTrigger::OnContextBuild);
    assert_eq!(plugin.name(), "my-plugin");
}

#[test]
fn test_plugin_trigger() {
    let plugin = CommandPlugin::new("my-plugin", "echo", &[], HookTrigger::OnToolStart);
    assert_eq!(*plugin.trigger(), HookTrigger::OnToolStart);
}

#[test]
fn test_command_plugin_success() {
    assert_eq!(plugin_output(true, b"hello world\n").as_deref(), Some("hello world"));
}

#[test]
fn test_command_plugin_empty_output() {
    assert!(plugin_output(true, b"\n").is_none());
}

#[test]
fn test_command_plugin_failure() {
    assert!(plugin_output(false, b"text").is_none());
}

#[test]
fn test_plugin_registry_empty() {
    let registry = PluginRegistry::new();
    assert!(registry.is_empty());
    assert_eq!(registry.len(), 0);
    assert!(registry.matching(&HookTrigger::OnContextBuild).is_empty());
    assert!(combine_outputs(&[]).is_empty());
}

fn echo(name: &str, argument: &str, trigger: HookTrigger) -> CommandPlugin {
    CommandPlugin::new(name, "echo", &[argument.to_string()], trigger)
}

/// What the plugins for a trigger give, where each echoes its argument.
fn echoed(registry: &PluginRegistry, trigger: &HookTrigger) -> String {
    let results: Vec<PluginResult> = registry
        .matching(trigger)
        .into_iter()
        .map(|i| {
            let plugin = registry.at(i);
            PluginResult {
                name: plugin.name().to_string(),
                context: plugin_output(true, format!("{}\n", plugin.args()[0]).as_bytes()),
            }
        })
        .collect();
    combine_outputs(&results)
}

#[test]
fn test_plugin_registry_multiple() {
    let mut registry = PluginRegistry::new();
    registry.add(echo("echo1", "first", HookTrigger::OnContextBuild));
    registry.add(echo("echo2", "second", HookTrigger::OnContextBuild));

    assert!(!registry.is_empty());
    assert_eq!(registry.len(), 2);

    let output = echoed(&registry, &HookTrigger::OnContextBuild);
    assert!(output.contains("Plugin: echo1"));
    assert!(output.contains("first"));
    assert!(output.contains("Plugin: echo2"));
    assert!(output.contains("second"));
}

#[test]
fn test_plugin_registry_filter_by_trigger() {
    let mut registry = PluginRegistry::new();
    registry.add(echo("ctx", "context", HookTrigger::OnContextBuild));
    registry.add(echo("tool", "tool", HookTrigger::OnToolStart));

    let ctx_output = echoed(&registry, &HookTrigger::OnContextBuild);
    let tool_output = echoed(&registry, &HookTrigger::OnToolStart);

    assert!(ctx_output.contains("ctx"));
    assert!(!ctx_output.contains("tool"));
    assert!(tool_output.contains("tool"));
    assert!(!tool_output.contains("ctx"));
    assert_eq!(registry.get_by_trigger(&HookTrigger::OnToolStart), 1);
}

#[test]
fn command_plugin_caps_captured_output() {
    let mut output: Vec<u8> = Vec::new();
    for _ in 0..100 {
        keep_output(&mut output, &[b'x'; 1000]);
    }
    assert!(output.len() <= HOOK_OUTPUT_LIMIT);
    assert!(output.len() > HOOK_OUTPUT_LIMIT / 2);
}

#[test]
fn plugins_come_from_the_configuration() {
    let registry = PluginRegistry::from_config(&vec![PluginConfig {
        name: "p".to_string(),
        command: "run".to_string(),
        args: vec!["a".to_string()],
        trigger: HookTrigger::OnTurnEnd,
    }]);
    assert_eq!(registry.len(), 1);
    assert_eq!(registry.at(0).command(), "run");
    assert_eq!(registry.at(0).timeout_ms(), HOOK_TIMEOUT_MS);
    let quick = echo("q", "a", HookTrigger::OnTurnEnd).with_timeout(50);
    assert_eq!(quick.timeout_ms(), 50);
}

#[test]
fn cancelled_one_shot_becomes_an_error_for_transcript_export() {
    let error = classify_one_shot_response(Ok("partial"), true).unwrap_err();
    assert_eq!(error, INTERRUPTED_MESSAGE);
}

#[test]
fn completed_one_shot_preserves_its_result() {
    assert_eq!(classify_one_shot_response(Ok("complete"), false).unwrap(), "complete");
}

#[test]
fn ordinary_errors_are_preserved() {
    let error = classify_one_shot_response::<()>(Err("provider failed".to_string()), false)
        .unwrap_err();
    assert_eq!(error, "provider failed");
}

#[test]
fn test_dark_theme_colors() {
    let theme = Theme::dark();
    assert_eq!(theme.fg, Color::Rgb(213, 196, 161));
    assert_eq!(theme.bg, Color::Rgb(40, 40, 40));
    assert_eq!(theme.success, Color::Rgb(184, 187, 38));
}

#[test]
fn test_light_theme_colors() {
    let theme = Theme::light();
    assert_eq!(theme.fg, Color::Rgb(60, 60, 60));
    assert_eq!(theme.bg, Color::Rgb(250, 250, 250));
    assert_eq!(theme.success, Color::Rgb(84, 128, 0));
}

#[test]
fn test_theme_from_name() {
    assert_eq!(Theme::from_name(ThemeName::Dark), Theme::dark());
    assert_eq!(Theme::from_name(ThemeName::Light), Theme::light());
    assert_eq!(Theme::from_name(ThemeName::Ansi), Theme::ansi());
    assert_eq!(default_theme(), Theme::dark());
}

#[test]
fn permission_modes_are_read_from_the_command_line() {
    assert_eq!(parse_permission_mode("plan"), Ok(PermissionMode::Plan));
    assert_eq!(parse_permission_mode("bypass"), Ok(PermissionMode::Bypass));
    assert_eq!(
        parse_permission_mode("y\"o").unwrap_err(),
        "Invalid permission mode \"y\\\"o\"; expected default, accept-edits, bypass, or plan"
    );
    assert_ne!(log_filter(true, false), log_filter(false, false));
    assert_ne!(log_filter(false, true), log_filter(false, false));
}

fn config() -> Config {
    let mut config = Config::new(&Defaults {
        model: "sonnet-5".to_string(),
        routed_model: "anthropic/sonnet-5".to_string(),
        instruction_file: "NOTES.md".to_string(),
        instruction_dir: ".notes".to_string(),
    });
    let provider = |kind: ProviderKind, protocol: OpenAIProtocol| ProviderConfig {
        kind,
        base_url: Some("https://api.example/v1".to_string()),
        name: None,
        protocol,
        api_key: None,
        api_key_env: None,
        api_key_cmd: None,
        prompt_caching: false,
        allow_eof_without_finish_reason: false,
    };
    config.providers = config
        .providers
        .with("a".to_string(), provider(ProviderKind::Anthropic, OpenAIProtocol::ChatCompletions))
        .with("b".to_string(), provider(ProviderKind::Openai, OpenAIProtocol::ChatCompletions))
        .with("c".to_string(), provider(ProviderKind::Openai, OpenAIProtocol::Responses));
    for name in ["a", "b", "c"] {
        config.model_profiles = config.model_profiles.with(
            name.to_string(),
            ModelProfile {
                provider: name.to_string(),
                model: format!("model-{name}"),
                display_name: None,
                reasoning_effort: None,
                context_window: None,
                pricing: None,
            },
        );
    }
    config
}

#[test]
fn every_protocol_gets_its_provider() {
    let config = config();
    let built = |name: &str| {
        build_provider(&config.resolve_model(name).ok().unwrap(), "key", None).ok().unwrap()
    };
    assert!(matches!(built("a"), Provider::Anthropic(p)
        if p.api_url == "https://api.example/v1/messages"));
    assert!(matches!(built("b"), Provider::ChatCompletions(p) if p.model == "model-b"));
    assert!(matches!(built("c"), Provider::Responses(_)));
}

#[test]
fn the_requested_model_comes_first() {
    let config = config();
    let models = config.selectable_models().ok().unwrap();
    let requested = config.resolve_model("c").ok().unwrap();
    let ordered = put_requested_first(&models, "c", &requested);
    assert_eq!(ordered[0].binding.profile, "c");
    assert_eq!(ordered.len(), 3);
    assert!(unresolved_session("s1", "gone", "why").contains("gone"));
}

#[test]
fn configured_servers_come_before_those_of_the_project() {
    let server = |name: &str| McpServerConfig {
        name: name.to_string(),
        command: "run".to_string(),
        args: vec![],
        env: Table::new(),
    };
    let all = all_servers(vec![server("mine")], vec![server("theirs")]);
    assert_eq!(all.iter().map(|s| s.name.as_str()).collect::<Vec<_>>(), ["mine", "theirs"]);
}

#[test]
fn an_engine_takes_its_limits_from_the_configuration() {
    let mut config = config();
    config.max_tokens = 0;
    config.permission_mode = PermissionMode::Plan;
    let resolved = config.resolve_model("a").ok().unwrap();
    let engine = build_engine(&config, &resolved, resolved.metadata);
    assert_eq!(engine.max_tokens(), 1);
    assert_eq!(engine.model(), "model-a");
    assert_eq!(engine.model_binding().unwrap().profile, "a");
    assert_eq!(engine.message_count(), 0);
}

#[test]
fn a_session_goes_on_with_its_model() {
    let config = config();
    let bound = config.resolve_model("b").ok().unwrap().binding;
    let restored = session_model(&config, Some(&bound), "ignored").ok().unwrap();
    assert_eq!(restored.binding.profile, "b");
    assert_eq!(session_model(&config, None, "model-c").ok().unwrap().binding.profile, "c");
    assert!(session_model(&config, None, "gone").is_err());
}

#[test]
fn a_login_serves_where_there_is_no_key() {
    let config = config();
    let resolved = config.resolve_model("a").ok().unwrap();
    match build_provider(&resolved, "", Some("token")).ok().unwrap() {
        Provider::Anthropic(p) => {
            let headers = p.request_headers();
            assert!(headers.contains(&("Authorization".to_string(), "Bearer token".to_string())));
            assert_eq!(p.api_url, "https://api.example/v1/messages");
        }
        _ => panic!("an Anthropic model takes the Anthropic API"),
    }
    match build_provider(&resolved, "key", Some("token")).ok().unwrap() {
        Provider::Anthropic(p) => {
            assert!(p.request_headers().contains(&("x-api-key".to_string(), "key".to_string())));
        }
        _ => panic!("an Anthropic model takes the Anthropic API"),
    }
    assert!(build_provider(&resolved, "", Some("")).is_err());
    assert!(build_provider(&resolved, "", None).is_err());
}

#[test]
fn requests_carry_the_key() {
    let config = config();
    let headers = |name: &str| {
        match build_provider(&config.resolve_model(name).ok().unwrap(), "key", None).ok().unwrap() {
            Provider::Anthropic(p) => p.request_headers(),
            Provider::ChatCompletions(p) => p.request_headers(),
            Provider::Responses(p) => p.request_headers(),
        }
    };
    assert!(headers("a").contains(&("x-api-key".to_string(), "key".to_string())));
    assert!(headers("b").contains(&("Authorization".to_string(), "Bearer key".to_string())));
    assert!(headers("c").contains(&("Authorization".to_string(), "Bearer key".to_string())));
}
