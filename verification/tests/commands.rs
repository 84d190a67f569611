use claux::commands::{
    answer_theme, commands, complete, execute_theme, format_model_choices, help_text,
    image_attached, list_resumable, parse_command, refusal, AsyncCommand, CommandResult,
    SessionDetails, SessionEntry, Surface,
};
use claux::config::{Config, ModelProfile, OpenAIProtocol, ProviderConfig, ProviderKind};
use claux::defaults::Defaults;

#[test]
fn non_command_returns_none() {
    assert!(parse_command("hello world", Surface::Tui).is_none());
}

#[test]
fn home_is_completable_in_the_tui() {
    let names: Vec<_> = complete("/h", Surface::Tui).iter().map(|c| c.name).collect();
    assert!(names.contains(&"/home"), "got {names:?}");
}

#[test]
fn home_is_hidden_from_the_repl() {
    let names: Vec<_> = complete("/h", Surface::Repl).iter().map(|c| c.name).collect();
    assert!(!names.contains(&"/home"), "REPL has no home screen");
    assert!(names.contains(&"/help"), "other matches still offered");
}

#[test]
fn home_in_the_repl_explains_itself() {
    let Some(CommandResult::Text(text)) = parse_command("/home", Surface::Tui) else {
        panic!("expected explanatory text");
    };
    assert!(text.contains("full-screen TUI"), "got {text}");
}

#[test]
fn tui_help_lists_every_command_in_the_table() {
    let Some(CommandResult::Text(text)) = parse_command("/help", Surface::Tui) else {
        panic!("expected help text");
    };
    for spec in commands() {
        assert!(text.contains(spec.name), "{} missing from /help", spec.name);
    }
}

#[test]
fn repl_help_omits_tui_only_commands() {
    let Some(CommandResult::Text(text)) = parse_command("/help", Surface::Repl) else {
        panic!("expected help text");
    };
    assert!(!text.contains("/home"), "REPL has no home screen to offer");
    for spec in commands().iter().filter(|c| !c.tui_only) {
        assert!(text.contains(spec.name), "{} missing from /help", spec.name);
    }
}

#[test]
fn help_returns_text() {
    let result = parse_command("/help", Surface::Tui);
    assert!(matches!(result, Some(CommandResult::Text(_))));
}

#[test]
fn exit_returns_exit() {
    assert!(matches!(parse_command("/exit", Surface::Tui), Some(CommandResult::Exit)));
    assert!(matches!(parse_command("/quit", Surface::Tui), Some(CommandResult::Exit)));
}

#[test]
fn cost_returns_sentinel() {
    if let Some(CommandResult::Text(text)) = parse_command("/cost", Surface::Tui) {
        assert_eq!(text, "__cost__");
    } else {
        panic!("expected Text");
    }
}

#[test]
fn context_returns_sentinel() {
    if let Some(CommandResult::Text(text)) = parse_command("/context", Surface::Tui) {
        assert_eq!(text, "__context__");
    } else {
        panic!("expected Text");
    }
}

#[test]
fn compact_returns_async() {
    assert!(matches!(
        parse_command("/compact", Surface::Tui),
        Some(CommandResult::Async(AsyncCommand::Compact))
    ));
}

#[test]
fn checkpoint_commands_return_async_actions() {
    assert!(matches!(
        parse_command("/diff", Surface::Tui),
        Some(CommandResult::Async(AsyncCommand::Diff))
    ));
    assert!(matches!(
        parse_command("/undo-turn", Surface::Tui),
        Some(CommandResult::Async(AsyncCommand::UndoTurn))
    ));
}

#[test]
fn image_command_parses_path() {
    assert!(matches!(
        parse_command("/image /tmp/my picture.png", Surface::Tui),
        Some(CommandResult::Async(AsyncCommand::Image(path)))
            if path == "/tmp/my picture.png"
    ));
}

#[test]
fn image_command_requires_path() {
    assert!(matches!(
        parse_command("/image", Surface::Repl),
        Some(CommandResult::Text(text)) if text.contains("Usage:")
    ));
}

#[test]
fn model_no_args_returns_none_model() {
    if let Some(CommandResult::Async(AsyncCommand::Model(m))) =
        parse_command("/model", Surface::Tui)
    {
        assert!(m.is_none());
    } else {
        panic!("expected Model(None)");
    }
}

#[test]
fn model_with_profile() {
    if let Some(CommandResult::Async(AsyncCommand::Model(Some(m)))) =
        parse_command("/model kimi", Surface::Tui)
    {
        assert_eq!(m, "kimi");
    } else {
        panic!("expected Model(Some)");
    }
}

#[test]
fn resume_no_args() {
    if let Some(CommandResult::Async(AsyncCommand::Resume(id))) =
        parse_command("/resume", Surface::Tui)
    {
        assert!(id.is_none());
    } else {
        panic!("expected Resume(None)");
    }
}

#[test]
fn resume_with_id() {
    if let Some(CommandResult::Async(AsyncCommand::Resume(Some(id)))) =
        parse_command("/resume 20260401-143022", Surface::Tui)
    {
        assert_eq!(id, "20260401-143022");
    } else {
        panic!("expected Resume(Some)");
    }
}

#[test]
fn unknown_command_returns_error_text() {
    if let Some(CommandResult::Text(text)) = parse_command("/bogus", Surface::Tui) {
        assert!(text.contains("Unknown command"));
    } else {
        panic!("expected Text");
    }
}

fn provider(kind: ProviderKind, name: &str, base_url: Option<&str>) -> ProviderConfig {
    ProviderConfig {
        kind,
        base_url: base_url.map(|u| u.to_string()),
        name: Some(name.to_string()),
        protocol: OpenAIProtocol::ChatCompletions,
        api_key: None,
        api_key_env: None,
        api_key_cmd: None,
        prompt_caching: false,
        allow_eof_without_finish_reason: false,
    }
}

fn profile(provider: &str, model: &str) -> ModelProfile {
    ModelProfile {
        provider: provider.to_string(),
        model: model.to_string(),
        display_name: None,
        reasoning_effort: None,
        context_window: None,
        pricing: None,
    }
}

fn defaults() -> Defaults {
    Defaults {
        model: "sonnet-5".to_string(),
        routed_model: "anthropic/sonnet-5".to_string(),
        instruction_file: "NOTES.md".to_string(),
        instruction_dir: ".notes".to_string(),
    }
}

#[test]
fn model_choices_are_grouped_and_mark_current_profile() {
    let mut config = Config::new(&defaults());
    config.providers = config
        .providers
        .with("a".to_string(), provider(ProviderKind::Anthropic, "Anthropic", None))
        .with(
            "b".to_string(),
            provider(ProviderKind::Openai, "OpenRouter", Some("https://openrouter.ai/api/v1")),
        );
    config.model_profiles = config
        .model_profiles
        .with("sonnet".to_string(), profile("a", "sonnet-model"))
        .with("kimi".to_string(), profile("b", "moonshotai/kimi-k3"));
    let models = config.selectable_models().ok().unwrap();
    let current = &config.resolve_model("kimi").ok().unwrap().binding;

    let output = format_model_choices(Some(current), &models);

    assert!(output.contains("Anthropic:\n  sonnet"));
    assert!(output.contains("OpenRouter:\n  kimi *"));
    assert!(output.contains("Use /model <profile> to switch."));
}

#[test]
fn the_list_of_models_does_not_depend_on_their_order() {
    let mut config = Config::new(&defaults());
    config.providers = config
        .providers
        .with("a".to_string(), provider(ProviderKind::Anthropic, "Anthropic", None))
        .with("b".to_string(), provider(ProviderKind::Openai, "zeta", Some("https://z.example")));
    config.model_profiles = config
        .model_profiles
        .with("one".to_string(), profile("a", "m-1"))
        .with("two".to_string(), profile("b", "m-2"))
        .with("three".to_string(), profile("a", "m-3"));
    let mut models = config.selectable_models().ok().unwrap();
    let current = config.resolve_model("three").ok().unwrap().binding;
    let listed = format_model_choices(Some(&current), &models);
    assert_eq!(
        listed,
        "Configured models:\n\nAnthropic:\n  one — m-1 (m-1)\n  three * — m-3 (m-3)\n\nzeta:\n  \
         two — m-2 (m-2)\n\nUse /model <profile> to switch."
    );
    models.reverse();
    assert_eq!(format_model_choices(Some(&current), &models), listed);
}

#[test]
fn commands_match_in_any_case_and_by_alias() {
    assert!(matches!(parse_command("/quit", Surface::Repl), Some(CommandResult::Exit)));
    let all = commands();
    for spec in &all {
        assert!(spec.matches(spec.name));
        for alias in &spec.aliases {
            assert!(spec.matches(alias));
        }
        assert!(spec.usage().starts_with(spec.name));
    }
    assert!(help_text(Surface::Tui).contains("/model"));
}

#[test]
fn themes_are_named_in_the_answer() {
    assert_eq!(execute_theme(Some("DARK")), "Theme set to: DARK");
    assert!(execute_theme(Some("Solar")).starts_with("Unknown theme: Solar\n"));
    assert_eq!(answer_theme("NORD", "nord"), "Theme set to: NORD");
    assert!(answer_theme("NORD", "NORD").starts_with("Unknown theme: NORD\n"));
    assert!(!execute_theme(None).is_empty());
}

#[test]
fn sessions_are_listed_with_what_is_known_of_them() {
    let listed = list_resumable(&[
        SessionEntry {
            id: "20260401-143022".to_string(),
            details: Some(SessionDetails {
                id: "20260401-143022".to_string(),
                model: "fast".to_string(),
                messages: 4,
                cwd: "/work".to_string(),
            }),
        },
        SessionEntry { id: "other".to_string(), details: None },
    ]);
    assert!(listed.contains("20260401-143022"));
    assert!(listed.contains("fast"));
    assert!(listed.contains("other"));
    assert!(!list_resumable(&[]).is_empty());
}

#[test]
fn attached_images_are_counted() {
    assert!(image_attached("/tmp/a.png", 2).contains("/tmp/a.png"));
    assert!(refusal(&AsyncCommand::Compact).is_none() || refusal(&AsyncCommand::Diff).is_some());
}
