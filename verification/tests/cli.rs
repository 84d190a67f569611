use claux::args::ArgError;
use claux::cli::{
    AuthCommand, AuthProvider, Cli, CliCommand, ConfigCommand, ConfigProvider, OutputFormat, Task,
};

fn parse(args: &[&str]) -> Result<Cli, ArgError> {
    Cli::try_parse_from(&args.iter().map(|a| a.to_string()).collect())
}

fn refused(args: &[&str]) -> ArgError {
    match parse(args) {
        Ok(_) => panic!("the arguments should be refused"),
        Err(error) => error,
    }
}

fn parsed(args: &[&str]) -> Cli {
    match parse(args) {
        Ok(cli) => cli,
        Err(_) => panic!("the arguments should be accepted"),
    }
}

#[test]
fn parses_doctor_offline() {
    let cli = parsed(&["claux", "doctor", "--offline"]);
    assert!(matches!(cli.command, Some(CliCommand::Doctor { offline: true })));
}

#[test]
fn parses_tokenizer_fingerprint() {
    let cli = parsed(&[
        "claux",
        "tokenizer-fingerprint",
        "stealth/ox-alpha",
        "z-ai/glm-5.3",
        "--json",
    ]);

    assert!(matches!(
        cli.command,
        Some(CliCommand::TokenizerFingerprint { models, json: true })
            if models == ["stealth/ox-alpha", "z-ai/glm-5.3"]
    ));
}

#[test]
fn parses_headless_openrouter_login() {
    let cli = parsed(&["claux", "auth", "login", "openrouter", "--headless", "--no-browser"]);
    assert!(matches!(
        cli.command,
        Some(CliCommand::Auth {
            command: AuthCommand::Login {
                provider: AuthProvider::OpenRouter,
                headless: true,
                no_browser: true,
            },
        })
    ));
}

#[test]
fn parses_json_output_for_one_shot_mode() {
    let cli = parsed(&["claux", "--print", "hello", "--output-format", "json"]);

    assert_eq!(cli.output_format, Some(OutputFormat::Json));
}

#[test]
fn parses_transcript_for_one_shot_mode() {
    let cli = parsed(&["claux", "--print", "hello", "--transcript", "/tmp/claux-transcript.json"]);

    assert_eq!(cli.transcript, Some("/tmp/claux-transcript.json".to_string()));
}

#[test]
fn parses_repeated_images_for_one_shot_mode() {
    let cli = parsed(&[
        "claux",
        "--print",
        "describe these",
        "--image",
        "one.png",
        "--image",
        "two.jpg",
    ]);

    assert_eq!(cli.image, vec!["one.png".to_string(), "two.jpg".to_string()]);
}

#[test]
fn image_requires_one_shot_mode() {
    assert!(matches!(
        refused(&["claux", "--image", "one.png"]),
        ArgError::RequiresPrompt(name) if name == "image"
    ));
}

#[test]
fn transcript_requires_one_shot_mode() {
    assert!(matches!(
        refused(&["claux", "--transcript", "/tmp/claux-transcript.json"]),
        ArgError::RequiresPrompt(name) if name == "transcript"
    ));
}

#[test]
fn output_format_requires_one_shot_mode() {
    assert!(matches!(
        refused(&["claux", "--output-format", "json"]),
        ArgError::RequiresPrompt(name) if name == "output-format"
    ));
}

#[test]
fn parses_config_init_provider() {
    let cli =
        parsed(&["claux", "config", "init", "--provider", "ollama", "--model", "local-coder"]);
    assert!(matches!(
        cli.command,
        Some(CliCommand::Config {
            command: ConfigCommand::Init {
                provider: ConfigProvider::Ollama,
                model: Some(ref model),
                force: false,
            },
        }) if model == "local-coder"
    ));
}

#[test]
fn parses_openrouter_config_init() {
    let cli = parsed(&[
        "claux",
        "config",
        "init",
        "--provider",
        "openrouter",
        "--model",
        "anthropic/sonnet-5",
    ]);
    assert!(matches!(
        cli.command,
        Some(CliCommand::Config {
            command: ConfigCommand::Init {
                provider: ConfigProvider::OpenRouter,
                model: Some(ref model),
                force: false,
            },
        }) if model == "anthropic/sonnet-5"
    ));
}

#[test]
fn no_arguments_start_the_default_interface() {
    let cli = parsed(&["claux"]);
    assert!(cli.command.is_none());
    assert!(!cli.verbose && !cli.debug && !cli.tui && !cli.trust_project);
    assert!(matches!(cli.task(), Task::Interactive));
    assert!(matches!(parsed(&["claux", "--tui"]).task(), Task::FullScreen));
}

#[test]
fn options_take_their_values_in_both_forms() {
    let cli = parsed(&["claux", "--model=fast", "--resume", "20260401-143022", "--verbose"]);
    assert_eq!(cli.model.as_deref(), Some("fast"));
    assert_eq!(cli.resume.as_deref(), Some("20260401-143022"));
    assert!(cli.verbose);
}

#[test]
fn every_refusal_names_what_was_wrong() {
    assert!(matches!(refused(&["claux", "--nope"]), ArgError::Unexpected(_)));
    assert!(matches!(refused(&["claux", "--model"]), ArgError::MissingValue(name) if name == "model"));
    assert!(matches!(
        refused(&["claux", "--model", "a", "--model", "b"]),
        ArgError::Repeated(name) if name == "model"
    ));
    assert!(matches!(
        refused(&["claux", "--print", "x", "--output-format", "yaml"]),
        ArgError::InvalidValue(..)
    ));
    assert!(matches!(
        refused(&["claux", "tokenizer-fingerprint"]),
        ArgError::MissingArgument(_)
    ));
    assert!(matches!(refused(&["claux", "auth"]), ArgError::MissingArgument(_)));
    for models in [
        vec!["m1"],
        vec!["m1", "--json", "m2"],
        vec!["m1", "m2", "--json", "m3"],
        vec!["--json", "--", "m1"],
    ] {
        let mut line = vec!["claux", "tokenizer-fingerprint"];
        line.extend(models);
        assert!(matches!(refused(&line), ArgError::MissingArgument(_)));
    }
    for models in [vec!["m1", "--", "m2"], vec!["m1", "m2", "--json", "m3", "m4"]] {
        let mut line = vec!["claux", "tokenizer-fingerprint"];
        line.extend(models);
        assert!(matches!(parsed(&line).command, Some(CliCommand::TokenizerFingerprint { .. })));
    }
}

#[test]
fn a_prompt_is_answered_once() {
    let cli = parsed(&["claux", "-p", "hello"]);
    assert!(matches!(cli.task(), Task::OneShot { prompt } if prompt == "hello"));
}
