use claux::cli::ConfigProvider;
use claux::config::Config;
use claux::defaults::Defaults;
use claux::doctor::{
    doctor, executable_candidates, models_to_check, ready_to_ask, status_request, Findings,
    ReportBuilder, ToolCommand,
};
use claux::document::NEW_DOCUMENT;
use claux::onboarding::{
    add_model_profile, config_template, init_config, migrate_legacy_model, slug, unique_table_name,
    ProviderSpecification,
};

fn defaults() -> Defaults {
    Defaults {
        model: "sonnet-5".to_string(),
        routed_model: "anthropic/sonnet-5".to_string(),
        instruction_file: "NOTES.md".to_string(),
        instruction_dir: ".notes".to_string(),
    }
}

fn parsed(text: &str) -> toml::Value {
    toml::from_str(text).unwrap()
}

fn table_len(value: &toml::Value, name: &str) -> usize {
    value[name].as_table().unwrap().len()
}

#[test]
fn every_init_template_parses() {
    for provider in [
        ConfigProvider::Anthropic,
        ConfigProvider::Openai,
        ConfigProvider::OpenRouter,
        ConfigProvider::Ollama,
    ] {
        let parsed = parsed(&config_template(provider, None, &defaults()));
        assert_eq!(table_len(&parsed, "model_profiles"), 1);
        assert_eq!(table_len(&parsed, "providers"), 1);
        assert!(parsed.get("default_profile").is_some());
    }
}

#[test]
fn openrouter_template_uses_compatible_endpoint_and_key_environment() {
    let parsed = parsed(&config_template(ConfigProvider::OpenRouter, None, &defaults()));
    let profile = &parsed["model_profiles"]["openrouter-anthropic-sonnet-5"];
    let provider = &parsed["providers"]["openrouter"];
    assert_eq!(profile["model"].as_str(), Some("anthropic/sonnet-5"));
    assert_eq!(provider["base_url"].as_str(), Some("https://openrouter.ai/api/v1"));
    assert_eq!(provider["protocol"].as_str(), Some("chat_completions"));
    assert_eq!(provider["api_key_env"].as_str(), Some("OPENROUTER_API_KEY"));
    assert!(provider.get("api_key").is_none());
}

#[test]
fn init_adds_to_existing_config_without_overwriting_it() {
    let content = init_config(
        "config.toml",
        false,
        Some("# keep this comment\nmax_tokens = 42\ncustom_setting = \"keep\"\n"),
        true,
        ConfigProvider::Anthropic,
        None,
        false,
        &defaults(),
    )
    .unwrap();
    assert!(content.contains("# keep this comment"));
    assert!(content.contains("max_tokens = 42"));
    assert!(content.contains("custom_setting = \"keep\""));
    assert!(content.contains("[providers.anthropic]"));
}

#[test]
fn repeated_init_is_idempotent() {
    let first = config_template(ConfigProvider::OpenRouter, Some("test/model"), &defaults());
    let second = add_model_profile(
        &first,
        true,
        ConfigProvider::OpenRouter,
        Some("test/model"),
        &defaults(),
    )
    .unwrap();
    let value = parsed(&second);
    assert_eq!(table_len(&value, "providers"), 1);
    assert_eq!(table_len(&value, "model_profiles"), 1);
    assert_eq!(first, second);
}

#[test]
fn additive_init_migrates_an_existing_legacy_model() {
    let existing = r#"
            # legacy settings remain readable
            model = "sonnet-existing"
            api_key_env = "EXISTING_ANTHROPIC_KEY"
        "#;
    let updated = add_model_profile(
        existing,
        true,
        ConfigProvider::OpenRouter,
        Some("openai/new"),
        &defaults(),
    )
    .unwrap();
    let parsed = parsed(&updated);

    assert_eq!(table_len(&parsed, "model_profiles"), 2);
    let legacy = &parsed["model_profiles"]["anthropic-sonnet-existing"];
    assert_eq!(legacy["model"].as_str(), Some("sonnet-existing"));
    let provider = &parsed["providers"][legacy["provider"].as_str().unwrap()];
    assert_eq!(provider["api_key_env"].as_str(), Some("EXISTING_ANTHROPIC_KEY"));
    assert_eq!(parsed["default_profile"].as_str(), Some("anthropic-sonnet-existing"));
}

#[test]
fn forced_init_replaces_config_without_embedding_secrets() {
    let content = init_config(
        "nested/config.toml",
        false,
        Some("this is [not toml"),
        false,
        ConfigProvider::Openai,
        Some("test-model"),
        true,
        &defaults(),
    )
    .unwrap();
    assert!(content.contains("test-model"));
    assert!(content.contains("OPENAI_API_KEY"));
    assert!(!content.contains("sk-"));
}

#[test]
fn links_and_broken_files_are_not_replaced() {
    let init = |is_symlink: bool, existing: &str, valid: bool| {
        init_config(
            "/c.toml",
            is_symlink,
            Some(existing),
            valid,
            ConfigProvider::Ollama,
            None,
            false,
            &defaults(),
        )
    };
    assert_eq!(init(true, "", true).unwrap_err(), "refusing to replace symlink /c.toml");
    assert_eq!(init(true, "a = [", false).unwrap_err(), "refusing to replace symlink /c.toml");
    assert_eq!(init(false, "a = [", true).unwrap_err(), "existing configuration is invalid TOML");
    let invalid = "existing claux configuration is invalid";
    assert_eq!(init(false, "a = [", false).unwrap_err(), invalid);
    assert_eq!(init(false, "max_tokens = \"many\"", false).unwrap_err(), invalid);
    assert_eq!(init(false, "providers = 3", true).unwrap_err(), invalid);
    assert_eq!(init(false, "[[model_profiles]]", true).unwrap_err(), invalid);
    assert!(init(false, " \n", false).is_ok());
}

#[test]
fn names_of_tables_are_made_unique() {
    assert_eq!(slug("Test/Model v1.5"), "test-model-v1-5");
    let taken = vec!["openai".to_string(), "openai-2".to_string()];
    assert_eq!(unique_table_name("openai", &taken, &vec![false, false]), "openai-3");
    assert_eq!(unique_table_name("openai", &taken, &vec![false, true]), "openai-2");
    assert_eq!(unique_table_name("fresh", &taken, &vec![false, false]), "fresh");
    assert_eq!(ProviderSpecification::new(ConfigProvider::Ollama, None, &defaults()).model, "llama3");
}

fn migrated(text: &str) -> String {
    let mut document = text.parse::<toml_edit::DocumentMut>().unwrap();
    migrate_legacy_model(&mut document);
    document.to_string()
}

#[test]
fn a_document_without_a_bare_model_needs_no_migration() {
    assert_eq!(migrated("a = 1\n"), "a = 1\n");
    assert_eq!(migrated("model = \" \"\n"), "model = \" \"\n");
    assert_eq!(migrated("model = 3\nproviders = 4\n"), "model = 3\nproviders = 4\n");
    let named = "model = \"m\"\n[model_profiles.a]\nmodel = \"m\"\n";
    assert_eq!(migrated(named), named);
    let openai = "model = \"m\"\nopenai_base_url = \"https://x.example/v1\"\nopenai_provider_name = \"My Host\"\nopenai_api_key_env = \"K\"\nopenai_reasoning_effort = \"high\"\n";
    let migrated = parsed(&migrated(openai));
    let provider = &migrated["providers"]["my-host"];
    assert_eq!(provider["type"].as_str(), Some("openai"));
    assert_eq!(provider["base_url"].as_str(), Some("https://x.example/v1"));
    assert_eq!(provider["name"].as_str(), Some("My Host"));
    assert_eq!(provider["protocol"].as_str(), Some("chat_completions"));
    assert_eq!(provider["api_key_env"].as_str(), Some("K"));
    assert!(provider.get("api_key").is_none());
    let profile = &migrated["model_profiles"]["my-host-m"];
    assert_eq!(profile["reasoning_effort"].as_str(), Some("high"));
    assert_eq!(migrated["default_profile"].as_str(), Some("my-host-m"));
}

fn config() -> Config {
    Config::new(&defaults())
}

fn findings(config: &Config, offline: bool) -> Findings {
    let checked = models_to_check(config).len();
    Findings {
        config_path: "/c/config.toml".to_string(),
        config_exists: true,
        config_read_only: false,
        threshold_in_range: true,
        git: true,
        ripgrep: false,
        servers: vec![],
        plugins: vec![],
        keys: vec![false; checked],
        offline,
        answers: vec![],
    }
}

#[test]
fn offline_doctor_skips_network() {
    let mut config = config();
    config.api_key_env = "CLAUX_TEST_MISSING_AUTH".to_string();
    let report = doctor(&config, &findings(&config, true));
    assert!(report.text.contains("skipped (--offline)"));
}

#[test]
fn doctor_requires_openrouter_api_key() {
    let mut config = config();
    config.model = "anthropic/sonnet-5".to_string();
    config.openai_base_url = Some("https://openrouter.ai/api/v1".to_string());
    config.openai_provider_name = Some("openrouter".to_string());
    config.openai_api_key_env = "CLAUX_TEST_MISSING_OPENROUTER_KEY".to_string();
    let report = doctor(&config, &findings(&config, true));
    assert!(!report.healthy);
    assert!(report.text.contains("requires CLAUX_TEST_MISSING_OPENROUTER_KEY"));
}

#[test]
fn doctor_marks_invalid_configuration_unhealthy() {
    let mut config = config();
    config.model = String::new();
    let mut facts = findings(&config, true);
    facts.threshold_in_range = false;
    let report = doctor(&config, &facts);
    assert!(!report.healthy);
    assert!(report.text.contains("[fail] no models configured"));
    assert!(report.text.contains("auto_compact_threshold"));
}

#[test]
fn a_reachable_provider_and_its_tools_are_reported() {
    let config = config();
    let mut facts = findings(&config, false);
    facts.keys = vec![true; facts.keys.len()];
    let models = models_to_check(&config);
    let ready = ready_to_ask(&models, &facts.keys);
    assert_eq!(ready, [0]);
    facts.answers = vec![Ok("200 OK".to_string())];
    facts.servers = vec![ToolCommand {
        name: "files".to_string(),
        command: "serve".to_string(),
        available: false,
    }];
    let report = doctor(&config, &facts);
    assert!(report.text.contains("200 OK"));
    assert!(report.text.contains("serve"));
    let request = status_request(&models[0], Some("key"), Some("token")).ok().unwrap();
    assert_eq!(request.x_api_key.as_deref(), Some("key"));
    assert!(request.bearer.is_none());
    let request = status_request(&models[0], None, Some("token")).ok().unwrap();
    assert!(request.x_api_key.is_none());
    assert_eq!(request.bearer.as_deref(), Some("token"));
    assert!(status_request(&models[0], None, Some("")).is_err());
}

#[test]
fn one_failure_makes_a_report_unhealthy() {
    let mut report = ReportBuilder::new();
    report.ok("a".to_string());
    report.warn("b".to_string());
    assert!(report.finish().healthy);
    let mut report = ReportBuilder::new();
    report.fail("c".to_string());
    let report = report.finish();
    assert!(!report.healthy);
    assert!(report.text.contains("[fail] c"));
}

#[test]
fn programs_are_looked_for_on_the_path() {
    let path = vec!["/bin".to_string(), "/usr/bin".to_string()];
    assert_eq!(executable_candidates("git", &path), ["/bin/git", "/usr/bin/git"]);
    assert_eq!(executable_candidates("./run", &path), ["./run"]);
}

#[test]
fn a_new_document_holds_the_settings_of_a_first_run() {
    let mut document = "# claux configuration\n".parse::<toml_edit::DocumentMut>().unwrap();
    document["permission_mode"] = toml_edit::value("default");
    document["max_tokens"] = toml_edit::value(16384);
    document["auto_compact_threshold"] = toml_edit::value(0.8);
    assert_eq!(document.to_string(), NEW_DOCUMENT);
}

fn add(text: &str, provider: ConfigProvider, model: &str) -> String {
    add_model_profile(text, true, provider, Some(model), &defaults()).unwrap()
}

#[test]
fn adding_a_profile_once_more_changes_nothing() {
    let documents = [
        "",
        "# only a comment",
        "max_tokens = 42\ncustom_setting = \"keep\"",
        "number = 1.50\nflag = true\ndate = 2024-05-06\nlist = [1, \"a\"]\nhex = 0xFF\n",
        "text = \"\"\"\r\none\r\ntwo\"\"\"\r\nraw = '''\r\na\r\nb'''\r\n",
        "[providers.openrouter]\ntype = \"anthropic\" # another one\n\n[[mcp_servers]]\nname = \"x\"\n",
        "providers.openrouter.type = \"anthropic\"\nnote = 'dotted'\n",
        "[providers]\na.type = \"openai\"\n\n[model_profiles.openrouter-test-model]\nmodel = \"y\"\n",
        "[providers]\nb = { type = \"openai\", extra.deep = 1 }\n",
        "[providers.a]\ntype = \"x\"\n[providers]\nk.type = \"y\"\n",
        "[[a]]\n[z]\n[a.c]\nd = 1\n[[a]]\n[ providers . \"x y\" ] # c\ntype = 'z'\n",
        "model = \"old\"\n[[a]]\n[providers.other.more]\nx = 1\n[[a]]\n",
        "model = \"old\"\napi_key_env = \"KEY\" # kept\ndefault_profile = \"mine\"\n",
        "model = \"old\"\n[providers.other]\n# mine\ntype = \"openai\"\n",
        "model = \"old\"\nopenai_base_url = \"https://x\"\nproviders = { a = { type = \"openai\" } }\nmodel_profiles = {}\n",
        "model = \"old\"\nmodel_profiles = {}\n",
        "providers = {}\nmodel_profiles = {}\n",
        "providers = { b = { type = \"openai\" } }\n[model_profiles]\n",
        "default_profile = 3\n[[a]]\n[b]\n[a.c]\nd = \"e\"\n[[a]]\n",
        "default_profile = { a = 1 }\n",
    ];
    for document in documents {
        let once = add(document, ConfigProvider::OpenRouter, "test/model");
        let again = add(&once, ConfigProvider::OpenRouter, "test/model");
        assert_eq!(parsed(&again), parsed(&once), "{document}");

        let before = parsed(document);
        let after = parsed(&once);
        for (key, value) in before.as_table().unwrap() {
            if key == "providers" || key == "model_profiles" {
                for (name, entry) in value.as_table().unwrap() {
                    assert_eq!(after[key].get(name), Some(entry), "{document}");
                }
            } else {
                assert_eq!(after.get(key), Some(value), "{document}");
            }
        }
        assert!(after.get("default_profile").is_some());
    }
}

#[test]
fn a_default_profile_is_only_set_where_there_is_none() {
    let added = add("default_profile = 3\n", ConfigProvider::Ollama, "m");
    assert_eq!(parsed(&added)["default_profile"].as_integer(), Some(3));
    let added = add("a = 1\n", ConfigProvider::Ollama, "m");
    assert_eq!(parsed(&added)["default_profile"].as_str(), Some("ollama-m"));
}

#[test]
fn another_model_is_added_beside_the_first() {
    let one = add("", ConfigProvider::Ollama, "m");
    let two = add(&one, ConfigProvider::Ollama, "n");
    let value = parsed(&two);
    assert_eq!(table_len(&value, "providers"), 1);
    assert_eq!(table_len(&value, "model_profiles"), 2);
    assert_eq!(value["default_profile"].as_str(), Some("ollama-m"));
    let taken = "[providers.ollama]\ntype = \"anthropic\"\n";
    let value = parsed(&add(taken, ConfigProvider::Ollama, "m"));
    assert_eq!(value["providers"]["ollama"]["type"].as_str(), Some("anthropic"));
    assert_eq!(value["model_profiles"]["ollama-m"]["provider"].as_str(), Some("ollama-2"));
}

#[test]
fn a_table_between_braces_takes_no_entries() {
    let text = "providers = {}\nmodel_profiles = {}\n";
    let added = add(text, ConfigProvider::Ollama, "m");
    assert_eq!(table_len(&parsed(&added), "providers"), 0);
    assert_eq!(table_len(&parsed(&added), "model_profiles"), 0);
    assert_eq!(parsed(&added)["default_profile"].as_str(), Some("ollama-m"));
}

#[test]
fn a_provider_that_is_not_written_is_not_found_again() {
    let text = "model = \"m0\"\nopenai_base_url = \"https://x\"\nproviders = {}\n";
    let once = add(text, ConfigProvider::Openai, "m");
    assert_eq!(parsed(&once)["model_profiles"]["openai-m"]["provider"].as_str(), Some("openai-2"));
    let again = add(&once, ConfigProvider::Openai, "m");
    assert_ne!(parsed(&again), parsed(&once));
}

#[test]
fn a_provider_that_was_the_value_of_a_key_is_replaced() {
    let plain = "model = \"m0\"\n[providers]\nanthropic = { type = \"openai\" }\n";
    let once = add(plain, ConfigProvider::Ollama, "m");
    let value = parsed(&once);
    assert_eq!(value["providers"]["anthropic"]["type"].as_str(), Some("anthropic"));
    assert_eq!(parsed(&add(&once, ConfigProvider::Ollama, "m")), value);
    let commented = "model = \"m0\"\n[providers]\n# mine\nanthropic = { type = \"openai\" }\n";
    let once = add(commented, ConfigProvider::Ollama, "m");
    assert!(toml::from_str::<toml::Value>(&once).is_err());
}
