use claux::auth::{
    callback_authorization_url, callback_reply, code_challenge, credential_text, entered,
    exchange_request, headless_authorization_url, logout_openrouter, logout_provider, missing_key,
    parse_callback_request, provider_credential_path, read_callback, read_exchange,
    read_login_token, read_openrouter_key, read_provider_key, saved_message, status_message, CredentialFile,
    EntryStatus, KeyEntry, KeyPress, Removal,
};
use claux::config::{Config, ModelProfile, OpenAIProtocol, ProviderConfig, ProviderKind, ResolvedModel};
use claux::defaults::Defaults;
use claux::json::Json;
use claux::model_catalog::{
    cache_is_fresh, cache_path, context_length, entry_to_keep, is_openrouter, lookup, model_url,
    resolve, settle, usable, CacheEntry, CACHE_SCHEMA_VERSION, CACHE_TTL_SECS,
};

#[test]
fn pkce_challenge_uses_sha256_base64url_without_padding() {
    assert_eq!(
        code_challenge("dBjftJeZ4CVP-mB92K27uhbUJU1p1r_wW1gFWFOEjXk"),
        "E9Melhoa2OwvFrEMTJguCHaoeK1t8URWbuGJSstw-cM"
    );
}

#[test]
fn headless_url_has_pkce_and_label_but_no_callback() {
    let url = url::Url::parse(&headless_authorization_url("challenge").unwrap()).unwrap();
    let query = url.query_pairs().collect::<std::collections::HashMap<_, _>>();
    assert_eq!(query.get("code_challenge").unwrap(), "challenge");
    assert_eq!(query.get("code_challenge_method").unwrap(), "S256");
    assert_eq!(query.get("key_label").unwrap(), "Claux");
    assert!(!query.contains_key("callback_url"));
}

#[test]
fn callback_parser_decodes_authorization_code() {
    assert_eq!(
        parse_callback_request(
            "GET /callback/nonce?code=abc%2F123 HTTP/1.1\r\n",
            "/callback/nonce"
        )
        .unwrap(),
        "abc/123"
    );
}

#[test]
fn callback_parser_rejects_the_wrong_path() {
    assert!(parse_callback_request(
        "GET /callback/wrong?code=abc HTTP/1.1\r\n",
        "/callback/expected"
    )
    .is_err());
}

#[test]
fn a_credential_is_read_back_where_it_is_private() {
    let file = CredentialFile::Opened { contents: credential_text("secret"), mode: 0o600 };
    assert_eq!(read_openrouter_key("/c/openrouter", &file).unwrap().as_deref(), Some("secret"));
    let open = CredentialFile::Opened { contents: credential_text("secret"), mode: 0o644 };
    assert!(read_provider_key("/c/openrouter", &open).is_err());
}

#[test]
fn credentials_that_are_missing_or_unreadable_differ() {
    assert_eq!(read_provider_key("/c", &CredentialFile::Missing), Ok(None));
    assert!(read_provider_key("/c", &CredentialFile::Unopened).is_err());
}

#[test]
fn credentials_stay_in_their_directory() {
    let path = |provider: &str| provider_credential_path(provider, None, Some("/home/u/.config"));
    let ordinary = path("openrouter").unwrap();
    assert!(ordinary.ends_with("openrouter"));
    assert!(ordinary.starts_with("/home/u/.config/"));
    assert!(path("../escape").is_err());
    assert!(path("").is_err());
    assert!(provider_credential_path("openrouter", None, None).is_err());
}

#[test]
fn the_callback_url_is_part_of_the_query() {
    let url = callback_authorization_url("challenge", "http://localhost:3000/callback/n").unwrap();
    let url = url::Url::parse(&url).unwrap();
    let query = url.query_pairs().collect::<std::collections::HashMap<_, _>>();
    assert_eq!(query.get("callback_url").unwrap(), "http://localhost:3000/callback/n");
}

#[test]
fn callbacks_without_a_code_are_refused() {
    let pair = |k: &str, v: &str| (k.to_string(), v.to_string());
    assert!(read_callback("/a", &vec![pair("state", "x")], "/a").is_err());
    assert!(read_callback("/a", &vec![pair("error", "denied")], "/a").is_err());
    assert_eq!(read_callback("/a", &vec![pair("code", "c")], "/a").unwrap(), "c");
    assert!(parse_callback_request("POST", "/a").is_err());
    assert_ne!(callback_reply(true), callback_reply(false));
}

#[test]
fn codes_are_exchanged_for_keys() {
    let request = exchange_request("code", "verifier").to_value();
    assert_eq!(request["code"], "code");
    assert_eq!(request["code_verifier"], "verifier");
    assert_eq!(request["code_challenge_method"], "S256");
    assert_eq!(read_exchange(200, r#"{"key":"sk"}"#).unwrap(), "sk");
    assert!(read_exchange(200, "{}").is_err());
    assert!(read_exchange(403, "denied").is_err());
}

#[test]
fn keys_are_typed_unseen() {
    let mut entry = KeyEntry::new();
    for c in "abx".chars() {
        assert!(matches!(entry.press(KeyPress::Character(c)), EntryStatus::Going));
    }
    entry.press(KeyPress::Backspace);
    assert!(matches!(entry.press(KeyPress::Enter), EntryStatus::Finished));
    assert_eq!(entry.text(), "ab");
    assert!(matches!(entry.press(KeyPress::Escape), EntryStatus::Cancelled));
    assert_eq!(entered("  k \n", "empty").unwrap(), "k");
    assert_eq!(entered("  \n", "empty").unwrap_err(), "empty");
}

#[test]
fn messages_name_the_provider() {
    assert!(missing_key("OpenRouter", "openrouter").contains("openrouter"));
    assert_ne!(
        status_message("OpenRouter", "/c", true),
        status_message("OpenRouter", "/c", false)
    );
    assert!(saved_message("OpenRouter", "/c").contains("/c"));
    assert!(logout_openrouter("/c", &Removal::Removed).is_ok());
    assert!(logout_provider("X", "/c", &Removal::Missing).is_ok());
    assert!(logout_provider("X", "/c", &Removal::Failed).is_err());
}

fn resolved(name: &str, base_url: &str, context_window: Option<usize>) -> ResolvedModel {
    let mut config = Config::new(&Defaults {
        model: "sonnet-5".to_string(),
        routed_model: "anthropic/sonnet-5".to_string(),
        instruction_file: "NOTES.md".to_string(),
        instruction_dir: ".notes".to_string(),
    });
    config.providers = config.providers.with(
        "p".to_string(),
        ProviderConfig {
            kind: ProviderKind::Openai,
            base_url: Some(base_url.to_string()),
            name: Some(name.to_string()),
            protocol: OpenAIProtocol::ChatCompletions,
            api_key: Some("test-key".to_string()),
            api_key_env: None,
            api_key_cmd: None,
            prompt_caching: false,
            allow_eof_without_finish_reason: false,
        },
    );
    config.model_profiles = config.model_profiles.with(
        "test".to_string(),
        ModelProfile {
            provider: "p".to_string(),
            model: "vendor/new-model".to_string(),
            display_name: None,
            reasoning_effort: None,
            context_window,
            pricing: None,
        },
    );
    config.resolve_model("test").ok().unwrap()
}

fn entry(context_window: usize, fetched_at_unix: u64) -> CacheEntry {
    CacheEntry {
        schema_version: CACHE_SCHEMA_VERSION,
        model: "vendor/new-model".to_string(),
        context_window,
        fetched_at_unix,
    }
}

#[test]
fn an_explicit_window_is_not_looked_up() {
    let resolved = resolved("openrouter", "http://127.0.0.1:1", Some(64_000));
    let metadata = resolve(&resolved, &None, 1_000).unwrap();
    assert_eq!(metadata.context_window, 64_000);
}

#[test]
fn discovers_and_caches_openrouter_context_window() {
    let resolved = resolved("openrouter", "http://127.0.0.1:9", None);
    assert!(resolve(&resolved, &None, 1_000).is_none(), "the provider is to be asked");
    assert!(model_url(&resolved).unwrap().ends_with("/model/vendor/new-model"));
    let body = Json::parse(r#"{"data":{"context_length":1048576}}"#).unwrap();
    let answer = context_length(&body).unwrap();
    let discovered = settle(&resolved, &None, Some(answer));
    let kept = entry_to_keep(&resolved, answer, 1_000);
    let cached = resolve(&resolved, &Some(kept), 1_001).unwrap();
    assert_eq!(discovered.context_window, 1_048_576);
    assert_eq!(cached.context_window, 1_048_576);
}

#[test]
fn stale_cache_survives_provider_failure() {
    let resolved = resolved("openrouter", "http://127.0.0.1:1", None);
    let cached = Some(entry(333_000, 0));
    assert!(resolve(&resolved, &cached, CACHE_TTL_SECS + 1).is_none());
    let metadata = settle(&resolved, &cached, None);
    assert_eq!(metadata.context_window, 333_000);
}

#[test]
fn malformed_discovery_falls_back_to_built_in_metadata() {
    let resolved = resolved("openrouter", "http://127.0.0.1:1", None);
    let body = Json::parse(r#"{"data":{}}"#).unwrap();
    assert!(context_length(&body).is_err());
    assert_eq!(settle(&resolved, &None, None), resolved.metadata);
}

#[test]
fn another_provider_is_not_asked() {
    let resolved = resolved("local", "http://127.0.0.1:1", None);
    assert!(!is_openrouter(&resolved));
    assert_eq!(resolve(&resolved, &None, 0), Some(resolved.metadata));
}

#[test]
fn openrouter_is_known_by_its_host_too() {
    assert!(is_openrouter(&resolved("anything", "https://openrouter.ai/api/v1", None)));
    assert!(!is_openrouter(&resolved("anything", "https://openrouter.ai.evil.example/v1", None)));
}

#[test]
fn entries_are_fresh_for_a_day_and_only_for_their_model() {
    assert!(cache_is_fresh(&entry(1, 100), 100 + CACHE_TTL_SECS - 1));
    assert!(!cache_is_fresh(&entry(1, 100), 101 + CACHE_TTL_SECS));
    assert!(usable(&entry(1, 0), "vendor/new-model"));
    assert!(!usable(&entry(1, 0), "other"));
    assert!(!usable(&entry(0, 0), "vendor/new-model"));
    let resolved = resolved("openrouter", "https://openrouter.ai/api/v1", None);
    assert!(lookup(&resolved, false, &None, 0).is_some());
    assert_ne!(cache_path("/c", "a"), cache_path("/c", "b"));
    assert!(cache_path("/c", "a").starts_with("/c/"));
}

#[test]
fn the_token_of_a_login_is_read() {
    let file = r#"{"claudeAiOauth": {"accessToken": "token", "expiresAt": 1}, "other": 2}"#;
    assert_eq!(read_login_token(file).as_deref(), Some("token"));
    for file in [
        "",
        "not json",
        "{}",
        "[]",
        r#"{"accessToken": "token"}"#,
        r#"{"claudeAiOauth": {}}"#,
        r#"{"claudeAiOauth": {"accessToken": 3}}"#,
    ] {
        assert_eq!(read_login_token(file), None, "{file}");
    }
}
