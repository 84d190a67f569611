use claux::json::Json;
use claux::table::Table;
use claux::tokenizer_fingerprint::{
    after_response, build_fingerprint, check_checkpoint, checkpoint_path, compare_all, corpus_hash,
    decode_usage, hex_digest, markdown_escape, markdown_report, openrouter_key, position_of,
    probe_description, probe_request, probes, read_catalog, retry_delay, text_report,
    transient_status, validate_models, wrapped, Checkpoint, CountedUsage, Fingerprint, ProbeResult,
    Report, ResponseStep, CHECKPOINT_SCHEMA_VERSION, MAX_REQUEST_ATTEMPTS,
};

fn fingerprint(model: &str, deltas: &[i64]) -> Fingerprint {
    Fingerprint {
        model: model.to_string(),
        tokenizer_family: Some("Other".to_string()),
        baseline_prompt_tokens: 10,
        probes: deltas
            .iter()
            .enumerate()
            .map(|(index, delta)| ProbeResult {
                name: format!("probe-{index}"),
                description: format!("description-{index}"),
                prompt_tokens: (10 + delta) as u64,
                delta_tokens: *delta,
            })
            .collect(),
    }
}

#[test]
fn compares_differential_fingerprints() {
    let report =
        compare_all(&[fingerprint("one", &[1, 2, 3, 4]), fingerprint("two", &[1, 8, 3, 4])]);
    assert_eq!(report.len(), 1);
    assert_eq!(report[0].matching_probes, 3);
    assert_eq!(report[0].total_probes, 4);
    assert_eq!(
        100.0 * report[0].matching_probes as f64 / report[0].total_probes as f64,
        75.0
    );
    assert!(!report[0].identical);
}

#[test]
fn wrapper_keeps_probe_boundaries_fixed() {
    assert_eq!(
        wrapped("hello"),
        "CLX_TOKENIZER_FINGERPRINT_BEGIN\nhello\nCLX_TOKENIZER_FINGERPRINT_END"
    );
}

#[test]
fn retries_only_transient_provider_failures() {
    for status in [429, 500, 502, 503, 504] {
        assert!(transient_status(status));
    }
    for status in [400, 401, 402, 403, 404] {
        assert!(!transient_status(status));
    }
}

#[test]
fn retry_delay_honors_header_and_bounds_backoff() {
    assert_eq!(retry_delay(0, Some(7)), 7);
    assert_eq!(retry_delay(0, None), 2);
    assert_eq!(retry_delay(8, None), 32);
}

#[test]
fn markdown_contains_summary_and_probe_evidence() {
    let both = || vec![fingerprint("one", &[1, 2]), fingerprint("two", &[1, 2])];
    let report = Report {
        method: "test method",
        comparisons: compare_all(&both()),
        fingerprints: both(),
        costs: vec!["n/a".to_string(), "n/a".to_string()],
        percents: vec!["100.0".to_string()],
    };

    let markdown = markdown_report(&report);
    assert!(markdown.contains("# Tokenizer Fingerprint"));
    assert!(markdown.contains("**2/2 deltas match (100.0%)**"));
    assert!(markdown.contains("| probe-0 | description-0 | 1 | 1 |"));
    assert!(markdown.contains("not proof of model identity"));
    let text = text_report(&report);
    assert!(text.contains("one"));
    assert!(text.contains("2/2"));
}

#[test]
fn every_probe_has_a_specific_description() {
    for probe in probes() {
        assert_ne!(probe_description(probe.name), "Tokenizer segmentation behavior");
    }
}

fn catalog() -> Table<Option<String>> {
    Table::new()
        .with("known/one".to_string(), Some("One".to_string()))
        .with("known/two".to_string(), Some("Two".to_string()))
}

#[test]
fn preflight_rejects_unknown_and_duplicate_models() {
    let unknown =
        validate_models(&["known/one".to_string(), ">".to_string()], &catalog()).unwrap_err();
    assert!(unknown.contains("no inference requests were made"));
    assert!(unknown.contains('>'));

    let duplicate =
        validate_models(&["known/one".to_string(), "known/one".to_string()], &catalog())
            .unwrap_err();
    assert!(duplicate.contains("duplicate OpenRouter model IDs"));
    assert!(
        validate_models(&["known/one".to_string(), "known/two".to_string()], &catalog()).is_ok()
    );
}

#[test]
fn checkpoint_round_trips_completed_models() {
    let models = vec!["one/model".to_string(), "two/model".to_string()];
    let hash = corpus_hash();
    let checkpoint = Checkpoint {
        schema_version: CHECKPOINT_SCHEMA_VERSION,
        corpus_hash: hash.clone(),
        models: models.clone(),
        fingerprints: vec![fingerprint("one/model", &[1, 2])],
    };

    assert!(check_checkpoint(&checkpoint, &models, &hash).is_ok());
    assert_eq!(position_of(&checkpoint.fingerprints, "one/model"), Some(0));
    assert_eq!(position_of(&checkpoint.fingerprints, "two/model"), None);
    assert!(check_checkpoint(&checkpoint, &models[..1], &hash).is_err());
    assert!(check_checkpoint(&checkpoint, &models, "other").is_err());
}

#[test]
fn checkpoint_key_depends_on_ordered_models() {
    let hash = corpus_hash();
    let one = checkpoint_path("/c", &["one".to_string(), "two".to_string()], &hash);
    let two = checkpoint_path("/c", &["two".to_string(), "one".to_string()], &hash);
    assert_ne!(one, two);
    assert_eq!(one, checkpoint_path("/c", &["one".to_string(), "two".to_string()], &hash));
}

#[test]
fn digests_are_written_in_hexadecimal() {
    assert_eq!(hex_digest(&[0, 10, 255]), "000aff");
    let hash = corpus_hash();
    assert_eq!(hash.len(), 64);
    assert!(hash.chars().all(|c| c.is_ascii_hexdigit()));
}

#[test]
fn keys_come_from_the_environment_or_the_store() {
    assert_eq!(openrouter_key(Some(" k "), None).ok().unwrap().trim(), "k");
    assert_eq!(openrouter_key(None, Some("s".to_string())).unwrap(), "s");
    assert!(openrouter_key(None, None).is_err());
}

#[test]
fn the_catalog_maps_models_to_tokenizers() {
    let body = Json::parse(
        r#"{"data":[{"id":"a","architecture":{"tokenizer":"T"}},{"id":"b"}]}"#,
    )
    .unwrap();
    let catalog = read_catalog(&body).ok().unwrap();
    assert_eq!(catalog.get("a"), Some(&Some("T".to_string())));
    assert_eq!(catalog.get("b"), Some(&None));
    assert!(read_catalog(&Json::parse("{}").unwrap()).is_err());
}

#[test]
fn requests_hold_the_wrapped_probe() {
    let request = probe_request("m", "text").to_value();
    assert_eq!(request["model"], "m");
    assert_eq!(request["messages"][0]["content"], "text");
}

#[test]
fn attempts_end() {
    assert!(matches!(after_response("m", 0, 200, None, ""), ResponseStep::Decode));
    assert!(matches!(
        after_response("m", 0, 429, Some(3), "slow down"),
        ResponseStep::Retry { seconds: 3, .. }
    ));
    assert!(matches!(
        after_response("m", MAX_REQUEST_ATTEMPTS - 1, 429, None, "slow down"),
        ResponseStep::Fail(_)
    ));
    assert!(matches!(after_response("m", 0, 401, None, "no"), ResponseStep::Fail(_)));
}

#[test]
fn usage_may_count_under_either_name() {
    let counted = |prompt: Option<u64>, input: Option<u64>| {
        decode_usage("m", Some(CountedUsage { prompt_tokens: prompt, input_tokens: input }))
    };
    assert_eq!(counted(Some(5), Some(6)), Ok(5));
    assert_eq!(counted(None, Some(6)), Ok(6));
    assert!(counted(None, None).is_err());
    assert!(decode_usage("m", None).is_err());
}

#[test]
fn probes_are_measured_against_the_baseline() {
    let n = probes().len();
    let counts: Vec<u64> = (0..n as u64).map(|i| 10 + i).collect();
    let made = build_fingerprint("m", None, 12, &counts);
    assert_eq!(made.probes.len(), n);
    assert_eq!(made.probes[0].delta_tokens, -2);
    assert_eq!(made.probes[3].delta_tokens, 1);
    assert_eq!(markdown_escape("a|b"), "a\\|b");
}
