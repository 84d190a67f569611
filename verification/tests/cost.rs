use claux::api::types::Usage;
use claux::cost::{CostTracker, DOLLAR};
use claux::model::{built_in_metadata, pricing, ModelPricing};
use claux::output::{
    ExecutionTiming, ModelRoundUsage, ModelTraceEntry, OneShotOutput, OneShotTranscript,
    ToolTraceEntry, TranscriptOutcome,
};
use claux::api::types::{Message, MessageContent};
use claux::json::Json;

fn usage(input: u32, output: u32, cache_read: u32, cache_creation: u32) -> Usage {
    Usage {
        input_tokens: input,
        output_tokens: output,
        cache_read_tokens: cache_read,
        cache_creation_tokens: cache_creation,
        cost_reports: vec![],
    }
}

fn summary_of(tracker: &CostTracker) -> String {
    let amount = match tracker.shown_cost() {
        Some((amount, decimals)) => format!("{:.*}", decimals, amount as f64 / 1e12),
        None => String::new(),
    };
    tracker.format_summary(&amount)
}

fn picodollars(dollars: f64) -> u128 {
    (dollars * 1e12).round() as u128
}

#[test]
fn new_tracker_is_zero() {
    let tracker = CostTracker::new("sonnet-4-20250514");
    assert_eq!(tracker.input_tokens, 0);
    assert_eq!(tracker.output_tokens, 0);
    assert_eq!(tracker.total_cost(), 0);
}

#[test]
fn add_usage_accumulates() {
    let mut tracker = CostTracker::new("sonnet-4-20250514");
    tracker.add_usage(&usage(1000, 500, 0, 0), None);
    tracker.add_usage(&usage(2000, 300, 100, 0), None);
    assert_eq!(tracker.input_tokens, 3000);
    assert_eq!(tracker.output_tokens, 800);
    assert_eq!(tracker.cache_read_tokens, 100);
}

#[test]
fn reset_usage_preserves_pricing() {
    let mut tracker = CostTracker::new("private-model");
    tracker.set_pricing_override(pricing(2_000_000, 4_000_000, 500_000, 1_000_000));
    tracker.add_usage(&usage(1_000_000, 500_000, 100, 50), None);

    tracker.reset_usage();

    assert_eq!(tracker.input_tokens, 0);
    assert_eq!(tracker.output_tokens, 0);
    assert_eq!(tracker.cache_read_tokens, 0);
    assert_eq!(tracker.cache_creation_tokens, 0);
    assert_eq!(tracker.total_cost(), 0);

    tracker.add_usage(&usage(1_000_000, 0, 0, 0), None);
    assert_eq!(tracker.total_cost(), 2 * DOLLAR);
}

#[test]
fn sonnet_pricing() {
    let mut tracker = CostTracker::new("sonnet-4-20250514");
    tracker.add_usage(&usage(1_000_000, 1_000_000, 0, 0), None);
    assert_eq!(tracker.total_cost(), 18 * DOLLAR);
}

#[test]
fn opus_pricing() {
    let mut tracker = CostTracker::new("opus-4-20250514");
    tracker.add_usage(&usage(1_000_000, 1_000_000, 0, 0), None);
    assert_eq!(tracker.total_cost(), 90 * DOLLAR);
}

#[test]
fn haiku_pricing() {
    let mut tracker = CostTracker::new("haiku-4-5-20251001");
    tracker.add_usage(&usage(1_000_000, 1_000_000, 0, 0), None);
    assert_eq!(tracker.total_cost(), picodollars(1.50));
}

#[test]
fn unknown_model_reports_unavailable_pricing() {
    let mut tracker = CostTracker::new("some-future-model");
    tracker.add_usage(&usage(1_000_000, 0, 0, 0), None);
    assert_eq!(tracker.total_cost(), 0);
    assert!(summary_of(&tracker).contains("unavailable"));
}

#[test]
fn provider_reported_cost_works_without_known_pricing_and_accumulates() {
    let mut tracker = CostTracker::new("openrouter/unknown-model");
    tracker.add_usage(&usage(100, 20, 0, 0), Some(picodollars(0.0012)));
    tracker.add_usage(&usage(200, 40, 0, 0), Some(picodollars(0.0034)));

    assert_eq!(tracker.total_cost(), picodollars(0.0046));
    assert!(summary_of(&tracker).contains("$0.0046"));
}

#[test]
fn provider_reported_cost_takes_precedence_over_estimate() {
    let mut tracker = CostTracker::new("sonnet-4-20250514");
    tracker.add_usage(&usage(1_000_000, 1_000_000, 0, 0), Some(picodollars(1.25)));

    assert_eq!(tracker.total_cost(), picodollars(1.25));
}

#[test]
fn tiny_reported_cost_remains_visible() {
    let mut tracker = CostTracker::new("unknown-model");
    tracker.add_usage(&usage(10, 2, 0, 0), Some(picodollars(0.00003125)));

    assert!(summary_of(&tracker).contains("$0.00003125"));
}

#[test]
fn reset_usage_clears_provider_reported_cost() {
    let mut tracker = CostTracker::new("unknown-model");
    tracker.add_usage(&usage(100, 20, 0, 0), Some(picodollars(0.0012)));

    tracker.reset_usage();

    assert_eq!(tracker.total_cost(), 0);
    assert!(summary_of(&tracker).contains("unavailable"));
}

#[test]
fn gpt_5_6_sol_pricing() {
    let mut tracker = CostTracker::new("gpt-5.6-sol");
    tracker.add_usage(&usage(1_000_000, 1_000_000, 0, 0), None);
    assert_eq!(tracker.total_cost(), 35 * DOLLAR);
}

#[test]
fn config_pricing_overrides_built_in_value() {
    let mut tracker = CostTracker::new("gpt-5.6-sol");
    tracker.set_pricing_override(pricing(1_000_000, 2_000_000, 0, 0));
    tracker.add_usage(&usage(1_000_000, 1_000_000, 0, 0), None);
    assert_eq!(tracker.total_cost(), 3 * DOLLAR);
}

#[test]
fn cache_tokens_affect_cost() {
    let mut tracker = CostTracker::new("sonnet-4-20250514");
    tracker.add_usage(&usage(0, 0, 1_000_000, 1_000_000), None);
    assert_eq!(tracker.total_cost(), picodollars(4.05));
}

#[test]
fn format_summary_includes_tokens() {
    let mut tracker = CostTracker::new("sonnet-4-20250514");
    tracker.add_usage(&usage(500, 200, 0, 0), None);
    let summary = summary_of(&tracker);
    assert!(summary.contains("500in"));
    assert!(summary.contains("200out"));
    assert!(summary.contains("$"));
}

#[test]
fn format_summary_shows_cache_when_present() {
    let mut tracker = CostTracker::new("sonnet-4-20250514");
    tracker.add_usage(&usage(100, 50, 300, 0), None);
    let summary = summary_of(&tracker);
    assert!(summary.contains("300cache"));
}

#[test]
fn format_summary_hides_cache_when_zero() {
    let mut tracker = CostTracker::new("sonnet-4-20250514");
    tracker.add_usage(&usage(100, 50, 0, 0), None);
    let summary = summary_of(&tracker);
    assert!(!summary.contains("cache"));
}

#[test]
fn usage_that_would_not_fit_is_known_beforehand() {
    let mut tracker = CostTracker::new("m");
    assert!(tracker.can_add(&usage(1, 2, 3, 4), Some(5)));
    tracker.input_tokens = u64::MAX;
    assert!(!tracker.can_add(&usage(1, 0, 0, 0), None));
    tracker.input_tokens = 0;
    tracker.reported = Some(u128::MAX);
    assert!(!tracker.can_add(&usage(0, 0, 0, 0), Some(1)));
}

#[test]
fn known_family_resolves_context_and_pricing_together() {
    let metadata = built_in_metadata("openrouter/openai/gpt-5.6-terra");
    assert_eq!(metadata.context_window, 1_050_000);
    assert_eq!(metadata.pricing.unwrap().input, 2_500_000);
}

#[test]
fn overrides_take_precedence_and_zero_context_is_ignored() {
    let custom = ModelPricing { input: 500_000, output: 1_500_000, cache_read: 0, cache_write: 0 };
    let metadata = built_in_metadata("unknown")
        .with_overrides(Some(64_000), Some(custom))
        .with_overrides(Some(0), None);
    assert_eq!(metadata.context_window, 64_000);
    assert_eq!(metadata.pricing, Some(custom));
}

#[test]
fn every_known_family_has_its_window() {
    for (model, window) in [
        ("gpt-5.6", 1_050_000),
        ("gpt-5.6-luna", 1_050_000),
        ("gpt-5.2-codex", 400_000),
        ("gpt-5-codex", 400_000),
        ("x-opus-y", 200_000),
        ("x-haiku", 200_000),
        ("gpt-4", 128_000),
        ("gpt-3.5-turbo", 16_000),
        ("other", 128_000),
    ] {
        assert_eq!(built_in_metadata(model).context_window, window, "{model}");
    }
}

#[test]
fn amounts_are_written_in_dollars() {
    let shown = |charge: f64| {
        let mut tracker = CostTracker::new("unknown-model");
        tracker.add_usage(&usage(0, 0, 0, 0), Some(picodollars(charge)));
        (tracker.shown_cost(), summary_of(&tracker))
    };
    assert_eq!(shown(18.0).1, "Cost: $18.0000 | Tokens: 0in / 0out");
    assert_eq!(shown(0.0046).1, "Cost: $0.0046 | Tokens: 0in / 0out");
    assert_eq!(shown(0.00045).1, "Cost: $0.0004 | Tokens: 0in / 0out");
    assert_eq!(shown(0.00003125).1, "Cost: $0.00003125 | Tokens: 0in / 0out");
    assert_eq!(shown(0.0).0, Some((0, 4)));
    assert_eq!(shown(0.0001).0, Some((100_000_000, 4)));
    assert_eq!(shown(0.00009999).0, Some((99_990_000, 8)));
    assert_eq!(CostTracker::new("unknown-model").shown_cost(), None);
}

#[test]
fn usage_and_charges_add_up_over_any_number_of_responses() {
    let price = ModelPricing { input: 3, output: 5, cache_read: 7, cache_write: 11 };
    let mut priced = CostTracker::new("unknown-model");
    priced.set_pricing_override(Some(price));
    let mut charged = CostTracker::new("unknown-model");
    let mut unpriced = CostTracker::new("unknown-model");
    for i in 1..=10u32 {
        let used = usage(i, 2 * i, 3 * i, 4 * i);
        priced.add_usage(&used, None);
        charged.add_usage(&used, if i % 2 == 0 { Some(u128::from(i)) } else { None });
        unpriced.add_usage(&used, None);
    }
    assert_eq!((priced.input_tokens, priced.output_tokens), (55, 110));
    assert_eq!((priced.cache_read_tokens, priced.cache_creation_tokens), (165, 220));
    assert_eq!(priced.total_cost(), 55 * 3 + 110 * 5 + 165 * 7 + 220 * 11);
    assert_eq!(charged.total_cost(), 2 + 4 + 6 + 8 + 10);
    assert_eq!(unpriced.total_cost(), 0);
}

#[test]
fn serializes_stable_one_shot_contract() {
    let mut cost = CostTracker::new("unknown-model");
    cost.add_usage(&usage(12, 4, 8, 2), Some(picodollars(0.00042)));

    let output = OneShotOutput::new("done", "test/model", &cost);

    assert_eq!(output.schema_version, 1);
    assert_eq!(output.result, "done");
    assert_eq!(output.model, "test/model");
    assert_eq!(output.usage.input_tokens, 12);
    assert_eq!(output.usage.output_tokens, 4);
    assert_eq!(output.usage.cache_read_tokens, 8);
    assert_eq!(output.usage.cache_creation_tokens, 2);
    assert_eq!(output.usage.cost, Some(picodollars(0.00042)));
}

#[test]
fn writes_complete_tool_trace_without_changing_one_shot_contract() {
    let mut cost = CostTracker::new("test/model");
    cost.add_usage(&usage(3, 2, 1, 0), Some(picodollars(0.0001)));
    let messages = vec![Message::user("diagnose the service")];
    let tool_trace = vec![ToolTraceEntry {
        id: "tool-1".to_string(),
        name: "Bash".to_string(),
        input: Json::parse(r#"{"command": "docker ps"}"#).unwrap(),
        output: "container-id\n".to_string(),
        is_error: false,
        read_only: true,
        started_after_ms: 120,
        duration_ms: 45,
    }];
    let transcript = OneShotTranscript::new(
        "test/model",
        &cost,
        &messages,
        &tool_trace,
        ExecutionTiming {
            total_duration_ms: 500,
            model_rounds: vec![ModelTraceEntry {
                index: 1,
                started_after_ms: 0,
                duration_ms: 75,
                status: "completed".to_string(),
                usage: Some(ModelRoundUsage {
                    input_tokens: 3,
                    output_tokens: 2,
                    cache_read_tokens: 1,
                    cache_creation_tokens: 0,
                    cost: Some(picodollars(0.0001)),
                }),
            }],
        },
        Some("done"),
        None,
    );

    assert_eq!(transcript.schema_version, 2);
    assert!(matches!(transcript.outcome, TranscriptOutcome::Completed { result: "done" }));
    assert!(matches!(
        &transcript.messages[0].content,
        MessageContent::Text(text) if text == "diagnose the service"
    ));
    assert_eq!(transcript.tool_trace[0].input.text_at("command"), Some("docker ps"));
    assert_eq!(transcript.tool_trace[0].output, "container-id\n");
    assert_eq!(transcript.tool_trace[0].duration_ms, 45);
    assert_eq!(transcript.timing.total_duration_ms, 500);
    assert_eq!(transcript.timing.model_rounds[0].duration_ms, 75);
    assert_eq!(transcript.timing.model_rounds[0].usage.as_ref().unwrap().input_tokens, 3);
}

#[test]
fn records_failed_outcome() {
    let cost = CostTracker::new("test/model");
    let transcript = OneShotTranscript::new(
        "test/model",
        &cost,
        &[],
        &[],
        ExecutionTiming { total_duration_ms: 0, model_rounds: vec![] },
        None,
        Some("provider disconnected"),
    );

    assert!(matches!(
        transcript.outcome,
        TranscriptOutcome::Error { message: "provider disconnected" }
    ));
}

#[test]
fn cached_tokens_are_not_counted_as_fresh_input() {
    let counted = Usage::from_openai_totals(194, 2, 40, 10, vec![]);
    assert_eq!(counted.input_tokens, 144);
    assert_eq!(counted.cache_read_tokens, 40);
    assert_eq!(counted.cache_creation_tokens, 10);
    assert_eq!(Usage::from_openai_totals(30, 2, 40, 10, vec![]).input_tokens, 0);
}

#[test]
fn a_summary_has_a_cost_where_one_is_known() {
    let mut tracker = CostTracker::new("unknown-model");
    assert_eq!(tracker.usage_summary().cost, None);
    tracker.add_usage(&usage(1, 0, 0, 0), Some(5));
    assert_eq!(tracker.usage_summary().cost, Some(5));
    assert_eq!(tracker.usage_summary().input_tokens, 1);
}
