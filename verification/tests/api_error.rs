use claux::api::error::{
    classify, classify_reader_error, format_error, http_error, stream_error, ApiFailure,
    ApiFailureKind,
};
use claux::json::Json;

fn json(text: &str) -> Json {
    Json::parse(text).unwrap()
}

#[test]
fn formats_rate_limit_with_retry_after() {
    let message = format_error(
        "openrouter",
        "poolside/laguna",
        Some(429),
        Some("60"),
        Some("rate_limit_exceeded"),
        Some("Rate limit exceeded"),
    );

    assert!(message.contains("429 Too Many Requests"));
    assert!(message.contains("poolside/laguna"));
    assert!(message.contains("rate_limit_exceeded"));
    assert!(message.contains("Retry after 60"));
}

#[test]
fn extracts_openrouter_stream_error() {
    let event = json(
        r#"{"error":{"code":429,"message":"upstream limit","metadata":{"error_type":"rate_limit_exceeded"}}}"#,
    );

    let message = stream_error(&event, "openrouter", "model").message;

    assert!(message.contains("429 Too Many Requests"));
    assert!(message.contains("upstream limit"));
    assert!(message.contains("choose another model/provider"));
}

#[test]
fn extracts_responses_error_type() {
    let event = json(
        r#"{"type":"response.failed","response":{"error":{"code":"server_error","message":"Rate limited"},"error_type":"rate_limit_exceeded"}}"#,
    );

    let message = stream_error(&event, "openrouter", "model").message;

    assert!(message.contains("429 Too Many Requests"));
    assert!(message.contains("rate_limit_exceeded"));
}

#[test]
fn classifies_context_and_output_limits_from_structure() {
    assert_eq!(classify(Some(413), None), ApiFailureKind::ContextExceeded);
    assert_eq!(
        classify(None, Some("context_length_exceeded")),
        ApiFailureKind::ContextExceeded
    );
    assert_eq!(
        classify(None, Some("max_tokens_exceeded")),
        ApiFailureKind::OutputLimitExceeded
    );
}

#[test]
fn rate_limits_are_not_mistaken_for_context_or_output_limits() {
    assert_eq!(
        classify(Some(429), Some("rate_limit_exceeded")),
        ApiFailureKind::Other
    );
}

#[test]
fn incidental_digits_in_a_message_do_not_trigger_compaction() {
    let event = json(
        r#"{"error":{"code":500,"message":"internal error (request req_413_88 on model gpt-4-1300)"}}"#,
    );

    let failure = stream_error(&event, "openai", "model");

    assert!(failure.message.contains("req_413_88"));
    assert_eq!(failure.kind, ApiFailureKind::Other);
}

#[test]
fn reader_errors_recover_the_malformed_tool_argument_classification() {
    let error = "invalid arguments for tool call Read (call_3): EOF while parsing a value";

    let failure = classify_reader_error(error).prefixed("OpenAI SSE stream error");

    assert_eq!(failure.kind, ApiFailureKind::MalformedToolArguments);
    assert!(failure.message.starts_with("OpenAI SSE stream error: "));
    assert!(failure.message.contains("invalid arguments for tool call"));
}

#[test]
fn unrelated_reader_errors_stay_unclassified() {
    let error = "stream ended before message_stop";

    assert_eq!(classify_reader_error(error).kind, ApiFailureKind::Other);
}

#[test]
fn http_errors_carry_their_classification_through_anyhow() {
    let failure = http_error(
        413,
        None,
        "{\"error\":{\"message\":\"prompt is too long\"}}",
        "anthropic",
        "sonnet-test",
    );

    assert_eq!(failure.kind, ApiFailureKind::ContextExceeded);
    assert!(failure.message.contains("prompt is too long"));
}

#[test]
fn a_body_that_is_no_json_is_shown_as_it_is() {
    let failure = http_error(502, Some("7"), "upstream down", "openai", "m");
    assert!(failure.message.contains("502 Bad Gateway"));
    assert!(failure.message.contains("upstream down"));
    assert!(failure.message.contains("The provider may be unavailable"));
    assert_eq!(failure.kind, ApiFailureKind::Other);
}

#[test]
fn failures_keep_their_kind_when_they_are_prefixed() {
    let failure = ApiFailure::output_limit_exceeded("cut".to_string()).prefixed("stream");
    assert_eq!(failure.message, "stream: cut");
    assert_eq!(failure.kind, ApiFailureKind::OutputLimitExceeded);
    assert_eq!(
        ApiFailure::malformed_tool_arguments("x".to_string()).kind,
        ApiFailureKind::MalformedToolArguments
    );
    assert_eq!(ApiFailure::other("x".to_string()).kind, ApiFailureKind::Other);
}
