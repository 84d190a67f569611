use claux::api::diagnostics::{Header, OpenAIStreamDiagnostics};
use claux::api::error::ApiFailureKind;
use claux::api::openai_compat::OpenAICompatProvider;
use claux::api::openai_stream::OpenAIReader;
use claux::api::stream::{ApiEvent, ReadStatus};
use claux::api::types::{ContentBlock, ImageSource, Message, ToolDefinition};
use claux::json::Json;

fn json(text: &str) -> Json {
    Json::parse(text).unwrap()
}

fn reader() -> OpenAIReader {
    OpenAIReader::new(OpenAIStreamDiagnostics::from_response(200, &vec![]))
}

fn read(body: &str, provider: &str, model: &str, allow_eof: bool) -> (Vec<ApiEvent>, ReadStatus) {
    let mut reader = reader();
    let (mut events, status) = reader.read_openai_sse_body(body.as_bytes(), provider, model);
    if !matches!(status, ReadStatus::Going) {
        return (events, status);
    }
    let (more, status) = reader.end_of_stream(allow_eof);
    events.extend(more);
    (events, status)
}

fn cost(reports: &[Json]) -> Option<f64> {
    reports
        .iter()
        .filter_map(|report| {
            let value = report.to_value();
            value
                .as_f64()
                .or_else(|| value.as_str().and_then(|text| text.parse().ok()))
                .filter(|cost: &f64| cost.is_finite() && *cost >= 0.0)
        })
        .last()
}

#[test]
fn requests_streamed_usage() {
    let provider =
        OpenAICompatProvider::new("https://api.openai.com/v1", "key", "model", "openai", None);
    let body = provider.request_body(&[Message::user("hello")], "system", &[], 1_000).to_value();

    assert_eq!(body["stream_options"]["include_usage"], true);
    assert!(body.get("reasoning").is_none());
    assert!(body.get("cache_control").is_none());
}

#[test]
fn converts_image_blocks_to_openai_content_parts() {
    let messages = vec![Message::user_with_images(
        "describe it",
        vec![ImageSource {
            source_type: "base64".to_string(),
            media_type: "image/png".to_string(),
            data: "aGVsbG8=".to_string(),
        }],
    )];
    let converted = OpenAICompatProvider::convert_messages(&messages, "system");
    let message = converted[1].to_value();
    let content = message["content"].as_array().unwrap();
    assert_eq!(content[0], json(r#"{"type":"text","text":"describe it"}"#).to_value());
    assert_eq!(content[1]["type"], "image_url");
    assert_eq!(content[1]["image_url"]["url"], "data:image/png;base64,aGVsbG8=");
}

#[test]
fn enables_provider_prompt_caching_when_configured() {
    let provider = OpenAICompatProvider::new(
        "https://openrouter.ai/api/v1",
        "key",
        "model",
        "openrouter",
        None,
    )
    .with_prompt_caching(true);
    let body = provider.request_body(&[Message::user("hello")], "system", &[], 1_000).to_value();

    assert_eq!(body["cache_control"]["type"], "ephemeral");
}

#[test]
fn sends_reasoning_effort_and_replays_reasoning_details() {
    let provider = OpenAICompatProvider::new(
        "https://openrouter.ai/api/v1",
        "key",
        "model",
        "openrouter",
        Some("low"),
    );
    let messages = vec![Message::assistant_blocks(vec![
        ContentBlock::Reasoning {
            text: Some("private thought".to_string()),
            details: vec![json(
                r#"{"type":"reasoning.text","text":"preserved thought","index":0}"#,
            )],
        },
        ContentBlock::ToolUse {
            id: "call-1".to_string(),
            name: "Read".to_string(),
            input: json(r#"{"file_path":"/tmp/test"}"#),
        },
    ])];

    let body = provider.request_body(&messages, "system", &[], 1_000).to_value();

    assert_eq!(body["reasoning"]["effort"], "low");
    assert_eq!(body["messages"][1]["reasoning_details"][0]["text"], "preserved thought");
    assert!(body["messages"][1].get("reasoning").is_none());
    assert_eq!(body["messages"][1]["tool_calls"][0]["id"], "call-1");
}

#[test]
fn rejects_eof_before_finish_reason() {
    let (events, status) = read(
        "data: {\"choices\":[{\"delta\":{\"content\":\"partial\"},\"finish_reason\":null}]}\n\n",
        "openai",
        "model",
        false,
    );
    let ReadStatus::Failed(error) = status else {
        panic!("expected a failure");
    };
    assert!(error.message.contains("before a finish reason"));
    assert!(error.message.contains("\"status\":200"));
    assert!(error.message.contains("\\\"content\\\":\\\"partial\\\""));
    assert!(error.message.contains("\"partial_tail\":null"));
    assert_eq!(events.len(), 1);
    assert!(matches!(&events[0], ApiEvent::Text(text) if text == "partial"));
}

#[test]
fn provider_policy_can_accept_clean_eof_without_finish_reason() {
    let (events, status) = read(
        "data: {\"choices\":[{\"delta\":{\"content\":\"complete\"},\"finish_reason\":null}]}\n\n",
        "compatible",
        "model",
        true,
    );
    assert!(matches!(status, ReadStatus::Finished));
    assert!(matches!(&events[0], ApiEvent::Text(text) if text == "complete"));
    assert!(matches!(&events[1], ApiEvent::Usage(_)));
    assert!(matches!(&events[2], ApiEvent::Done));
}

#[test]
fn accepts_clean_eof_after_finish_reason() {
    let (events, status) = read(
        "data: {\"choices\":[{\"delta\":{\"content\":\"complete\"},\"finish_reason\":\"stop\"}]}\n\n",
        "openai",
        "model",
        false,
    );
    assert!(matches!(status, ReadStatus::Finished));
    assert!(matches!(&events[0], ApiEvent::Text(text) if text == "complete"));
    assert!(matches!(&events[1], ApiEvent::Usage(_)));
    assert!(matches!(&events[2], ApiEvent::Done));
}

#[test]
fn captures_provider_reported_cost_and_cache_usage() {
    let (events, status) = read(
        "data: {\"choices\":[{\"delta\":{\"content\":\"complete\"},\"finish_reason\":\"stop\"}]}\n\ndata: {\"choices\":[],\"usage\":{\"prompt_tokens\":194,\"completion_tokens\":2,\"cost\":0.00095,\"prompt_tokens_details\":{\"cached_tokens\":40,\"cache_write_tokens\":10}}}\n\ndata: [DONE]\n\n",
        "openrouter",
        "deepseek/deepseek-v4-flash",
        false,
    );
    assert!(matches!(status, ReadStatus::Finished));
    assert!(matches!(&events[0], ApiEvent::Text(text) if text == "complete"));
    let ApiEvent::Usage(usage) = &events[1] else {
        panic!("expected usage");
    };
    assert_eq!(usage.input_tokens, 144);
    assert_eq!(usage.output_tokens, 2);
    assert_eq!(usage.cache_read_tokens, 40);
    assert_eq!(usage.cache_creation_tokens, 10);
    assert!((cost(&usage.cost_reports).unwrap() - 0.00095).abs() < f64::EPSILON);
    assert!(matches!(&events[2], ApiEvent::Done));
}

#[test]
fn captures_string_cost_from_standalone_terminal_frame() {
    let (events, status) = read(
        "data: {\"choices\":[{\"delta\":{\"content\":\"complete\"},\"finish_reason\":\"stop\"}]}\n\ndata: {\"choices\":[],\"usage\":{\"prompt_tokens\":12,\"completion_tokens\":3}}\n\ndata: {\"choices\":[],\"cost\":\"0.001234\"}\n\ndata: [DONE]\n\n",
        "compatible",
        "model",
        false,
    );
    assert!(matches!(status, ReadStatus::Finished));
    assert!(matches!(&events[0], ApiEvent::Text(_)));
    let ApiEvent::Usage(usage) = &events[1] else {
        panic!("expected usage");
    };
    assert!((cost(&usage.cost_reports).unwrap() - 0.001234).abs() < f64::EPSILON);
    assert!(matches!(&events[2], ApiEvent::Done));
}

#[test]
fn reconstructs_streamed_reasoning_for_later_tool_rounds() {
    let (events, status) = read(
        "data: {\"choices\":[{\"delta\":{\"reasoning\":\"think \"},\"finish_reason\":null}]}\n\ndata: {\"choices\":[{\"delta\":{\"reasoning_details\":[{\"type\":\"reasoning.text\",\"text\":\"carefully\",\"index\":0}]},\"finish_reason\":null}]}\n\ndata: {\"choices\":[{\"delta\":{},\"finish_reason\":\"stop\"}]}\n\ndata: [DONE]\n\n",
        "openrouter",
        "deepseek/deepseek-v4-flash-0731",
        false,
    );
    assert!(matches!(status, ReadStatus::Finished));
    assert!(matches!(
        &events[0],
        ApiEvent::Reasoning { text: Some(text), details }
            if text == "think " && details[0].text_at("text") == Some("carefully")
    ));
    assert!(matches!(&events[1], ApiEvent::Usage(_)));
    assert!(matches!(&events[2], ApiEvent::Done));
}

#[test]
fn coalesces_gemini_reasoning_fragments_before_replay() {
    let (events, status) = read(
        "data: {\"choices\":[{\"delta\":{\"reasoning_details\":[{\"type\":\"reasoning.text\",\"text\":\"first \",\"format\":\"google-gemini-v1\",\"index\":0}]},\"finish_reason\":null}]}\n\ndata: {\"choices\":[{\"delta\":{\"reasoning_details\":[{\"type\":\"reasoning.text\",\"text\":\"second \",\"format\":\"google-gemini-v1\",\"index\":0}]},\"finish_reason\":null}]}\n\ndata: {\"choices\":[{\"delta\":{\"reasoning_details\":[{\"type\":\"reasoning.text\",\"text\":\"third\",\"format\":\"google-gemini-v1\",\"index\":0}]},\"finish_reason\":null}]}\n\ndata: {\"choices\":[{\"delta\":{\"reasoning_details\":[{\"type\":\"reasoning.encrypted\",\"data\":\"signed-\",\"id\":\"call_123\",\"format\":\"google-gemini-v1\",\"index\":0}]},\"finish_reason\":null}]}\n\ndata: {\"choices\":[{\"delta\":{\"reasoning_details\":[{\"type\":\"reasoning.encrypted\",\"data\":\"payload\",\"id\":\"call_123\",\"format\":\"google-gemini-v1\",\"index\":0}],\"tool_calls\":[{\"index\":0,\"id\":\"call_123\",\"function\":{\"name\":\"Read\",\"arguments\":\"{\\\"file_path\\\":\\\"/tmp/test\\\"}\"}}]},\"finish_reason\":\"tool_calls\"}]}\n\ndata: [DONE]\n\n",
        "openrouter",
        "google/gemini-3.7-flash",
        false,
    );
    assert!(matches!(status, ReadStatus::Finished));
    let mut events = events.into_iter();
    let Some(ApiEvent::Reasoning { text: None, details }) = events.next() else {
        panic!("expected reconstructed reasoning event");
    };
    assert_eq!(details.len(), 2);
    assert_eq!(details[0].text_at("type"), Some("reasoning.text"));
    assert_eq!(details[0].text_at("text"), Some("first second third"));
    assert_eq!(details[1].text_at("type"), Some("reasoning.encrypted"));
    assert_eq!(details[1].text_at("data"), Some("signed-payload"));
    assert_eq!(details[1].text_at("id"), Some("call_123"));

    assert!(matches!(
        events.next(),
        Some(ApiEvent::ToolUse { id, name, input })
            if id == "call_123" && name == "Read" && input.text_at("file_path") == Some("/tmp/test")
    ));
    assert!(matches!(events.next(), Some(ApiEvent::Usage(_))));
    assert!(matches!(events.next(), Some(ApiEvent::Done)));

    let provider = OpenAICompatProvider::new(
        "https://openrouter.ai/api/v1",
        "key",
        "google/gemini-3.7-flash",
        "openrouter",
        None,
    );
    let messages = vec![Message::assistant_blocks(vec![
        ContentBlock::Reasoning { text: None, details },
        ContentBlock::ToolUse {
            id: "call_123".to_string(),
            name: "Read".to_string(),
            input: json(r#"{"file_path":"/tmp/test"}"#),
        },
    ])];
    let body = provider.request_body(&messages, "system", &[], 1_000).to_value();

    assert_eq!(body["messages"][1]["reasoning_details"].as_array().unwrap().len(), 2);
    assert_eq!(body["messages"][1]["reasoning_details"][0]["text"], "first second third");
    assert_eq!(body["messages"][1]["reasoning_details"][1]["data"], "signed-payload");
}

#[test]
fn output_length_is_an_error_not_successful_completion() {
    let (events, status) = read(
        "data: {\"choices\":[{\"delta\":{\"content\":\"partial\"},\"finish_reason\":\"length\"}]}\n\n",
        "openai",
        "model",
        false,
    );
    assert!(matches!(status, ReadStatus::Finished));
    assert_eq!(events.len(), 2);
    assert!(matches!(&events[0], ApiEvent::Text(text) if text == "partial"));
    assert!(matches!(
        &events[1],
        ApiEvent::Error(error) if error.kind == ApiFailureKind::OutputLimitExceeded
    ));
}

#[test]
fn openai_compat_malformed_tool_arguments_fail_the_stream() {
    let (events, status) = read(
        "data: {\"choices\":[{\"delta\":{\"tool_calls\":[{\"index\":0,\"id\":\"call-1\",\"function\":{\"name\":\"Read\",\"arguments\":\"{\"}}]},\"finish_reason\":null}]}\n\ndata: {\"choices\":[{\"delta\":{},\"finish_reason\":\"tool_calls\"}]}\n\n",
        "openai",
        "model",
        false,
    );
    let ReadStatus::Failed(error) = status else {
        panic!("expected a failure");
    };
    assert!(error.message.contains("invalid arguments"));
    assert_eq!(error.kind, ApiFailureKind::MalformedToolArguments);
    assert!(events.is_empty());
}

#[test]
fn openai_compat_malformed_event_json_fails_the_stream() {
    let (events, status) = read("data: {not json}\n\n", "openai", "model", false);
    let ReadStatus::Failed(error) = status else {
        panic!("expected a failure");
    };
    assert!(error.message.contains("invalid JSON"));
    assert!(events.is_empty());
}

#[test]
fn surfaces_streamed_rate_limit_details() {
    let (events, status) = read(
        "data: {\"error\":{\"code\":429,\"message\":\"upstream limit\",\"metadata\":{\"error_type\":\"rate_limit_exceeded\"}},\"choices\":[{\"delta\":{\"content\":\"\"},\"finish_reason\":\"error\"}]}\n\n",
        "openrouter",
        "poolside/laguna",
        false,
    );
    assert!(matches!(status, ReadStatus::Finished));
    assert_eq!(events.len(), 1);
    assert!(matches!(
        &events[0],
        ApiEvent::Error(error)
            if error.message.contains("429 Too Many Requests")
                && error.message.contains("poolside/laguna")
                && error.message.contains("choose another model/provider")
    ));
}

#[test]
fn tool_calls_come_in_the_order_of_their_indexes() {
    let (events, status) = read(
        "data: {\"choices\":[{\"delta\":{\"tool_calls\":[{\"index\":1,\"id\":\"b\",\"function\":{\"name\":\"Two\",\"arguments\":\"{}\"}},{\"index\":0,\"id\":\"a\",\"function\":{\"name\":\"One\",\"arguments\":\"{}\"}}]},\"finish_reason\":\"tool_calls\"}]}\n\ndata: [DONE]\n\n",
        "openai",
        "model",
        false,
    );
    assert!(matches!(status, ReadStatus::Finished));
    assert!(matches!(&events[0], ApiEvent::ToolUse { id, .. } if id == "a"));
    assert!(matches!(&events[1], ApiEvent::ToolUse { id, .. } if id == "b"));
}

#[test]
fn tools_are_sent_as_functions() {
    let tools = OpenAICompatProvider::convert_tools(&[ToolDefinition {
        name: "Read".to_string(),
        description: "Read a file".to_string(),
        input_schema: json(r#"{"type":"object"}"#),
    }]);
    let tool = tools[0].to_value();
    assert_eq!(tool["type"], "function");
    assert_eq!(tool["function"]["name"], "Read");
    assert_eq!(tool["function"]["parameters"]["type"], "object");
}

#[test]
fn requests_go_below_the_base_url() {
    let mut provider =
        OpenAICompatProvider::new("http://localhost:11434/v1//", "", "llama3", "ollama", None);
    assert_eq!(provider.request_url(), "http://localhost:11434/v1/chat/completions");
    assert_eq!(provider.name(), "ollama");
    provider.set_model("other");
    assert_eq!(provider.model, "other");
}

#[test]
fn diagnostics_show_what_the_stream_ended_with() {
    let headers = vec![
        Header { name: "x-request-id".to_string(), value: Some("r1".to_string()) },
        Header { name: "set-cookie".to_string(), value: Some("secret".to_string()) },
    ];
    let mut diagnostics = OpenAIStreamDiagnostics::from_response(206, &headers);
    diagnostics.record_frame("one");
    diagnostics.record_partial_tail(b"tail\xff");
    let shown = diagnostics.render();
    assert!(shown.contains("\"status\":206"));
    assert!(shown.contains("one"));
    assert!(shown.contains("tail\u{fffd}"));
    assert!(!shown.contains("secret"));
}

#[test]
fn events_are_taken_in_one_by_one_from_openai() {
    let mut reader = reader();
    let mut events = Vec::new();
    let delta = json(r#"{"choices":[{"delta":{"content":"hi"}}]}"#);
    let status = reader.take_event(&delta, "openai", "m", &mut events);
    assert!(matches!(status, ReadStatus::Going));
    assert!(matches!(&events[..], [ApiEvent::Text(text)] if text == "hi"));
    let failure = json(r#"{"error":{"message":"overloaded"}}"#);
    let status = reader.take_event(&failure, "openai", "m", &mut events);
    assert!(matches!(status, ReadStatus::Finished));
    assert!(matches!(&events[1], ApiEvent::Error(e) if e.message.contains("overloaded")));
}
