use claux::api::openai_responses::{
    convert_messages, convert_tools, translate_event, OpenAIResponsesProvider, ResponseCursor,
    ResponsesReader,
};
use claux::api::stream::{ApiEvent, ReadStatus};
use claux::api::types::{ContentBlock, Message, ToolDefinition};
use claux::json::Json;

fn json(text: &str) -> Json {
    Json::parse(text).unwrap()
}

fn tool_use(id: &str) -> Message {
    Message::assistant_blocks(vec![ContentBlock::ToolUse {
        id: id.to_string(),
        name: "Read".to_string(),
        input: json(r#"{"file_path":"/tmp/a"}"#),
    }])
}

fn tool_result(id: &str) -> Message {
    Message::tool_results(vec![ContentBlock::ToolResult {
        tool_use_id: id.to_string(),
        content: "contents".to_string(),
        is_error: None,
    }])
}

fn provider_for_cursor_tests() -> OpenAIResponsesProvider {
    OpenAIResponsesProvider::new("https://api.openai.com/v1", "key", "gpt-5.6-sol", "openai", None)
}

#[test]
fn maps_tools_to_responses_shape() {
    let tools = convert_tools(&[ToolDefinition {
        name: "Read".to_string(),
        description: "Read a file".to_string(),
        input_schema: json(r#"{"type":"object"}"#),
    }]);
    let tool = tools[0].to_value();
    assert_eq!(tool["type"], "function");
    assert_eq!(tool["name"], "Read");
    assert!(tool.get("function").is_none());
}

#[test]
fn continuation_sends_only_function_outputs() {
    let messages = vec![tool_use("call_1"), tool_result("call_1")];
    let input = convert_messages(&messages, true);
    assert_eq!(input.len(), 1);
    assert_eq!(input[0].text_at("type"), Some("function_call_output"));
    assert_eq!(input[0].text_at("call_id"), Some("call_1"));
}

#[test]
fn resetting_session_drops_previous_response_cursor() {
    let mut provider = provider_for_cursor_tests();
    provider.cursor = ResponseCursor {
        response_id: Some("resp_previous_session".to_string()),
        sent_message_count: 1,
    };

    provider.reset_session();

    let messages = vec![Message::user("new session")];
    let (input, previous_response_id, _) = provider.build_input(&messages);
    assert!(previous_response_id.is_none());
    assert_eq!(input.len(), 1);
    assert_eq!(input[0].text_at("content"), Some("new session"));
}

fn two_round_requests(first: &[Message], second: &[Message]) -> Vec<serde_json::Value> {
    let mut provider = OpenAIResponsesProvider::new("http://localhost", "key", "m", "openai", None);
    let mut requests = Vec::new();
    for (id, messages) in [("resp_1", first), ("resp_2", second)] {
        let (body, sent) = provider.request_body(messages, "system", &[], 1_000);
        requests.push(body.to_value());
        let mut reader = ResponsesReader::new(
            ResponseCursor {
                response_id: provider.cursor.response_id.clone(),
                sent_message_count: provider.cursor.sent_message_count,
            },
            sent,
        );
        let frame = format!(
            "data: {{\"type\":\"response.completed\",\"response\":{{\"id\":\"{id}\",\"usage\":{{}}}}}}\n\n"
        );
        let (_, status) = reader.read_responses_sse(frame.as_bytes(), "openai", "m");
        assert!(matches!(status, ReadStatus::Going));
        assert!(matches!(reader.end_of_stream(), ReadStatus::Finished));
        provider.cursor = ResponseCursor {
            response_id: reader.cursor().response_id.clone(),
            sent_message_count: reader.cursor().sent_message_count,
        };
    }
    requests
}

#[test]
fn a_turn_appending_no_assistant_message_does_not_drop_the_next_user_message() {
    let requests = two_round_requests(
        &[Message::user("first")],
        &[Message::user("first"), Message::user("second")],
    );

    let second = &requests[1];
    assert_eq!(second["previous_response_id"], "resp_1");
    let input = second["input"].as_array().unwrap();
    assert!(!input.is_empty(), "the user message must not be dropped: {second}");
    assert_eq!(input[0]["content"], "second");
}

#[test]
fn steering_messages_appended_mid_turn_are_all_sent() {
    let requests = two_round_requests(
        &[Message::user("first")],
        &[
            Message::user("first"),
            Message::assistant_text("working on it"),
            Message::user("steer one"),
            Message::user("steer two"),
        ],
    );

    let second = &requests[1];
    assert_eq!(second["previous_response_id"], "resp_1");
    let contents: Vec<&str> = second["input"]
        .as_array()
        .unwrap()
        .iter()
        .filter_map(|item| item["content"].as_str())
        .collect();
    assert_eq!(contents, ["working on it", "steer one", "steer two"]);
}

#[test]
fn a_tool_round_continues_from_the_previous_response() {
    let requests = two_round_requests(
        &[Message::user("first")],
        &[Message::user("first"), tool_use("call_1"), tool_result("call_1")],
    );

    let second = &requests[1];
    assert_eq!(second["previous_response_id"], "resp_1");
    let input = second["input"].as_array().unwrap();
    assert_eq!(input.len(), 1, "only the tool result is new: {second}");
    assert_eq!(input[0]["type"], "function_call_output");
    assert_eq!(input[0]["call_id"], "call_1");
}

#[test]
fn an_empty_delta_resends_the_conversation_instead_of_continuing_blindly() {
    let mut provider = provider_for_cursor_tests();
    let messages = vec![Message::user("first")];
    let (_, _, sent) = provider.build_input(&messages);
    provider.cursor = ResponseCursor {
        response_id: Some("resp_1".to_string()),
        sent_message_count: sent,
    };

    let (input, previous_response_id, _) = provider.build_input(&messages);

    assert!(previous_response_id.is_none());
    assert_eq!(input.len(), 1);
    assert_eq!(input[0].text_at("content"), Some("first"));
}

#[test]
fn compaction_shrinking_history_falls_back_to_a_full_resend() {
    let mut provider = provider_for_cursor_tests();
    provider.cursor = ResponseCursor {
        response_id: Some("resp_1".to_string()),
        sent_message_count: 12,
    };

    let messages = vec![
        Message::user("Here is a summary of our conversation so far:"),
        Message::assistant_text("summary body"),
    ];
    let (input, previous_response_id, _) = provider.build_input(&messages);

    assert!(previous_response_id.is_none());
    assert_eq!(input.len(), 2);
    assert_eq!(
        input[0].text_at("content"),
        Some("Here is a summary of our conversation so far:")
    );
}

#[test]
fn a_completed_response_records_the_count_of_messages_actually_sent() {
    let mut reader =
        ResponsesReader::new(ResponseCursor { response_id: None, sent_message_count: 0 }, 3);
    let (_, status) = reader.read_responses_sse(
        b"data: {\"type\":\"response.completed\",\"response\":{\"id\":\"resp_7\",\"usage\":{}}}\n\n",
        "openai",
        "gpt-5.6-sol",
    );
    assert!(matches!(status, ReadStatus::Going));
    assert!(matches!(reader.end_of_stream(), ReadStatus::Finished));
    assert_eq!(reader.cursor().response_id.as_deref(), Some("resp_7"));
    assert_eq!(
        reader.cursor().sent_message_count, 3,
        "the cursor must record what was sent, not a prediction"
    );
}

#[test]
fn translates_text_tool_and_usage_events() {
    let text = translate_event(
        &json(r#"{"type":"response.output_text.delta","delta":"hello"}"#),
        "openai",
        "model",
    );
    assert!(matches!(&text[0], ApiEvent::Text(value) if value == "hello"));

    let tool = translate_event(
        &json(
            r#"{"type":"response.output_item.done","item":{"type":"function_call","call_id":"call_7","name":"Read","arguments":"{\"file_path\":\"/tmp/a\"}"}}"#,
        ),
        "openai",
        "model",
    );
    assert!(matches!(
        &tool[0],
        ApiEvent::ToolUse { id, name, .. } if id == "call_7" && name == "Read"
    ));

    let completed = translate_event(
        &json(
            r#"{"type":"response.completed","response":{"usage":{"input_tokens":12,"output_tokens":4,"input_tokens_details":{"cached_tokens":3,"cache_write_tokens":2},"cost":0.0042}}}"#,
        ),
        "openai",
        "model",
    );
    let ApiEvent::Usage(usage) = &completed[0] else {
        panic!("expected usage");
    };
    assert_eq!(usage.input_tokens, 12);
    assert_eq!(usage.output_tokens, 4);
    assert_eq!(usage.cache_read_tokens, 3);
    assert_eq!(usage.cache_creation_tokens, 2);
    let cost = usage.cost_reports.last().unwrap().to_value().as_f64().unwrap();
    assert!((cost - 0.0042).abs() < f64::EPSILON);
    assert!(matches!(completed[1], ApiEvent::Done));

    let failed = translate_event(
        &json(
            r#"{"type":"response.failed","response":{"error":{"code":"server_error","message":"Rate limited"},"error_type":"rate_limit_exceeded"}}"#,
        ),
        "openrouter",
        "moonshotai/kimi-k3",
    );
    assert!(matches!(
        &failed[0],
        ApiEvent::Error(error)
            if error.message.contains("429 Too Many Requests")
                && error.message.contains("moonshotai/kimi-k3")
    ));
}

#[test]
fn terminal_failure_emits_one_actionable_error() {
    let mut reader =
        ResponsesReader::new(ResponseCursor { response_id: None, sent_message_count: 0 }, 0);
    let (events, status) = reader.read_responses_sse(
        b"data: {\"type\":\"response.failed\",\"response\":{\"error\":{\"code\":\"rate_limit_exceeded\",\"message\":\"upstream limit\"}}}\n\n",
        "openrouter",
        "deepseek/deepseek-r1",
    );
    assert!(matches!(status, ReadStatus::Finished));
    assert_eq!(events.len(), 1);
    assert!(matches!(
        &events[0],
        ApiEvent::Error(error)
            if error.message.contains("429 Too Many Requests")
                && error.message.contains("deepseek/deepseek-r1")
    ));
}

#[test]
fn an_unfinished_stream_is_an_error() {
    let mut reader =
        ResponsesReader::new(ResponseCursor { response_id: None, sent_message_count: 0 }, 1);
    let (events, status) = reader.read_responses_sse(
        b"data: {\"type\":\"response.output_text.delta\",\"delta\":\"x\"}\n\n",
        "openai",
        "m",
    );
    assert_eq!(events.len(), 1);
    assert!(matches!(status, ReadStatus::Going));
    assert!(matches!(reader.end_of_stream(), ReadStatus::Failed(_)));
    assert!(reader.cursor().response_id.is_none());
}

#[test]
fn requests_keep_the_response_on_the_server() {
    let provider = provider_for_cursor_tests();
    let (body, sent) = provider.request_body(&[Message::user("hi")], "system", &[], 9);
    let body = body.to_value();
    assert_eq!(sent, 1);
    assert_eq!(body["store"], true);
    assert_eq!(body["instructions"], "system");
    assert_eq!(body["max_output_tokens"], 9);
    assert!(body.get("previous_response_id").is_none());
    assert_eq!(provider.request_url(), "https://api.openai.com/v1/responses");
}
