use claux::api::anthropic::{add_cache_breakpoints, AnthropicProvider};
use claux::api::stream::{AnthropicReader, ApiEvent, ReadStatus};
use claux::api::lines::Utf8LineDecoder;
use claux::api::types::{ContentBlock, Message, ToolDefinition};
use claux::api::wire::messages_to_json;
use claux::config::{AnthropicApiKey, AuthMethod};
use claux::json::Json;

fn body_with(messages: Vec<Message>) -> Json {
    Json::Object(vec![
        ("model".to_string(), Json::text("sonnet-test")),
        (
            "system".to_string(),
            Json::parse(r#"[{"type":"text","text":"block a"},{"type":"text","text":"block b"}]"#)
                .unwrap(),
        ),
        ("messages".to_string(), Json::Array(messages_to_json(&messages))),
    ])
}

#[test]
fn marks_last_system_block_only() {
    let mut body = body_with(vec![Message::user("hi")]);
    add_cache_breakpoints(&mut body);

    let body = body.to_value();
    let system = body["system"].as_array().unwrap();
    assert!(system[0].get("cache_control").is_none());
    assert_eq!(system[1]["cache_control"]["type"], "ephemeral");
}

#[test]
fn lifts_string_content_to_cached_text_block() {
    let mut body = body_with(vec![Message::user("hello")]);
    add_cache_breakpoints(&mut body);

    let body = body.to_value();
    let content = body["messages"][0]["content"].as_array().unwrap();
    assert_eq!(content.len(), 1);
    assert_eq!(content[0]["type"], "text");
    assert_eq!(content[0]["text"], "hello");
    assert_eq!(content[0]["cache_control"]["type"], "ephemeral");
}

#[test]
fn marks_last_two_user_messages_not_assistant() {
    let mut body = body_with(vec![
        Message::user("first"),
        Message::assistant_text("reply one"),
        Message::user("second"),
        Message::assistant_text("reply two"),
        Message::user("third"),
    ]);
    add_cache_breakpoints(&mut body);

    let body = body.to_value();
    let messages = body["messages"].as_array().unwrap();
    assert!(messages[0]["content"].is_string());
    assert!(messages[1]["content"].is_string());
    assert!(messages[3]["content"].is_string());
    assert_eq!(messages[2]["content"][0]["cache_control"]["type"], "ephemeral");
    assert_eq!(messages[4]["content"][0]["cache_control"]["type"], "ephemeral");
}

#[test]
fn marks_final_block_of_tool_results_message() {
    let mut body = body_with(vec![Message::tool_results(vec![
        ContentBlock::ToolResult {
            tool_use_id: "tu_1".to_string(),
            content: "one".to_string(),
            is_error: None,
        },
        ContentBlock::ToolResult {
            tool_use_id: "tu_2".to_string(),
            content: "two".to_string(),
            is_error: None,
        },
    ])]);
    add_cache_breakpoints(&mut body);

    let body = body.to_value();
    let content = body["messages"][0]["content"].as_array().unwrap();
    assert!(content[0].get("cache_control").is_none());
    assert_eq!(content[1]["cache_control"]["type"], "ephemeral");
    assert_eq!(content[1]["type"], "tool_result");
    assert_eq!(content[1]["tool_use_id"], "tu_2");
}

#[test]
fn total_breakpoints_never_exceed_api_limit() {
    let mut messages = Vec::new();
    for i in 0..10 {
        messages.push(Message::user(&format!("turn {i}")));
        messages.push(Message::assistant_text(&format!("reply {i}")));
    }
    let mut body = body_with(messages);
    add_cache_breakpoints(&mut body);
    let body = body.to_value();

    let count = |v: &serde_json::Value| -> usize {
        let mut n = 0;
        if let Some(arr) = v.as_array() {
            for item in arr {
                if item.get("cache_control").is_some() {
                    n += 1;
                }
                if let Some(content) = item["content"].as_array() {
                    n += content.iter().filter(|b| b.get("cache_control").is_some()).count();
                }
            }
        }
        n
    };

    let total = count(&body["system"]) + count(&body["messages"]);
    assert_eq!(total, 3);
}

#[test]
fn request_holds_system_blocks_messages_and_tools() {
    let provider = AnthropicProvider::new(
        AuthMethod::ApiKey(AnthropicApiKey::new("key".to_string())),
        "sonnet-x",
    );
    assert_eq!(provider.api_url, "https://api.anthropic.com/v1/messages");
    assert!(matches!(&provider.auth, AuthMethod::ApiKey(key) if key.expose() == "key"));
    assert!(provider.request_headers().contains(&("x-api-key".to_string(), "key".to_string())));
    assert_eq!(provider.name(), "anthropic");
    let tools = [ToolDefinition {
        name: "Read".to_string(),
        description: "Read a file".to_string(),
        input_schema: Json::parse(r#"{"type":"object"}"#).unwrap(),
    }];
    let body = provider
        .request_body(&[Message::user("hi")], "one\n__CLAUX_BLOCK__\ntwo", &tools, 77)
        .to_value();
    assert_eq!(body["model"], "sonnet-x");
    assert_eq!(body["max_tokens"], 77);
    assert_eq!(body["stream"], true);
    assert_eq!(body["system"][0]["text"], "one");
    assert_eq!(body["system"][1]["text"], "two");
    assert_eq!(body["system"][1]["cache_control"]["type"], "ephemeral");
    assert_eq!(body["tools"][0]["name"], "Read");
    let without = provider.request_body(&[Message::user("hi")], "s", &[], 1).to_value();
    assert!(without.get("tools").is_none());
}

#[test]
fn a_gateway_gets_its_own_url() {
    let key = AnthropicApiKey::new("key".to_string());
    let provider = AnthropicProvider::with_base_url(key, "m", "https://gateway.example/v1//");
    assert_eq!(provider.api_url, "https://gateway.example/v1/messages");
}

#[test]
fn decoder_preserves_utf8_split_across_chunks() {
    let data = "data: café\n";
    let split = data.find('é').unwrap() + 1;
    let mut decoder = Utf8LineDecoder::default();

    assert!(decoder.push(&data.as_bytes()[..split]).unwrap().is_empty());
    assert_eq!(decoder.push(&data.as_bytes()[split..]).unwrap(), vec!["data: café"]);
    decoder.finish().unwrap();
}

#[test]
fn decoder_rejects_invalid_utf8() {
    let mut decoder = Utf8LineDecoder::default();
    assert!(decoder.push(b"data: \xff\n").is_err());
}

#[test]
fn decoder_gives_the_same_lines_however_the_bytes_are_cut() {
    let data = "one\r\ntwo ü\n\nthree".as_bytes();
    for split in 0..data.len() {
        let mut decoder = Utf8LineDecoder::default();
        let mut lines = decoder.push(&data[..split]).unwrap();
        lines.extend(decoder.push(&data[split..]).unwrap());
        assert_eq!(lines.len(), 3);
        assert_eq!(lines[1], "two ü");
        assert_eq!(decoder.pending_bytes(), b"three");
    }
}

#[test]
fn rejects_eof_before_message_stop() {
    let mut reader = AnthropicReader::new();
    let (events, status) = reader.read_sse_stream(
        b"data: {\"type\":\"content_block_delta\",\"delta\":{\"type\":\"text_delta\",\"text\":\"partial\"}}\n\n",
        "sonnet-test",
    );
    assert!(matches!(status, ReadStatus::Going));
    let error = reader.end_of_stream();
    assert!(error.contains("before message_stop"));
    assert_eq!(events.len(), 1);
    assert!(matches!(&events[0], ApiEvent::Text(text) if text == "partial"));
}

#[test]
fn stream_malformed_event_json_fails_the_stream() {
    let mut reader = AnthropicReader::new();
    let (events, status) = reader.read_sse_stream(b"data: {not json}\n\n", "sonnet-test");
    let ReadStatus::Failed(error) = status else {
        panic!("expected a failure");
    };
    assert!(error.message.contains("invalid JSON"));
    assert!(events.is_empty());
}

#[test]
fn stream_malformed_tool_arguments_fail_the_stream() {
    let mut reader = AnthropicReader::new();
    let (events, status) = reader.read_sse_stream(
        b"data: {\"type\":\"content_block_start\",\"content_block\":{\"type\":\"tool_use\",\"id\":\"tool-1\",\"name\":\"Read\",\"input\":{}}}\n\ndata: {\"type\":\"content_block_delta\",\"delta\":{\"type\":\"input_json_delta\",\"partial_json\":\"{\"}}\n\ndata: {\"type\":\"content_block_stop\"}\n\ndata: {\"type\":\"message_stop\"}\n\n",
        "sonnet-test",
    );
    let ReadStatus::Failed(error) = status else {
        panic!("expected a failure");
    };
    assert!(error.message.contains("invalid arguments"));
    assert!(events.is_empty());
}

#[test]
fn empty_object_tool_arguments_are_emitted() {
    let mut reader = AnthropicReader::new();
    let (events, status) = reader.read_sse_stream(
        b"data: {\"type\":\"content_block_start\",\"content_block\":{\"type\":\"tool_use\",\"id\":\"tool-1\",\"name\":\"Status\",\"input\":{}}}\n\ndata: {\"type\":\"content_block_stop\"}\n\ndata: {\"type\":\"message_stop\"}\n\n",
        "sonnet-test",
    );
    assert!(matches!(status, ReadStatus::Finished));
    assert_eq!(events.len(), 3);
    assert!(matches!(
        &events[0],
        ApiEvent::ToolUse { id, name, input }
            if id == "tool-1" && name == "Status" && input.render() == "{}"
    ));
    assert!(matches!(&events[1], ApiEvent::Usage(_)));
    assert!(matches!(&events[2], ApiEvent::Done));
}

#[test]
fn a_stream_reads_the_same_in_one_piece_and_byte_by_byte() {
    let data: &[u8] = b"data: {\"type\":\"content_block_delta\",\"delta\":{\"type\":\"text_delta\",\"text\":\"caf\xc3\xa9\"}}\n\ndata: {\"type\":\"message_stop\"}\n\n";
    let mut whole = AnthropicReader::new();
    let (once, status) = whole.read_sse_stream(data, "m");
    assert!(matches!(status, ReadStatus::Finished));
    let mut pieces = AnthropicReader::new();
    let mut events = Vec::new();
    for byte in data {
        let (more, status) = pieces.read_sse_stream(std::slice::from_ref(byte), "m");
        events.extend(more);
        if matches!(status, ReadStatus::Finished) {
            break;
        }
    }
    assert_eq!(events.len(), once.len());
    assert!(matches!(&events[0], ApiEvent::Text(t) if t == "café"));
}

#[test]
fn a_token_is_sent_in_place_of_a_key() {
    let provider = AnthropicProvider::new(AuthMethod::OAuthToken("token".to_string()), "m");
    let headers = provider.request_headers();
    assert!(headers.contains(&("Authorization".to_string(), "Bearer token".to_string())));
    assert!(headers.contains(&("anthropic-beta".to_string(), "oauth-2025-04-20".to_string())));
    assert!(headers.iter().all(|(name, _)| name != "x-api-key"));
}

#[test]
fn events_are_taken_in_one_by_one() {
    let mut reader = AnthropicReader::new();
    let mut events = Vec::new();
    let start = r#"{"type":"message_start","message":{"usage":{"input_tokens":7,"output_tokens":1}}}"#;
    let delta = r#"{"type":"content_block_delta","delta":{"type":"text_delta","text":"hi"}}"#;
    let stop = r#"{"type":"message_stop"}"#;
    for event in [start, delta] {
        let status = reader.take_event(&Json::parse(event).unwrap(), "m", &mut events);
        assert!(matches!(status, ReadStatus::Going));
    }
    assert!(matches!(&events[..], [ApiEvent::Text(text)] if text == "hi"));
    let status = reader.take_event(&Json::parse(stop).unwrap(), "m", &mut events);
    assert!(matches!(status, ReadStatus::Finished));
    assert!(matches!(&events[1], ApiEvent::Usage(usage) if usage.input_tokens == 7));
    assert!(matches!(&events[2], ApiEvent::Done));
}
