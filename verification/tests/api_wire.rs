use claux::api::types::{ContentBlock, ImageSource, Message, MessageContent};
use claux::json::Json;

fn json(text: &str) -> Json {
    Json::parse(text).unwrap()
}

#[test]
fn user_message_has_correct_role() {
    let msg = Message::user("hello");
    assert_eq!(msg.role, "user");
}

#[test]
fn user_message_serializes() {
    let msg = Message::user("hello");
    let json = msg.to_json().to_value();
    assert_eq!(json["role"], "user");
    assert_eq!(json["content"], "hello");
}

#[test]
fn assistant_blocks_serializes_tool_use() {
    let msg = Message::assistant_blocks(vec![
        ContentBlock::Text { text: "Let me check.".to_string() },
        ContentBlock::ToolUse {
            id: "tu_123".to_string(),
            name: "Read".to_string(),
            input: json(r#"{"file_path": "/tmp/test"}"#),
        },
    ]);
    let json = msg.to_json().to_value();
    assert_eq!(json["role"], "assistant");
    let blocks = json["content"].as_array().unwrap();
    assert_eq!(blocks.len(), 2);
    assert_eq!(blocks[0]["type"], "text");
    assert_eq!(blocks[1]["type"], "tool_use");
    assert_eq!(blocks[1]["name"], "Read");
}

#[test]
fn tool_result_serializes() {
    let msg = Message::tool_results(vec![ContentBlock::ToolResult {
        tool_use_id: "tu_123".to_string(),
        content: "file contents here".to_string(),
        is_error: None,
    }]);
    let json = msg.to_json().to_value();
    assert_eq!(json["role"], "user");
    let blocks = json["content"].as_array().unwrap();
    assert_eq!(blocks[0]["type"], "tool_result");
    assert_eq!(blocks[0]["tool_use_id"], "tu_123");
    assert!(blocks[0].get("is_error").is_none());
}

#[test]
fn image_message_serializes_for_anthropic() {
    let msg = Message::user_with_images(
        "describe it",
        vec![ImageSource {
            source_type: "base64".to_string(),
            media_type: "image/png".to_string(),
            data: "aGVsbG8=".to_string(),
        }],
    );
    let json = msg.to_json().to_value();
    assert_eq!(json["content"][1]["type"], "image");
    assert_eq!(json["content"][1]["source"]["type"], "base64");
    assert_eq!(json["content"][1]["source"]["media_type"], "image/png");
}

#[test]
fn tool_result_error_serializes() {
    let block = ContentBlock::ToolResult {
        tool_use_id: "tu_456".to_string(),
        content: "not found".to_string(),
        is_error: Some(true),
    };
    let json = block.to_json().to_value();
    assert_eq!(json["is_error"], true);
}

#[test]
fn content_block_roundtrip() {
    let original = ContentBlock::Text { text: "hello".to_string() };
    let text = original.to_json().render();
    let parsed = ContentBlock::from_json(&json(&text)).unwrap();
    if let ContentBlock::Text { text } = parsed {
        assert_eq!(text, "hello");
    } else {
        panic!("expected Text");
    }
}

#[test]
fn reasoning_block_roundtrips_without_becoming_text() {
    let original = ContentBlock::Reasoning {
        text: Some("private thought".to_string()),
        details: vec![json(r#"{"type": "reasoning.text", "text": "preserve me", "index": 0}"#)],
    };
    let text = original.to_json().render();
    let parsed = ContentBlock::from_json(&json(&text)).unwrap();
    assert!(matches!(
        parsed,
        ContentBlock::Reasoning { text: Some(text), details }
            if text == "private thought" && details[0].to_value()["text"] == "preserve me"
    ));
}

#[test]
fn every_block_is_read_back_from_its_json_form() {
    let blocks = vec![
        ContentBlock::Text { text: "a \"quoted\" line\n".to_string() },
        ContentBlock::ToolUse {
            id: "t".to_string(),
            name: "Bash".to_string(),
            input: json(r#"{"command":"ls","n":[1,2,{"k":null}]}"#),
        },
        ContentBlock::ToolResult {
            tool_use_id: "t".to_string(),
            content: "out".to_string(),
            is_error: Some(false),
        },
        ContentBlock::Reasoning { text: None, details: vec![] },
    ];
    let content = MessageContent::Blocks(blocks);
    let form = content.to_json();
    let text = form.render();
    let again = MessageContent::from_json(&json(&text)).unwrap();
    assert_eq!(again.to_json().render(), text);
    assert!(again.to_json().equals(&form));
}

#[test]
fn blocks_of_another_form_are_refused() {
    assert!(MessageContent::from_json(&json("{}")).is_none());
    assert!(MessageContent::from_json(&json("3")).is_none());
    assert!(ContentBlock::from_json(&json(r#"{"type":"text"}"#)).is_none());
    assert!(ContentBlock::from_json(&json(r#"{"type":"other","text":"x"}"#)).is_none());
    assert!(ImageSource::from_json(&json(r#"{"type":"base64"}"#)).is_none());
}

#[test]
fn json_values_compare_and_read() {
    let a = json(r#"{"a":1,"b":[true,null,"x"]}"#);
    let b = json(r#"{"b":[true,null,"x"],"a":1}"#);
    assert!(a.equals(&b));
    assert!(!a.equals(&json(r#"{"a":2}"#)));
    assert_eq!(a.uint_at("a"), Some(1));
    assert_eq!(a.text_at("a"), None);
    assert!(a.get("missing").is_none());
    let items = a.get("b").unwrap().as_array().unwrap();
    assert_eq!(items[0].as_bool(), Some(true));
    assert!(items[1].is_null());
    assert_eq!(items[2].as_str(), Some("x"));
    assert!(Json::parse("{nope").is_err());
    assert_eq!(Json::uint(18446744073709551615).as_u64(), Some(18446744073709551615));
    assert_eq!(Json::text("a\"b").render(), "\"a\\\"b\"");
}
