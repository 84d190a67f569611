use claux::api::types::{ContentBlock, Message, MessageContent};
use claux::compact::{
    checked_estimate, checked_should_compact, context_window_for_model, estimate_tokens,
    is_measurable, is_tokenizable, should_compact, snip_old_messages, strategy_for,
    truncate_tool_output, CompactStrategy, MAX_RUN, TOOL_OUTPUT_MAX_CHARS,
};
use claux::json::Json;

fn json(text: &str) -> Json {
    Json::parse(text).unwrap()
}

#[test]
fn estimate_tokens_empty() {
    assert_eq!(estimate_tokens(&[]), 0);
}

#[test]
fn estimate_tokens_text() {
    let msgs = vec![Message::user("hello world")];
    let tokens = estimate_tokens(&msgs);
    assert!(tokens > 0);
    assert!(tokens < 10);
}

#[test]
fn truncate_short_output_unchanged() {
    let (result, truncated) = truncate_tool_output("short");
    assert_eq!(result, "short");
    assert!(!truncated);
}

#[test]
fn truncate_long_output() {
    let long = "x".repeat(50_000);
    let (result, truncated) = truncate_tool_output(&long);
    assert!(truncated);
    assert!(result.len() < long.len());
    assert!(result.contains("truncated"));
}

#[test]
fn truncate_long_multibyte_output_no_panic() {
    let long = "🦀".repeat(15_000);
    let (result, truncated) = truncate_tool_output(&long);
    assert!(truncated);
    assert!(result.contains("truncated"));
    assert!(result.starts_with('🦀'));
    assert!(result.ends_with('🦀'));
}

#[test]
fn snip_not_enough_messages() {
    let msgs = vec![Message::user("hi"), Message::assistant_text("hello")];
    assert!(snip_old_messages(&msgs, 5).is_none());
}

#[test]
fn snip_keeps_recent() {
    let msgs: Vec<Message> = (0..20).map(|i| Message::user(&format!("message {i}"))).collect();

    let result = snip_old_messages(&msgs, 5).unwrap();
    assert_eq!(result.len(), 6);
    if let MessageContent::Text(text) = &result.last().unwrap().content {
        assert_eq!(text, "message 19");
    }
}

fn assert_no_orphaned_tool_results(messages: &[Message]) {
    let mut seen_tool_use_ids = std::collections::HashSet::new();
    for msg in messages {
        if let MessageContent::Blocks(blocks) = &msg.content {
            for block in blocks {
                match block {
                    ContentBlock::ToolUse { id, .. } => {
                        seen_tool_use_ids.insert(id.clone());
                    }
                    ContentBlock::ToolResult { tool_use_id, .. } => {
                        assert!(
                            seen_tool_use_ids.contains(tool_use_id),
                            "orphaned tool_result: {tool_use_id}"
                        );
                    }
                    _ => {}
                }
            }
        }
    }
}

fn tool_round(n: usize) -> Vec<Message> {
    vec![
        Message::user(&format!("request {n}")),
        Message::assistant_blocks(vec![ContentBlock::ToolUse {
            id: format!("tu_{n}"),
            name: "Read".to_string(),
            input: json(r#"{"file_path": "/tmp/x"}"#),
        }]),
        Message::tool_results(vec![ContentBlock::ToolResult {
            tool_use_id: format!("tu_{n}"),
            content: "contents".to_string(),
            is_error: None,
        }]),
    ]
}

#[test]
fn snip_never_orphans_tool_results() {
    let mut msgs: Vec<Message> = Vec::new();
    for n in 0..6 {
        msgs.extend(tool_round(n));
    }

    for keep_recent in 1..msgs.len() {
        if let Some(snipped) = snip_old_messages(&msgs, keep_recent) {
            assert_no_orphaned_tool_results(&snipped);
        }
    }
}

#[test]
fn snip_backs_up_to_include_tool_use() {
    let mut msgs: Vec<Message> = Vec::new();
    for n in 0..6 {
        msgs.extend(tool_round(n));
    }

    let snipped = snip_old_messages(&msgs, 4).unwrap();
    assert_no_orphaned_tool_results(&snipped);
    assert!(snipped.len() > 4);
    if let MessageContent::Blocks(blocks) = &snipped[1].content {
        assert!(matches!(blocks[0], ContentBlock::ToolUse { .. }));
    } else {
        panic!("expected the kept window to open with the tool_use message");
    }
}

#[test]
fn snip_returns_none_when_no_safe_cut() {
    let mut all_results: Vec<Message> = Vec::new();
    for _ in 0..8 {
        all_results.push(Message::tool_results(vec![ContentBlock::ToolResult {
            tool_use_id: "tu_0".to_string(),
            content: "x".to_string(),
            is_error: None,
        }]));
    }
    assert!(snip_old_messages(&all_results, 2).is_none());
}

#[test]
fn should_compact_small_conversation() {
    let msgs = vec![Message::user("hi")];
    assert!(matches!(should_compact(&msgs, 200_000), CompactStrategy::Unneeded));
}

#[test]
fn context_window_known_models() {
    assert_eq!(context_window_for_model("sonnet-4-20250514"), 200_000);
    assert_eq!(context_window_for_model("gpt-4o"), 128_000);
}

#[test]
fn the_fuller_the_window_the_stronger_the_strategy() {
    assert!(matches!(strategy_for(0, 1000), CompactStrategy::Unneeded));
    assert!(matches!(strategy_for(100, 1000), CompactStrategy::Unneeded));
    assert!(matches!(strategy_for(1000, 1000), CompactStrategy::Summarize));
}

#[test]
fn ordinary_conversations_can_be_measured() {
    let msgs = vec![Message::user("hello"), Message::assistant_text("hi")];
    assert!(is_measurable(&msgs));
    assert_eq!(checked_estimate(&msgs), Some(estimate_tokens(&msgs)));
    assert!(matches!(
        checked_should_compact(&msgs, 200_000),
        Some(CompactStrategy::Unneeded)
    ));
}

#[test]
fn tokens_are_counted_not_characters() {
    let words = Message::user("the quick brown fox jumps over the lazy dog");
    assert_eq!(estimate_tokens(&[words]), 9);
}

#[test]
fn output_of_the_largest_size_is_kept_whole() {
    let whole = "y".repeat(TOOL_OUTPUT_MAX_CHARS);
    let (result, truncated) = truncate_tool_output(&whole);
    assert!(!truncated);
    assert_eq!(result, whole);
    let (_, truncated) = truncate_tool_output(&"y".repeat(TOOL_OUTPUT_MAX_CHARS + 1));
    assert!(truncated);
}

#[test]
fn output_that_was_cut_is_not_cut_again() {
    let (once, truncated) = truncate_tool_output(&"ü".repeat(40_000));
    assert!(truncated);
    assert!(once.len() <= TOOL_OUTPUT_MAX_CHARS);
    let (twice, truncated) = truncate_tool_output(&once);
    assert!(!truncated);
    assert_eq!(twice, once);
}

#[test]
fn long_runs_of_one_sort_are_not_tokenized() {
    for run in [" ", "a", "!", "é"] {
        assert!(is_tokenizable(&run.repeat(MAX_RUN)));
        assert!(!is_tokenizable(&run.repeat(MAX_RUN + 1)));
    }
    assert!(is_tokenizable(&format!("!{}", "\n".repeat(MAX_RUN - 1))));
    assert!(!is_tokenizable(&format!("!!{}", "\n".repeat(MAX_RUN - 1))));
    assert!(is_tokenizable(&"1".repeat(MAX_RUN + 1)));
    assert!(is_tokenizable(&"a1".repeat(MAX_RUN)));
    assert!(is_tokenizable(&"}\n".repeat(MAX_RUN)));
    assert!(!is_measurable(&[Message::user(&"a".repeat(MAX_RUN + 1))]));
}

#[test]
fn snipping_measures_only_what_it_cuts() {
    let mut messages = vec![Message::user("hi"), Message::user("there")];
    assert!(snip_old_messages(&messages, 0).is_none());
    messages.extend([Message::user("again"), Message::user(&"a".repeat(MAX_RUN + 1))]);
    let snipped = snip_old_messages(&messages, 1).unwrap();
    assert_eq!(snipped.len(), 2);
    assert!(matches!(
        &snipped[0].content,
        MessageContent::Text(text) if text.starts_with("[3 earlier messages snipped (~3 tokens)")
    ));
}
