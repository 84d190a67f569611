use claux::api::error::{ApiFailure, ApiFailureKind};
use claux::api::stream::ApiEvent;
use claux::api::types::{ContentBlock, Message, MessageContent, Usage};
use claux::batch::{ToolBatch, ToolStep};
use claux::config::HookTrigger;
use claux::cost::DOLLAR;
use claux::json::Json;
use claux::model::{pricing, ModelMetadata};
use claux::permissions::{
    PermissionChecker, PermissionMode, PermissionResponse, PermissionResult,
};
use claux::query::{
    collect_text, hook_for, malformed_tool_retry_prompt, permission_request, snip_frees_enough,
    summarize_conversation, CompactAction, Engine, StreamEvent, SummaryStep, ToolCall, ToolOutput,
    TurnStep, NO_CHECKPOINT, SKIPPED_FOR_STEERING,
};
use claux::turn_loop::{Phase, TurnAction, TurnInput, TurnLoop};

fn json(text: &str) -> Json {
    Json::parse(text).unwrap()
}

fn engine(mode: PermissionMode) -> Engine {
    let mut engine = Engine::new(PermissionChecker::new(mode), "test");
    engine.set_max_tokens(1000);
    engine
}

fn call(id: &str, name: &str, input: &str) -> ToolCall {
    ToolCall { id: id.to_string(), name: name.to_string(), input: json(input) }
}

fn tool_use(id: &str, name: &str, input: &str) -> ApiEvent {
    ApiEvent::ToolUse { id: id.to_string(), name: name.to_string(), input: json(input) }
}

fn usage(input: u32, output: u32, cache_read: u32, cache_creation: u32) -> Usage {
    Usage {
        input_tokens: input,
        output_tokens: output,
        cache_read_tokens: cache_read,
        cache_creation_tokens: cache_creation,
        cost_reports: vec![],
    }
}

struct Run {
    requests: Vec<(String, u32)>,
    text: String,
    result: Result<(), String>,
}

/// Runs a turn against scripted responses. Tools that may run answer "ran"; steering waits
/// from the first request on.
fn run(
    engine: &mut Engine,
    prompt: &str,
    respond: &dyn Fn(usize) -> Vec<ApiEvent>,
    steering: &[&str],
) -> Run {
    let mut queue: Vec<String> = Vec::new();
    let mut run = Run { requests: vec![], text: String::new(), result: Ok(()) };
    let (mut turn, events) = engine.begin_turn(Message::user(prompt), false);
    for event in &events {
        collect_text(&mut run.text, event);
    }
    loop {
        let (events, system) = engine.next_request(&mut turn, &queue, false);
        queue.clear();
        for event in &events {
            collect_text(&mut run.text, event);
        }
        let Some(system) = system else {
            return run;
        };
        let round = run.requests.len();
        run.requests.push((system, engine.max_tokens()));
        if round == 0 {
            queue.extend(steering.iter().map(|s| s.to_string()));
        }
        let mut step = TurnStep::Listen;
        for event in respond(round) {
            let (events, next) = engine.take_event(&mut turn, event, "summary", None);
            for event in &events {
                collect_text(&mut run.text, event);
            }
            step = next;
            if !matches!(step, TurnStep::Listen) {
                break;
            }
        }
        if matches!(step, TurnStep::Listen) {
            step = engine.stream_ended().1;
        }
        match step {
            TurnStep::Request => continue,
            TurnStep::CompactAndRequest => {
                run.result = Err("compaction".to_string());
                return run;
            }
            TurnStep::Fail(failure) => {
                run.result = Err(failure.message);
                return run;
            }
            _ => {}
        }
        let (_, step) = engine.complete_response(&mut turn, false);
        if matches!(step, TurnStep::Stop) {
            return run;
        }
        let calls: Vec<ToolCall> = turn
            .tool_uses()
            .iter()
            .map(|c| call(&c.id, &c.name, &c.input.render()))
            .collect();
        let n = calls.len();
        let mut batch = ToolBatch::new(calls, false);
        for i in 0..n {
            if let ToolStep::Run =
                batch.decide(i, engine.permissions(), true, false, !queue.is_empty())
            {
                batch.record(i, ToolOutput { content: "ran".to_string(), is_error: false });
            }
        }
        let (results, _, interrupted) = batch.execute_tool_batch(false);
        let (_, step) = engine.finish_batch(results, interrupted);
        if matches!(step, TurnStep::Stop) {
            return run;
        }
    }
}

fn recovery_attempts_for(failure: &dyn Fn() -> ApiFailure) -> (usize, Vec<u32>, String) {
    let mut engine = engine(PermissionMode::Bypass);
    let run = run(&mut engine, "go", &|_| vec![ApiEvent::Error(failure())], &[]);
    let seen: Vec<u32> = run.requests.iter().map(|r| r.1).collect();
    (run.requests.len(), seen, run.result.err().unwrap_or_default())
}

#[test]
fn an_output_limit_escalates_max_tokens_without_compacting() {
    let (attempts, max_tokens, _) = recovery_attempts_for(&|| {
        ApiFailure::output_limit_exceeded("output limit".to_string())
    });

    assert!(attempts > 1, "the turn should retry with a larger budget");
    assert!(
        max_tokens.windows(2).all(|pair| pair[1] > pair[0]),
        "max_tokens must escalate on each retry, got {max_tokens:?}"
    );
    assert_eq!(*max_tokens.last().unwrap(), 64_000, "escalation stops at the ceiling");
}

#[test]
fn an_unclassified_failure_triggers_no_recovery() {
    let (attempts, _, error) = recovery_attempts_for(&|| {
        ApiFailure::other(
            "internal error (request req_413_88): invalid max_tokens parameter".to_string(),
        )
    });

    assert_eq!(
        attempts, 1,
        "an unclassified failure must not trigger compaction or escalation"
    );
    assert!(error.starts_with("API error: internal error"));
}

#[test]
fn a_context_overflow_asks_for_compaction() {
    let (_, _, outcome) = recovery_attempts_for(&|| {
        ApiFailure::new(ApiFailureKind::ContextExceeded, "too long".to_string())
    });

    assert_eq!(outcome, "compaction", "a context overflow must trigger a compaction attempt");
}

#[test]
fn stream_errors_carry_their_classification_to_the_turn_loop() {
    let mut engine = engine(PermissionMode::Bypass);
    let (mut turn, _) = engine.begin_turn(Message::user("go"), false);
    let typed = ApiFailure::malformed_tool_arguments("bad args".to_string());
    assert_eq!(typed.kind, ApiFailureKind::MalformedToolArguments);
    let (_, step) = engine.request_failed(&mut turn, &typed, false);
    assert!(matches!(step, TurnStep::Request));

    let untyped = ApiFailure::other("invalid arguments for tool call Read (call_3)".to_string());
    assert_eq!(
        untyped.kind,
        ApiFailureKind::Other,
        "prose alone must not be treated as a classification"
    );
    let (_, step) = engine.request_failed(&mut turn, &untyped, false);
    assert!(matches!(step, TurnStep::Fail(_)));
}

fn malformed() -> ApiEvent {
    ApiEvent::Error(ApiFailure::malformed_tool_arguments(
        "OpenAI SSE stream error: invalid arguments for tool call Read (call_3): EOF while parsing a value".to_string(),
    ))
}

#[test]
fn malformed_tool_arguments_retry_once_without_persisting_rejected_text() {
    let mut engine = engine(PermissionMode::Default);
    engine.set_system_prompt("base system prompt".to_string());

    let run = run(
        &mut engine,
        "hello",
        &|attempt| {
            if attempt == 0 {
                vec![ApiEvent::Text("rejected preamble".to_string()), malformed()]
            } else {
                vec![ApiEvent::Text("recovered response".to_string()), ApiEvent::Done]
            }
        },
        &[],
    );

    assert!(run.result.is_ok());
    assert_eq!(run.text, "recovered response");
    assert_eq!(run.requests.len(), 2);
    assert_eq!(run.requests[0].0, "base system prompt");
    assert!(run.requests[1].0.starts_with("base system prompt\n\n"));
    assert!(run.requests[1].0.contains("before any tools executed"));
    assert!(run.requests[1].0.contains("Reissue the entire intended tool-call batch"));

    assert_eq!(engine.messages().len(), 2);
    let MessageContent::Blocks(blocks) = &engine.messages()[1].content else {
        panic!("expected assistant blocks");
    };
    assert!(matches!(
        blocks.as_slice(),
        [ContentBlock::Text { text }] if text == "recovered response"
    ));
}

#[test]
fn malformed_tool_arguments_stop_after_one_retry() {
    let mut engine = engine(PermissionMode::Default);

    let run = run(
        &mut engine,
        "hello",
        &|attempt| {
            if attempt == 0 {
                vec![ApiEvent::Text("rejected preamble".to_string()), malformed()]
            } else {
                vec![malformed()]
            }
        },
        &[],
    );

    assert_eq!(run.requests.len(), 2);
    assert!(run.result.unwrap_err().contains("invalid arguments for tool call"));
    assert_eq!(
        engine.messages().len(),
        1,
        "rejected assistant attempts must not enter conversation history"
    );
}

fn known_prices() -> ModelMetadata {
    ModelMetadata {
        context_window: 64_000,
        pricing: pricing(2_000_000, 4_000_000, 500_000, 1_000_000),
    }
}

#[test]
fn set_messages_resets_session_scoped_engine_state() {
    let mut engine = Engine::new(PermissionChecker::new(PermissionMode::Default), "private-model");
    engine.set_model_metadata(known_prices());
    engine.add_usage(&usage(500, 200, 100, 50), None);
    let write = json(r#"{"file_path": "/tmp/test"}"#);
    let bash = json(r#"{"command": "cargo test"}"#);
    engine.answer_permission("Write", &write, Some(PermissionResponse::AlwaysAllow));
    engine.answer_permission("Bash", &bash, Some(PermissionResponse::AlwaysAllow));
    assert!(matches!(engine.permissions().check("Write", &write, false), PermissionResult::Allow));
    assert!(matches!(engine.permissions().check("Bash", &bash, false), PermissionResult::Allow));

    engine.set_messages(vec![Message::user("loaded session")]);

    assert_eq!(engine.message_count(), 1);
    assert_eq!(engine.cost().input_tokens, 0);
    assert_eq!(engine.cost().output_tokens, 0);
    assert!(matches!(
        engine.permissions().check("Write", &write, false),
        PermissionResult::Ask { .. }
    ));
    assert!(matches!(
        engine.permissions().check("Bash", &bash, false),
        PermissionResult::Ask { .. }
    ));

    engine.add_usage(&usage(1_000_000, 0, 0, 0), None);
    assert_eq!(engine.cost().total_cost(), 2 * DOLLAR);
}

#[test]
fn resolved_model_metadata_configures_compaction_and_cost() {
    let mut engine = engine(PermissionMode::Default);
    engine.set_model_metadata(known_prices());
    engine.add_usage(&usage(1_000_000, 0, 0, 0), None);

    assert_eq!(engine.cost().total_cost(), 2 * DOLLAR);
    engine.set_messages(vec![Message::user("hi")]);
    assert_eq!(engine.maybe_auto_compact(Some(0)), Some(true));
    assert_eq!(engine.maybe_auto_compact(Some(64_000)), Some(false));
    assert_eq!(engine.maybe_auto_compact(None), Some(false));
}

fn settle_all(calls: Vec<ToolCall>, mode: PermissionMode, read_only: bool) -> Vec<ContentBlock> {
    let checker = PermissionChecker::new(mode);
    let n = calls.len();
    let mut batch = ToolBatch::new(calls, false);
    for i in batch.parallel(&checker, &vec![read_only; n], false, false) {
        batch.record(i, ToolOutput { content: format!("ran {i}"), is_error: false });
    }
    for i in 0..n {
        if let ToolStep::Run = batch.decide(i, &checker, read_only, false, false) {
            batch.record(i, ToolOutput { content: format!("ran {i}"), is_error: false });
        }
    }
    batch.execute_tool_batch(false).0
}

fn ids(blocks: &[ContentBlock]) -> Vec<String> {
    blocks
        .iter()
        .map(|b| match b {
            ContentBlock::ToolResult { tool_use_id, .. } => tool_use_id.clone(),
            _ => panic!("expected a result"),
        })
        .collect()
}

#[test]
fn test_parallel_tool_execution() {
    let blocks = settle_all(
        vec![
            call("test1", "Read", r#"{"file_path": "/dev/null"}"#),
            call("test2", "Glob", r#"{"pattern": "*.rs"}"#),
            call("test3", "Read", r#"{"file_path": "/dev/null"}"#),
        ],
        PermissionMode::Bypass,
        true,
    );
    assert_eq!(blocks.len(), 3, "Should have 3 result blocks");
    assert_eq!(ids(&blocks), ["test1", "test2", "test3"]);
}

#[test]
fn test_mixed_readonly_and_write_tools() {
    let checker = PermissionChecker::new(PermissionMode::Bypass);
    let mut batch = ToolBatch::new(
        vec![
            call("test1", "Read", r#"{"file_path": "/dev/null"}"#),
            call("test2", "Bash", r#"{"command": "echo test"}"#),
            call("test3", "Glob", r#"{"pattern": "*.rs"}"#),
        ],
        false,
    );
    assert!(batch.parallel(&checker, &vec![true, false, true], true, false).is_empty());
    assert!(batch.parallel(&checker, &vec![true, false, true], false, true).is_empty());
    let at_once = batch.parallel(&checker, &vec![true, false, true], false, false);
    assert_eq!(at_once, [0, 2]);
    for i in at_once {
        batch.record(i, ToolOutput { content: "ran".to_string(), is_error: false });
    }
    for i in 0..3 {
        if let ToolStep::Run = batch.decide(i, &checker, i != 1, false, false) {
            batch.record(i, ToolOutput { content: "ran later".to_string(), is_error: false });
        }
    }
    let blocks = batch.execute_tool_batch(false).0;

    assert_eq!(blocks.len(), 3, "Should have 3 result blocks");
    assert_eq!(ids(&blocks), ["test1", "test2", "test3"]);
}

#[test]
fn test_steering_message_injected_after_tool_results() {
    let mut engine = engine(PermissionMode::Bypass);
    run(
        &mut engine,
        "do a deep review",
        &|round| {
            if round == 0 {
                vec![
                    ApiEvent::Text("working on it".to_string()),
                    tool_use("tu_1", "Glob", r#"{"pattern": "*.does-not-exist"}"#),
                    ApiEvent::Done,
                ]
            } else {
                vec![ApiEvent::Done]
            }
        },
        &["also check the auth module"],
    );

    let msgs = engine.messages();
    assert_eq!(msgs.len(), 4);
    assert_eq!(msgs[0].role, "user");
    assert_eq!(msgs[1].role, "assistant");
    assert_eq!(msgs[2].role, "user");
    assert_eq!(msgs[3].role, "user");
    assert!(matches!(
        &msgs[3].content,
        MessageContent::Text(t) if t == "also check the auth module"
    ));
}

#[test]
fn test_pending_steering_skips_whole_batch() {
    let mut engine = engine(PermissionMode::Bypass);
    run(
        &mut engine,
        "explore",
        &|round| {
            if round == 0 {
                vec![
                    tool_use("tu_1", "Glob", r#"{"pattern": "*.a"}"#),
                    tool_use("tu_2", "Glob", r#"{"pattern": "*.b"}"#),
                    ApiEvent::Done,
                ]
            } else {
                vec![ApiEvent::Done]
            }
        },
        &["wrong direction, stop"],
    );

    let msgs = engine.messages();
    let MessageContent::Blocks(blocks) = &msgs[2].content else {
        panic!("expected tool results");
    };
    assert_eq!(blocks.len(), 2);
    for block in blocks {
        match block {
            ContentBlock::ToolResult { content, is_error, .. } => {
                assert_eq!(content, SKIPPED_FOR_STEERING);
                assert_eq!(*is_error, Some(true));
            }
            _ => panic!("expected ToolResult"),
        }
    }
}

#[test]
fn a_cancelled_response_is_answered_as_interrupted() {
    let mut engine = engine(PermissionMode::Bypass);
    let (mut turn, _) = engine.begin_turn(Message::user("run it"), false);
    engine.next_request(&mut turn, &vec![], false);
    engine.take_event(
        &mut turn,
        tool_use("tu_1", "Bash", r#"{"command": "sleep 5"}"#),
        "sleep 5",
        None,
    );
    let (events, step) = engine.complete_response(&mut turn, true);

    assert!(matches!(step, TurnStep::Stop));
    assert!(
        events.iter().any(|e| matches!(e, StreamEvent::Interrupted)),
        "Interrupted event must be emitted"
    );
    let msgs = engine.messages();
    let MessageContent::Blocks(blocks) = &msgs.last().unwrap().content else {
        panic!("expected tool results last");
    };
    assert!(matches!(&blocks[0], ContentBlock::ToolResult { is_error: Some(true), .. }));
}

#[test]
fn test_submit_returns_text_without_notices() {
    let mut engine = engine(PermissionMode::Bypass);
    let run = run(
        &mut engine,
        "go",
        &|round| {
            if round == 0 {
                vec![
                    ApiEvent::Text("working on it".to_string()),
                    tool_use("tu_1", "Glob", r#"{"pattern": "*.x"}"#),
                    ApiEvent::Done,
                ]
            } else {
                vec![ApiEvent::Done]
            }
        },
        &["check auth too"],
    );
    assert_eq!(run.text, "working on it", "notices must not leak into text");
    let last = engine.messages().last().unwrap();
    assert!(matches!(&last.content, MessageContent::Text(t) if t == "check auth too"));
}

#[test]
fn test_submit_rejects_stream_closed_without_done() {
    let mut engine = engine(PermissionMode::Bypass);
    let run = run(
        &mut engine,
        "go",
        &|_| vec![ApiEvent::Text("partial response".to_string())],
        &[],
    );

    assert!(run.result.unwrap_err().contains("without completion"));
    assert_eq!(
        engine.messages().len(),
        1,
        "partial assistant content must not be committed to history"
    );
    assert_eq!(engine.messages()[0].role, "user");
}

#[test]
fn an_unfinished_summary_changes_nothing() {
    let mut engine = engine(PermissionMode::Bypass);
    engine.set_messages(vec![Message::user("important context")]);

    assert!(matches!(engine.compact(), CompactAction::Summarize(_)));
    let mut summary = String::new();
    let step = summarize_conversation(
        &mut summary,
        Some(&ApiEvent::Text("partial response".to_string())),
    );

    assert!(matches!(step, SummaryStep::Listen), "the summary is not complete");
    assert!(matches!(
        summarize_conversation(&mut summary, None),
        SummaryStep::Fail(failure)
            if failure.message == "Compact error: API stream ended without completion"
    ));
    assert_eq!(
        engine.messages().len(),
        1,
        "failed compaction must preserve the original history"
    );
}

#[test]
fn snipping_backs_up_to_a_tool_round() {
    let mut engine = engine(PermissionMode::Bypass);
    let old_content = "old context ".repeat(1_000);
    let mut messages = vec![
        Message::user(&old_content),
        Message::assistant_text(&old_content),
        Message::assistant_blocks(vec![ContentBlock::ToolUse {
            id: "call_1".to_string(),
            name: "Read".to_string(),
            input: json(r#"{"file_path": "README.md"}"#),
        }]),
        Message::tool_results(vec![ContentBlock::ToolResult {
            tool_use_id: "call_1".to_string(),
            content: "contents".to_string(),
            is_error: None,
        }]),
    ];
    for index in 4..13 {
        messages.push(Message::user(&format!("recent message {index}")));
    }
    engine.set_messages(messages);

    assert!(matches!(engine.compact(), CompactAction::Snipped(_)));

    assert_eq!(
        engine.messages().len(),
        12,
        "tool-result boundary backoff reproduces the stale cursor index shape"
    );
}

fn large_history() -> Vec<Message> {
    let large_message = "context ".repeat(10_000);
    (0..13).map(|index| Message::user(&format!("{index}: {large_message}"))).collect()
}

#[test]
fn a_summary_replaces_the_conversation() {
    let mut engine = engine(PermissionMode::Bypass);
    engine.set_messages(large_history());

    let CompactAction::Summarize(asked) = engine.compact() else {
        panic!("expected a summary");
    };
    let mut summary = String::new();
    summarize_conversation(
        &mut summary,
        Some(&ApiEvent::Text("compacted summary".to_string())),
    );
    assert!(matches!(
        summarize_conversation(&mut summary, Some(&ApiEvent::Done)),
        SummaryStep::Complete
    ));
    let report = engine.commit_summary(&summary, asked.len() - 1);

    assert_eq!(engine.messages().len(), 2);
    assert!(report.contains("compacted summary"));
}

#[test]
fn a_larger_candidate_is_summarized_instead() {
    let mut engine = engine(PermissionMode::Bypass);
    engine.set_messages((0..13).map(|index: usize| Message::user(&index.to_string())).collect());

    let CompactAction::Summarize(_) = engine.compact() else {
        panic!("a larger snip candidate should fall back to summary compaction");
    };
    engine.commit_summary("compacted summary", 13);

    assert_eq!(engine.messages().len(), 2);
}

#[test]
fn a_failed_summary_keeps_the_conversation() {
    let mut engine = engine(PermissionMode::Bypass);
    engine.set_messages(large_history());

    assert!(matches!(engine.compact(), CompactAction::Summarize(_)));
    let mut summary = String::new();
    let step = summarize_conversation(
        &mut summary,
        Some(&ApiEvent::Error(ApiFailure::other("gone".to_string()))),
    );

    assert!(matches!(
        step,
        SummaryStep::Fail(failure) if failure.message == "Compact error: gone"
    ));
    assert_eq!(
        engine.messages().len(),
        13,
        "failed summarization must not commit the snipped candidate"
    );
}

#[test]
fn an_unknown_tool_is_answered_with_an_error() {
    let checker = PermissionChecker::new(PermissionMode::Bypass);
    let mut batch =
        ToolBatch::new(vec![call("test1", "TaskCreate", r#"{"subject": "x"}"#)], false);
    assert!(matches!(batch.decide(0, &checker, false, false, false), ToolStep::Run));
    batch.record(
        0,
        ToolOutput { content: "Unknown tool: TaskCreate".to_string(), is_error: true },
    );
    let blocks = batch.execute_tool_batch(false).0;
    assert_eq!(blocks.len(), 1, "every tool_use must get a tool_result");
    match &blocks[0] {
        ContentBlock::ToolResult { tool_use_id, is_error, content } => {
            assert_eq!(tool_use_id, "test1");
            assert_eq!(*is_error, Some(true));
            assert!(content.contains("Unknown tool"));
        }
        _ => panic!("Expected ToolResult block"),
    }
}

#[test]
fn test_ask_permission_denies_in_non_streaming_mode() {
    let blocks = settle_all(
        vec![call("test1", "WebFetch", r#"{"url": "https://example.com/private"}"#)],
        PermissionMode::Default,
        true,
    );
    assert_eq!(blocks.len(), 1);
    match &blocks[0] {
        ContentBlock::ToolResult { is_error, content, .. } => {
            assert_eq!(
                *is_error,
                Some(true),
                "Ask-permission tool must be denied, not executed, in non-streaming mode"
            );
            assert!(
                content.contains("Permission denied"),
                "expected a permission-denied message, got: {content}"
            );
        }
        _ => panic!("Expected ToolResult block"),
    }
}

#[test]
fn an_interactive_batch_asks_and_a_cancelled_one_is_cut_off() {
    let checker = PermissionChecker::new(PermissionMode::Default);
    let calls = || {
        vec![call("a", "Bash", r#"{"command": "ls"}"#), call("b", "Bash", r#"{"command": "ls"}"#)]
    };
    let mut batch = ToolBatch::new(calls(), true);
    assert!(matches!(
        batch.decide(0, &checker, false, false, false),
        ToolStep::Ask { message, .. } if message.contains("ls")
    ));
    batch.record(0, ToolOutput { content: "done".to_string(), is_error: false });
    assert!(matches!(batch.decide(1, &checker, false, true, false), ToolStep::Settled));
    let (blocks, events, interrupted) = batch.execute_tool_batch(false);
    assert!(interrupted);
    assert_eq!(ids(&blocks), ["a", "b"]);
    assert!(matches!(events[0], StreamEvent::ToolResult { is_error: false }));
    assert!(matches!(events[1], StreamEvent::ToolResult { is_error: true }));
}

#[test]
fn denied_invocations_do_not_run() {
    let mut engine = engine(PermissionMode::Default);
    let input = json(r#"{"command": "ls"}"#);
    assert!(engine.answer_permission("Bash", &input, Some(PermissionResponse::Allow)).is_none());
    for response in [None, Some(PermissionResponse::Deny), Some(PermissionResponse::DenyAndCancel)] {
        let output = engine.answer_permission("Bash", &input, response).unwrap();
        assert!(output.is_error);
        assert_eq!(output.content, "Permission denied by user.");
    }
    assert!(matches!(
        permission_request("Bash", &input, "ls".to_string(), None),
        StreamEvent::PermissionRequest { tool_name, .. } if tool_name == "Bash"
    ));
}

#[test]
fn usage_is_added_as_it_arrives() {
    let mut engine = engine(PermissionMode::Default);
    let (mut turn, _) = engine.begin_turn(Message::user("go"), true);
    engine.take_event(&mut turn, ApiEvent::Usage(usage(3, 4, 0, 0)), "", Some(7));
    assert_eq!(engine.cost().input_tokens, 3);
    assert_eq!(engine.cost().total_cost(), 7);
}

#[test]
fn without_a_checkpoint_there_is_nothing_to_undo() {
    let mut engine = engine(PermissionMode::Default);
    assert_eq!(engine.last_turn_diff(), NO_CHECKPOINT);
    assert_eq!(engine.undo_last_turn(&vec![]).err().unwrap(), NO_CHECKPOINT);
    engine.note_undo();
    assert!(matches!(
        &engine.messages()[0].content,
        MessageContent::Text(t) if t.starts_with("[Claux checkpoint]")
    ));
}

#[test]
fn long_errors_are_cut_in_the_retry_prompt() {
    let prompt = malformed_tool_retry_prompt(&"e".repeat(2000));
    assert!(prompt.contains(&"e".repeat(512)));
    assert!(!prompt.contains(&"e".repeat(513)));
}

#[test]
fn snipping_must_free_enough() {
    assert!(snip_frees_enough(100, 69, 100));
    assert!(!snip_frees_enough(100, 70, 100));
    assert!(!snip_frees_enough(60, 60, 100));
}

#[test]
fn a_turn_goes_from_request_to_tools_to_its_end() {
    let mut engine = engine(PermissionMode::Bypass);
    engine.set_system_prompt("system".to_string());
    let (mut turn, events) = TurnLoop::begin(&mut engine, Message::user("go"), false);
    assert!(events.is_empty());
    assert_eq!(turn.phase(), Phase::Draining);
    let drained = |steering: &[&str], cancelled: bool| TurnInput::Drained {
        steering: steering.iter().map(|s| s.to_string()).collect(),
        cancelled,
    };
    let event = |event: ApiEvent| TurnInput::Event {
        event,
        summary: "s".to_string(),
        charge: None,
    };
    let (_, action) = turn.advance(&mut engine, drained(&[], false));
    assert!(matches!(action, TurnAction::Send(prompt) if prompt == "system"));
    let (events, action) =
        turn.advance(&mut engine, event(tool_use("a", "Glob", r#"{"pattern": "*"}"#)));
    assert!(matches!(events[0], StreamEvent::ToolStart { .. }));
    assert!(matches!(action, TurnAction::Listen));
    let (_, action) = turn.advance(&mut engine, event(ApiEvent::Done));
    assert!(matches!(action, TurnAction::RunTools));
    assert_eq!(turn.tool_uses().len(), 1);
    let results = vec![ContentBlock::ToolResult {
        tool_use_id: "a".to_string(),
        content: "ran".to_string(),
        is_error: None,
    }];
    let (_, action) =
        turn.advance(&mut engine, TurnInput::ToolsDone { results, interrupted: false });
    assert!(matches!(action, TurnAction::Drain));
    let (events, action) = turn.advance(&mut engine, drained(&["also this"], false));
    assert!(matches!(&events[0], StreamEvent::SteeringSent(t) if t == "also this"));
    assert!(matches!(action, TurnAction::Send(_)));
    turn.advance(&mut engine, event(ApiEvent::Text("done".to_string())));
    let (events, action) = turn.advance(&mut engine, event(ApiEvent::Done));
    assert!(matches!(events[0], StreamEvent::Done));
    assert!(matches!(action, TurnAction::Finish));
    assert_eq!(turn.phase(), Phase::Over);
    assert_eq!(engine.message_count(), 5);
}

#[test]
fn a_cancelled_or_failed_turn_ends() {
    let mut engine = engine(PermissionMode::Bypass);
    let (mut turn, _) = TurnLoop::begin(&mut engine, Message::user("go"), true);
    let (events, action) =
        turn.advance(&mut engine, TurnInput::Drained { steering: vec![], cancelled: true });
    assert!(matches!(events[0], StreamEvent::Interrupted));
    assert!(matches!(action, TurnAction::Finish));

    let (mut turn, _) = TurnLoop::begin(&mut engine, Message::user("again"), false);
    turn.advance(&mut engine, TurnInput::Drained { steering: vec![], cancelled: false });
    let (_, action) = turn.advance(
        &mut engine,
        TurnInput::RequestFailed {
            failure: ApiFailure::new(ApiFailureKind::ContextExceeded, "long".to_string()),
            cancelled: false,
        },
    );
    assert!(matches!(action, TurnAction::Compact));
    let (_, action) = turn.advance(
        &mut engine,
        TurnInput::Compacted(Some(ApiFailure::other("no summary".to_string()))),
    );
    assert!(matches!(action, TurnAction::Fail(f) if f.message == "no summary"));

    let (mut turn, _) = TurnLoop::begin(&mut engine, Message::user("more"), false);
    turn.advance(&mut engine, TurnInput::Drained { steering: vec![], cancelled: false });
    let (_, action) = turn.advance(&mut engine, TurnInput::StreamEnded);
    assert!(matches!(action, TurnAction::Fail(f) if f.message.contains("without completion")));
}

#[test]
fn tool_calls_and_results_set_off_hooks() {
    let mut engine = engine(PermissionMode::Bypass);
    let (mut turn, _) = engine.begin_turn(Message::user("go"), false);
    let (events, _) = engine.take_event(
        &mut turn,
        tool_use("tu_1", "Glob", r#"{"pattern": "*.x"}"#),
        "*.x",
        None,
    );
    let starts: Vec<_> = events.iter().filter_map(hook_for).collect();
    assert_eq!(starts, [HookTrigger::OnToolStart]);
    let (events, _) = engine.complete_response(&mut turn, true);
    let completes: Vec<_> = events.iter().filter_map(hook_for).collect();
    assert_eq!(completes, [HookTrigger::OnToolComplete]);
}
