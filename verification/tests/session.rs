use claux::api::types::{ContentBlock, Message, MessageContent};
use claux::commands::AsyncCommand;
use claux::config::{ModelBinding, OpenAIProtocol, ProviderKind};
use claux::db::{
    load_message, load_messages, store_message, store_messages, SessionInfo, StoredMessage,
};
use claux::json::Json;
use claux::permissions::PermissionResponse;
use claux::query::StreamEvent;
use claux::repl::{
    interpret_answer, parse_permission_response, print_permission_prompt,
    print_permission_prompt_with_diff, read_input, replay_transcript, steering_line, LineAction,
    Screen,
};
use claux::repl_loop::{
    farewell, greeting, model_set_line, resumed_line, Repl, ReplAction, ReplInput, ReplPhase,
    PROMPT,
};
use claux::session::{
    extract_session_id, find_session, list_sessions, load_session, path_of_session, repair_history,
};

fn json(text: &str) -> Json {
    Json::parse(text).unwrap()
}

fn tool_use_msg(id: &str) -> Message {
    Message::assistant_blocks(vec![ContentBlock::ToolUse {
        id: id.to_string(),
        name: "Bash".to_string(),
        input: json(r#"{"command": "true"}"#),
    }])
}

fn tool_result_msg(id: &str) -> Message {
    Message::tool_results(vec![ContentBlock::ToolResult {
        tool_use_id: id.to_string(),
        content: "ok".to_string(),
        is_error: None,
    }])
}

fn assert_valid_pairing(messages: &[Message]) {
    let mut seen = std::collections::HashSet::new();
    let mut pending: Vec<String> = Vec::new();
    for msg in messages {
        if let MessageContent::Blocks(blocks) = &msg.content {
            let has_results = blocks.iter().any(|b| matches!(b, ContentBlock::ToolResult { .. }));
            if !has_results && !pending.is_empty() {
                panic!("tool_uses {pending:?} not answered by the next message");
            }
            for block in blocks {
                match block {
                    ContentBlock::ToolUse { id, .. } => {
                        seen.insert(id.clone());
                        pending.push(id.clone());
                    }
                    ContentBlock::ToolResult { tool_use_id, .. } => {
                        assert!(seen.contains(tool_use_id), "orphan result {tool_use_id}");
                        pending.retain(|p| p != tool_use_id);
                    }
                    _ => {}
                }
            }
        } else if !pending.is_empty() {
            panic!("tool_uses {pending:?} not answered by the next message");
        }
    }
    assert!(pending.is_empty(), "history ends with unanswered {pending:?}");
}

#[test]
fn repair_leaves_valid_history_untouched() {
    let history = vec![
        Message::user("hi"),
        tool_use_msg("tu_1"),
        tool_result_msg("tu_1"),
        Message::assistant_text("done"),
    ];
    let length = history.len();
    let repaired = repair_history(history);
    assert_eq!(repaired.len(), length);
    assert_valid_pairing(&repaired);
}

#[test]
fn repair_synthesizes_result_for_trailing_tool_use() {
    let history = vec![Message::user("go"), tool_use_msg("tu_1")];
    let repaired = repair_history(history);
    assert_eq!(repaired.len(), 3);
    assert_valid_pairing(&repaired);
    let MessageContent::Blocks(blocks) = &repaired[2].content else {
        panic!("expected synthetic results message");
    };
    assert!(matches!(&blocks[0], ContentBlock::ToolResult { is_error: Some(true), .. }));
}

#[test]
fn repair_synthesizes_result_before_next_message() {
    let history = vec![
        Message::user("go"),
        tool_use_msg("tu_1"),
        Message::assistant_text("moving on"),
        Message::user("ok"),
    ];
    let repaired = repair_history(history);
    assert_eq!(repaired.len(), 5);
    assert_valid_pairing(&repaired);
}

#[test]
fn repair_drops_orphan_results() {
    let history = vec![
        Message::user("go"),
        tool_result_msg("tu_ghost"),
        Message::assistant_text("done"),
    ];
    let repaired = repair_history(history);
    assert_eq!(repaired.len(), 2, "orphan-only message must be dropped");
    assert_valid_pairing(&repaired);
}

#[test]
fn repair_fills_partial_results() {
    let history = vec![
        Message::user("go"),
        Message::assistant_blocks(vec![
            ContentBlock::ToolUse {
                id: "tu_1".to_string(),
                name: "Read".to_string(),
                input: json("{}"),
            },
            ContentBlock::ToolUse {
                id: "tu_2".to_string(),
                name: "Read".to_string(),
                input: json("{}"),
            },
        ]),
        tool_result_msg("tu_1"),
        Message::assistant_text("done"),
    ];
    let repaired = repair_history(history);
    assert_valid_pairing(&repaired);
}

#[test]
fn sessions_are_found_by_a_unique_prefix() {
    let ids: Vec<String> = ["20260401-1", "20260401-2", "20260502-1"].map(String::from).to_vec();
    assert!(find_session(&ids, "202605").is_some());
    assert_eq!(find_session(&ids, "202605").unwrap().0, "20260502-1");
    assert!(find_session(&ids, "9").is_none());
    assert_eq!(list_sessions(&ids).len(), 3);
    let path = path_of_session("20260401-1");
    assert_eq!(extract_session_id(&path), "20260401-1");
    assert_eq!(extract_session_id("sqlite://v1.2"), "v1.2");
    assert_eq!(extract_session_id("sqlite://"), "");
    assert_eq!(extract_session_id("sessions/20260401-1.jsonl"), "20260401-1");
    assert_eq!(extract_session_id(".."), "default");
}

fn tool_turn() -> Vec<Message> {
    vec![
        Message::user("run the tests"),
        Message::assistant_blocks(vec![ContentBlock::ToolUse {
            id: "tu_1".to_string(),
            name: "Bash".to_string(),
            input: json(r#"{"command": "cargo test"}"#),
        }]),
        Message::tool_results(vec![ContentBlock::ToolResult {
            tool_use_id: "tu_1".to_string(),
            content: "ok".to_string(),
            is_error: None,
        }]),
        Message::assistant_text("All green."),
    ]
}

#[test]
fn test_append_and_get_messages() {
    let rows: Vec<StoredMessage> = [Message::user("Hello"), Message::assistant_text("Hi there!")]
        .iter()
        .map(store_message)
        .collect();
    assert_eq!(rows[0].content, "\"Hello\"");
    let messages = load_messages(&rows).unwrap();
    assert_eq!(messages.len(), 2);
    assert_eq!(messages[0].role, "user");
    assert_eq!(messages[1].role, "assistant");
}

#[test]
fn test_replace_messages_roundtrips_tool_rounds_in_order() {
    let turn = tool_turn();
    let loaded = load_messages(&store_messages(&turn)).unwrap();
    assert_eq!(loaded.len(), 4);
    let roles: Vec<&str> = loaded.iter().map(|m| m.role.as_str()).collect();
    assert_eq!(roles, ["user", "assistant", "user", "assistant"]);
    assert_eq!(
        loaded[1].content.to_json().render(),
        turn[1].content.to_json().render(),
        "tool_use blocks must survive the round trip"
    );
}

#[test]
fn a_row_that_is_no_message_is_refused() {
    let row = StoredMessage { role: "user".to_string(), content: "{broken".to_string() };
    assert!(load_message(&row).is_none());
    assert!(load_messages(&[row]).is_none());
}

#[test]
fn a_loaded_session_is_repaired() {
    let rows = store_messages(&[Message::user("go"), tool_use_msg("tu_1")]);
    let messages = load_session("s", true, &rows).ok().unwrap();
    assert_eq!(messages.len(), 3);
    assert_valid_pairing(&messages);
    assert!(load_session("s", false, &rows).is_err());
}

fn binding(model: &str) -> ModelBinding {
    ModelBinding {
        profile: "router-model".to_string(),
        display_name: "Router Model".to_string(),
        provider: "openrouter".to_string(),
        provider_kind: ProviderKind::Openai,
        provider_name: "openrouter".to_string(),
        model: model.to_string(),
        base_url: Some("https://openrouter.ai/api/v1".to_string()),
        protocol: OpenAIProtocol::ChatCompletions,
        api_key_env: "OPENROUTER_API_KEY".to_string(),
        reasoning_effort: None,
        prompt_caching: false,
        allow_eof_without_finish_reason: false,
    }
}

#[test]
fn a_session_row_keeps_its_binding() {
    let info = SessionInfo::from_columns(
        "bound".to_string(),
        "model-a".to_string(),
        None,
        None,
        0,
        Some(binding("model-a")),
    );
    assert_eq!(info.id, "bound");
    assert_eq!(info.model_binding.unwrap().profile, "router-model");
    assert_eq!(info.project, "uncategorized");
}

fn answer(tool: &str, input: &str, line: &str) -> PermissionResponse {
    parse_permission_response(tool, &json(input), line)
}

#[test]
fn permission_yes_variants() {
    for line in ["y\n", "yes\n", "\n", "Y\n"] {
        assert_eq!(answer("Write", r#"{"file_path": "/tmp/x"}"#, line), PermissionResponse::Allow);
    }
}

#[test]
fn permission_deny_on_anything_else() {
    assert_eq!(answer("Write", r#"{"file_path": "/tmp/x"}"#, "n\n"), PermissionResponse::Deny);
    assert_eq!(
        answer("Write", r#"{"file_path": "/tmp/x"}"#, "wait, not that file\n"),
        PermissionResponse::Deny
    );
}

#[test]
fn permission_always_is_command_specific_for_bash() {
    assert_eq!(
        answer("Bash", r#"{"command": "cargo test"}"#, "a\n"),
        PermissionResponse::AlwaysAllowCommand("cargo test".to_string())
    );
}

#[test]
fn permission_always_preserves_long_bash_command() {
    let command = format!("echo {}", "x".repeat(200));
    assert_eq!(
        answer("Bash", &format!(r#"{{"command": "{command}"}}"#), "a\n"),
        PermissionResponse::AlwaysAllowCommand(command)
    );
}

#[test]
fn permission_always_for_non_bash() {
    assert_eq!(
        answer("Write", r#"{"file_path": "/tmp/x"}"#, "a\n"),
        PermissionResponse::AlwaysAllow
    );
}

#[test]
fn answers_are_read_without_their_case() {
    let input = json("{}");
    assert_eq!(interpret_answer("Write", &input, "yes"), PermissionResponse::Allow);
    assert_eq!(interpret_answer("Write", &input, "always"), PermissionResponse::AlwaysAllow);
    assert_eq!(answer("Write", "{}", "ALWAYS"), PermissionResponse::AlwaysAllow);
}

fn strip_ansi(s: &str) -> String {
    let mut out = String::new();
    let mut in_escape = false;
    for c in s.chars() {
        match (in_escape, c) {
            (false, '\x1b') => in_escape = true,
            (false, _) => out.push(c),
            (true, 'm') => in_escape = false,
            (true, _) => {}
        }
    }
    out
}

#[test]
fn replay_shows_prompts_responses_and_tools() {
    let messages = vec![
        Message::user("run the tests"),
        Message::assistant_blocks(vec![
            ContentBlock::Text { text: "Running them now.".to_string() },
            ContentBlock::ToolUse {
                id: "tu_1".to_string(),
                name: "Bash".to_string(),
                input: json(r#"{"command": "cargo test"}"#),
            },
        ]),
        Message::tool_results(vec![ContentBlock::ToolResult {
            tool_use_id: "tu_1".to_string(),
            content: "huge noisy output".to_string(),
            is_error: None,
        }]),
        Message::assistant_text("All green."),
    ];

    let out = strip_ansi(&replay_transcript(&messages, "qwen", 12));
    assert!(out.contains("> run the tests"));
    assert!(out.contains("Running them now."));
    assert!(out.contains("[Bash]"));
    assert!(out.contains("All green."));
    assert!(!out.contains("huge noisy output"), "tool result payloads are omitted");
    assert!(!out.contains("earlier messages"), "no truncation header");
}

#[test]
fn replay_truncates_to_the_tail() {
    let messages: Vec<Message> = (0..30).map(|i| Message::user(&format!("m{i}"))).collect();
    let out = strip_ansi(&replay_transcript(&messages, "qwen", 12));
    assert!(out.contains("… 18 earlier messages not shown"));
    assert!(!out.contains("> m17\n"), "older messages hidden");
    assert!(out.contains("> m29"), "latest message shown");
}

#[test]
fn lines_are_prompts_or_commands() {
    assert!(matches!(read_input("   "), LineAction::Ignore));
    assert!(matches!(read_input(" hello "), LineAction::Prompt(t) if t == "hello"));
    assert!(matches!(read_input("/cost"), LineAction::Cost));
    assert!(matches!(read_input("/context"), LineAction::Context));
    assert!(matches!(read_input("/exit"), LineAction::Exit));
    assert!(matches!(read_input("/model"), LineAction::ListModels));
    assert!(matches!(read_input("/model fast"), LineAction::SwitchModel(m) if m == "fast"));
    assert!(matches!(read_input("/resume abc"), LineAction::Resume(id) if id == "abc"));
    assert!(matches!(read_input("/diff"), LineAction::Run(AsyncCommand::Diff)));
    assert!(matches!(read_input("/help"), LineAction::Show(_)));
    assert_eq!(steering_line("  stop  ").as_deref(), Some("stop"));
    assert_eq!(steering_line("   "), None);
}

#[test]
fn the_screen_shows_text_and_tools() {
    let mut screen = Screen::new();
    let shown = screen.show(&StreamEvent::Text("hi".to_string()), "qwen");
    assert!(strip_ansi(&shown.out).contains("hi"));
    assert!(!screen.first_text);
    let tool = screen.show(
        &StreamEvent::ToolStart { name: "Bash".to_string(), summary: "ls".to_string() },
        "qwen",
    );
    assert!(strip_ansi(&format!("{}{}", tool.out, tool.err)).contains("Bash"));
    assert!(screen.in_tool);
    screen.show(&StreamEvent::ToolResult { is_error: false }, "qwen");
    assert!(!screen.in_tool);
    assert!(print_permission_prompt("Bash", "ls").contains("ls"));
    assert!(print_permission_prompt_with_diff("Edit", "a.rs", "-x\n+y").contains("+y"));
}

fn line(text: &str) -> ReplInput {
    ReplInput::Line(text.to_string())
}

#[test]
fn a_line_starts_a_turn_and_further_lines_steer_it() {
    let mut repl = Repl::new();
    assert!(matches!(
        repl.take(line(" fix it \n"), "m").action,
        ReplAction::StartTurn(message) if message == "fix it"
    ));
    assert_eq!(repl.phase(), ReplPhase::InTurn);
    let queued = repl.take(line("/exit\n"), "m");
    assert!(matches!(queued.action, ReplAction::Queue(message) if message == "/exit"));
    assert!(queued.out.contains("queued for the model: /exit"));
    assert!(matches!(repl.take(line("  \n"), "m").action, ReplAction::Wait));
    let ask = StreamEvent::PermissionRequest {
        tool_name: "Bash".to_string(),
        summary: "ls".to_string(),
        diff: None,
        input: json(r#"{"command": "ls"}"#),
    };
    repl.take(ReplInput::Event(ask), "m");
    assert_eq!(repl.phase(), ReplPhase::Answering);
    assert!(matches!(
        repl.take(line("a\n"), "m").action,
        ReplAction::Answer(PermissionResponse::AlwaysAllowCommand(command)) if command == "ls"
    ));
    assert!(matches!(
        repl.take(ReplInput::Interrupt { again: false }, "m").action,
        ReplAction::CancelTurn
    ));
    repl.take(ReplInput::TurnEnded(Some("broken".to_string())), "m");
    assert!(repl.turn_ended());
    let over = repl.take(ReplInput::EventsOver, "m");
    assert!(matches!(over.action, ReplAction::Save));
    assert!(over.err.contains("broken"));
    assert_eq!(over.out, PROMPT);
    assert_eq!(repl.phase(), ReplPhase::Prompting);
}

#[test]
fn the_interface_ends_when_asked_to() {
    let mut repl = Repl::new();
    assert!(matches!(repl.take(line(""), "m").action, ReplAction::Wait));
    assert!(matches!(repl.take(line("/cost"), "m").action, ReplAction::Do(LineAction::Cost)));
    let warned = repl.take(ReplInput::Interrupt { again: false }, "m");
    assert!(matches!(warned.action, ReplAction::Wait));
    assert!(warned.out.contains("press Ctrl+C again"));
    assert!(matches!(
        repl.take(ReplInput::Interrupt { again: true }, "m").action,
        ReplAction::Quit
    ));
    assert_eq!(repl.phase(), ReplPhase::Over);
    assert!(matches!(Repl::new().take(line("/exit"), "m").action, ReplAction::Quit));
    assert!(matches!(Repl::new().take(ReplInput::EndOfInput, "m").action, ReplAction::Quit));
    let mut busy = Repl::new();
    busy.take(line("go"), "m");
    let abandoned = busy.take(ReplInput::Interrupt { again: true }, "m");
    assert!(matches!(abandoned.action, ReplAction::SaveAndQuit));
    assert!(abandoned.out.contains("Turn abandoned"));
}

#[test]
fn the_interface_names_what_it_talks_to() {
    assert!(greeting("0.1.0", "qwen").contains("qwen"));
    assert_eq!(
        farewell(&claux::cost::CostTracker::new("m"), ""),
        "\nCost: unavailable | Tokens: 0in / 0out\nGoodbye!\n"
    );
    assert_eq!(strip_ansi(&resumed_line("s1", 3)), "Resumed session s1 (3 messages)\n");
    assert_eq!(strip_ansi(&model_set_line("Kimi", "router")), "Model set to Kimi via router\n");
}

#[test]
fn repair_keeps_all_but_results() {
    let said = |messages: &[Message]| -> Vec<String> {
        let mut out = Vec::new();
        for message in messages {
            match &message.content {
                MessageContent::Text(text) => out.push(text.clone()),
                MessageContent::Blocks(blocks) => {
                    for block in blocks {
                        match block {
                            ContentBlock::Text { text } => out.push(text.clone()),
                            ContentBlock::ToolUse { id, .. } => out.push(id.clone()),
                            _ => {}
                        }
                    }
                }
            }
        }
        out
    };
    let history = vec![
        Message::user("go"),
        tool_result_msg("orphan"),
        tool_use_msg("tu_1"),
        Message::assistant_blocks(vec![
            ContentBlock::Text { text: "both".to_string() },
            ContentBlock::ToolResult {
                tool_use_id: "other".to_string(),
                content: "x".to_string(),
                is_error: None,
            },
        ]),
        tool_use_msg("tu_2"),
    ];
    let before = said(&history);
    let repaired = repair_history(history);
    assert_eq!(said(&repaired), before);
    assert_eq!(repaired.len(), 5, "the message of orphans is gone, the last use is answered");
    assert_valid_pairing(&repaired);
}
