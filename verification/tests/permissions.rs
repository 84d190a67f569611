use claux::json::Json;
use claux::permissions::{
    PermissionChecker, PermissionMode, PermissionResponse, PermissionResult,
};

fn json(text: &str) -> Json {
    Json::parse(text).unwrap()
}

fn checker(mode: PermissionMode) -> PermissionChecker {
    PermissionChecker::new(mode)
}

#[test]
fn bypass_allows_everything() {
    let checker = checker(PermissionMode::Bypass);
    let input = json(r#"{"command": "rm -rf /"}"#);
    assert!(matches!(checker.check("Bash", &input, false), PermissionResult::Allow));
}

#[test]
fn plan_denies_writes() {
    let checker = checker(PermissionMode::Plan);
    let input = json(r#"{"file_path": "/tmp/test"}"#);
    assert!(matches!(checker.check("Write", &input, false), PermissionResult::Deny(_)));
}

#[test]
fn plan_allows_reads() {
    let checker = checker(PermissionMode::Plan);
    let input = json(r#"{"file_path": "/tmp/test"}"#);
    assert!(matches!(checker.check("Read", &input, true), PermissionResult::Allow));
}

#[test]
fn default_allows_read_only() {
    let checker = checker(PermissionMode::Default);
    let input = json(r#"{"pattern": "*.rs"}"#);
    assert!(matches!(checker.check("Glob", &input, true), PermissionResult::Allow));
}

#[test]
fn default_asks_for_bash() {
    let checker = checker(PermissionMode::Default);
    let input = json(r#"{"command": "cargo test"}"#);
    assert!(matches!(checker.check("Bash", &input, false), PermissionResult::Ask { .. }));
}

#[test]
fn default_asks_for_write() {
    let checker = checker(PermissionMode::Default);
    let input = json(r#"{"file_path": "/tmp/test", "content": "hello"}"#);
    assert!(matches!(checker.check("Write", &input, false), PermissionResult::Ask { .. }));
}

#[test]
fn accept_edits_allows_write_and_edit() {
    let checker = checker(PermissionMode::AcceptEdits);
    let input = json(r#"{"file_path": "/tmp/test"}"#);
    assert!(matches!(checker.check("Write", &input, false), PermissionResult::Allow));
    assert!(matches!(checker.check("Edit", &input, false), PermissionResult::Allow));
}

#[test]
fn accept_edits_asks_for_bash() {
    let checker = checker(PermissionMode::AcceptEdits);
    let input = json(r#"{"command": "rm -rf /"}"#);
    assert!(matches!(checker.check("Bash", &input, false), PermissionResult::Ask { .. }));
}

#[test]
fn always_allow_overrides_mode() {
    let mut checker = checker(PermissionMode::Default);
    let input = json(r#"{"command": "cargo test"}"#);
    assert!(matches!(checker.check("Bash", &input, false), PermissionResult::Ask { .. }));
    checker.always_allow("Bash");
    assert!(matches!(checker.check("Bash", &input, false), PermissionResult::Allow));
}

#[test]
fn always_allow_is_tool_specific() {
    let mut checker = checker(PermissionMode::Default);
    checker.always_allow("Bash");
    let input = json(r#"{"file_path": "/tmp/test"}"#);
    assert!(matches!(checker.check("Write", &input, false), PermissionResult::Ask { .. }));
}

#[test]
fn ask_summary_contains_command() {
    let checker = checker(PermissionMode::Default);
    let input = json(r#"{"command": "cargo test"}"#);
    if let PermissionResult::Ask { message, diff: _ } = checker.check("Bash", &input, false) {
        assert!(message.contains("cargo test"));
    } else {
        panic!("expected Ask");
    }
}

#[test]
fn ask_summary_contains_file_path() {
    let checker = checker(PermissionMode::Default);
    let input = json(r#"{"file_path": "/home/ducks/important.rs"}"#);
    if let PermissionResult::Ask { message, diff: _ } = checker.check("Edit", &input, false) {
        assert!(message.contains("important.rs"));
    } else {
        panic!("expected Ask");
    }
}

#[test]
fn edit_permission_includes_diff_when_fields_present() {
    let checker = checker(PermissionMode::Default);
    let input = json(
        r#"{"file_path": "src/main.rs", "old_string": "let x = 1", "new_string": "let x = 2"}"#,
    );

    if let PermissionResult::Ask { message, diff } = checker.check("Edit", &input, false) {
        assert!(message.contains("src/main.rs"));
        assert!(
            diff.is_some(),
            "Diff should be generated when old_string and new_string are provided"
        );
        let diff_content = diff.unwrap();
        assert!(diff_content.contains("src/main.rs"));
        assert!(diff_content.contains("-let x = 1"));
        assert!(diff_content.contains("+let x = 2"));
    } else {
        panic!("expected Ask");
    }
}

#[test]
fn edit_permission_no_diff_when_fields_missing() {
    let checker = checker(PermissionMode::Default);
    let input = json(r#"{"file_path": "src/main.rs"}"#);

    if let PermissionResult::Ask { message, diff } = checker.check("Edit", &input, false) {
        assert!(message.contains("src/main.rs"));
        assert!(diff.is_none(), "Diff should be None when old_string/new_string are missing");
    } else {
        panic!("expected Ask");
    }
}

#[test]
fn default_prompts_for_read_tool() {
    let checker = checker(PermissionMode::Default);
    let input = json(r#"{"file_path": "src/secret.rs"}"#);

    if let PermissionResult::Ask { message, diff } = checker.check("Read", &input, true) {
        assert!(message.contains("src/secret.rs"));
        assert!(diff.is_none());
    } else {
        panic!("expected Ask for Read tool");
    }
}

#[test]
fn default_prompts_for_grep_tool() {
    let checker = checker(PermissionMode::Default);
    let input = json(r#"{"pattern": "SECRET_KEY", "path": "src/"}"#);

    if let PermissionResult::Ask { message, diff } = checker.check("Grep", &input, true) {
        assert!(message.contains("src/"));
        assert!(diff.is_none());
    } else {
        panic!("expected Ask for Grep tool");
    }
}

#[test]
fn default_auto_allows_glob_tool() {
    let checker = checker(PermissionMode::Default);
    let input = json(r#"{"pattern": "*.rs"}"#);
    assert!(matches!(checker.check("Glob", &input, true), PermissionResult::Allow));
}

#[test]
fn default_prompts_for_webfetch_tool() {
    let checker = checker(PermissionMode::Default);
    let input = json(r#"{"url": "https://example.com/api"}"#);

    if let PermissionResult::Ask { message, diff } = checker.check("WebFetch", &input, true) {
        assert!(message.contains("https://example.com/api"));
        assert!(diff.is_none());
    } else {
        panic!("expected Ask for WebFetch tool");
    }
}

#[test]
fn an_allowed_command_is_allowed_exactly() {
    let mut checker = checker(PermissionMode::Default);
    checker.always_allow_command("cargo test");
    assert!(checker.is_command_allowed("cargo test"));
    assert!(!checker.is_command_allowed("cargo test --all"));
    let allowed = json(r#"{"command": "cargo test"}"#);
    let other = json(r#"{"command": "cargo test --all"}"#);
    assert!(matches!(checker.check("Bash", &allowed, false), PermissionResult::Allow));
    assert!(matches!(checker.check("Bash", &other, false), PermissionResult::Ask { .. }));
    checker.reset_session();
    assert!(matches!(checker.check("Bash", &allowed, false), PermissionResult::Ask { .. }));
}

#[test]
fn always_means_the_command_for_shells_and_the_tool_otherwise() {
    let input = json(r#"{"command": "ls"}"#);
    assert_eq!(
        PermissionResponse::always_allow_for("Bash", &input),
        PermissionResponse::AlwaysAllowCommand("ls".to_string())
    );
    assert_eq!(
        PermissionResponse::always_allow_for("Write", &input),
        PermissionResponse::AlwaysAllow
    );
}

#[test]
fn a_long_command_that_splits_a_character_cannot_be_asked_about() {
    let checker = checker(PermissionMode::Default);
    let long = format!(r#"{{"command": "{}é"}}"#, "x".repeat(79));
    assert!(!checker.can_check("Bash", &json(&long), false));
    let fits = format!(r#"{{"command": "{}é"}}"#, "x".repeat(78));
    assert!(checker.can_check("Bash", &json(&fits), false));
}

#[test]
fn modes_have_names() {
    for mode in [
        PermissionMode::Default,
        PermissionMode::AcceptEdits,
        PermissionMode::Bypass,
        PermissionMode::Plan,
    ] {
        assert_eq!(PermissionMode::from_name(mode.name()), Some(mode));
    }
    assert_eq!(PermissionMode::from_name("yolo"), None);
}
