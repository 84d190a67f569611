use claux::context::{
    build_memory_dir_path, build_project_map, build_runtime_section, build_system_prompt_for_model,
    claude_md_places, claux_system_prompt, detect_default_branch, detect_project_type, git_status,
    read_claude_md, take_lines, Environment, GitFacts,
};
use claux::defaults::Defaults;
use claux::permissions::PermissionMode;
use claux::trust::{permits_permission_override, Directory, ProjectTrust};

fn defaults() -> Defaults {
    Defaults {
        model: "sonnet-5".to_string(),
        routed_model: "anthropic/sonnet-5".to_string(),
        instruction_file: "NOTES.md".to_string(),
        instruction_dir: ".notes".to_string(),
    }
}

#[test]
fn prompt_is_native_claux() {
    let p = claux_system_prompt("test-model", "/memory", &defaults());
    assert!(p.starts_with("You are claux"));
    assert!(p.contains("test-model"));
    assert!(!p.contains("Code"), "claux must not identify as another assistant");
    for name in ["Read", "Write", "Edit", "Bash", "Glob", "Grep", "TodoWrite", "WebFetch"] {
        assert!(p.contains(name), "prompt should mention the {name} tool");
    }
    assert!(p.contains("Agent tool"));
}

#[test]
fn memory_dir_is_claux_owned() {
    let dir = build_memory_dir_path(Some("/home/u/.local/share"), Some("/work/project"));
    assert!(dir.contains("claux"));
    assert!(
        !dir.contains(&defaults().instruction_dir),
        "claux memory must not share another assistant's tree"
    );
    assert_eq!(dir, "/home/u/.local/share/claux/projects/work-project/memory/");
}

#[test]
fn the_memory_of_two_projects_is_kept_apart() {
    let one = build_memory_dir_path(Some("/d"), Some("/a"));
    let two = build_memory_dir_path(Some("/d"), Some("/b"));
    assert_ne!(one, two);
}

fn facts() -> GitFacts {
    GitFacts {
        branch: "feature".to_string(),
        remote_head: None,
        has_main: false,
        has_master: true,
        user_name: Some("Ada".to_string()),
        status: Some(" M a.rs".to_string()),
        log: Some("abc first".to_string()),
    }
}

#[test]
fn the_default_branch_is_found() {
    let mut f = facts();
    assert_eq!(detect_default_branch(&f), "master");
    f.has_main = true;
    assert_eq!(detect_default_branch(&f), "main");
    f.remote_head = Some("refs/remotes/origin/trunk".to_string());
    assert_eq!(detect_default_branch(&f), "trunk");
    let status = git_status(&f);
    assert!(status.contains("feature"));
    assert!(status.contains("trunk"));
    assert!(status.contains("Ada"));
    assert!(status.contains(" M a.rs"));
}

#[test]
fn projects_are_recognised_by_their_files() {
    let files = |names: &[&str]| names.iter().map(|n| n.to_string()).collect::<Vec<_>>();
    assert!(detect_project_type(&files(&["Cargo.toml"])).contains("Rust"));
    assert_ne!(
        detect_project_type(&files(&["Cargo.toml"])),
        detect_project_type(&files(&["go.mod"]))
    );
    assert!(build_project_map("Rust", "src/a.rs", Some("fn a")).contains("src/a.rs"));
    assert_eq!(take_lines("a\nb\nc", 2), "a\nb");
}

#[test]
fn instructions_are_looked_for_here_and_above() {
    let places = claude_md_places("/a/b", &defaults());
    let shown: Vec<(String, String)> =
        places.iter().map(|p| (p.directory.clone(), p.name.clone())).collect();
    let expect = |d: &str, n: &str| (d.to_string(), n.to_string());
    assert_eq!(
        shown,
        vec![
            expect("/a/b", "NOTES.md"),
            expect("/a/b", ".notes/NOTES.md"),
            expect("/a", "NOTES.md"),
            expect("/a", ".notes/NOTES.md"),
            expect("/", "NOTES.md"),
            expect("/", ".notes/NOTES.md"),
        ]
    );
    let contents = vec![Some("one".to_string()), None, None, None, Some("two".to_string()), None];
    assert_eq!(
        read_claude_md(&places, &contents, Some("mine"), &defaults()).as_deref(),
        Some("# NOTES.md (/a/b)\none\n\n# NOTES.md (/)\ntwo\n\n# ~/.notes/NOTES.md\nmine")
    );
    let none = vec![None, None, None, None, None, None];
    assert!(read_claude_md(&places, &none, None, &defaults()).is_none());
}

fn environment() -> Environment {
    Environment {
        cwd: "/work".to_string(),
        is_git: true,
        platform: "linux".to_string(),
        shell: "/bin/zsh".to_string(),
        os_version: None,
        git_status: Some("on main".to_string()),
        instructions: Some("be kind".to_string()),
        memory_index: Some("- a".to_string()),
        plugin_context: Some("extra".to_string()),
    }
}

#[test]
fn the_environment_is_described() {
    let e = environment();
    let section = build_runtime_section(&e, "m");
    assert!(section.contains(" - Primary working directory: /work\n"));
    assert!(section.contains(" - Shell: zsh\n"));
    assert!(section.contains("You are powered by the model m."));
    assert!(section.contains("gitStatus: on main"));
    assert!(section.contains("be kind"));
    assert!(section.contains("# Memory Index (MEMORY.md)\n- a"));
    assert!(section.contains("# Plugin Context\nextra"));
}

#[test]
fn anthropic_gets_the_prompt_in_two_blocks() {
    let e = environment();
    let separate = build_system_prompt_for_model("m", "/mem", &e, true, &defaults());
    let joined = build_system_prompt_for_model("m", "/mem", &e, false, &defaults());
    assert!(separate.contains("__CLAUX_BLOCK__"));
    assert!(!joined.contains("__CLAUX_BLOCK__"));
}

#[test]
fn untrusted_project_can_tighten_permissions() {
    assert!(permits_permission_override(PermissionMode::Bypass, PermissionMode::Default, false));
    assert!(permits_permission_override(PermissionMode::Default, PermissionMode::Plan, false));
}

#[test]
fn untrusted_project_cannot_loosen_permissions() {
    assert!(!permits_permission_override(
        PermissionMode::Default,
        PermissionMode::AcceptEdits,
        false
    ));
    assert!(!permits_permission_override(PermissionMode::Plan, PermissionMode::Bypass, false));
}

#[test]
fn trusted_project_can_choose_any_mode() {
    assert!(permits_permission_override(PermissionMode::Plan, PermissionMode::Bypass, true));
}

fn directory(written: &str, resolved: Option<&str>) -> Directory {
    Directory {
        written: written.to_string(),
        resolved: resolved.map(|r| r.to_string()),
    }
}

#[test]
fn a_listed_directory_is_trusted_by_what_it_resolves_to() {
    let cwd = directory("/link", Some("/real"));
    let listed = vec![directory("/real", Some("/real"))];
    let trust = ProjectTrust::resolve(false, &cwd, &listed);
    assert!(trust.is_trusted());
    assert_eq!(trust.project_file(".mcp.json"), "/link/.mcp.json");
    assert!(!ProjectTrust::resolve(false, &cwd, &vec![]).is_trusted());
    assert!(ProjectTrust::resolve(true, &cwd, &vec![]).is_trusted());
}
