use claux::command_sandbox::{
    diagnose_with_availability, git_dir_named_by, landlock_availability, path_named_by,
    probe_failure, writable_roots, BashFilesystemPolicy, BashPolicyDiagnostic, CommandSandbox,
    GitMetadata, LandlockAvailability, ProbeRun,
};
use claux::sandbox::{
    NativeToolFilesystemPolicy, SandboxPolicy, WorkspaceRoot, WritePath,
};

fn root(path: &str) -> WorkspaceRoot {
    WorkspaceRoot {
        requested: path.to_string(),
        resolved: Some(path.to_string()),
        is_dir: true,
    }
}

fn sandbox(policy: BashFilesystemPolicy, availability: LandlockAvailability) -> CommandSandbox {
    match CommandSandbox::new_with_availability(policy, &root("/work"), &availability) {
        Ok(sandbox) => sandbox,
        Err(error) => panic!("{error}"),
    }
}

#[test]
fn untrusted_projects_can_only_tighten_bash_policy() {
    assert!(BashFilesystemPolicy::Auto
        .permits_project_override(BashFilesystemPolicy::WorkspaceWrite, false));
    assert!(!BashFilesystemPolicy::Auto
        .permits_project_override(BashFilesystemPolicy::Unrestricted, false));
    assert!(BashFilesystemPolicy::WorkspaceWrite
        .permits_project_override(BashFilesystemPolicy::Unrestricted, true));
}

#[test]
fn unrestricted_commands_run_the_shell_directly() {
    let sandbox = sandbox(BashFilesystemPolicy::Unrestricted, LandlockAvailability::Available);
    let command = sandbox.command("echo hello", "/usr/bin/claux");

    assert_eq!(command.program, "sh");
    assert_eq!(command.args, ["-c", "echo hello"]);
}

#[test]
fn auto_falls_back_with_a_warning_when_landlock_is_unavailable() {
    let unavailable = LandlockAvailability::Unavailable("kernel is too old".to_string());
    let sandbox = sandbox(
        BashFilesystemPolicy::Auto,
        LandlockAvailability::Unavailable("kernel is too old".to_string()),
    );

    assert_eq!(sandbox.command("echo hello", "/usr/bin/claux").program, "sh");
    assert_eq!(
        diagnose_with_availability(BashFilesystemPolicy::Auto, &unavailable),
        BashPolicyDiagnostic {
            summary: "unrestricted (automatic Landlock fallback)".to_string(),
            issue: Some(
                "Landlock workspace-write sandbox unavailable; Bash will run unrestricted: \
                 kernel is too old"
                    .to_string()
            ),
            healthy: true,
            effective_policy: BashFilesystemPolicy::Unrestricted,
        }
    );
}

#[test]
fn explicit_workspace_write_fails_closed_when_landlock_is_unavailable() {
    let error = CommandSandbox::new_with_availability(
        BashFilesystemPolicy::WorkspaceWrite,
        &root("/work"),
        &LandlockAvailability::Unavailable("kernel is too old".to_string()),
    )
    .err()
    .unwrap();

    assert!(error.contains("requires complete Landlock ABI V3 enforcement"));
}

#[test]
fn auto_is_quietly_unrestricted_on_platforms_without_a_backend() {
    assert_eq!(
        diagnose_with_availability(
            BashFilesystemPolicy::Auto,
            &LandlockAvailability::UnsupportedPlatform
        ),
        BashPolicyDiagnostic {
            summary: "unrestricted (no sandbox backend for this platform)".to_string(),
            issue: None,
            healthy: true,
            effective_policy: BashFilesystemPolicy::Unrestricted,
        }
    );
}

#[test]
fn workspace_write_commands_use_the_helper() {
    let sandbox = sandbox(BashFilesystemPolicy::WorkspaceWrite, LandlockAvailability::Available);
    let command = sandbox.command("echo hello", "/usr/bin/claux");
    let arguments = command.args;

    assert_eq!(command.program, "/usr/bin/claux");
    assert_eq!(arguments[0], "__sandbox-exec");
    assert_eq!(arguments[1], "--workspace");
    assert_eq!(arguments[2], "/work");
    assert_eq!(arguments[3], "--command");
    assert_eq!(arguments[4], "echo hello");
}

fn strings(items: &[&str]) -> Vec<String> {
    items.iter().map(|s| s.to_string()).collect()
}

#[test]
fn git_metadata_outside_a_worktree_is_writable() {
    let git_dir = "/p/repository/.git/worktrees/workspace";
    assert_eq!(
        git_dir_named_by("gitdir: ../repository/.git/worktrees/workspace\n", "/p/workspace")
            .as_deref(),
        Some("/p/workspace/../repository/.git/worktrees/workspace")
    );
    assert_eq!(path_named_by("/p/workspace/.git\n", git_dir), "/p/workspace/.git");
    assert_eq!(
        path_named_by("../..\n", git_dir),
        "/p/repository/.git/worktrees/workspace/../.."
    );
    let git = GitMetadata {
        dot_git: Some("/p/workspace/.git".to_string()),
        is_symlink: false,
        is_dir: false,
        git_dir: Some(git_dir.to_string()),
        backlink: Some("/p/workspace/.git".to_string()),
        common_dir: Some("/p/repository/.git".to_string()),
    };

    let roots = writable_roots("/p/workspace/subdirectory", &strings(&["/tmp", "/tmp"]), &git);

    assert!(roots.contains(&git_dir.to_string()));
    assert!(roots.contains(&"/p/repository/.git".to_string()));
    assert_eq!(roots.iter().filter(|r| *r == "/tmp").count(), 1);
}

#[test]
fn forged_git_metadata_cannot_add_an_arbitrary_writable_root() {
    let git = GitMetadata {
        dot_git: Some("/p/workspace/.git".to_string()),
        is_symlink: false,
        is_dir: false,
        git_dir: Some("/p/outside".to_string()),
        backlink: None,
        common_dir: None,
    };

    let roots = writable_roots("/p/workspace", &strings(&["/tmp"]), &git);

    assert!(!roots.contains(&"/p/outside".to_string()));
    assert_eq!(roots, ["/p/workspace", "/tmp"]);
}

#[test]
fn a_probe_tells_whether_writes_can_be_contained() {
    let ran = |success: bool, stderr: &[u8]| ProbeRun::Ran {
        success,
        status: "exit status: 1".to_string(),
        stderr: stderr.to_vec(),
    };
    assert!(matches!(
        landlock_availability(&ran(true, b"")),
        LandlockAvailability::Available
    ));
    assert!(matches!(
        landlock_availability(&ran(false, b"Error: too old \xff\n")),
        LandlockAvailability::Unavailable(reason) if reason == "too old \u{fffd}"
    ));
    assert_eq!(probe_failure("  \n", "exit status: 1"), "probe exited with exit status: 1");
    assert_eq!(probe_failure("plain", "x"), "plain");
    assert!(matches!(
        landlock_availability(&ProbeRun::NotRun("gone".to_string())),
        LandlockAvailability::Unavailable(reason)
            if reason == "could not run Landlock probe: gone"
    ));
    assert!(matches!(
        landlock_availability(&ProbeRun::NoExecutable("gone".to_string())),
        LandlockAvailability::Unavailable(reason)
            if reason == "could not locate the claux executable: gone"
    ));
}

fn policy(path: &str) -> SandboxPolicy {
    match SandboxPolicy::workspace_only(&root(path)) {
        Ok(policy) => policy,
        Err(error) => panic!("{error}"),
    }
}

#[test]
fn workspace_policy_allows_paths_beneath_the_root() {
    let policy = policy("/work");
    let file = "/work/src/lib.rs";

    assert_eq!(policy.authorize_read(file, Some(file)).unwrap(), file);
    assert_eq!(
        policy.authorize_write("/work/new/file.rs", Some("/work/new/file.rs")).unwrap(),
        "/work/new/file.rs"
    );
}

#[test]
fn workspace_policy_rejects_parent_traversal() {
    let policy = policy("/p/workspace");

    assert!(policy
        .authorize_read("/p/workspace/../secret.txt", Some("/p/secret.txt"))
        .unwrap_err()
        .contains("sandbox denied read"));
    assert!(policy
        .authorize_write("/p/workspace/../new-secret.txt", Some("/p/new-secret.txt"))
        .unwrap_err()
        .contains("sandbox denied write"));
}

#[test]
fn workspace_policy_rejects_symlinks_that_escape() {
    let policy = policy("/p/workspace");

    assert!(policy
        .authorize_read("/p/workspace/escape/secret.txt", Some("/p/outside/secret.txt"))
        .is_err());
    assert!(policy
        .authorize_write("/p/workspace/escape/new.txt", Some("/p/outside/new.txt"))
        .is_err());
}

#[test]
fn search_patterns_cannot_select_parent_or_absolute_paths() {
    let policy = policy("/work");

    assert!(policy.authorize_search_pattern("src/**/*.rs").is_ok());
    assert!(policy.authorize_search_pattern("../**/*").is_err());
    assert!(policy.authorize_search_pattern("/etc/*").is_err());
}

#[test]
fn unrestricted_policy_allows_paths_and_searches_outside_the_workspace() {
    let policy = match SandboxPolicy::unrestricted(&root("/p/workspace")) {
        Ok(policy) => policy,
        Err(error) => panic!("{error}"),
    };

    assert_eq!(
        policy.authorize_read("/p/outside.txt", Some("/p/outside.txt")).unwrap(),
        "/p/outside.txt"
    );
    assert!(policy
        .authorize_write("/p/created-outside.txt", Some("/p/created-outside.txt"))
        .is_ok());
    assert!(policy.authorize_search_pattern("../**/*").is_ok());
}

#[test]
fn untrusted_projects_can_only_tighten_native_tool_policy() {
    let workspace_only = NativeToolFilesystemPolicy::WorkspaceOnly;
    let unrestricted = NativeToolFilesystemPolicy::Unrestricted;

    assert!(unrestricted.permits_project_override(workspace_only, false));
    assert!(!workspace_only.permits_project_override(unrestricted, false));
    assert!(workspace_only.permits_project_override(unrestricted, true));
}

#[test]
fn a_root_that_does_not_resolve_is_refused() {
    let missing = WorkspaceRoot {
        requested: "/gone".to_string(),
        resolved: None,
        is_dir: false,
    };
    let error = SandboxPolicy::workspace_only(&missing).err().unwrap();
    assert!(error.contains("could not resolve workspace root /gone"));
    let file = WorkspaceRoot {
        requested: "/f".to_string(),
        resolved: Some("/f".to_string()),
        is_dir: false,
    };
    let error = SandboxPolicy::workspace_only(&file).err().unwrap();
    assert!(error.contains("workspace root is not a directory: /f"));
    let error = policy("/work").authorize_read("x", None).unwrap_err();
    assert_eq!(error, "could not resolve path x");
}

#[test]
fn a_sibling_with_the_same_prefix_is_outside() {
    let policy = policy("/work");
    assert!(policy.authorize_read("/workshop/a", Some("/workshop/a")).is_err());
    assert!(policy.authorize_read("/work", Some("/work")).is_ok());
}

#[test]
fn relative_paths_and_tildes_are_made_absolute() {
    let policy = policy("/work");
    assert_eq!(policy.absolute_path("src/a.rs", None), "/work/src/a.rs");
    assert_eq!(policy.absolute_path("/etc/x", None), "/etc/x");
    assert_eq!(policy.absolute_path("~/a", Some("/home/u")), "/home/u/a");
    assert_eq!(policy.absolute_path("~/a", None), "/work/~/a");
}

#[test]
fn missing_directories_are_added_below_what_resolves() {
    let mut path = WritePath::new("/work/new/dir/file.rs");
    assert_eq!(path.current(), "/work/new/dir/file.rs");
    path.go_up("x").unwrap();
    path.go_up("x").unwrap();
    path.go_up("x").unwrap();
    assert_eq!(path.current(), "/work");
    assert_eq!(path.finish("/real/work"), "/real/work/new/dir/file.rs");
    path.go_up("x").unwrap();
    assert_eq!(path.go_up("x").unwrap_err(), "could not resolve a parent for x");
}

#[test]
fn no_step_up_is_recorded_as_missing() {
    let policy = policy("/work");
    let mut path = WritePath::new("/work/new/../../etc/passwd");
    path.go_up("x").unwrap();
    path.go_up("x").unwrap();
    assert_eq!(path.current(), "/work/new/../..");
    assert_eq!(path.go_up("x").unwrap_err(), "could not resolve a parent for x");
    let place = path.finish("/");
    assert_eq!(place, "/etc/passwd");
    assert!(policy.authorize_write("x", Some(&place)).is_err());
    let place = path.finish("/work/a/");
    let allowed = policy.authorize_write("x", Some(&place)).unwrap();
    assert_eq!(allowed, "/work/a/etc/passwd");
    assert!(!allowed.split('/').any(|part| part == ".."));
}
