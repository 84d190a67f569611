//! Containment of shell commands by the operating system.

use vstd::prelude::*;
use vstd::string::{StrSliceExecFns, StringExecFns};
use crate::api::diagnostics::{decode_lossy, lossy_text};
use crate::api::types::text_option;
use crate::order::{dedup_texts, deduped, in_text_order, lemma_deduped_contains, sort_texts};
use crate::paths;
use crate::paths::{components, is_below, joined_path};
use crate::sandbox::WorkspaceRoot;
use crate::text;
use crate::text::{texts, trimmed};

verus! {

/// Containment applied to shell commands.
#[derive(Debug, Clone, Copy, PartialEq, Eq, Structural)]
pub enum BashFilesystemPolicy {
    /// Contain writes where the platform can, run unrestricted where it cannot.
    Auto,
    WorkspaceWrite,
    Unrestricted,
}

impl Default for BashFilesystemPolicy {
    fn default() -> (r: BashFilesystemPolicy)
        ensures
            r == BashFilesystemPolicy::Auto,
    {
        BashFilesystemPolicy::Auto
    }
}

/// How much a policy allows.
pub open spec fn rank(policy: BashFilesystemPolicy) -> int {
    match policy {
        BashFilesystemPolicy::WorkspaceWrite => 0,
        BashFilesystemPolicy::Auto => 1,
        BashFilesystemPolicy::Unrestricted => 2,
    }
}

/// How much a policy allows.
pub fn policy_rank(policy: BashFilesystemPolicy) -> (r: u8)
    ensures
        r == rank(policy),
{
    match policy {
        BashFilesystemPolicy::WorkspaceWrite => 0,
        BashFilesystemPolicy::Auto => 1,
        BashFilesystemPolicy::Unrestricted => 2,
    }
}

/// The name of a policy.
pub open spec fn policy_name(policy: BashFilesystemPolicy) -> Seq<char> {
    match policy {
        BashFilesystemPolicy::Auto => "auto"@,
        BashFilesystemPolicy::WorkspaceWrite => "workspace_write"@,
        BashFilesystemPolicy::Unrestricted => "unrestricted"@,
    }
}

/// The policy of a name.
pub open spec fn policy_named(name: Seq<char>) -> Option<BashFilesystemPolicy> {
    if name == "auto"@ {
        Some(BashFilesystemPolicy::Auto)
    } else if name == "workspace_write"@ {
        Some(BashFilesystemPolicy::WorkspaceWrite)
    } else if name == "unrestricted"@ {
        Some(BashFilesystemPolicy::Unrestricted)
    } else {
        None
    }
}

/// Whether the platform can contain writes.
pub enum LandlockAvailability {
    Available,
    UnsupportedPlatform,
    Unavailable(String),
}

/// Whether the platform can contain writes, as a mathematical object.
pub enum AvailabilityView {
    Available,
    UnsupportedPlatform,
    Unavailable(Seq<char>),
}

impl View for LandlockAvailability {
    type V = AvailabilityView;

    open spec fn view(&self) -> AvailabilityView {
        match self {
            LandlockAvailability::Available => AvailabilityView::Available,
            LandlockAvailability::UnsupportedPlatform => AvailabilityView::UnsupportedPlatform,
            LandlockAvailability::Unavailable(reason) => AvailabilityView::Unavailable(reason@),
        }
    }
}

/// A run of the program that only tests whether writes can be contained.
pub enum ProbeRun {
    /// The program does not know its own path.
    NoExecutable(String),
    /// The program could not be run.
    NotRun(String),
    /// The program ran: whether it succeeded, how it exited and what it reported.
    Ran { success: bool, status: String, stderr: Vec<u8> },
}

/// Why a probe failed, given what it reported and how it exited.
pub open spec fn failed_probe(reported: Seq<char>, status: Seq<char>) -> Seq<char> {
    let reason = trimmed(reported);
    let bare = if "Error: "@.is_prefix_of(reason) {
        reason.skip("Error: "@.len() as int)
    } else {
        reason
    };
    if bare.len() == 0 {
        "probe exited with "@ + status
    } else {
        bare
    }
}

/// Why a probe failed, given what it reported and how it exited.
pub fn probe_failure(reported: &str, status: &str) -> (r: String)
    ensures
        r@ == failed_probe(reported@, status@),
{
    let reason = text::trim(reported);
    let bare = match text::strip_prefix(reason, "Error: ") {
        Some(rest) => rest,
        None => reason,
    };
    if bare.unicode_len() == 0 {
        let mut out = "probe exited with ".to_owned();
        out.append(status);
        out
    } else {
        bare.to_owned()
    }
}

/// Whether writes can be contained, as a probe tells.
pub open spec fn probed(run: ProbeRun) -> AvailabilityView {
    match run {
        ProbeRun::NoExecutable(error) => AvailabilityView::Unavailable(
            "could not locate the claux executable: "@ + error@,
        ),
        ProbeRun::NotRun(error) => AvailabilityView::Unavailable(
            "could not run Landlock probe: "@ + error@,
        ),
        ProbeRun::Ran { success, status, stderr } => if success {
            AvailabilityView::Available
        } else {
            AvailabilityView::Unavailable(failed_probe(lossy_text(stderr@), status@))
        },
    }
}

/// Whether writes can be contained, as a probe tells.
pub fn landlock_availability(run: &ProbeRun) -> (r: LandlockAvailability)
    ensures
        r@ == probed(*run),
{
    match run {
        ProbeRun::NoExecutable(error) => {
            let mut reason = "could not locate the claux executable: ".to_owned();
            reason.append(error.as_str());
            LandlockAvailability::Unavailable(reason)
        },
        ProbeRun::NotRun(error) => {
            let mut reason = "could not run Landlock probe: ".to_owned();
            reason.append(error.as_str());
            LandlockAvailability::Unavailable(reason)
        },
        ProbeRun::Ran { success, status, stderr } => {
            if *success {
                LandlockAvailability::Available
            } else {
                let reported = decode_lossy(stderr.as_slice());
                LandlockAvailability::Unavailable(
                    probe_failure(reported.as_str(), status.as_str()),
                )
            }
        },
    }
}

/// What a policy comes to on a platform.
#[derive(Debug, PartialEq, Eq)]
pub struct BashPolicyDiagnostic {
    pub summary: String,
    pub issue: Option<String>,
    pub healthy: bool,
    pub effective_policy: BashFilesystemPolicy,
}

/// What a policy comes to, as a mathematical object.
pub struct DiagnosticView {
    pub summary: Seq<char>,
    pub issue: Option<Seq<char>>,
    pub healthy: bool,
    pub effective_policy: BashFilesystemPolicy,
}

impl View for BashPolicyDiagnostic {
    type V = DiagnosticView;

    open spec fn view(&self) -> DiagnosticView {
        DiagnosticView {
            summary: self.summary@,
            issue: text_option(self.issue),
            healthy: self.healthy,
            effective_policy: self.effective_policy,
        }
    }
}

/// What a policy comes to on a platform.
pub open spec fn diagnosis(policy: BashFilesystemPolicy, availability: AvailabilityView) -> DiagnosticView {
    match (policy, availability) {
        (BashFilesystemPolicy::Unrestricted, _) => DiagnosticView {
            summary: "unrestricted"@,
            issue: None,
            healthy: true,
            effective_policy: BashFilesystemPolicy::Unrestricted,
        },
        (_, AvailabilityView::Available) => DiagnosticView {
            summary: "workspace_write (Landlock; temporary and Git metadata paths remain writable)"@,
            issue: None,
            healthy: true,
            effective_policy: BashFilesystemPolicy::WorkspaceWrite,
        },
        (BashFilesystemPolicy::Auto, AvailabilityView::UnsupportedPlatform) => DiagnosticView {
            summary: "unrestricted (no sandbox backend for this platform)"@,
            issue: None,
            healthy: true,
            effective_policy: BashFilesystemPolicy::Unrestricted,
        },
        (BashFilesystemPolicy::Auto, AvailabilityView::Unavailable(reason)) => DiagnosticView {
            summary: "unrestricted (automatic Landlock fallback)"@,
            issue: Some(
                "Landlock workspace-write sandbox unavailable; Bash will run unrestricted: "@
                    + reason,
            ),
            healthy: true,
            effective_policy: BashFilesystemPolicy::Unrestricted,
        },
        (
            BashFilesystemPolicy::WorkspaceWrite,
            AvailabilityView::UnsupportedPlatform,
        ) => DiagnosticView {
            summary: "workspace_write (unavailable)"@,
            issue: Some(
                "bash_filesystem_policy=workspace_write is currently only supported on Linux"@,
            ),
            healthy: false,
            effective_policy: BashFilesystemPolicy::WorkspaceWrite,
        },
        (
            BashFilesystemPolicy::WorkspaceWrite,
            AvailabilityView::Unavailable(reason),
        ) => DiagnosticView {
            summary: "workspace_write (unavailable)"@,
            issue: Some(
                "bash_filesystem_policy=workspace_write requires complete Landlock ABI V3 enforcement: "@
                    + reason,
            ),
            healthy: false,
            effective_policy: BashFilesystemPolicy::WorkspaceWrite,
        },
    }
}

fn with_reason(prefix: &str, reason: &str) -> (r: Option<String>)
    ensures
        text_option(r) == Some(prefix@ + reason@),
{
    let mut issue = prefix.to_owned();
    issue.append(reason);
    Some(issue)
}

/// What a policy comes to on a platform.
pub fn diagnose_with_availability(
    policy: BashFilesystemPolicy,
    availability: &LandlockAvailability,
) -> (r: BashPolicyDiagnostic)
    ensures
        r@ == diagnosis(policy, availability@),
{
    match (policy, availability) {
        (BashFilesystemPolicy::Unrestricted, _) => BashPolicyDiagnostic {
            summary: "unrestricted".to_owned(),
            issue: None,
            healthy: true,
            effective_policy: BashFilesystemPolicy::Unrestricted,
        },
        (_, LandlockAvailability::Available) => BashPolicyDiagnostic {
            summary: "workspace_write (Landlock; temporary and Git metadata paths remain writable)".to_owned(),
            issue: None,
            healthy: true,
            effective_policy: BashFilesystemPolicy::WorkspaceWrite,
        },
        (BashFilesystemPolicy::Auto, LandlockAvailability::UnsupportedPlatform) => {
            BashPolicyDiagnostic {
                summary: "unrestricted (no sandbox backend for this platform)".to_owned(),
                issue: None,
                healthy: true,
                effective_policy: BashFilesystemPolicy::Unrestricted,
            }
        },
        (BashFilesystemPolicy::Auto, LandlockAvailability::Unavailable(reason)) => {
            BashPolicyDiagnostic {
                summary: "unrestricted (automatic Landlock fallback)".to_owned(),
                issue: with_reason(
                    "Landlock workspace-write sandbox unavailable; Bash will run unrestricted: ",
                    reason.as_str(),
                ),
                healthy: true,
                effective_policy: BashFilesystemPolicy::Unrestricted,
            }
        },
        (BashFilesystemPolicy::WorkspaceWrite, LandlockAvailability::UnsupportedPlatform) => {
            BashPolicyDiagnostic {
                summary: "workspace_write (unavailable)".to_owned(),
                issue: Some(
                    "bash_filesystem_policy=workspace_write is currently only supported on Linux".to_owned(),
                ),
                healthy: false,
                effective_policy: BashFilesystemPolicy::WorkspaceWrite,
            }
        },
        (BashFilesystemPolicy::WorkspaceWrite, LandlockAvailability::Unavailable(reason)) => {
            BashPolicyDiagnostic {
                summary: "workspace_write (unavailable)".to_owned(),
                issue: with_reason(
                    "bash_filesystem_policy=workspace_write requires complete Landlock ABI V3 enforcement: ",
                    reason.as_str(),
                ),
                healthy: false,
                effective_policy: BashFilesystemPolicy::WorkspaceWrite,
            }
        },
    }
}

impl BashFilesystemPolicy {
    /// Whether a project may change the policy. It may make it stricter without trust.
    pub fn permits_project_override(self, requested: BashFilesystemPolicy, trusted: bool) -> (r:
        bool)
        ensures
            r == (trusted || rank(requested) <= rank(self)),
    {
        trusted || policy_rank(requested) <= policy_rank(self)
    }

    /// What the policy comes to, given what the platform can do.
    pub fn diagnose(self, availability: &LandlockAvailability) -> (r: BashPolicyDiagnostic)
        ensures
            r@ == diagnosis(self, availability@),
    {
        diagnose_with_availability(self, availability)
    }

    /// The name of the policy.
    pub fn name(self) -> (r: &'static str)
        ensures
            r@ == policy_name(self),
    {
        match self {
            BashFilesystemPolicy::Auto => "auto",
            BashFilesystemPolicy::WorkspaceWrite => "workspace_write",
            BashFilesystemPolicy::Unrestricted => "unrestricted",
        }
    }

    /// The policy of a name.
    pub fn from_name(name: &str) -> (r: Option<BashFilesystemPolicy>)
        ensures
            r == policy_named(name@),
    {
        if text::same(name, "auto") {
            Some(BashFilesystemPolicy::Auto)
        } else if text::same(name, "workspace_write") {
            Some(BashFilesystemPolicy::WorkspaceWrite)
        } else if text::same(name, "unrestricted") {
            Some(BashFilesystemPolicy::Unrestricted)
        } else {
            None
        }
    }
}

/// Runs shell commands under a policy that the platform can keep.
pub struct CommandSandbox {
    effective_policy: BashFilesystemPolicy,
    workspace_root: String,
}

/// A command line.
pub struct CommandLine {
    pub program: String,
    pub args: Vec<String>,
}

/// What is wrong with a sandbox, if something is.
pub open spec fn sandbox_error(
    policy: BashFilesystemPolicy,
    root: WorkspaceRoot,
    availability: AvailabilityView,
) -> Option<Seq<char>> {
    match root.resolved {
        None => Some("could not resolve command sandbox workspace "@ + root.requested@),
        Some(path) => if !root.is_dir {
            Some("command sandbox workspace is not a directory: "@ + path@)
        } else if !diagnosis(policy, availability).healthy {
            diagnosis(policy, availability).issue
        } else {
            None
        },
    }
}

impl CommandSandbox {
    /// The policy that commands run under.
    pub closed spec fn policy(&self) -> BashFilesystemPolicy {
        self.effective_policy
    }

    /// The directory that commands may write to.
    pub closed spec fn root(&self) -> Seq<char> {
        self.workspace_root@
    }

    #[verifier::type_invariant]
    spec fn resolved(&self) -> bool {
        self.effective_policy != BashFilesystemPolicy::Auto
    }

    /// A sandbox in a workspace. A policy that the platform cannot keep is an error.
    pub fn new(
        policy: BashFilesystemPolicy,
        root: &WorkspaceRoot,
        availability: &LandlockAvailability,
    ) -> (r: Result<CommandSandbox, String>)
        ensures
            r is Ok <==> sandbox_error(policy, *root, availability@) is None,
            r matches Err(e) ==> sandbox_error(policy, *root, availability@) == Some(e@),
            r matches Ok(s) ==> {
                &&& s.policy() == diagnosis(policy, availability@).effective_policy
                &&& root.resolved matches Some(path) && s.root() == path@
            },
    {
        Self::new_with_availability(policy, root, availability)
    }

    /// A sandbox in a workspace. A policy that the platform cannot keep is an error.
    pub fn new_with_availability(
        policy: BashFilesystemPolicy,
        root: &WorkspaceRoot,
        availability: &LandlockAvailability,
    ) -> (r: Result<CommandSandbox, String>)
        ensures
            r is Ok <==> sandbox_error(policy, *root, availability@) is None,
            r matches Err(e) ==> sandbox_error(policy, *root, availability@) == Some(e@),
            r matches Ok(s) ==> {
                &&& s.policy() == diagnosis(policy, availability@).effective_policy
                &&& root.resolved matches Some(path) && s.root() == path@
            },
    {
        let path = match &root.resolved {
            Some(path) => path,
            None => {
                let mut e = "could not resolve command sandbox workspace ".to_owned();
                e.append(root.requested.as_str());
                return Err(e);
            },
        };
        if !root.is_dir {
            let mut e = "command sandbox workspace is not a directory: ".to_owned();
            e.append(path.as_str());
            return Err(e);
        }
        let diagnostic = diagnose_with_availability(policy, availability);
        if !diagnostic.healthy {
            return match diagnostic.issue {
                Some(issue) => Err(issue),
                None => Err(String::new()),
            };
        }
        Ok(
            CommandSandbox {
                effective_policy: diagnostic.effective_policy,
                workspace_root: path.clone(),
            },
        )
    }

    /// Whether commands run contained.
    pub fn uses_workspace_write(&self) -> (r: bool)
        ensures
            r == (self.policy() == BashFilesystemPolicy::WorkspaceWrite),
    {
        match self.effective_policy {
            BashFilesystemPolicy::WorkspaceWrite => true,
            _ => false,
        }
    }

    /// The command line that runs a shell command: contained commands are run by a helper,
    /// which is this program under another command.
    pub fn command(&self, shell_command: &str, executable: &str) -> (r: CommandLine)
        ensures
            self.policy() == BashFilesystemPolicy::WorkspaceWrite ==> r.program@ == executable@
                && texts(r.args@) == seq![
                "__sandbox-exec"@,
                "--workspace"@,
                self.root(),
                "--command"@,
                shell_command@,
            ],
            self.policy() == BashFilesystemPolicy::Unrestricted ==> r.program@ == "sh"@ && texts(
                r.args@,
            ) == seq!["-c"@, shell_command@],
            self.policy() != BashFilesystemPolicy::Auto,
    {
        proof {
            use_type_invariant(self);
        }
        let mut args: Vec<String> = Vec::new();
        if self.uses_workspace_write() {
            args.push("__sandbox-exec".to_owned());
            args.push("--workspace".to_owned());
            args.push(self.workspace_root.clone());
            args.push("--command".to_owned());
            args.push(shell_command.to_owned());
            assert(texts(args@) =~= seq![
                "__sandbox-exec"@,
                "--workspace"@,
                self.root(),
                "--command"@,
                shell_command@,
            ]);
            return CommandLine { program: executable.to_owned(), args };
        }
        args.push("-c".to_owned());
        args.push(shell_command.to_owned());
        assert(texts(args@) =~= seq!["-c"@, shell_command@]);
        CommandLine { program: "sh".to_owned(), args }
    }
}

/// An explicit policy fails where the platform cannot keep it, rather than falling back.
pub proof fn law_explicit_policy_fails_closed(
    root: WorkspaceRoot,
    availability: AvailabilityView,
)
    requires
        !(availability is Available),
    ensures
        sandbox_error(BashFilesystemPolicy::WorkspaceWrite, root, availability) is Some,
{
}

/// A policy that is kept is never weaker than an explicit one that was asked for.
pub proof fn law_never_weaker(policy: BashFilesystemPolicy, availability: AvailabilityView)
    ensures
        diagnosis(policy, availability).effective_policy != BashFilesystemPolicy::Auto,
        policy == BashFilesystemPolicy::WorkspaceWrite ==> diagnosis(
            policy,
            availability,
        ).effective_policy == BashFilesystemPolicy::WorkspaceWrite,
        !diagnosis(policy, availability).healthy ==> diagnosis(policy, availability).issue is Some,
{
}

/// A path that may be relative to a directory.
pub fn resolve_relative(base: &str, path: &str) -> (r: String)
    ensures
        r@ == joined_path(base@, path@),
{
    paths::join(base, path)
}

/// The Git directory that the `.git` file of a worktree names.
pub open spec fn named_git_dir(contents: Seq<char>, worktree_root: Seq<char>) -> Option<Seq<char>> {
    if "gitdir:"@.is_prefix_of(trimmed(contents)) {
        Some(
            joined_path(worktree_root, trimmed(trimmed(contents).skip("gitdir:"@.len() as int))),
        )
    } else {
        None
    }
}

/// The Git directory that the `.git` file of a worktree names.
pub fn git_dir_named_by(contents: &str, worktree_root: &str) -> (r: Option<String>)
    ensures
        text_option(r) == named_git_dir(contents@, worktree_root@),
{
    match text::strip_prefix(text::trim(contents), "gitdir:") {
        Some(rest) => Some(resolve_relative(worktree_root, text::trim(rest))),
        None => None,
    }
}

/// The path that a file of a Git directory names.
pub fn path_named_by(contents: &str, git_dir: &str) -> (r: String)
    ensures
        r@ == joined_path(git_dir@, trimmed(contents@)),
{
    resolve_relative(git_dir, text::trim(contents))
}

/// What the file system says of the Git metadata of a workspace. Paths are resolved.
pub struct GitMetadata {
    /// The `.git` of the workspace or of a directory above it, where one exists.
    pub dot_git: Option<String>,
    pub is_symlink: bool,
    pub is_dir: bool,
    /// The Git directory that a `.git` file names.
    pub git_dir: Option<String>,
    /// The path that the Git directory names in turn.
    pub backlink: Option<String>,
    /// The common directory that the Git directory names.
    pub common_dir: Option<String>,
}

/// The optional string among others.
pub open spec fn listed(path: Option<String>) -> Seq<Seq<char>> {
    match path {
        Some(p) => seq![p@],
        None => Seq::empty(),
    }
}

/// Whether a worktree's Git directory is genuine: it names the `.git` file that names it.
pub open spec fn genuine_worktree(git: GitMetadata) -> bool {
    git.git_dir is Some && (git.backlink matches Some(b) && git.dot_git matches Some(d) && b@ == d@)
}

/// Whether the common directory of a genuine worktree is one that contains it.
pub open spec fn genuine_common(git: GitMetadata) -> bool {
    &&& git.git_dir matches Some(g)
    &&& git.common_dir matches Some(c)
    &&& components(c@).len() > 0
    &&& components(c@).last() == ".git"@
    &&& is_below(g@, c@)
}

/// The directories of Git metadata that commands may write to: a `.git` directory, or
/// the Git directory of a genuine worktree and the common directory that contains it.
pub open spec fn metadata_roots(git: GitMetadata) -> Seq<Seq<char>> {
    if git.dot_git is None || git.is_symlink {
        Seq::empty()
    } else if git.is_dir {
        listed(git.dot_git)
    } else if genuine_worktree(git) {
        if genuine_common(git) {
            listed(git.git_dir) + listed(git.common_dir)
        } else {
            listed(git.git_dir)
        }
    } else {
        Seq::empty()
    }
}

fn push_text(out: &mut Vec<String>, item: &str)
    ensures
        texts(final(out)@) == texts(old(out)@).push(item@),
{
    out.push(item.to_owned());
    assert(texts(out@) =~= texts(old(out)@).push(item@));
}

/// The directories of Git metadata that commands may write to.
pub fn add_git_metadata_roots(roots: &mut Vec<String>, git: &GitMetadata)
    ensures
        texts(final(roots)@) == texts(old(roots)@) + metadata_roots(*git),
{
    let ghost start = texts(roots@);
    assert(start + Seq::empty() =~= start);
    let dot_git = match &git.dot_git {
        Some(p) => p,
        None => return ,
    };
    if git.is_symlink {
        return ;
    }
    if git.is_dir {
        push_text(roots, dot_git.as_str());
        assert(texts(roots@) =~= start + metadata_roots(*git));
        return ;
    }
    match (&git.git_dir, &git.backlink) {
        (Some(git_dir), Some(backlink)) => {
            if !text::same(backlink.as_str(), dot_git.as_str()) {
                return ;
            }
            push_text(roots, git_dir.as_str());
            match &git.common_dir {
                Some(common) => {
                    let parts = paths::split_path(common.as_str());
                    let n = parts.len();
                    if n > 0 {
                        assert(components(common@).last() == parts@[n - 1]@);
                    }
                    if n > 0 && text::same(parts[n - 1].as_str(), ".git") && paths::below(
                        git_dir.as_str(),
                        common.as_str(),
                    ) {
                        push_text(roots, common.as_str());
                    }
                },
                None => {},
            }
            assert(texts(roots@) =~= start + metadata_roots(*git));
        },
        _ => {},
    }
}

/// The paths that contained commands may write to: the workspace, the places for
/// temporary files, and the Git metadata of the workspace; each once, in order.
pub fn writable_roots(workspace_root: &str, temporary: &Vec<String>, git: &GitMetadata) -> (r: Vec<
    String,
>)
    ensures
        in_text_order(texts(r@)),
        texts(r@).no_duplicates(),
        forall|path: Seq<char>| #[trigger]
            texts(r@).contains(path) <==> path == workspace_root@ || texts(temporary@).contains(
                path,
            ) || metadata_roots(*git).contains(path),
{
    let mut roots: Vec<String> = Vec::new();
    assert(texts(roots@) =~= Seq::empty());
    push_text(&mut roots, workspace_root);
    let mut i: usize = 0;
    let ghost extra = texts(temporary@);
    assert(texts(roots@) =~= seq![workspace_root@] + extra.take(0));
    while i < temporary.len()
        invariant
            i <= temporary@.len(),
            extra == texts(temporary@),
            texts(roots@) == seq![workspace_root@] + extra.take(i as int),
        decreases temporary.len() - i,
    {
        push_text(&mut roots, temporary[i].as_str());
        i = i + 1;
        assert(texts(roots@) =~= seq![workspace_root@] + extra.take(i as int));
    }
    assert(extra.take(temporary@.len() as int) =~= extra);
    add_git_metadata_roots(&mut roots, git);
    let ghost all = texts(roots@);
    let ghost git_roots = metadata_roots(*git);
    let sorted = sort_texts(&roots);
    let out = dedup_texts(&sorted);
    proof {
        let s = texts(sorted@);
        assert forall|path: Seq<char>| #[trigger] texts(out@).contains(path) <==> path
            == workspace_root@ || extra.contains(path) || git_roots.contains(path) by {
            lemma_deduped_contains(s, path);
            lemma_same_members(s, all, path);
            lemma_member_of_three(workspace_root@, extra, git_roots, path);
            assert(all =~= seq![workspace_root@] + extra + git_roots);
        }
        lemma_deduped_in_order(s);
        lemma_deduped_distinct(s);
    }
    out
}

proof fn lemma_same_members(a: Seq<Seq<char>>, b: Seq<Seq<char>>, x: Seq<char>)
    requires
        a.to_multiset() == b.to_multiset(),
    ensures
        a.contains(x) <==> b.contains(x),
{
    broadcast use vstd::seq_lib::group_to_multiset_ensures;

    assert(a.contains(x) <==> a.to_multiset().count(x) > 0);
    assert(b.contains(x) <==> b.to_multiset().count(x) > 0);
}

proof fn lemma_member_of_three(
    first: Seq<char>,
    second: Seq<Seq<char>>,
    third: Seq<Seq<char>>,
    x: Seq<char>,
)
    ensures
        (seq![first] + second + third).contains(x) <==> x == first || second.contains(x)
            || third.contains(x),
{
    let all = seq![first] + second + third;
    if all.contains(x) {
        let k = choose|k: int| 0 <= k < all.len() && all[k] == x;
        if k == 0 {
        } else if k < 1 + second.len() {
            assert(second[k - 1] == x);
        } else {
            assert(third[k - 1 - second.len()] == x);
        }
    }
    if x == first {
        assert(all[0] == x);
    }
    if second.contains(x) {
        let k = choose|k: int| 0 <= k < second.len() && second[k] == x;
        assert(all[1 + k] == x);
    }
    if third.contains(x) {
        let k = choose|k: int| 0 <= k < third.len() && third[k] == x;
        assert(all[1 + second.len() + k] == x);
    }
}

proof fn lemma_deduped_in_order(s: Seq<Seq<char>>)
    requires
        in_text_order(s),
    ensures
        in_text_order(deduped(s)),
    decreases s.len(),
{
    if s.len() > 0 {
        let init = s.drop_last();
        assert(in_text_order(init)) by {
            assert forall|i: int, j: int| 0 <= i < j < init.len() implies crate::order::text_le(
                #[trigger] init[i],
                #[trigger] init[j],
            ) by {
                assert(crate::order::text_le(s[i], s[j]));
            }
        }
        lemma_deduped_in_order(init);
        let before = deduped(init);
        let after = deduped(s);
        assert forall|i: int, j: int| 0 <= i < j < after.len() implies crate::order::text_le(
            #[trigger] after[i],
            #[trigger] after[j],
        ) by {
            if j < before.len() {
                assert(crate::order::text_le(before[i], before[j]));
            } else {
                lemma_deduped_contains(init, before[i]);
                assert(before.contains(before[i]));
                let k = choose|k: int| 0 <= k < init.len() && init[k] == before[i];
                assert(crate::order::text_le(s[k], s[s.len() - 1]));
            }
        }
    }
}

proof fn lemma_deduped_distinct(s: Seq<Seq<char>>)
    requires
        in_text_order(s),
    ensures
        deduped(s).no_duplicates(),
    decreases s.len(),
{
    if s.len() > 0 {
        let init = s.drop_last();
        assert(in_text_order(init)) by {
            assert forall|i: int, j: int| 0 <= i < j < init.len() implies crate::order::text_le(
                #[trigger] init[i],
                #[trigger] init[j],
            ) by {
                assert(crate::order::text_le(s[i], s[j]));
            }
        }
        lemma_deduped_distinct(init);
        lemma_deduped_contains(init, s.last());
        if deduped(init).contains(s.last()) {
            let k = choose|k: int| 0 <= k < init.len() && init[k] == s.last();
            let n = s.len() - 2;
            assert(s[k] == s.last());
            assert(crate::order::text_le(s[n], s[n + 1]));
            if k < n {
                assert(crate::order::text_le(s[k], s[n]));
                crate::order::lemma_text_le_antisymmetric(s[n], s.last());
            }
        } else {
            let before = deduped(init);
            let after = deduped(s);
            assert forall|i: int, j: int| 0 <= i < after.len() && 0 <= j < after.len() && i
                != j implies after[i] != after[j] by {
                if i < before.len() && j < before.len() {
                    assert(before[i] != before[j]);
                } else if i < before.len() {
                    assert(before.contains(before[i]));
                } else if j < before.len() {
                    assert(before.contains(before[j]));
                }
            }
        }
    }
}

/// Forged metadata adds no writable path: a Git directory that does not name the `.git`
/// file that names it is not among the paths.
pub proof fn law_forged_metadata(git: GitMetadata)
    requires
        !git.is_dir,
        !genuine_worktree(git),
    ensures
        metadata_roots(git).len() == 0,
{
}

} // verus!
