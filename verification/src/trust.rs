//! Trust in the configuration that a project brings along.

use vstd::prelude::*;
use crate::paths;
use crate::paths::joined_path;
use crate::permissions::PermissionMode;
use crate::text;

verus! {

/// How much a permission mode allows.
pub open spec fn rank(mode: PermissionMode) -> int {
    match mode {
        PermissionMode::Plan => 0,
        PermissionMode::Default => 1,
        PermissionMode::AcceptEdits => 2,
        PermissionMode::Bypass => 3,
    }
}

/// How much a permission mode allows.
pub fn permission_rank(mode: PermissionMode) -> (r: u8)
    ensures
        r == rank(mode),
{
    match mode {
        PermissionMode::Plan => 0,
        PermissionMode::Default => 1,
        PermissionMode::AcceptEdits => 2,
        PermissionMode::Bypass => 3,
    }
}

/// Whether a project may change the permission mode. It may make it stricter without
/// trust; to loosen it takes an explicit decision to trust the project.
pub fn permits_permission_override(
    current: PermissionMode,
    requested: PermissionMode,
    trusted: bool,
) -> (r: bool)
    ensures
        r == (trusted || rank(requested) <= rank(current)),
{
    trusted || permission_rank(requested) <= permission_rank(current)
}

/// Whether two directories are the same: by their resolved paths where both resolve, and
/// else by their text.
pub open spec fn same_directory(
    left: Seq<char>,
    left_resolved: Option<Seq<char>>,
    right: Seq<char>,
    right_resolved: Option<Seq<char>>,
) -> bool {
    match (left_resolved, right_resolved) {
        (Some(a), Some(b)) => a == b,
        _ => left == right,
    }
}

/// A directory as it was written, and what the file system resolves it to.
pub struct Directory {
    pub written: String,
    pub resolved: Option<String>,
}

/// A directory as a mathematical object.
pub struct DirectoryView {
    pub written: Seq<char>,
    pub resolved: Option<Seq<char>>,
}

impl View for Directory {
    type V = DirectoryView;

    open spec fn view(&self) -> DirectoryView {
        DirectoryView {
            written: self.written@,
            resolved: crate::api::types::text_option(self.resolved),
        }
    }
}

/// Whether two directories are the same.
pub fn paths_match(left: &Directory, right: &Directory) -> (r: bool)
    ensures
        r == same_directory(left@.written, left@.resolved, right@.written, right@.resolved),
{
    match (&left.resolved, &right.resolved) {
        (Some(a), Some(b)) => text::same(a.as_str(), b.as_str()),
        _ => text::same(left.written.as_str(), right.written.as_str()),
    }
}

/// The trust in the configuration of the current project. Project files are not trusted
/// by default: to open a checkout must not grant it broader permissions or run its
/// commands.
pub struct ProjectTrust {
    cwd: String,
    trusted: bool,
}

impl ProjectTrust {
    /// The project directory.
    pub closed spec fn directory(&self) -> Seq<char> {
        self.cwd@
    }

    /// Whether the project is trusted.
    pub closed spec fn trusts(&self) -> bool {
        self.trusted
    }

    /// The trust in the project in the current directory: it is forced, or the directory
    /// is among the trusted ones.
    pub fn resolve(force_trust: bool, cwd: &Directory, trusted_projects: &Vec<Directory>) -> (r:
        ProjectTrust)
        ensures
            r.directory() == cwd@.written,
            r.trusts() == (force_trust || exists|i: int|
                0 <= i < trusted_projects@.len() && same_directory(
                    cwd@.written,
                    cwd@.resolved,
                    (#[trigger] trusted_projects@[i])@.written,
                    trusted_projects@[i]@.resolved,
                )),
    {
        let mut trusted = force_trust;
        let mut i: usize = 0;
        while i < trusted_projects.len()
            invariant
                i <= trusted_projects@.len(),
                trusted == (force_trust || exists|k: int|
                    0 <= k < i && same_directory(
                        cwd@.written,
                        cwd@.resolved,
                        (#[trigger] trusted_projects@[k])@.written,
                        trusted_projects@[k]@.resolved,
                    )),
            decreases trusted_projects.len() - i,
        {
            if paths_match(cwd, &trusted_projects[i]) {
                assert(same_directory(
                    cwd@.written,
                    cwd@.resolved,
                    trusted_projects@[i as int]@.written,
                    trusted_projects@[i as int]@.resolved,
                ));
                trusted = true;
            }
            i = i + 1;
        }
        ProjectTrust { cwd: cwd.written.clone(), trusted }
    }

    /// The given trust in the project in a directory.
    pub fn for_test(cwd: String, trusted: bool) -> (r: ProjectTrust)
        ensures
            r.directory() == cwd@,
            r.trusts() == trusted,
    {
        ProjectTrust { cwd, trusted }
    }

    /// Whether the project is trusted.
    pub fn is_trusted(&self) -> (r: bool)
        ensures
            r == self.trusts(),
    {
        self.trusted
    }

    /// A file of the project.
    pub fn project_file(&self, name: &str) -> (r: String)
        ensures
            r@ == joined_path(self.directory(), name@),
    {
        paths::join(self.cwd.as_str(), name)
    }
}

} // verus!
