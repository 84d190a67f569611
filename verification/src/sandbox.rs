//! Containment of the file tools in the workspace. It does not reach child processes.

use vstd::prelude::*;
use vstd::string::StringExecFns;
use crate::api::error::str_option;
use crate::paths;
use crate::paths::{
    components, expanded, is_absolute, is_below, is_name, joined_path, lemma_component,
    lemma_joined_components, path_text,
};
use crate::text;
use crate::text::texts;

verus! {

/// Containment applied to the built-in file tools. It does not apply to shell commands
/// or to tools of other processes.
#[derive(Debug, Clone, Copy, PartialEq, Eq, Structural)]
pub enum NativeToolFilesystemPolicy {
    WorkspaceOnly,
    Unrestricted,
}

impl Default for NativeToolFilesystemPolicy {
    fn default() -> (r: NativeToolFilesystemPolicy)
        ensures
            r == NativeToolFilesystemPolicy::WorkspaceOnly,
    {
        NativeToolFilesystemPolicy::WorkspaceOnly
    }
}

/// The name of a policy.
pub open spec fn policy_name(policy: NativeToolFilesystemPolicy) -> Seq<char> {
    match policy {
        NativeToolFilesystemPolicy::WorkspaceOnly => "workspace_only"@,
        NativeToolFilesystemPolicy::Unrestricted => "unrestricted"@,
    }
}

/// The policy of a name.
pub open spec fn policy_named(name: Seq<char>) -> Option<NativeToolFilesystemPolicy> {
    if name == "workspace_only"@ {
        Some(NativeToolFilesystemPolicy::WorkspaceOnly)
    } else if name == "unrestricted"@ {
        Some(NativeToolFilesystemPolicy::Unrestricted)
    } else {
        None
    }
}

/// How much a policy allows.
pub open spec fn rank(policy: NativeToolFilesystemPolicy) -> int {
    match policy {
        NativeToolFilesystemPolicy::WorkspaceOnly => 0,
        NativeToolFilesystemPolicy::Unrestricted => 1,
    }
}

impl NativeToolFilesystemPolicy {
    /// Whether a project may change the policy. It may make it stricter without trust.
    pub fn permits_project_override(
        self,
        requested: NativeToolFilesystemPolicy,
        trusted: bool,
    ) -> (r: bool)
        ensures
            r == (trusted || rank(requested) <= rank(self)),
    {
        trusted || self == requested || (self == NativeToolFilesystemPolicy::Unrestricted
            && requested == NativeToolFilesystemPolicy::WorkspaceOnly)
    }

    /// The name of the policy.
    pub fn name(self) -> (r: &'static str)
        ensures
            r@ == policy_name(self),
    {
        match self {
            NativeToolFilesystemPolicy::WorkspaceOnly => "workspace_only",
            NativeToolFilesystemPolicy::Unrestricted => "unrestricted",
        }
    }

    /// The policy of a name.
    pub fn from_name(name: &str) -> (r: Option<NativeToolFilesystemPolicy>)
        ensures
            r == policy_named(name@),
    {
        if text::same(name, "workspace_only") {
            Some(NativeToolFilesystemPolicy::WorkspaceOnly)
        } else if text::same(name, "unrestricted") {
            Some(NativeToolFilesystemPolicy::Unrestricted)
        } else {
            None
        }
    }
}

/// A directory that was asked for as a workspace, and what the file system makes of it.
pub struct WorkspaceRoot {
    pub requested: String,
    /// The resolved path, where it resolves.
    pub resolved: Option<String>,
    /// Whether it is a directory.
    pub is_dir: bool,
}

/// The directories that file tools may read and write.
pub struct SandboxPolicy {
    workspace_root: String,
    read_roots: Vec<String>,
    write_roots: Vec<String>,
    unrestricted: bool,
}

/// A policy as a mathematical object.
pub struct SandboxView {
    pub workspace_root: Seq<char>,
    pub read_roots: Seq<Seq<char>>,
    pub write_roots: Seq<Seq<char>>,
    pub unrestricted: bool,
}

impl View for SandboxPolicy {
    type V = SandboxView;

    closed spec fn view(&self) -> SandboxView {
        SandboxView {
            workspace_root: self.workspace_root@,
            read_roots: texts(self.read_roots@),
            write_roots: texts(self.write_roots@),
            unrestricted: self.unrestricted,
        }
    }
}

/// What is wrong with a workspace root, if something is.
pub open spec fn root_error(root: WorkspaceRoot) -> Option<Seq<char>> {
    match root.resolved {
        None => Some("could not resolve workspace root "@ + root.requested@),
        Some(path) => if root.is_dir {
            None
        } else {
            Some("workspace root is not a directory: "@ + path@)
        },
    }
}

/// The resolved path of a workspace root.
pub fn canonical_workspace_root(root: &WorkspaceRoot) -> (r: Result<String, String>)
    ensures
        r is Ok <==> root_error(*root) is None,
        r matches Ok(path) ==> root.resolved matches Some(p) && path@ == p@,
        r matches Err(e) ==> root_error(*root) == Some(e@),
{
    match &root.resolved {
        None => {
            let mut e = "could not resolve workspace root ".to_owned();
            e.append(root.requested.as_str());
            Err(e)
        },
        Some(path) => if root.is_dir {
            Ok(path.clone())
        } else {
            let mut e = "workspace root is not a directory: ".to_owned();
            e.append(path.as_str());
            Err(e)
        },
    }
}

/// Whether a search pattern stays in its base directory: it does not start at the root
/// and does not step up.
pub open spec fn stays_inside(pattern: Seq<char>) -> bool {
    !is_absolute(pattern) && !components(pattern).contains(".."@)
}

impl SandboxView {
    /// Whether a resolved path lies in one of the roots, or there is no restriction.
    pub open spec fn allows(self, resolved: Seq<char>, roots: Seq<Seq<char>>) -> bool {
        self.unrestricted || exists|i: int|
            0 <= i < roots.len() && is_below(resolved, #[trigger] roots[i])
    }

    /// What is said of access to a path, by its resolved form, where it has one.
    pub open spec fn verdict(
        self,
        requested: Seq<char>,
        resolved: Option<Seq<char>>,
        roots: Seq<Seq<char>>,
        operation: Seq<char>,
    ) -> Result<Seq<char>, Seq<char>> {
        match resolved {
            None => Err("could not resolve path "@ + requested),
            Some(path) => if self.allows(path, roots) {
                Ok(path)
            } else {
                Err(
                    "sandbox denied "@ + operation + " access to "@ + requested
                        + " (resolved to "@ + path + ")"@,
                )
            },
        }
    }
}

/// Whether a result is the one that is specified.
pub open spec fn same_result(r: Result<String, String>, spec: Result<Seq<char>, Seq<char>>) -> bool {
    match (r, spec) {
        (Ok(a), Ok(b)) => a@ == b,
        (Err(a), Err(b)) => a@ == b,
        _ => false,
    }
}

fn one_root(root: &String) -> (r: Vec<String>)
    ensures
        texts(r@) == seq![root@],
{
    let mut out: Vec<String> = Vec::new();
    out.push(root.clone());
    assert(texts(out@) =~= seq![root@]);
    out
}

impl SandboxPolicy {
    /// The policy that a setting asks for.
    pub fn from_native_tool_policy(
        policy: NativeToolFilesystemPolicy,
        root: &WorkspaceRoot,
    ) -> (r: Result<SandboxPolicy, String>)
        ensures
            r is Ok <==> root_error(*root) is None,
            r matches Err(e) ==> root_error(*root) == Some(e@),
            r matches Ok(p) ==> p@ == match policy {
                NativeToolFilesystemPolicy::WorkspaceOnly => SandboxView {
                    workspace_root: root.resolved->Some_0@,
                    read_roots: seq![root.resolved->Some_0@],
                    write_roots: seq![root.resolved->Some_0@],
                    unrestricted: false,
                },
                NativeToolFilesystemPolicy::Unrestricted => SandboxView {
                    workspace_root: root.resolved->Some_0@,
                    read_roots: Seq::empty(),
                    write_roots: Seq::empty(),
                    unrestricted: true,
                },
            },
    {
        match policy {
            NativeToolFilesystemPolicy::WorkspaceOnly => Self::workspace_only(root),
            NativeToolFilesystemPolicy::Unrestricted => Self::unrestricted(root),
        }
    }

    /// Access to the workspace only.
    pub fn workspace_only(root: &WorkspaceRoot) -> (r: Result<SandboxPolicy, String>)
        ensures
            r is Ok <==> root_error(*root) is None,
            r matches Err(e) ==> root_error(*root) == Some(e@),
            r matches Ok(p) ==> p@ == (SandboxView {
                workspace_root: root.resolved->Some_0@,
                read_roots: seq![root.resolved->Some_0@],
                write_roots: seq![root.resolved->Some_0@],
                unrestricted: false,
            }),
    {
        match canonical_workspace_root(root) {
            Ok(path) => Ok(
                SandboxPolicy {
                    read_roots: one_root(&path),
                    write_roots: one_root(&path),
                    workspace_root: path,
                    unrestricted: false,
                },
            ),
            Err(e) => Err(e),
        }
    }

    /// Access to everything.
    pub fn unrestricted(root: &WorkspaceRoot) -> (r: Result<SandboxPolicy, String>)
        ensures
            r is Ok <==> root_error(*root) is None,
            r matches Err(e) ==> root_error(*root) == Some(e@),
            r matches Ok(p) ==> p@ == (SandboxView {
                workspace_root: root.resolved->Some_0@,
                read_roots: Seq::empty(),
                write_roots: Seq::empty(),
                unrestricted: true,
            }),
    {
        match canonical_workspace_root(root) {
            Ok(path) => {
                let p = SandboxPolicy {
                    workspace_root: path,
                    read_roots: Vec::new(),
                    write_roots: Vec::new(),
                    unrestricted: true,
                };
                assert(texts(p.read_roots@) =~= Seq::empty());
                assert(texts(p.write_roots@) =~= Seq::empty());
                Ok(p)
            },
            Err(e) => Err(e),
        }
    }

    /// The absolute path that a request means: `~/` is the home directory, and a relative
    /// path lies in the workspace.
    pub fn absolute_path(&self, requested: &str, home: Option<&str>) -> (r: String)
        ensures
            r@ == joined_path(self@.workspace_root, expanded(requested@, str_option(home))),
    {
        let path = paths::expand_tilde(requested, home);
        paths::join(self.workspace_root.as_str(), path.as_str())
    }

    fn ensure_allowed(
        &self,
        requested: &str,
        resolved: &str,
        roots: &Vec<String>,
        operation: &str,
    ) -> (r: Result<String, String>)
        ensures
            same_result(
                r,
                self@.verdict(requested@, Some(resolved@), texts(roots@), operation@),
            ),
    {
        let mut allowed = self.unrestricted;
        let ghost all = texts(roots@);
        let mut i: usize = 0;
        while i < roots.len()
            invariant
                i <= roots@.len(),
                all == texts(roots@),
                allowed == (self.unrestricted || exists|k: int|
                    0 <= k < i && is_below(resolved@, #[trigger] all[k])),
            decreases roots.len() - i,
        {
            if paths::below(resolved, roots[i].as_str()) {
                assert(is_below(resolved@, all[i as int]));
                allowed = true;
            }
            i = i + 1;
        }
        if allowed {
            return Ok(resolved.to_owned());
        }
        let mut e = "sandbox denied ".to_owned();
        e.append(operation);
        e.append(" access to ");
        e.append(requested);
        e.append(" (resolved to ");
        e.append(resolved);
        e.append(")");
        Err(e)
    }

    fn authorize(
        &self,
        requested: &str,
        resolved: Option<&str>,
        roots: &Vec<String>,
        operation: &str,
    ) -> (r: Result<String, String>)
        ensures
            same_result(
                r,
                self@.verdict(requested@, str_option(resolved), texts(roots@), operation@),
            ),
    {
        match resolved {
            Some(path) => self.ensure_allowed(requested, path, roots, operation),
            None => {
                let mut e = "could not resolve path ".to_owned();
                e.append(requested);
                Err(e)
            },
        }
    }

    /// The resolved path of a file that may be read. `resolved` is what the file system
    /// makes of the request.
    pub fn authorize_read(&self, requested: &str, resolved: Option<&str>) -> (r: Result<
        String,
        String,
    >)
        ensures
            same_result(
                r,
                self@.verdict(requested@, str_option(resolved), self@.read_roots, "read"@),
            ),
    {
        self.authorize(requested, resolved, &self.read_roots, "read")
    }

    /// The resolved path of a file that may be written. `resolved` is what the file system
    /// makes of the request.
    pub fn authorize_write(&self, requested: &str, resolved: Option<&str>) -> (r: Result<
        String,
        String,
    >)
        ensures
            same_result(
                r,
                self@.verdict(requested@, str_option(resolved), self@.write_roots, "write"@),
            ),
    {
        self.authorize(requested, resolved, &self.write_roots, "write")
    }

    /// Whether a search pattern may be used: it must not leave its base directory.
    pub fn authorize_search_pattern(&self, pattern: &str) -> (r: Result<(), String>)
        ensures
            r is Ok <==> self@.unrestricted || stays_inside(pattern@),
            r matches Err(e) ==> e@
                == "search pattern escapes the authorized base directory: "@ + pattern@,
    {
        if self.unrestricted {
            return Ok(());
        }
        let parts = paths::split_path(pattern);
        let ghost all = texts(parts@);
        let mut escapes = paths::absolute(pattern);
        let mut i: usize = 0;
        while i < parts.len()
            invariant
                i <= parts@.len(),
                all == texts(parts@),
                all == components(pattern@),
                escapes == (is_absolute(pattern@) || exists|k: int|
                    0 <= k < i && #[trigger] all[k] == ".."@),
            decreases parts.len() - i,
        {
            if text::same(parts[i].as_str(), "..") {
                assert(all[i as int] == ".."@);
                escapes = true;
            }
            i = i + 1;
        }
        assert(escapes == !stays_inside(pattern@)) by {
            if components(pattern@).contains(".."@) {
                let k = choose|k: int| 0 <= k < all.len() && all[k] == ".."@;
                assert(all[k] == ".."@);
            }
        }
        if escapes {
            let mut e = "search pattern escapes the authorized base directory: ".to_owned();
            e.append(pattern);
            return Err(e);
        }
        Ok(())
    }
}

/// Finds out where a file that does not exist yet would stand: the nearest directory
/// above it that exists is resolved, and what is missing is put below it.
pub struct WritePath {
    from_root: bool,
    parts: Vec<String>,
    missing: Vec<String>,
}

/// A search for a place to write, as a mathematical object.
pub struct WritePathView {
    pub from_root: bool,
    /// The components of the path to be tried next.
    pub parts: Seq<Seq<char>>,
    /// The components below it that do not exist, from the last one up.
    pub missing: Seq<Seq<char>>,
}

impl View for WritePath {
    type V = WritePathView;

    closed spec fn view(&self) -> WritePathView {
        WritePathView {
            from_root: self.from_root,
            parts: texts(self.parts@),
            missing: texts(self.missing@),
        }
    }
}

/// Components below a path, from the last one up.
pub open spec fn with_missing(base: Seq<char>, missing: Seq<Seq<char>>) -> Seq<char>
    decreases missing.len(),
{
    if missing.len() == 0 {
        base
    } else {
        with_missing(joined_path(base, missing.last()), missing.drop_last())
    }
}

impl WritePathView {
    /// Whether what is missing consists of names, and none steps up. So it is in every search.
    pub open spec fn is_sound(self) -> bool {
        &&& forall|i: int|
            0 <= i < self.parts.len() ==> (#[trigger] self.parts[i]).len() > 0
                && !self.parts[i].contains('/')
        &&& forall|i: int| 0 <= i < self.missing.len() ==> is_name(#[trigger] self.missing[i])
    }
}

impl WritePath {
    /// The search for the place of an absolute path.
    pub fn new(absolute: &str) -> (r: WritePath)
        ensures
            r@ == (WritePathView {
                from_root: is_absolute(absolute@),
                parts: components(absolute@),
                missing: Seq::empty(),
            }),
            r@.is_sound(),
    {
        let r = WritePath {
            from_root: paths::absolute(absolute),
            parts: paths::split_path(absolute),
            missing: Vec::new(),
        };
        assert(texts(r.missing@) =~= Seq::empty());
        proof {
            assert forall|i: int| 0 <= i < r@.parts.len() implies (#[trigger] r@.parts[i]).len() > 0
                && !r@.parts[i].contains('/') by {
                lemma_component(absolute@, i);
            }
        }
        r
    }

    /// The path to be tried next.
    pub fn current(&self) -> (r: String)
        ensures
            r@ == path_text(self@.from_root, self@.parts),
    {
        paths::render_path(self.from_root, self.parts.as_slice())
    }

    /// Takes note that the current path does not exist, and goes up. That is not possible
    /// where the path ends in a step up or has no component left.
    pub fn go_up(&mut self, requested: &str) -> (r: Result<(), String>)
        ensures
            ({
                let parts = old(self)@.parts;
                let can = parts.len() > 0 && parts.last() != ".."@ && parts.last() != "."@;
                &&& r is Ok <==> can
                &&& r matches Err(e) ==> e@ == "could not resolve a parent for "@ + requested@
                &&& final(self)@ == if can {
                    WritePathView {
                        parts: parts.drop_last(),
                        missing: old(self)@.missing.push(parts.last()),
                        ..old(self)@
                    }
                } else {
                    old(self)@
                }
            }),
            old(self)@.is_sound() ==> final(self)@.is_sound(),
    {
        let ghost before = self@;
        if self.parts.len() > 0 {
            let last: usize = self.parts.len() - 1;
            let stuck = text::same(self.parts[last].as_str(), "..") || text::same(
                self.parts[last].as_str(),
                ".",
            );
            assert(before.parts.last() == self.parts@[last as int]@);
            if !stuck {
                let name = self.parts[last].clone();
                self.missing.push(name);
                let dropped = self.parts.pop();
                assert(texts(self.parts@) =~= before.parts.drop_last());
                assert(texts(self.missing@) =~= before.missing.push(name@));
                return Ok(());
            }
        }
        let mut e = "could not resolve a parent for ".to_owned();
        e.append(requested);
        Err(e)
    }

    /// The place of the path, given what the directory that exists resolves to.
    pub fn finish(&self, resolved: &str) -> (r: String)
        ensures
            r@ == with_missing(resolved@, self@.missing),
    {
        let ghost all = texts(self.missing@);
        let mut out = resolved.to_owned();
        let mut i: usize = self.missing.len();
        assert(all.take(i as int) =~= all);
        while i > 0
            invariant
                i <= self.missing@.len(),
                all == texts(self.missing@),
                with_missing(out@, all.take(i as int)) == with_missing(resolved@, all),
            decreases i,
        {
            assert(all.take(i as int).drop_last() =~= all.take(i - 1));
            assert(all.take(i as int).last() == self.missing@[i - 1]@);
            out = paths::join(out.as_str(), self.missing[i - 1].as_str());
            i = i - 1;
        }
        out
    }
}

/// Under the workspace policy what may be read or written lies in the workspace, however
/// it was asked for.
pub proof fn law_contained(
    policy: SandboxView,
    requested: Seq<char>,
    resolved: Option<Seq<char>>,
    operation: Seq<char>,
)
    requires
        !policy.unrestricted,
    ensures
        policy.verdict(requested, resolved, seq![policy.workspace_root], operation) is Ok ==> (
        resolved matches Some(path) && is_below(path, policy.workspace_root)),
{
}

proof fn lemma_missing_components(base: Seq<char>, missing: Seq<Seq<char>>)
    requires
        is_absolute(base),
        !components(base).contains(".."@),
        forall|i: int| 0 <= i < missing.len() ==> is_name(#[trigger] missing[i]),
    ensures
        !components(with_missing(base, missing)).contains(".."@),
    decreases missing.len(),
{
    if missing.len() > 0 {
        let last = missing.last();
        assert(is_name(missing[missing.len() - 1]));
        lemma_joined_components(base, last);
        let below = joined_path(base, last);
        assert(!components(below).contains(".."@)) by {
            if components(below).contains(".."@) {
                let k = choose|k: int|
                    0 <= k < components(below).len() && components(below)[k] == ".."@;
                if k < components(base).len() {
                    assert(components(base)[k] == ".."@);
                }
            }
        }
        assert forall|i: int| 0 <= i < missing.drop_last().len() implies is_name(
            #[trigger] missing.drop_last()[i],
        ) by {
            assert(is_name(missing[i]));
        }
        lemma_missing_components(below, missing.drop_last());
    }
}

/// What may be written has no step up in its path, whether the file exists or not: the file
/// system resolves what exists, and of what is missing below it none is a step up.
pub proof fn law_no_step_up(
    policy: SandboxView,
    search: WritePathView,
    requested: Seq<char>,
    resolved: Seq<char>,
)
    requires
        search.is_sound(),
        is_absolute(resolved),
        !components(resolved).contains(".."@),
    ensures
        policy.verdict(
            requested,
            Some(with_missing(resolved, search.missing)),
            policy.write_roots,
            "write"@,
        ) matches Ok(path) ==> !components(path).contains(".."@),
{
    lemma_missing_components(resolved, search.missing);
}

/// The unrestricted policy allows every path that resolves.
pub proof fn law_unrestricted(
    policy: SandboxView,
    requested: Seq<char>,
    path: Seq<char>,
    roots: Seq<Seq<char>>,
    operation: Seq<char>,
)
    requires
        policy.unrestricted,
    ensures
        policy.verdict(requested, Some(path), roots, operation) == Ok::<Seq<char>, Seq<char>>(path),
{
}

} // verus!
