//! Checkpoints of the worktree, one for each turn.
//!
//! A checkpoint covers the files that Git tracks or could track. To undo a turn is refused
//! where a file is not as the turn left it, so what was edited later is not overwritten.

use vstd::prelude::*;
use vstd::string::StringExecFns;
use vstd::utf8::{decode_utf8, valid_utf8};
use crate::api::diagnostics::{decode_lossy, lossy_text};
use crate::diff::{file_diff, generate_diff};
use crate::path_map::{
    in_path_order, lemma_same_count, lemma_value_in_place, path_before, value_among, PathMap,
};
use crate::text;
use crate::text::{byte_len, cut, decimal, decode_text, joined, sanitized, texts};

verus! {

/// How many files a checkpoint may cover.
pub const MAX_FILES: usize = 10000;

/// How large a file of a checkpoint may be.
pub const MAX_FILE_BYTES: u64 = 4194304;

/// How large the files of a checkpoint may be together.
pub const MAX_TOTAL_BYTES: u64 = 67108864;

/// How large a diff may be.
pub const MAX_DIFF_BYTES: usize = 262144;

/// What stands at a path.
pub enum FileState {
    Missing,
    /// A file, with its mode where the system has one.
    File { contents: Vec<u8>, readonly: bool, mode: Option<u32> },
    /// A link to another path.
    Symlink(Vec<u8>),
}

/// What stands at a path, as a mathematical object.
pub enum StateView {
    Missing,
    File { contents: Seq<u8>, readonly: bool, mode: Option<u32> },
    Symlink(Seq<u8>),
}

impl View for FileState {
    type V = StateView;

    open spec fn view(&self) -> StateView {
        match self {
            FileState::Missing => StateView::Missing,
            FileState::File { contents, readonly, mode } => StateView::File {
                contents: contents@,
                readonly: *readonly,
                mode: *mode,
            },
            FileState::Symlink(target) => StateView::Symlink(target@),
        }
    }
}

/// A copy of bytes.
pub fn copy_bytes(bytes: &[u8]) -> (r: Vec<u8>)
    ensures
        r@ == bytes@,
{
    let mut out: Vec<u8> = Vec::new();
    let mut i: usize = 0;
    while i < bytes.len()
        invariant
            i <= bytes@.len(),
            out@ == bytes@.take(i as int),
        decreases bytes.len() - i,
    {
        out.push(bytes[i]);
        i = i + 1;
        assert(out@ =~= bytes@.take(i as int));
    }
    assert(bytes@.take(bytes@.len() as int) =~= bytes@);
    out
}

/// Whether bytes are the same.
pub fn same_bytes(a: &[u8], b: &[u8]) -> (r: bool)
    ensures
        r == (a@ == b@),
{
    if a.len() != b.len() {
        return false;
    }
    let mut i: usize = 0;
    while i < a.len()
        invariant
            i <= a@.len(),
            a@.len() == b@.len(),
            forall|k: int| 0 <= k < i ==> #[trigger] a@[k] == b@[k],
        decreases a.len() - i,
    {
        if a[i] != b[i] {
            return false;
        }
        i = i + 1;
    }
    assert(a@ =~= b@);
    true
}

impl FileState {
    /// A copy.
    pub fn duplicate(&self) -> (r: FileState)
        ensures
            r@ == self@,
    {
        match self {
            FileState::Missing => FileState::Missing,
            FileState::File { contents, readonly, mode } => FileState::File {
                contents: copy_bytes(contents.as_slice()),
                readonly: *readonly,
                mode: *mode,
            },
            FileState::Symlink(target) => FileState::Symlink(copy_bytes(target.as_slice())),
        }
    }

    /// Whether two paths hold the same.
    pub fn same(&self, other: &FileState) -> (r: bool)
        ensures
            r == (self@ == other@),
    {
        match (self, other) {
            (FileState::Missing, FileState::Missing) => true,
            (
                FileState::File { contents: a, readonly: p, mode: m },
                FileState::File { contents: b, readonly: q, mode: n },
            ) => {
                let modes = match (m, n) {
                    (Some(x), Some(y)) => *x == *y,
                    (None, None) => true,
                    _ => false,
                };
                same_bytes(a.as_slice(), b.as_slice()) && *p == *q && modes
            },
            (FileState::Symlink(a), FileState::Symlink(b)) => same_bytes(
                a.as_slice(),
                b.as_slice(),
            ),
            _ => false,
        }
    }
}

/// What a separator splits bytes into: what is complete, and what is not yet.
pub open spec fn split_state(bytes: Seq<u8>, separator: u8) -> (Seq<Seq<u8>>, Seq<u8>)
    decreases bytes.len(),
{
    if bytes.len() == 0 {
        (Seq::empty(), Seq::empty())
    } else {
        let (complete, current) = split_state(bytes.drop_last(), separator);
        if bytes.last() == separator {
            (with_part(complete, current), Seq::empty())
        } else {
            (complete, current.push(bytes.last()))
        }
    }
}

/// Parts with one more, where that is not empty.
pub open spec fn with_part(parts: Seq<Seq<u8>>, part: Seq<u8>) -> Seq<Seq<u8>> {
    if part.len() > 0 {
        parts.push(part)
    } else {
        parts
    }
}

/// The parts of bytes between separators that are not empty.
pub open spec fn byte_fields(bytes: Seq<u8>, separator: u8) -> Seq<Seq<u8>> {
    let (complete, current) = split_state(bytes, separator);
    with_part(complete, current)
}

/// The views of byte strings.
pub open spec fn byte_views(parts: Seq<Vec<u8>>) -> Seq<Seq<u8>> {
    parts.map_values(|p: Vec<u8>| p@)
}

/// The parts of bytes between separators that are not empty.
pub fn split_bytes(bytes: &[u8], separator: u8) -> (r: Vec<Vec<u8>>)
    ensures
        byte_views(r@) == byte_fields(bytes@, separator),
{
    let mut complete: Vec<Vec<u8>> = Vec::new();
    let mut current: Vec<u8> = Vec::new();
    assert(byte_views(complete@) =~= Seq::empty());
    assert(bytes@.take(0) =~= Seq::empty());
    let mut i: usize = 0;
    while i < bytes.len()
        invariant
            i <= bytes@.len(),
            split_state(bytes@.take(i as int), separator) == (byte_views(complete@), current@),
        decreases bytes.len() - i,
    {
        assert(bytes@.take(i + 1).drop_last() =~= bytes@.take(i as int));
        if bytes[i] == separator {
            if current.len() > 0 {
                let ghost before = byte_views(complete@);
                let ghost part = current@;
                complete.push(current);
                assert(byte_views(complete@) =~= before.push(part));
                current = Vec::new();
            }
            assert(current@ =~= Seq::empty());
        } else {
            current.push(bytes[i]);
        }
        i = i + 1;
    }
    assert(bytes@.take(bytes@.len() as int) =~= bytes@);
    if current.len() > 0 {
        let ghost before = byte_views(complete@);
        let ghost part = current@;
        complete.push(current);
        assert(byte_views(complete@) =~= before.push(part));
    }
    complete
}

/// Whether a path leaves the worktree: it starts at the root, or goes up.
pub open spec fn is_unsafe(path: Seq<u8>) -> bool {
    (path.len() > 0 && path[0] == 0x2f) || byte_fields(path, 0x2f).contains(seq![0x2eu8, 0x2e])
}

fn leaves_worktree(path: &[u8]) -> (r: bool)
    ensures
        r == is_unsafe(path@),
{
    if path.len() > 0 && path[0] == 0x2f {
        return true;
    }
    let parts = split_bytes(path, 0x2f);
    let ghost all = byte_views(parts@);
    let mut i: usize = 0;
    while i < parts.len()
        invariant
            i <= parts@.len(),
            all == byte_views(parts@),
            all == byte_fields(path@, 0x2f),
            forall|k: int| 0 <= k < i ==> #[trigger] all[k] != seq![0x2eu8, 0x2e],
        decreases parts.len() - i,
    {
        assert(all[i as int] == parts@[i as int]@);
        if parts[i].len() == 2 && parts[i][0] == 0x2e && parts[i][1] == 0x2e {
            assert(parts@[i as int]@ =~= seq![0x2eu8, 0x2e]);
            return true;
        }
        i = i + 1;
    }
    false
}

/// The paths that Git lists, or why they are refused.
pub open spec fn listed_paths(parts: Seq<Seq<u8>>) -> Result<Set<Seq<u8>>, Seq<char>>
    decreases parts.len(),
{
    if parts.len() == 0 {
        Ok(Set::empty())
    } else {
        match listed_paths(parts.drop_last()) {
            Err(e) => Err(e),
            Ok(before) => if is_unsafe(parts.last()) {
                Err("Git returned an unsafe worktree path"@)
            } else {
                let paths = before.insert(parts.last());
                if paths.len() > MAX_FILES {
                    Err("worktree has more than 10000 checkpointable files"@)
                } else {
                    Ok(paths)
                }
            },
        }
    }
}

proof fn lemma_first_refusal(parts: Seq<Seq<u8>>, n: int)
    requires
        0 <= n <= parts.len(),
        listed_paths(parts.take(n)) is Err,
    ensures
        listed_paths(parts) == listed_paths(parts.take(n)),
    decreases parts.len() - n,
{
    if n < parts.len() {
        assert(parts.take(n + 1).drop_last() =~= parts.take(n));
        lemma_first_refusal(parts, n + 1);
    } else {
        assert(parts.take(n) =~= parts);
    }
}

/// The paths that a map has.
pub open spec fn path_set<T>(map: PathMap<T>) -> Set<Seq<u8>> {
    Set::new(|p: Seq<u8>| map.value_of(p) is Some)
}

proof fn lemma_path_count<T>(map: PathMap<T>)
    requires
        in_path_order(map.paths()),
        map.paths().len() == map.values().len(),
    ensures
        path_set(map).len() == map.paths().len(),
        path_set(map).finite(),
{
    let paths = map.paths();
    assert(paths.no_duplicates()) by {
        assert forall|i: int, j: int| 0 <= i < paths.len() && 0 <= j < paths.len() && i != j implies
            paths[i] != paths[j] by {
            lemma_value_in_place(paths, Seq::new(paths.len(), |k: int| k), i);
            lemma_value_in_place(paths, Seq::new(paths.len(), |k: int| k), j);
        }
    }
    paths.unique_seq_to_set();
    vstd::seq_lib::seq_to_set_is_finite(paths);
    assert(path_set(map) =~= paths.to_set());
}

/// The paths that Git lists, separated by zero bytes, in order; or why they are refused.
pub fn git_paths(output: &[u8]) -> (r: Result<PathMap<()>, String>)
    ensures
        match listed_paths(byte_fields(output@, 0)) {
            Ok(paths) => r matches Ok(map) && path_set(map) == paths && in_path_order(map.paths()),
            Err(e) => r matches Err(message) && message@ == e,
        },
{
    let parts = split_bytes(output, 0);
    let ghost all = byte_views(parts@);
    let mut map: PathMap<()> = PathMap::new();
    proof {
        assert(all.take(0) =~= Seq::empty());
        assert(path_set(map) =~= Set::empty());
    }
    let mut i: usize = 0;
    while i < parts.len()
        invariant
            i <= parts@.len(),
            all == byte_views(parts@),
            all == byte_fields(output@, 0),
            in_path_order(map.paths()),
            listed_paths(all.take(i as int)) == Ok::<Set<Seq<u8>>, Seq<char>>(path_set(map)),
        decreases parts.len() - i,
    {
        assert(all.take(i + 1).drop_last() =~= all.take(i as int));
        assert(all.take(i + 1).last() == parts@[i as int]@);
        if leaves_worktree(parts[i].as_slice()) {
            proof {
                lemma_first_refusal(all, i + 1);
            }
            return Err("Git returned an unsafe worktree path".to_owned());
        }
        let ghost before = path_set(map);
        let ghost old_map = map;
        map = map.with(copy_bytes(parts[i].as_slice()), ());
        assert(path_set(map) =~= before.insert(parts@[i as int]@));
        let count = map.len();
        proof {
            lemma_path_count(map);
        }
        if count > MAX_FILES {
            proof {
                lemma_first_refusal(all, i + 1);
            }
            return Err("worktree has more than 10000 checkpointable files".to_owned());
        }
        i = i + 1;
    }
    assert(all.take(parts@.len() as int) =~= all);
    Ok(map)
}

/// What a path is, before it is read.
#[derive(Debug, Clone, Copy, PartialEq, Eq, Structural)]
pub enum PathKind {
    Symlink,
    /// A regular file, with its size.
    Regular(u64),
    Other,
}

/// Why what stands at a path cannot be part of a checkpoint, if it cannot.
pub open spec fn unsupported(path: Seq<char>, kind: PathKind) -> Option<Seq<char>> {
    match kind {
        PathKind::Symlink => None,
        PathKind::Other => Some("unsupported checkpoint path type: "@ + path),
        PathKind::Regular(size) => if size > MAX_FILE_BYTES {
            Some(path + " exceeds the per-file checkpoint limit of 4194304 bytes"@)
        } else {
            None
        },
    }
}

/// Why what stands at a path cannot be part of a checkpoint, if it cannot.
pub fn check_path(path: &str, kind: PathKind) -> (r: Result<(), String>)
    ensures
        r is Ok <==> unsupported(path@, kind) is None,
        r matches Err(e) ==> unsupported(path@, kind) == Some(e@),
{
    match kind {
        PathKind::Symlink => Ok(()),
        PathKind::Other => {
            let mut e = "unsupported checkpoint path type: ".to_owned();
            e.append(path);
            Err(e)
        },
        PathKind::Regular(size) => if size > MAX_FILE_BYTES {
            let mut e = path.to_owned();
            e.append(" exceeds the per-file checkpoint limit of 4194304 bytes");
            Err(e)
        } else {
            Ok(())
        },
    }
}

/// How many bytes of a checkpoint what stands at a path takes up.
pub open spec fn state_bytes(state: StateView) -> nat {
    match state {
        StateView::Missing => 0,
        StateView::File { contents, .. } => contents.len(),
        StateView::Symlink(target) => byte_len(lossy_text(target)),
    }
}

fn state_size_bytes(state: &FileState) -> (r: u64)
    ensures
        r == state_bytes(state@),
{
    match state {
        FileState::Missing => 0,
        FileState::File { contents, .. } => contents.len() as u64,
        FileState::Symlink(target) => {
            let name = decode_lossy(target.as_slice());
            text::len_bytes(name.as_str()) as u64
        },
    }
}

/// What stands at paths, as it is being collected.
pub struct Snapshot {
    states: PathMap<FileState>,
    total: u64,
}

/// What stands at a path of a map; nothing where the map does not have it.
pub open spec fn state_of(map: PathMap<FileState>, path: Seq<u8>) -> StateView {
    match map.value_of(path) {
        Some(state) => state@,
        None => StateView::Missing,
    }
}

impl Snapshot {
    /// What stands at the paths so far.
    pub closed spec fn map(&self) -> PathMap<FileState> {
        self.states
    }

    /// How many bytes it takes up.
    pub closed spec fn size(&self) -> u64 {
        self.total
    }

    /// Nothing.
    pub fn new() -> (r: Snapshot)
        ensures
            r.map().paths() == Seq::<Seq<u8>>::empty(),
            r.size() == 0,
    {
        Snapshot { states: PathMap::new(), total: 0 }
    }

    /// Adds what stands at a path. Together it may not be larger than the limit.
    pub fn add_path(self, path: Vec<u8>, state: FileState) -> (r: Result<Snapshot, String>)
        ensures
            r is Ok <==> self.size() + state_bytes(state@) <= MAX_TOTAL_BYTES,
            r matches Err(e) ==> e@ == "checkpoint exceeds the 67108864-byte safety limit"@,
            r matches Ok(s) ==> {
                &&& s.size() == self.size() + state_bytes(state@)
                &&& forall|p: Seq<u8>|
                    #[trigger] s.map().value_of(p) == (if p == path@ {
                        Some(state)
                    } else {
                        self.map().value_of(p)
                    })
            },
    {
        let more = state_size_bytes(&state);
        if more > MAX_TOTAL_BYTES || self.total > MAX_TOTAL_BYTES - more {
            return Err("checkpoint exceeds the 67108864-byte safety limit".to_owned());
        }
        let total: u64 = self.total + more;
        Ok(Snapshot { states: self.states.with(path, state), total })
    }

    /// What stands at the paths.
    pub fn finish(self) -> (r: PathMap<FileState>)
        ensures
            r == self.map(),
    {
        self.states
    }
}

/// A change of what stands at a path.
pub struct Change {
    pub before: FileState,
    pub after: FileState,
}

/// What stood at a path before and after, where that is not the same.
pub open spec fn difference(before: StateView, after: StateView) -> Option<(StateView, StateView)> {
    if before == after {
        None
    } else {
        Some((before, after))
    }
}

/// What stood at a path before and after, where a map has it.
pub open spec fn change_of(map: PathMap<Change>, path: Seq<u8>) -> Option<(StateView, StateView)> {
    match map.value_of(path) {
        Some(change) => Some((change.before@, change.after@)),
        None => None,
    }
}

/// A checkpoint of a turn that has begun.
pub struct PendingCheckpoint {
    root: String,
    before: PathMap<FileState>,
}

/// A checkpoint of a turn.
pub struct TurnCheckpoint {
    root: String,
    changes: PathMap<Change>,
}

impl PendingCheckpoint {
    /// The worktree.
    pub closed spec fn worktree(&self) -> Seq<char> {
        self.root@
    }

    /// What stood at each path when the turn began.
    pub closed spec fn states(&self) -> PathMap<FileState> {
        self.before
    }

    /// A checkpoint of a turn that begins.
    pub fn new(root: String, before: PathMap<FileState>) -> (r: PendingCheckpoint)
        ensures
            r.worktree() == root@,
            r.states() == before,
    {
        PendingCheckpoint { root, before }
    }

    /// The worktree.
    pub fn root(&self) -> (r: &str)
        ensures
            r@ == self.worktree(),
    {
        self.root.as_str()
    }

    /// The paths to look at when the turn ends: those of its beginning and those that Git
    /// lists then.
    pub fn paths_to_check(&self, listed: &PathMap<()>) -> (r: PathMap<()>)
        ensures
            forall|p: Seq<u8>|
                #[trigger] r.value_of(p) is Some <==> self.states().value_of(p) is Some
                    || listed.value_of(p) is Some,
    {
        let mut out: PathMap<()> = PathMap::new();
        let n = self.before.len();
        let ghost first = self.before.paths();
        let mut i: usize = 0;
        while i < n
            invariant
                i <= n,
                n == first.len(),
                n == self.before.values().len(),
                first == self.before.paths(),
                forall|p: Seq<u8>|
                    #[trigger] out.value_of(p) is Some <==> first.take(i as int).contains(p),
            decreases n - i,
        {
            let ghost old_out = out;
            out = out.with(copy_bytes(self.before.path_at(i).as_slice()), ());
            assert forall|p: Seq<u8>|
                #[trigger] out.value_of(p) is Some <==> first.take(i + 1).contains(p) by {
                assert(old_out.value_of(p) is Some <==> first.take(i as int).contains(p));
                lemma_take_contains(first, i as int, p);
            }
            i = i + 1;
        }
        assert(first.take(n as int) =~= first);
        let m = listed.len();
        let ghost second = listed.paths();
        i = 0;
        while i < m
            invariant
                i <= m,
                m == second.len(),
                m == listed.values().len(),
                second == listed.paths(),
                forall|p: Seq<u8>|
                    #[trigger] out.value_of(p) is Some <==> first.contains(p) || second.take(
                        i as int,
                    ).contains(p),
            decreases m - i,
        {
            let ghost old_out = out;
            out = out.with(copy_bytes(listed.path_at(i).as_slice()), ());
            assert forall|p: Seq<u8>|
                #[trigger] out.value_of(p) is Some <==> first.contains(p) || second.take(
                    i + 1,
                ).contains(p) by {
                assert(old_out.value_of(p) is Some <==> first.contains(p) || second.take(
                    i as int,
                ).contains(p));
                lemma_take_contains(second, i as int, p);
            }
            i = i + 1;
        }
        assert(second.take(m as int) =~= second);
        out
    }

    /// The checkpoint of the turn, given what stands at each path when it ends: the paths
    /// at which that is not what it was.
    pub fn finish(self, after: PathMap<FileState>) -> (r: TurnCheckpoint)
        ensures
            r.worktree() == self.worktree(),
            in_path_order(r.map().paths()),
            forall|p: Seq<u8>|
                #[trigger] change_of(r.map(), p) == difference(
                    state_of(self.states(), p),
                    state_of(after, p),
                ),
    {
        let mut changes: PathMap<Change> = PathMap::new();
        let n = self.before.len();
        let ghost first = self.before.paths();
        let mut i: usize = 0;
        while i < n
            invariant
                i <= n,
                n == first.len(),
                n == self.before.values().len(),
                first == self.before.paths(),
                in_path_order(first),
                in_path_order(changes.paths()),
                forall|p: Seq<u8>|
                    #[trigger] change_of(changes, p) == (if first.take(i as int).contains(p) {
                        difference(state_of(self.before, p), state_of(after, p))
                    } else {
                        None
                    }),
            decreases n - i,
        {
            let path = self.before.path_at(i);
            let state = self.before.value_at(i);
            proof {
                lemma_value_in_place(first, self.before.values(), i as int);
            }
            let missing = FileState::Missing;
            let now = match after.get(path.as_slice()) {
                Some(s) => s,
                None => &missing,
            };
            assert(state_of(self.before, path@) == state@);
            assert(state_of(after, path@) == now@);
            let ghost old_changes = changes;
            if !state.same(now) {
                changes = changes.with(
                    copy_bytes(path.as_slice()),
                    Change { before: state.duplicate(), after: now.duplicate() },
                );
            }
            assert forall|p: Seq<u8>|
                #[trigger] change_of(changes, p) == (if first.take(i + 1).contains(p) {
                    difference(state_of(self.before, p), state_of(after, p))
                } else {
                    None
                }) by {
                assert(change_of(old_changes, p) == (if first.take(i as int).contains(p) {
                    difference(state_of(self.before, p), state_of(after, p))
                } else {
                    None
                }));
                lemma_take_contains(first, i as int, p);
                lemma_take_lacks(first, i as int);
            }
            i = i + 1;
        }
        assert(first.take(n as int) =~= first);
        let m = after.len();
        let ghost second = after.paths();
        i = 0;
        while i < m
            invariant
                i <= m,
                m == second.len(),
                m == after.values().len(),
                first == self.before.paths(),
                second == after.paths(),
                in_path_order(second),
                in_path_order(changes.paths()),
                forall|p: Seq<u8>|
                    #[trigger] change_of(changes, p) == (if first.contains(p) || second.take(
                        i as int,
                    ).contains(p) {
                        difference(state_of(self.before, p), state_of(after, p))
                    } else {
                        None
                    }),
            decreases m - i,
        {
            let path = after.path_at(i);
            let now = after.value_at(i);
            proof {
                lemma_value_in_place(second, after.values(), i as int);
            }
            assert(state_of(after, path@) == now@);
            let known = self.before.get(path.as_slice()).is_some();
            let missing = FileState::Missing;
            let ghost old_changes = changes;
            if !known && !missing.same(now) {
                assert(state_of(self.before, path@) == StateView::Missing);
                changes = changes.with(
                    copy_bytes(path.as_slice()),
                    Change { before: FileState::Missing, after: now.duplicate() },
                );
            }
            assert forall|p: Seq<u8>|
                #[trigger] change_of(changes, p) == (if first.contains(p) || second.take(
                    i + 1,
                ).contains(p) {
                    difference(state_of(self.before, p), state_of(after, p))
                } else {
                    None
                }) by {
                assert(change_of(old_changes, p) == (if first.contains(p) || second.take(
                    i as int,
                ).contains(p) {
                    difference(state_of(self.before, p), state_of(after, p))
                } else {
                    None
                }));
                lemma_take_contains(second, i as int, p);
            }
            i = i + 1;
        }
        assert(second.take(m as int) =~= second);
        TurnCheckpoint { root: self.root, changes }
    }
}

proof fn lemma_take_contains(s: Seq<Seq<u8>>, i: int, x: Seq<u8>)
    requires
        0 <= i < s.len(),
    ensures
        s.take(i + 1).contains(x) <==> s.take(i).contains(x) || x == s[i],
{
    let a = s.take(i);
    let b = s.take(i + 1);
    if a.contains(x) {
        let k = choose|k: int| 0 <= k < a.len() && a[k] == x;
        assert(b[k] == x);
    }
    if b.contains(x) {
        let k = choose|k: int| 0 <= k < b.len() && b[k] == x;
        if k < i {
            assert(a[k] == x);
        }
    }
    assert(b[i] == s[i]);
}

proof fn lemma_take_lacks(s: Seq<Seq<u8>>, i: int)
    requires
        in_path_order(s),
        0 <= i < s.len(),
    ensures
        !s.take(i).contains(s[i]),
{
    let a = s.take(i);
    if a.contains(s[i]) {
        let k = choose|k: int| 0 <= k < a.len() && a[k] == s[i];
        let places = Seq::new(s.len(), |j: int| j);
        lemma_value_in_place(s, places, k);
        lemma_value_in_place(s, places, i);
    }
}

/// The text that stands at a path; none where it is no text.
pub open spec fn text_of(state: StateView) -> Option<Seq<char>> {
    match state {
        StateView::Missing => Some(""@),
        StateView::File { contents, .. } => if valid_utf8(contents) {
            Some(decode_utf8(contents))
        } else {
            None
        },
        StateView::Symlink(_) => None,
    }
}

/// How large what stands at a path is, in words.
pub open spec fn size_text(state: StateView) -> Seq<char> {
    match state {
        StateView::Missing => "missing"@,
        StateView::File { contents, .. } => decimal(contents.len()) + " bytes"@,
        StateView::Symlink(target) => "symlink to "@ + sanitized(lossy_text(target)),
    }
}

/// The name of a path as it is shown.
pub open spec fn shown_path(path: Seq<u8>) -> Seq<char> {
    sanitized(lossy_text(path))
}

/// The diff of a change.
pub open spec fn change_diff(path: Seq<u8>, change: Change) -> Seq<char> {
    match (text_of(change.before@), text_of(change.after@)) {
        (Some(before), Some(after)) => file_diff(
            sanitized(before),
            sanitized(after),
            shown_path(path),
        ),
        _ => "Binary or non-UTF-8 file changed: "@ + shown_path(path) + " ("@ + size_text(
            change.before@,
        ) + " -> "@ + size_text(change.after@) + ")\n"@,
    }
}

/// The diff of changes behind what stands before it, cut where it is too large.
pub open spec fn changes_diff(start: Seq<char>, paths: Seq<Seq<u8>>, changes: Seq<Change>) -> Seq<
    char,
>
    decreases paths.len(),
{
    if paths.len() == 0 || changes.len() == 0 {
        start
    } else {
        let text = start + change_diff(paths[0], changes[0]);
        if byte_len(text) > MAX_DIFF_BYTES {
            cut(text, MAX_DIFF_BYTES as int) + "\n[diff truncated]\n"@
        } else {
            changes_diff(text, paths.drop_first(), changes.drop_first())
        }
    }
}

fn text_contents(state: &FileState) -> (r: Option<String>)
    ensures
        crate::api::types::text_option(r) == text_of(state@),
{
    match state {
        FileState::Missing => Some("".to_owned()),
        FileState::File { contents, .. } => match decode_text(contents.as_slice()) {
            Ok(t) => Some(t),
            Err(_) => None,
        },
        FileState::Symlink(_) => None,
    }
}

fn state_size(state: &FileState) -> (r: String)
    ensures
        r@ == size_text(state@),
{
    match state {
        FileState::Missing => "missing".to_owned(),
        FileState::File { contents, .. } => {
            let mut out = text::to_decimal(contents.len() as u64);
            out.append(" bytes");
            out
        },
        FileState::Symlink(target) => {
            let name = show_path(target.as_slice());
            let mut out = "symlink to ".to_owned();
            out.append(name.as_str());
            out
        },
    }
}

fn show_path(path: &[u8]) -> (r: String)
    ensures
        r@ == shown_path(path@),
{
    let name = decode_lossy(path);
    text::sanitize_terminal_text(name.as_str())
}

fn diff_change(path: &[u8], change: &Change) -> (r: String)
    ensures
        r@ == change_diff(path@, *change),
{
    let name = show_path(path);
    match (text_contents(&change.before), text_contents(&change.after)) {
        (Some(before), Some(after)) => {
            let b = text::sanitize_terminal_text(before.as_str());
            let a = text::sanitize_terminal_text(after.as_str());
            generate_diff(b.as_str(), a.as_str(), name.as_str())
        },
        _ => {
            let b = state_size(&change.before);
            let a = state_size(&change.after);
            let mut out = "Binary or non-UTF-8 file changed: ".to_owned();
            out.append(name.as_str());
            out.append(" (");
            out.append(b.as_str());
            out.append(" -> ");
            out.append(a.as_str());
            out.append(")\n");
            out
        },
    }
}

/// How to undo a turn.
pub enum UndoStart {
    /// There is nothing to undo.
    Nothing(String),
    /// Every change is to be undone in turn.
    Restore,
}

/// The paths that are not as the turn left them, as they are shown.
pub open spec fn conflicts(paths: Seq<Seq<u8>>, changes: Seq<Change>, current: Seq<FileState>) -> Seq<
    Seq<char>,
>
    decreases paths.len(),
{
    if paths.len() == 0 || changes.len() == 0 || current.len() == 0 {
        Seq::empty()
    } else {
        let before = conflicts(paths.drop_last(), changes.drop_last(), current.drop_last());
        if current.last()@ == changes.last().after@ {
            before
        } else {
            before.push(shown_path(paths.last()))
        }
    }
}

impl TurnCheckpoint {
    /// The worktree.
    pub closed spec fn worktree(&self) -> Seq<char> {
        self.root@
    }

    /// What changed, by path.
    pub closed spec fn map(&self) -> PathMap<Change> {
        self.changes
    }

    /// The worktree.
    pub fn root(&self) -> (r: &str)
        ensures
            r@ == self.worktree(),
    {
        self.root.as_str()
    }

    /// How many paths changed.
    pub fn len(&self) -> (r: usize)
        ensures
            r == self.map().paths().len(),
            r == self.map().values().len(),
    {
        self.changes.len()
    }

    /// A path that changed, by its place.
    pub fn path_at(&self, i: usize) -> (r: &Vec<u8>)
        requires
            i < self.map().paths().len(),
        ensures
            r@ == self.map().paths()[i as int],
    {
        self.changes.path_at(i)
    }

    /// What stood at a path before, by its place.
    pub fn before_at(&self, i: usize) -> (r: &FileState)
        requires
            i < self.map().values().len(),
        ensures
            r@ == self.map().values()[i as int].before@,
    {
        &self.changes.value_at(i).before
    }

    /// The diff of what the turn changed.
    pub fn diff(&self) -> (r: String)
        ensures
            r@ == if self.map().paths().len() == 0 {
                "The last turn made no checkpointed file changes."@
            } else {
                changes_diff(Seq::empty(), self.map().paths(), self.map().values())
            },
    {
        let n = self.changes.len();
        if n == 0 {
            return "The last turn made no checkpointed file changes.".to_owned();
        }
        let ghost paths = self.changes.paths();
        let ghost values = self.changes.values();
        let mut out = String::new();
        assert(paths.skip(0) =~= paths);
        assert(values.skip(0) =~= values);
        let mut i: usize = 0;
        while i < n
            invariant
                i <= n,
                n == paths.len(),
                n == values.len(),
                paths == self.changes.paths(),
                values == self.changes.values(),
                changes_diff(out@, paths.skip(i as int), values.skip(i as int)) == changes_diff(
                    Seq::empty(),
                    paths,
                    values,
                ),
            decreases n - i,
        {
            assert(paths.skip(i as int)[0] == paths[i as int]);
            assert(values.skip(i as int)[0] == values[i as int]);
            assert(paths.skip(i as int).drop_first() =~= paths.skip(i + 1));
            assert(values.skip(i as int).drop_first() =~= values.skip(i + 1));
            let part = diff_change(self.changes.path_at(i).as_slice(), self.changes.value_at(i));
            out.append(part.as_str());
            if text::len_bytes(out.as_str()) > MAX_DIFF_BYTES {
                let mut shortened = text::truncate_str(out.as_str(), MAX_DIFF_BYTES).to_owned();
                shortened.append("\n[diff truncated]\n");
                return shortened;
            }
            i = i + 1;
        }
        out
    }

    /// How to undo the turn, given what stands at each path that changed. It is refused
    /// where that is not what the turn left.
    pub fn undo(&self, current: &Vec<FileState>) -> (r: Result<UndoStart, String>)
        requires
            current@.len() == self.map().paths().len(),
        ensures
            ({
                let found = conflicts(self.map().paths(), self.map().values(), current@);
                if self.map().paths().len() == 0 {
                    r matches Ok(UndoStart::Nothing(m)) && m@
                        == "The last turn made no checkpointed file changes."@
                } else if found.len() > 0 {
                    r matches Err(e) && e@
                        == "Undo refused because these files changed after the turn:\n  "@
                        + joined(found, "\n  "@)
                } else {
                    r matches Ok(UndoStart::Restore)
                }
            }),
    {
        let n = self.changes.len();
        if n == 0 {
            return Ok(
                UndoStart::Nothing(
                    "The last turn made no checkpointed file changes.".to_owned(),
                ),
            );
        }
        let ghost paths = self.changes.paths();
        let ghost values = self.changes.values();
        let mut found: Vec<String> = Vec::new();
        assert(texts(found@) =~= conflicts(paths.take(0), values.take(0), current@.take(0)));
        let mut i: usize = 0;
        while i < n
            invariant
                i <= n,
                n == paths.len(),
                n == values.len(),
                n == current@.len(),
                paths == self.changes.paths(),
                values == self.changes.values(),
                texts(found@) == conflicts(
                    paths.take(i as int),
                    values.take(i as int),
                    current@.take(i as int),
                ),
            decreases n - i,
        {
            assert(paths.take(i + 1).drop_last() =~= paths.take(i as int));
            assert(values.take(i + 1).drop_last() =~= values.take(i as int));
            assert(current@.take(i + 1).drop_last() =~= current@.take(i as int));
            if !current[i].same(&self.changes.value_at(i).after) {
                let ghost before = texts(found@);
                found.push(show_path(self.changes.path_at(i).as_slice()));
                assert(texts(found@) =~= before.push(shown_path(paths[i as int])));
            }
            i = i + 1;
        }
        assert(paths.take(n as int) =~= paths);
        assert(values.take(n as int) =~= values);
        assert(current@.take(n as int) =~= current@);
        assert(texts(found@).len() == found@.len());
        if found.len() > 0 {
            let list = text::join(found.as_slice(), "\n  ");
            let mut e =
                "Undo refused because these files changed after the turn:\n  ".to_owned();
            e.append(list.as_str());
            return Err(e);
        }
        Ok(UndoStart::Restore)
    }

    /// Whether a change may still be undone, given what stands at its path just before.
    pub fn recheck(&self, i: usize, current: &FileState) -> (r: Result<(), String>)
        requires
            i < self.map().paths().len(),
            i < self.map().values().len(),
        ensures
            r is Ok <==> current@ == self.map().values()[i as int].after@,
            r matches Err(e) ==> e@ == "Undo stopped because "@ + shown_path(
                self.map().paths()[i as int],
            ) + " changed while undo was in progress"@,
    {
        if current.same(&self.changes.value_at(i).after) {
            Ok(())
        } else {
            let name = show_path(self.changes.path_at(i).as_slice());
            let mut e = "Undo stopped because ".to_owned();
            e.append(name.as_str());
            e.append(" changed while undo was in progress");
            Err(e)
        }
    }

    /// That the turn was undone, in words.
    pub fn undone(&self) -> (r: String)
        ensures
            r@ == "Undid the last turn's changes to "@ + decimal(self.map().paths().len())
                + " file(s)."@,
    {
        let mut out = "Undid the last turn's changes to ".to_owned();
        text::push_decimal(&mut out, self.changes.len() as u64);
        out.append(" file(s).");
        out
    }
}

/// To undo is refused where any path is not as the turn left it, so a later edit is never
/// overwritten.
pub proof fn law_later_edits_block_undo(
    paths: Seq<Seq<u8>>,
    changes: Seq<Change>,
    current: Seq<FileState>,
    i: int,
)
    requires
        paths.len() == changes.len(),
        paths.len() == current.len(),
        0 <= i < paths.len(),
        current[i]@ != changes[i].after@,
    ensures
        conflicts(paths, changes, current).len() > 0,
        conflicts(paths, changes, current).contains(shown_path(paths[i])),
    decreases paths.len(),
{
    let all = conflicts(paths, changes, current);
    if i < paths.len() - 1 {
        let a = paths.drop_last();
        let b = changes.drop_last();
        let c = current.drop_last();
        law_later_edits_block_undo(a, b, c, i);
        let before = conflicts(a, b, c);
        let k = choose|k: int| 0 <= k < before.len() && before[k] == shown_path(a[i]);
        assert(all[k] == before[k]);
        assert(a[i] == paths[i]);
    } else {
        assert(all[all.len() - 1] == shown_path(paths[i]));
    }
}

/// Where every path is as the turn left it, to undo it is not refused.
pub proof fn law_untouched_turn_can_be_undone(
    paths: Seq<Seq<u8>>,
    changes: Seq<Change>,
    current: Seq<FileState>,
)
    requires
        paths.len() == changes.len(),
        paths.len() == current.len(),
        forall|i: int| 0 <= i < paths.len() ==> (#[trigger] current[i])@ == changes[i].after@,
    ensures
        conflicts(paths, changes, current).len() == 0,
    decreases paths.len(),
{
    if paths.len() > 0 {
        let c = current.drop_last();
        assert forall|i: int| 0 <= i < c.len() implies (#[trigger] c[i])@
            == changes.drop_last()[i].after@ by {
            assert(c[i] == current[i]);
        }
        law_untouched_turn_can_be_undone(paths.drop_last(), changes.drop_last(), c);
        assert(current[current.len() - 1]@ == changes[changes.len() - 1].after@);
    }
}

/// What stands at a path of a worktree.
pub open spec fn state_at(worktree: Map<Seq<u8>, StateView>, path: Seq<u8>) -> StateView {
    if worktree.dom().contains(path) {
        worktree[path]
    } else {
        StateView::Missing
    }
}

/// A worktree after every change has been undone in turn: what stood at each path before
/// stands there again.
pub open spec fn undone_worktree(
    worktree: Map<Seq<u8>, StateView>,
    paths: Seq<Seq<u8>>,
    changes: Seq<Change>,
) -> Map<Seq<u8>, StateView>
    decreases paths.len(),
{
    if paths.len() == 0 || changes.len() == 0 {
        worktree
    } else {
        undone_worktree(worktree, paths.drop_last(), changes.drop_last()).insert(
            paths.last(),
            changes.last().before@,
        )
    }
}

proof fn lemma_undone_at(
    worktree: Map<Seq<u8>, StateView>,
    paths: Seq<Seq<u8>>,
    changes: Seq<Change>,
    path: Seq<u8>,
)
    requires
        in_path_order(paths),
        paths.len() == changes.len(),
    ensures
        state_at(undone_worktree(worktree, paths, changes), path) == match value_among(
            paths,
            changes,
            path,
        ) {
            Some(change) => change.before@,
            None => state_at(worktree, path),
        },
    decreases paths.len(),
{
    if paths.len() > 0 {
        let a = paths.drop_last();
        let b = changes.drop_last();
        let n = paths.len() - 1;
        assert(in_path_order(a)) by {
            assert forall|i: int, j: int| 0 <= i < j < a.len() implies path_before(
                #[trigger] a[i],
                #[trigger] a[j],
            ) by {
                assert(path_before(paths[i], paths[j]));
            }
        }
        lemma_undone_at(worktree, a, b, path);
        if path == paths.last() {
            lemma_value_in_place(paths, changes, n);
        } else if paths.contains(path) {
            let k = choose|k: int| 0 <= k < paths.len() && paths[k] == path;
            assert(a[k] == path);
            lemma_value_in_place(paths, changes, k);
            lemma_value_in_place(a, b, k);
        } else if a.contains(path) {
            let k = choose|k: int| 0 <= k < a.len() && a[k] == path;
            assert(paths[k] == path);
        }
    }
}

/// What undoing a turn restores is what stood before it. Where the paths that the turn
/// changed are still as it left them, undoing is not refused; then what stood at each of
/// them before the turn stands there again, and nothing changes at any other path.
pub proof fn law_undo_restores(
    checkpoint: TurnCheckpoint,
    before: PathMap<FileState>,
    after: PathMap<FileState>,
    worktree: Map<Seq<u8>, StateView>,
    current: Seq<FileState>,
)
    requires
        in_path_order(checkpoint.map().paths()),
        forall|p: Seq<u8>|
            #[trigger] change_of(checkpoint.map(), p) == difference(
                state_of(before, p),
                state_of(after, p),
            ),
        forall|p: Seq<u8>|
            state_of(before, p) != state_of(after, p) ==> #[trigger] state_at(worktree, p)
                == state_of(after, p),
        current.len() == checkpoint.map().paths().len(),
        forall|i: int|
            0 <= i < current.len() ==> (#[trigger] current[i])@ == state_at(
                worktree,
                checkpoint.map().paths()[i],
            ),
    ensures
        conflicts(checkpoint.map().paths(), checkpoint.map().values(), current).len() == 0,
        ({
            let undone = undone_worktree(
                worktree,
                checkpoint.map().paths(),
                checkpoint.map().values(),
            );
            forall|p: Seq<u8>| #[trigger]
                state_at(undone, p) == if state_of(before, p) != state_of(after, p) {
                    state_of(before, p)
                } else {
                    state_at(worktree, p)
                }
        }),
{
    let paths = checkpoint.map().paths();
    let changes = checkpoint.map().values();
    lemma_same_count(checkpoint.map());
    assert forall|i: int| 0 <= i < current.len() implies (#[trigger] current[i])@
        == changes[i].after@ by {
        let p = paths[i];
        lemma_value_in_place(paths, changes, i);
        assert(change_of(checkpoint.map(), p) == difference(
            state_of(before, p),
            state_of(after, p),
        ));
        assert(state_at(worktree, p) == state_of(after, p));
    }
    law_untouched_turn_can_be_undone(paths, changes, current);
    let undone = undone_worktree(worktree, paths, changes);
    assert forall|p: Seq<u8>| #[trigger]
        state_at(undone, p) == if state_of(before, p) != state_of(after, p) {
            state_of(before, p)
        } else {
            state_at(worktree, p)
        } by {
        lemma_undone_at(worktree, paths, changes, p);
        assert(change_of(checkpoint.map(), p) == difference(
            state_of(before, p),
            state_of(after, p),
        ));
    }
}

} // verus!
