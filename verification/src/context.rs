//! The system prompt: instructions, and what is known of the environment.

use vstd::prelude::*;
use vstd::string::{StrSliceExecFns, StringExecFns};
use crate::api::anthropic::SYSTEM_PROMPT_BLOCK_SEPARATOR;
use crate::api::error::str_option;
use crate::api::types::text_option;
use crate::defaults::{Defaults, DefaultsView};
use crate::paths;
use crate::paths::{components, is_absolute, path_text};
use crate::text;
use crate::text::{
    byte_len, cut, decimal, is_blank, joined, line_texts, occurs, texts, trimmed,
};

verus! {

/// The prompt before the name of the model.
pub const PROMPT_START: &'static str =
    "You are claux, an open-source terminal coding assistant, currently powered by the model ";

/// The prompt between the name of the model and the memory directory.
pub const PROMPT_BODY: &'static str =
    ". You help users with software engineering tasks in the working directory: fixing bugs, adding features, refactoring, explaining code, and running project tooling.\n\n# Communication\n- Text you output outside of tool calls is shown to the user, rendered as markdown in a terminal.\n- Be concise and direct. Lead with the answer or the action, not the reasoning that led there. Skip preamble, filler, and restating what the user said.\n- When referencing code, use the pattern file_path:line_number so the user can jump to it.\n- Only use emojis if the user asks for them.\n\n# Using tools\n- Prefer the dedicated tools over shell equivalents: Read (not cat/head/tail), Edit (not sed/awk), Write (not echo/heredoc redirection), Glob (not find), Grep (not grep/rg). Reserve Bash for things that need a shell: builds, tests, git, package managers, project scripts.\n- Read a file before you propose changes to it. Do not speculate about code you have not opened.\n- Independent tool calls can be issued together and run in parallel; dependent calls must run one at a time.\n- Use the Agent tool to delegate self-contained subtasks (research, broad searches, multi-step side quests) when doing them inline would flood the conversation with output. Sub-agents cannot spawn further agents.\n- Use TodoWrite to plan multi-step work and mark items done as you finish them, so the user can follow progress.\n- Use WebFetch to retrieve a URL when the task needs it. Never invent URLs; use ones from the user or the code.\n- MCP tools may be available beyond the built-in set; treat them like any other tool.\n- Tools run behind the user's permission mode. If the user denies a tool call, do not retry it verbatim: reconsider, adjust, or ask why.\n\n# Doing tasks\n- Make the change the user asked for and stop. No drive-by refactors, no extra configurability, no comments or docs on code you did not touch.\n- Match the existing style of the file you are editing: naming, formatting, idiom, comment density.\n- Prefer editing existing files over creating new ones. Only create files that the task genuinely requires.\n- After a nontrivial change, verify it with the project's own tooling when available: run the tests, the linter, the build. Report results honestly, including failures.\n- If an approach fails, read the error and diagnose before switching tactics. Do not retry the identical action blindly, and do not abandon a viable approach after one failure.\n- Validate at system boundaries (user input, external APIs); trust internal code and framework guarantees. Do not add error handling for situations that cannot happen.\n\n# Acting with care\n- Local, reversible actions (editing files, running tests) are yours to take freely within the permission mode.\n- For destructive or hard-to-reverse actions - deleting files or branches, rm -rf, force-pushing, git reset --hard, dropping data, killing processes - and for anything visible to others (pushing, opening PRs, posting to external services), confirm with the user first unless they have explicitly told you to proceed.\n- When you hit an obstacle, fix the cause instead of bypassing the safeguard. Never skip hooks or checks to make an error go away.\n- If you find unexpected state (unfamiliar files, lock files, merge conflicts), investigate before deleting or overwriting; it may be someone's in-progress work.\n\n# Git\n- Never commit unless the user asks. When they do: review the diff and recent commit messages first, follow the repository's message style, and stage specific files rather than git add -A.\n- Never update git config, amend published commits, or run destructive git commands without an explicit request.\n- If a pre-commit hook fails, fix the issue properly and create a new commit; do not amend and do not use --no-verify.\n\n# Memory\nYou have a persistent memory directory at `";

/// The prompt between the memory directory and the name of the file with instructions.
pub const PROMPT_MEMORY: &'static str =
    "`. Its index, MEMORY.md, is loaded into your context each session.\n\n- To save something durable (who the user is, feedback on how to work, project context, pointers to external resources), write a small markdown file in that directory, then add a one-line entry to MEMORY.md linking it: `- [Title](file.md) - hook`.\n- Save when the user corrects you, confirms an unusual approach, or asks you to remember something. Do not save what the code, git history, or ";

/// The prompt behind the name of the file with instructions.
pub const PROMPT_END: &'static str =
    " already records.\n- Update or delete memories that turn out to be wrong. Check for an existing file before creating a duplicate.\n- Memories reflect what was true when written. Verify against the current code before acting on one.\n";

/// The instructions, which are the same for every provider.
pub open spec fn instructions(
    model: Seq<char>,
    memory_dir: Seq<char>,
    instruction_file: Seq<char>,
) -> Seq<char> {
    PROMPT_START@ + model + PROMPT_BODY@ + memory_dir + PROMPT_MEMORY@ + instruction_file
        + PROMPT_END@
}

/// The instructions, which are the same for every provider.
pub fn claux_system_prompt(model: &str, memory_dir: &str, defaults: &Defaults) -> (r: String)
    ensures
        r@ == instructions(model@, memory_dir@, defaults.instruction_file@),
{
    let mut out = PROMPT_START.to_owned();
    out.append(model);
    out.append(PROMPT_BODY);
    out.append(memory_dir);
    out.append(PROMPT_MEMORY);
    out.append(defaults.instruction_file.as_str());
    out.append(PROMPT_END);
    out
}

/// The string without the slashes that it begins with.
pub open spec fn without_leading_slashes(s: Seq<char>) -> Seq<char>
    decreases s.len(),
{
    if s.len() > 0 && s[0] == '/' {
        without_leading_slashes(s.drop_first())
    } else {
        s
    }
}

/// A path as one component of another.
pub open spec fn as_component(path: Seq<char>) -> Seq<char> {
    without_leading_slashes(path).map_values(
        |c: char|
            if c == '/' {
                '-'
            } else {
                c
            },
    )
}

/// The memory directory of a project.
pub open spec fn memory_dir(base: Option<Seq<char>>, cwd: Option<Seq<char>>) -> Seq<char> {
    let root = match base {
        Some(b) => b,
        None => "/tmp"@,
    };
    let project = match cwd {
        Some(c) => c,
        None => "unknown"@,
    };
    root + "/claux/projects/"@ + as_component(project) + "/memory/"@
}

fn make_component(path: &str) -> (r: String)
    ensures
        r@ == as_component(path@),
{
    let a = text::chars_of(path);
    let mut start: usize = 0;
    assert(a@.skip(0) =~= a@);
    while start < a.len() && a[start] == '/'
        invariant
            start <= a@.len(),
            without_leading_slashes(a@.skip(start as int)) == without_leading_slashes(a@),
        decreases a.len() - start,
    {
        assert(a@.skip(start as int).drop_first() =~= a@.skip(start + 1));
        start = start + 1;
    }
    let ghost left = a@.skip(start as int);
    let ghost all = as_component(path@);
    let mut out = String::new();
    assert(out@ =~= all.take(0));
    let mut i: usize = start;
    while i < a.len()
        invariant
            start <= i <= a@.len(),
            left == a@.skip(start as int),
            all == left.map_values(
                |c: char|
                    if c == '/' {
                        '-'
                    } else {
                        c
                    },
            ),
            out@ == all.take(i - start),
        decreases a.len() - i,
    {
        assert(left[i - start] == a@[i as int]);
        if a[i] == '/' {
            out.push('-');
        } else {
            out.push(a[i]);
        }
        i = i + 1;
        assert(out@ =~= all.take(i - start));
    }
    assert(all.take(a@.len() - start) =~= all);
    out
}

/// The memory directory of a project, below the data directory of the user.
pub fn build_memory_dir_path(base: Option<&str>, cwd: Option<&str>) -> (r: String)
    ensures
        r@ == memory_dir(str_option(base), str_option(cwd)),
{
    let project = make_component(
        match cwd {
            Some(c) => c,
            None => "unknown",
        },
    );
    let mut out = match base {
        Some(b) => b.to_owned(),
        None => "/tmp".to_owned(),
    };
    out.append("/claux/projects/");
    out.append(project.as_str());
    out.append("/memory/");
    out
}

/// The memory of a project is one directory below that of all projects: the component that
/// stands for the project holds no slash.
pub proof fn law_memory_component(path: Seq<char>, i: int)
    requires
        0 <= i < as_component(path).len(),
    ensures
        as_component(path)[i] != '/',
{
}

/// What git says of the working directory.
pub struct GitFacts {
    pub branch: String,
    /// What the symbolic reference of the remote's head is.
    pub remote_head: Option<String>,
    pub has_main: bool,
    pub has_master: bool,
    pub user_name: Option<String>,
    pub status: Option<String>,
    pub log: Option<String>,
}

/// The default branch: that of the remote's head, else one of the usual names.
pub open spec fn default_branch(f: GitFacts) -> Seq<char> {
    let usual = if f.has_main {
        "main"@
    } else if f.has_master {
        "master"@
    } else {
        "main"@
    };
    match f.remote_head {
        Some(head) => {
            let name = trimmed(head@);
            let prefix = "refs/remotes/origin/"@;
            if prefix.is_prefix_of(name) && name.len() > prefix.len() {
                name.skip(prefix.len() as int)
            } else {
                usual
            }
        },
        None => usual,
    }
}

/// The default branch.
pub fn detect_default_branch(f: &GitFacts) -> (r: String)
    ensures
        r@ == default_branch(*f),
{
    match &f.remote_head {
        Some(head) => match text::strip_prefix(text::trim(head.as_str()), "refs/remotes/origin/") {
            Some(branch) => if branch.unicode_len() > 0 {
                return branch.to_owned();
            },
            None => {},
        },
        None => {},
    }
    if f.has_main {
        "main".to_owned()
    } else if f.has_master {
        "master".to_owned()
    } else {
        "main".to_owned()
    }
}

/// The string, or an empty one.
pub open spec fn text_or_empty(s: Option<String>) -> Seq<char> {
    match s {
        Some(t) => t@,
        None => ""@,
    }
}

/// The status as it is shown: at most two thousand bytes of it.
pub open spec fn shown_status(status: Seq<char>) -> Seq<char> {
    if byte_len(status) > 2000 {
        cut(status, 2000)
            + "... (truncated because it exceeds 2k characters. If you need more information, run \"git status\" using Bash)"@
    } else if is_blank(status) {
        "(clean)"@
    } else {
        status
    }
}

/// The parts of what is said of the working directory.
pub open spec fn git_parts(f: GitFacts) -> Seq<Seq<char>> {
    let start = seq![
        "This is the git status at the start of the conversation. Note that this status is a snapshot in time, and will not update during the conversation."@,
        "Current branch: "@ + trimmed(f.branch@),
        "Main branch (you will usually use this for PRs): "@ + default_branch(f),
    ];
    let named = match f.user_name {
        Some(name) => if is_blank(name@) {
            start
        } else {
            start.push("Git user: "@ + trimmed(name@))
        },
        None => start,
    };
    named.push("Status:\n"@ + shown_status(text_or_empty(f.status))).push(
        "Recent commits:\n"@ + text_or_empty(f.log),
    )
}

fn push_part(parts: &mut Vec<String>, start: &str, rest: &str)
    ensures
        texts(final(parts)@) == texts(old(parts)@).push(start@ + rest@),
{
    let mut part = start.to_owned();
    part.append(rest);
    parts.push(part);
    assert(texts(parts@) =~= texts(old(parts)@).push(start@ + rest@));
}

fn show_status(status: &str) -> (r: String)
    ensures
        r@ == shown_status(status@),
{
    if text::len_bytes(status) > 2000 {
        let mut out = text::truncate_str(status, 2000).to_owned();
        out.append(
            "... (truncated because it exceeds 2k characters. If you need more information, run \"git status\" using Bash)",
        );
        out
    } else if text::blank(status) {
        "(clean)".to_owned()
    } else {
        status.to_owned()
    }
}

/// What is said of the working directory: its branches, its status and its last commits.
pub fn git_status(f: &GitFacts) -> (r: String)
    ensures
        r@ == joined(git_parts(*f), "\n\n"@),
{
    let mut parts: Vec<String> = Vec::new();
    parts.push(
        "This is the git status at the start of the conversation. Note that this status is a snapshot in time, and will not update during the conversation.".to_owned(),
    );
    push_part(&mut parts, "Current branch: ", text::trim(f.branch.as_str()));
    let default = detect_default_branch(f);
    push_part(
        &mut parts,
        "Main branch (you will usually use this for PRs): ",
        default.as_str(),
    );
    assert(texts(parts@) =~= seq![
        "This is the git status at the start of the conversation. Note that this status is a snapshot in time, and will not update during the conversation."@,
        "Current branch: "@ + trimmed(f.branch@),
        "Main branch (you will usually use this for PRs): "@ + default_branch(*f),
    ]);
    match &f.user_name {
        Some(name) => if !text::blank(name.as_str()) {
            push_part(&mut parts, "Git user: ", text::trim(name.as_str()));
        },
        None => {},
    }
    let status = show_status(
        match &f.status {
            Some(s) => s.as_str(),
            None => "",
        },
    );
    push_part(&mut parts, "Status:\n", status.as_str());
    push_part(
        &mut parts,
        "Recent commits:\n",
        match &f.log {
            Some(l) => l.as_str(),
            None => "",
        },
    );
    text::join(parts.as_slice(), "\n\n")
}

/// The kind of a project, by the files that it has.
pub open spec fn project_kind(files: Seq<Seq<char>>) -> Seq<char> {
    if files.contains("Cargo.toml"@) {
        "Rust"@
    } else if files.contains("Gemfile"@) {
        "Ruby"@
    } else if files.contains("package.json"@) {
        "Node.js/TypeScript"@
    } else if files.contains("pyproject.toml"@) || files.contains("setup.py"@) {
        "Python"@
    } else if files.contains("go.mod"@) {
        "Go"@
    } else if files.contains("Cargo.lock"@) {
        "Rust (locked)"@
    } else {
        "Unknown"@
    }
}

fn has_file(files: &Vec<String>, name: &str) -> (r: bool)
    ensures
        r == texts(files@).contains(name@),
{
    let mut i: usize = 0;
    while i < files.len()
        invariant
            i <= files@.len(),
            forall|k: int| 0 <= k < i ==> #[trigger] texts(files@)[k] != name@,
        decreases files.len() - i,
    {
        if text::same(files[i].as_str(), name) {
            assert(texts(files@)[i as int] == name@);
            return true;
        }
        i = i + 1;
    }
    false
}

/// The kind of a project, by the files that it has.
pub fn detect_project_type(files: &Vec<String>) -> (r: &'static str)
    ensures
        r@ == project_kind(texts(files@)),
{
    if has_file(files, "Cargo.toml") {
        "Rust"
    } else if has_file(files, "Gemfile") {
        "Ruby"
    } else if has_file(files, "package.json") {
        "Node.js/TypeScript"
    } else if has_file(files, "pyproject.toml") || has_file(files, "setup.py") {
        "Python"
    } else if has_file(files, "go.mod") {
        "Go"
    } else if has_file(files, "Cargo.lock") {
        "Rust (locked)"
    } else {
        "Unknown"
    }
}

/// The first lines of a text, one below the other.
pub open spec fn first_lines(s: Seq<char>, n: nat) -> Seq<char> {
    let lines = line_texts(s);
    joined(
        if lines.len() > n {
            lines.take(n as int)
        } else {
            lines
        },
        "\n"@,
    )
}

/// The first lines of a text, one below the other.
pub fn take_lines(s: &str, n: usize) -> (r: String)
    ensures
        r@ == first_lines(s@, n as nat),
{
    let lines = text::lines(s);
    assert(texts(lines@).len() == lines@.len());
    if lines.len() > n {
        let kept = vstd::slice::slice_subrange(lines.as_slice(), 0, n);
        assert(texts(kept@) =~= texts(lines@).take(n as int));
        text::join(kept, "\n")
    } else {
        text::join(lines.as_slice(), "\n")
    }
}

/// A map of a project: its kind, its files, and its symbols where there are any.
pub open spec fn project_map(
    kind: Seq<char>,
    files: Seq<char>,
    symbols: Option<Seq<char>>,
) -> Seq<char> {
    let count = line_texts(files).len();
    let listed = if count > 100 {
        first_lines(files, 100) + "... ("@ + decimal(count) + " total files, showing top 100)"@
    } else {
        files
    };
    let start = seq![
        "**Project Type:** "@ + kind,
        "\n**File Structure** ("@ + decimal(count) + " files):\n"@ + listed,
    ];
    joined(
        match symbols {
            Some(s) => if is_blank(s) {
                start
            } else {
                start.push(
                    "\n**Top-Level Symbols**:\n"@ + if line_texts(s).len() > 50 {
                        first_lines(s, 50) + "... (truncated)"@
                    } else {
                        s
                    },
                )
            },
            None => start,
        },
        "\n"@,
    )
}

/// A map of a project.
pub fn build_project_map(kind: &str, files: &str, symbols: Option<&str>) -> (r: String)
    ensures
        r@ == project_map(kind@, files@, str_option(symbols)),
{
    let lines = text::lines(files);
    assert(texts(lines@).len() == lines@.len());
    let count = lines.len();
    let listed = if count > 100 {
        let mut l = take_lines(files, 100);
        l.append("... (");
        text::push_decimal(&mut l, count as u64);
        l.append(" total files, showing top 100)");
        l
    } else {
        files.to_owned()
    };
    let mut parts: Vec<String> = Vec::new();
    assert(texts(parts@) =~= Seq::empty());
    push_part(&mut parts, "**Project Type:** ", kind);
    let mut structure = "\n**File Structure** (".to_owned();
    text::push_decimal(&mut structure, count as u64);
    structure.append(" files):\n");
    push_part(&mut parts, structure.as_str(), listed.as_str());
    assert(texts(parts@) =~= seq![
        "**Project Type:** "@ + kind@,
        "\n**File Structure** ("@ + decimal(count as nat) + " files):\n"@ + listed@,
    ]);
    match symbols {
        Some(s) => if !text::blank(s) {
            let all = text::lines(s);
            assert(texts(all@).len() == all@.len());
            let shown = if all.len() > 50 {
                let mut t = take_lines(s, 50);
                t.append("... (truncated)");
                t
            } else {
                s.to_owned()
            };
            push_part(&mut parts, "\n**Top-Level Symbols**:\n", shown.as_str());
        },
        None => {},
    }
    text::join(parts.as_slice(), "\n")
}

/// A place where instructions of the project or the user may stand: the name of a file,
/// and the directory that it is looked for in.
pub struct InstructionPlace {
    pub name: String,
    pub directory: String,
}

/// A place where instructions may stand, as a mathematical object.
pub struct PlaceView {
    pub name: Seq<char>,
    pub directory: Seq<char>,
}

impl View for InstructionPlace {
    type V = PlaceView;

    open spec fn view(&self) -> PlaceView {
        PlaceView { name: self.name@, directory: self.directory@ }
    }
}

/// Several places.
pub open spec fn place_views(places: Seq<InstructionPlace>) -> Seq<PlaceView> {
    places.map_values(|p: InstructionPlace| p@)
}

/// The file with instructions below the directory that may hold it.
pub open spec fn nested_file(d: DefaultsView) -> Seq<char> {
    d.instruction_dir + "/"@ + d.instruction_file
}

/// The places in a directory.
pub open spec fn places_in(directory: Seq<char>, d: DefaultsView) -> Seq<PlaceView> {
    seq![
        PlaceView { name: d.instruction_file, directory },
        PlaceView { name: nested_file(d), directory },
    ]
}

/// The directory above others, after so many of its components.
pub open spec fn ancestor(path: Seq<char>, n: int) -> Seq<char> {
    path_text(is_absolute(path), components(path).take(n))
}

/// The places in the directories above one, from the nearest on.
pub open spec fn places_above(path: Seq<char>, n: int, d: DefaultsView) -> Seq<PlaceView>
    decreases n,
{
    if n <= 0 {
        Seq::empty()
    } else {
        places_in(ancestor(path, n - 1), d) + places_above(path, n - 1, d)
    }
}

/// The places where instructions may stand: a directory, and the directories above it.
pub open spec fn instruction_places(cwd: Seq<char>, d: DefaultsView) -> Seq<PlaceView> {
    places_in(cwd, d) + places_above(cwd, components(cwd).len() as int, d)
}

fn nested(defaults: &Defaults) -> (r: String)
    ensures
        r@ == nested_file(defaults@),
{
    let mut name = defaults.instruction_dir.clone();
    name.append("/");
    name.append(defaults.instruction_file.as_str());
    name
}

fn push_places(places: &mut Vec<InstructionPlace>, directory: &str, defaults: &Defaults)
    ensures
        place_views(final(places)@) == place_views(old(places)@) + places_in(
            directory@,
            defaults@,
        ),
{
    places.push(
        InstructionPlace {
            name: defaults.instruction_file.clone(),
            directory: directory.to_owned(),
        },
    );
    places.push(InstructionPlace { name: nested(defaults), directory: directory.to_owned() });
    assert(place_views(places@) =~= place_views(old(places)@) + places_in(
        directory@,
        defaults@,
    ));
}

/// The places where instructions may stand: a directory, and the directories above it.
pub fn claude_md_places(cwd: &str, defaults: &Defaults) -> (r: Vec<InstructionPlace>)
    ensures
        place_views(r@) == instruction_places(cwd@, defaults@),
{
    let parts = paths::split_path(cwd);
    let from_root = paths::absolute(cwd);
    let ghost all = components(cwd@);
    assert(all.len() == parts@.len()) by {
        assert(texts(parts@) == all);
    }
    let mut places: Vec<InstructionPlace> = Vec::new();
    push_places(&mut places, cwd, defaults);
    assert(place_views(places@) =~= places_in(cwd@, defaults@));
    let mut n: usize = parts.len();
    while n > 0
        invariant
            n <= parts@.len(),
            texts(parts@) == components(cwd@),
            from_root == is_absolute(cwd@),
            place_views(places@) + places_above(cwd@, n as int, defaults@) == instruction_places(
                cwd@,
                defaults@,
            ),
        decreases n,
    {
        let kept = vstd::slice::slice_subrange(parts.as_slice(), 0, n - 1);
        assert(texts(kept@) =~= components(cwd@).take(n - 1));
        let directory = paths::render_path(from_root, kept);
        let ghost before = place_views(places@);
        push_places(&mut places, directory.as_str(), defaults);
        assert(before + (places_in(directory@, defaults@) + places_above(cwd@, n - 1, defaults@))
            =~= place_views(places@) + places_above(cwd@, n - 1, defaults@));
        n = n - 1;
    }
    assert(place_views(places@) + places_above(cwd@, 0, defaults@) =~= place_views(places@));
    places
}

/// The parts of the instructions that were found in places.
pub open spec fn found_parts(places: Seq<PlaceView>, contents: Seq<Option<String>>) -> Seq<Seq<char>>
    decreases places.len(),
{
    if places.len() == 0 || contents.len() == 0 {
        Seq::empty()
    } else {
        let before = found_parts(places.drop_last(), contents.drop_last());
        let place = places.last();
        match contents.last() {
            Some(content) => before.push(
                "# "@ + place.name + " ("@ + place.directory + ")\n"@ + content@,
            ),
            None => before,
        }
    }
}

/// The instructions of the project and the user, where there are any.
pub open spec fn project_instructions(
    places: Seq<PlaceView>,
    contents: Seq<Option<String>>,
    global: Option<Seq<char>>,
    d: DefaultsView,
) -> Option<Seq<char>> {
    let found = found_parts(places, contents);
    let parts = match global {
        Some(content) => found.push("# ~/"@ + nested_file(d) + "\n"@ + content),
        None => found,
    };
    if parts.len() == 0 {
        None
    } else {
        Some(joined(parts, "\n\n"@))
    }
}

/// The instructions of the project and the user, given what was read in each place.
pub fn read_claude_md(
    places: &Vec<InstructionPlace>,
    contents: &Vec<Option<String>>,
    global: Option<&str>,
    defaults: &Defaults,
) -> (r: Option<String>)
    requires
        places@.len() == contents@.len(),
    ensures
        text_option(r) == project_instructions(
            place_views(places@),
            contents@,
            str_option(global),
            defaults@,
        ),
{
    let ghost all = place_views(places@);
    let mut parts: Vec<String> = Vec::new();
    assert(texts(parts@) =~= found_parts(all.take(0), contents@.take(0)));
    let mut i: usize = 0;
    while i < places.len()
        invariant
            i <= places@.len(),
            places@.len() == contents@.len(),
            all == place_views(places@),
            texts(parts@) == found_parts(all.take(i as int), contents@.take(i as int)),
        decreases places.len() - i,
    {
        assert(all.take(i + 1).drop_last() =~= all.take(i as int));
        assert(contents@.take(i + 1).drop_last() =~= contents@.take(i as int));
        assert(all.take(i + 1).last() == places@[i as int]@);
        match &contents[i] {
            Some(content) => {
                let mut heading = "# ".to_owned();
                heading.append(places[i].name.as_str());
                heading.append(" (");
                heading.append(places[i].directory.as_str());
                heading.append(")\n");
                push_part(&mut parts, heading.as_str(), content.as_str());
            },
            None => {},
        }
        i = i + 1;
    }
    assert(all.take(places@.len() as int) =~= all);
    assert(contents@.take(places@.len() as int) =~= contents@);
    match global {
        Some(content) => {
            let name = nested(defaults);
            let mut heading = "# ~/".to_owned();
            heading.append(name.as_str());
            heading.append("\n");
            push_part(&mut parts, heading.as_str(), content);
        },
        None => {},
    }
    assert(texts(parts@).len() == parts@.len());
    if parts.len() == 0 {
        None
    } else {
        Some(text::join(parts.as_slice(), "\n\n"))
    }
}

/// What is known of the environment.
pub struct Environment {
    pub cwd: String,
    pub is_git: bool,
    pub platform: String,
    pub shell: String,
    /// What the system calls itself.
    pub os_version: Option<String>,
    pub git_status: Option<String>,
    /// The instructions of the project and the user.
    pub instructions: Option<String>,
    /// The index of the memory directory.
    pub memory_index: Option<String>,
    /// What plugins gave.
    pub plugin_context: Option<String>,
}

/// The name of a shell.
pub open spec fn shell_name(shell: Seq<char>) -> Seq<char> {
    if occurs("zsh"@, shell) {
        "zsh"@
    } else if occurs("bash"@, shell) {
        "bash"@
    } else {
        shell
    }
}

/// The section on the environment.
pub open spec fn environment_section(e: Environment, model: Seq<char>) -> Seq<char> {
    let version = match e.os_version {
        Some(v) => trimmed(v@),
        None => trimmed(e.platform@ + " unknown"@),
    };
    "# Environment\nYou have been invoked in the following environment: \n - Primary working directory: "@
        + e.cwd@ + "\n - Is a git repository: "@ + (if e.is_git {
        "true"@
    } else {
        "false"@
    }) + "\n - Platform: "@ + e.platform@ + "\n - Shell: "@ + shell_name(e.shell@)
        + "\n - OS Version: "@ + version + "\n - You are powered by the model "@ + model + "."@
}

/// The sections on what is known of the project.
pub open spec fn runtime_sections(e: Environment, model: Seq<char>) -> Seq<Seq<char>> {
    let a = seq![environment_section(e, model)];
    let b = match e.git_status {
        Some(s) => if e.is_git {
            a.push("\ngitStatus: "@ + s@)
        } else {
            a
        },
        None => a,
    };
    let c = match e.instructions {
        Some(s) => b.push("\n"@ + s@),
        None => b,
    };
    let d = match e.memory_index {
        Some(s) => if is_blank(s@) {
            c
        } else {
            c.push("\n# Memory Index (MEMORY.md)\n"@ + first_lines(s@, 200))
        },
        None => c,
    };
    match e.plugin_context {
        Some(s) => if s@.len() == 0 {
            d
        } else {
            d.push("\n# Plugin Context\n"@ + s@)
        },
        None => d,
    }
}

/// What is known of the environment and the project.
pub open spec fn runtime_section(e: Environment, model: Seq<char>) -> Seq<char> {
    joined(runtime_sections(e, model), "\n"@)
}

fn describe_environment(e: &Environment, model: &str) -> (r: String)
    ensures
        r@ == environment_section(*e, model@),
{
    let shell = if text::contains(e.shell.as_str(), "zsh") {
        "zsh"
    } else if text::contains(e.shell.as_str(), "bash") {
        "bash"
    } else {
        e.shell.as_str()
    };
    let version = match &e.os_version {
        Some(v) => text::trim(v.as_str()).to_owned(),
        None => {
            let mut v = e.platform.clone();
            v.append(" unknown");
            text::trim(v.as_str()).to_owned()
        },
    };
    let mut out =
        "# Environment\nYou have been invoked in the following environment: \n - Primary working directory: ".to_owned();
    out.append(e.cwd.as_str());
    out.append("\n - Is a git repository: ");
    out.append(
        if e.is_git {
            "true"
        } else {
            "false"
        },
    );
    out.append("\n - Platform: ");
    out.append(e.platform.as_str());
    out.append("\n - Shell: ");
    out.append(shell);
    out.append("\n - OS Version: ");
    out.append(version.as_str());
    out.append("\n - You are powered by the model ");
    out.append(model);
    out.append(".");
    out
}

/// What is known of the environment and the project.
pub fn build_runtime_section(e: &Environment, model: &str) -> (r: String)
    ensures
        r@ == runtime_section(*e, model@),
{
    let mut parts: Vec<String> = Vec::new();
    parts.push(describe_environment(e, model));
    assert(texts(parts@) =~= seq![environment_section(*e, model@)]);
    match &e.git_status {
        Some(s) => if e.is_git {
            push_part(&mut parts, "\ngitStatus: ", s.as_str());
        },
        None => {},
    }
    match &e.instructions {
        Some(s) => push_part(&mut parts, "\n", s.as_str()),
        None => {},
    }
    match &e.memory_index {
        Some(s) => if !text::blank(s.as_str()) {
            let kept = take_lines(s.as_str(), 200);
            push_part(&mut parts, "\n# Memory Index (MEMORY.md)\n", kept.as_str());
        },
        None => {},
    }
    match &e.plugin_context {
        Some(s) => if s.as_str().unicode_len() > 0 {
            push_part(&mut parts, "\n# Plugin Context\n", s.as_str());
        },
        None => {},
    }
    text::join(parts.as_slice(), "\n")
}

/// The system prompt: instructions, then what is known of the environment. For Anthropic
/// the two are separate blocks.
pub fn build_system_prompt_for_model(
    model: &str,
    memory_dir: &str,
    e: &Environment,
    is_anthropic: bool,
    defaults: &Defaults,
) -> (r: String)
    ensures
        r@ == instructions(model@, memory_dir@, defaults.instruction_file@) + (if is_anthropic {
            SYSTEM_PROMPT_BLOCK_SEPARATOR@
        } else {
            "\n\n"@
        }) + runtime_section(*e, model@),
{
    let runtime = build_runtime_section(e, model);
    let mut out = claux_system_prompt(model, memory_dir, defaults);
    out.append(
        if is_anthropic {
            SYSTEM_PROMPT_BLOCK_SEPARATOR
        } else {
            "\n\n"
        },
    );
    out.append(runtime.as_str());
    out
}

} // verus!
