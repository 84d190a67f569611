//! Which tool invocations are allowed, denied, or asked about.

use vstd::prelude::*;
use vstd::string::StringExecFns;
use vstd::utf8::{encode_utf8, is_char_boundary};
use crate::api::types::text_option;
use crate::diff::{file_diff, generate_diff};
use crate::json::{Json, JsonView};
use crate::text;
use crate::text::{byte_len, byte_slice, texts};

verus! {

/// How permissions are handled.
#[derive(Debug, Clone, Copy, PartialEq, Eq, Structural)]
pub enum PermissionMode {
    /// Prompt for write operations, allow most reads.
    Default,
    /// Allow file edits, still prompt for shell commands.
    AcceptEdits,
    /// Allow everything without prompting.
    Bypass,
    /// Deny all write operations.
    Plan,
}

impl Default for PermissionMode {
    fn default() -> (r: PermissionMode)
        ensures
            r == PermissionMode::Default,
    {
        PermissionMode::Default
    }
}

/// The mode of a name.
pub open spec fn mode_named(name: Seq<char>) -> Option<PermissionMode> {
    if name == "default"@ {
        Some(PermissionMode::Default)
    } else if name == "accept-edits"@ {
        Some(PermissionMode::AcceptEdits)
    } else if name == "bypass"@ {
        Some(PermissionMode::Bypass)
    } else if name == "plan"@ {
        Some(PermissionMode::Plan)
    } else {
        None
    }
}

/// The name of a mode.
pub open spec fn mode_name(mode: PermissionMode) -> Seq<char> {
    match mode {
        PermissionMode::Default => "default"@,
        PermissionMode::AcceptEdits => "accept-edits"@,
        PermissionMode::Bypass => "bypass"@,
        PermissionMode::Plan => "plan"@,
    }
}

impl PermissionMode {
    /// The mode of a name.
    pub fn from_name(name: &str) -> (r: Option<PermissionMode>)
        ensures
            r == mode_named(name@),
    {
        if text::same(name, "default") {
            Some(PermissionMode::Default)
        } else if text::same(name, "accept-edits") {
            Some(PermissionMode::AcceptEdits)
        } else if text::same(name, "bypass") {
            Some(PermissionMode::Bypass)
        } else if text::same(name, "plan") {
            Some(PermissionMode::Plan)
        } else {
            None
        }
    }

    /// The name of the mode.
    pub fn name(self) -> (r: &'static str)
        ensures
            r@ == mode_name(self),
    {
        match self {
            PermissionMode::Default => "default",
            PermissionMode::AcceptEdits => "accept-edits",
            PermissionMode::Bypass => "bypass",
            PermissionMode::Plan => "plan",
        }
    }
}

/// Result of a permission check.
#[derive(Debug, PartialEq, Eq)]
pub enum PermissionResult {
    Allow,
    Deny(String),
    Ask { message: String, diff: Option<String> },
}

/// Result of a permission check as a mathematical object.
pub enum ResultView {
    Allow,
    Deny(Seq<char>),
    Ask { message: Seq<char>, diff: Option<Seq<char>> },
}

impl View for PermissionResult {
    type V = ResultView;

    open spec fn view(&self) -> ResultView {
        match self {
            PermissionResult::Allow => ResultView::Allow,
            PermissionResult::Deny(reason) => ResultView::Deny(reason@),
            PermissionResult::Ask { message, diff } => ResultView::Ask {
                message: message@,
                diff: text_option(*diff),
            },
        }
    }
}

/// The user's response to a permission prompt.
#[derive(Debug, PartialEq, Eq)]
pub enum PermissionResponse {
    /// Allow this one time.
    Allow,
    /// Deny this one time.
    Deny,
    /// Deny this one time; the message that the user typed supersedes the batch.
    DenyAndCancel,
    /// Always allow this tool for the rest of the session.
    AlwaysAllow,
    /// Always allow this specific command (for the Bash tool only).
    AlwaysAllowCommand(String),
}

/// The user's response as a mathematical object.
pub enum ResponseView {
    Allow,
    Deny,
    DenyAndCancel,
    AlwaysAllow,
    AlwaysAllowCommand(Seq<char>),
}

impl View for PermissionResponse {
    type V = ResponseView;

    open spec fn view(&self) -> ResponseView {
        match self {
            PermissionResponse::Allow => ResponseView::Allow,
            PermissionResponse::Deny => ResponseView::Deny,
            PermissionResponse::DenyAndCancel => ResponseView::DenyAndCancel,
            PermissionResponse::AlwaysAllow => ResponseView::AlwaysAllow,
            PermissionResponse::AlwaysAllowCommand(c) => ResponseView::AlwaysAllowCommand(c@),
        }
    }
}

/// The command in the input of the Bash tool.
pub open spec fn command_of(tool_name: Seq<char>, input: JsonView) -> Option<Seq<char>> {
    if tool_name == "Bash"@ {
        input.at("command"@).text()
    } else {
        None
    }
}

impl PermissionResponse {
    /// What "always allow" is taken to mean for an invocation: a shell command is allowed
    /// as it stands, any other tool as a whole.
    pub fn always_allow_for(tool_name: &str, input: &Json) -> (r: PermissionResponse)
        ensures
            r@ == match command_of(tool_name@, input@) {
                Some(command) => ResponseView::AlwaysAllowCommand(command),
                None => ResponseView::AlwaysAllow,
            },
    {
        if text::same(tool_name, "Bash") {
            match input.text_at("command") {
                Some(command) => PermissionResponse::AlwaysAllowCommand(command.to_owned()),
                None => PermissionResponse::AlwaysAllow,
            }
        } else {
            PermissionResponse::AlwaysAllow
        }
    }
}

/// Decides on tool invocations.
pub struct PermissionChecker {
    mode: PermissionMode,
    session_allows: Vec<String>,
    bash_command_allows: Vec<String>,
}

/// A checker as a mathematical object.
pub struct CheckerView {
    pub mode: PermissionMode,
    /// Tools that the user has always allowed this session.
    pub tools: Set<Seq<char>>,
    /// Shell commands that the user has always allowed this session.
    pub commands: Set<Seq<char>>,
}

impl View for PermissionChecker {
    type V = CheckerView;

    closed spec fn view(&self) -> CheckerView {
        CheckerView {
            mode: self.mode,
            tools: texts(self.session_allows@).to_set(),
            commands: texts(self.bash_command_allows@).to_set(),
        }
    }
}

/// How many bytes of a command are shown.
pub const SHOWN_COMMAND_BYTES: usize = 80;

/// The command as it is shown.
pub open spec fn shown(command: Seq<char>) -> Seq<char> {
    if byte_len(command) <= SHOWN_COMMAND_BYTES {
        command
    } else {
        byte_slice(command, 0, SHOWN_COMMAND_BYTES as int)
    }
}

/// Whether a command can be cut for showing: the cut does not fall inside a character.
pub open spec fn showable(command: Seq<char>) -> bool {
    byte_len(command) > SHOWN_COMMAND_BYTES ==> is_char_boundary(
        encode_utf8(command),
        SHOWN_COMMAND_BYTES as int,
    )
}

/// The text in an optional field, or another.
pub open spec fn text_or(text: Option<Seq<char>>, other: Seq<char>) -> Seq<char> {
    match text {
        Some(t) => t,
        None => other,
    }
}

/// The question without a diff.
pub open spec fn asks(message: Seq<char>) -> ResultView {
    ResultView::Ask { message, diff: None }
}

impl CheckerView {
    /// Whether the user has always allowed the invocation.
    pub open spec fn remembered(self, tool_name: Seq<char>, input: JsonView) -> bool {
        self.tools.contains(tool_name) || (command_of(tool_name, input) matches Some(c)
            && self.commands.contains(c))
    }

    /// What is said of reads in default mode.
    pub open spec fn default_read(tool_name: Seq<char>, input: JsonView) -> ResultView {
        if tool_name == "Read"@ {
            asks("read: "@ + text_or(input.at("file_path"@).text(), "?"@))
        } else if tool_name == "Grep"@ {
            let pattern = text_or(input.at("pattern"@).text(), "?"@);
            let path = text_or(input.at("path"@).text(), Seq::empty());
            let question = "grep: \""@ + pattern + "\""@;
            if path.len() == 0 {
                asks(question)
            } else {
                asks(question + " in "@ + path)
            }
        } else if tool_name == "WebFetch"@ {
            asks("fetch: "@ + text_or(input.at("url"@).text(), "?"@))
        } else {
            ResultView::Allow
        }
    }

    /// What is said of writes in default mode.
    pub open spec fn default_write(tool_name: Seq<char>, input: JsonView) -> ResultView {
        let path = text_or(input.at("file_path"@).text(), "?"@);
        if tool_name == "Bash"@ {
            asks("bash: "@ + shown(text_or(input.at("command"@).text(), Seq::empty())))
        } else if tool_name == "Write"@ {
            asks("write: "@ + path)
        } else if tool_name == "Edit"@ {
            let before = text_or(input.at("old_string"@).text(), Seq::empty());
            let after = text_or(input.at("new_string"@).text(), Seq::empty());
            ResultView::Ask {
                message: "edit: "@ + path,
                diff: if before.len() > 0 && after.len() > 0 {
                    Some(file_diff(before, after, path))
                } else {
                    None
                },
            }
        } else {
            asks(tool_name)
        }
    }

    /// What is said of an invocation.
    pub open spec fn verdict(
        self,
        tool_name: Seq<char>,
        input: JsonView,
        is_read_only: bool,
    ) -> ResultView {
        if self.remembered(tool_name, input) {
            ResultView::Allow
        } else {
            match self.mode {
                PermissionMode::Bypass => ResultView::Allow,
                PermissionMode::Plan => if is_read_only {
                    ResultView::Allow
                } else {
                    ResultView::Deny("Plan mode: write operations are disabled"@)
                },
                PermissionMode::AcceptEdits => if !is_read_only && tool_name == "Bash"@ {
                    asks(
                        "Allow bash: "@ + shown(
                            text_or(input.at("command"@).text(), Seq::empty()),
                        ) + "?"@,
                    )
                } else {
                    ResultView::Allow
                },
                PermissionMode::Default => if is_read_only {
                    CheckerView::default_read(tool_name, input)
                } else {
                    CheckerView::default_write(tool_name, input)
                },
            }
        }
    }

    /// Whether the question about an invocation shows a command that can be cut.
    pub open spec fn answerable(
        self,
        tool_name: Seq<char>,
        input: JsonView,
        is_read_only: bool,
    ) -> bool {
        let shows_command = !self.remembered(tool_name, input) && !is_read_only && tool_name
            == "Bash"@ && (self.mode == PermissionMode::AcceptEdits || self.mode
            == PermissionMode::Default);
        shows_command ==> showable(text_or(input.at("command"@).text(), Seq::empty()))
    }
}

fn list_has(list: &Vec<String>, item: &str) -> (r: bool)
    ensures
        r == texts(list@).to_set().contains(item@),
{
    let mut i: usize = 0;
    while i < list.len()
        invariant
            i <= list@.len(),
            forall|k: int| 0 <= k < i ==> (#[trigger] list@[k])@ != item@,
        decreases list.len() - i,
    {
        if text::same(list[i].as_str(), item) {
            assert(texts(list@)[i as int] == item@);
            assert(texts(list@).contains(item@));
            return true;
        }
        i = i + 1;
    }
    assert forall|k: int| 0 <= k < list@.len() implies texts(list@)[k] != item@ by {
        assert(list@[k]@ != item@);
    }
    false
}

fn list_add(list: &mut Vec<String>, item: &str)
    ensures
        texts(final(list)@).to_set() == texts(old(list)@).to_set().insert(item@),
{
    let ghost before = texts(list@);
    if list_has(list, item) {
        assert(before.to_set() =~= before.to_set().insert(item@));
    } else {
        list.push(item.to_owned());
        assert(texts(list@) =~= before.push(item@));
        assert forall|x: Seq<char>| texts(list@).to_set().contains(x)
            <==> before.to_set().insert(item@).contains(x) by {
            let after = before.push(item@);
            if after.contains(x) {
                let k = choose|k: int| 0 <= k < after.len() && after[k] == x;
                if k < before.len() {
                    assert(before[k] == x);
                    assert(before.contains(x));
                }
            }
            if before.contains(x) {
                let k = choose|k: int| 0 <= k < before.len() && before[k] == x;
                assert(after[k] == x);
            }
            assert(after[before.len() as int] == item@);
        }
        assert(texts(list@).to_set() =~= before.to_set().insert(item@));
    }
}

/// The first `max` bytes of a string, which must not end inside a character; a shorter
/// string as it is.
pub fn truncate(s: &str, max: usize) -> (r: &str)
    requires
        byte_len(s@) > max ==> is_char_boundary(encode_utf8(s@), max as int),
    ensures
        r@ == if byte_len(s@) <= max {
            s@
        } else {
            byte_slice(s@, 0, max as int)
        },
{
    if text::len_bytes(s) <= max {
        s
    } else {
        text::head(s, max)
    }
}

fn text_field<'a>(input: &'a Json, key: &str, other: &'a str) -> (r: &'a str)
    ensures
        r@ == text_or(input@.at(key@).text(), other@),
{
    match input.text_at(key) {
        Some(t) => t,
        None => other,
    }
}

fn ask(prefix: &str, rest: &str) -> (r: PermissionResult)
    ensures
        r@ == asks(prefix@ + rest@),
{
    let mut message = prefix.to_owned();
    message.append(rest);
    PermissionResult::Ask { message, diff: None }
}

impl PermissionChecker {
    /// A checker that remembers nothing yet.
    pub fn new(mode: PermissionMode) -> (r: PermissionChecker)
        ensures
            r@ == (CheckerView { mode, tools: Set::empty(), commands: Set::empty() }),
    {
        let r = PermissionChecker {
            mode,
            session_allows: Vec::new(),
            bash_command_allows: Vec::new(),
        };
        assert(texts(r.session_allows@).to_set() =~= Set::<Seq<char>>::empty());
        assert(texts(r.bash_command_allows@).to_set() =~= Set::<Seq<char>>::empty());
        r
    }

    /// Records that the user chose "always allow" for a tool.
    pub fn always_allow(&mut self, tool_name: &str)
        ensures
            final(self)@ == (CheckerView {
                tools: old(self)@.tools.insert(tool_name@),
                ..old(self)@
            }),
    {
        list_add(&mut self.session_allows, tool_name);
    }

    /// Records that the user chose "always allow" for a specific shell command.
    pub fn always_allow_command(&mut self, cmd: &str)
        ensures
            final(self)@ == (CheckerView {
                commands: old(self)@.commands.insert(cmd@),
                ..old(self)@
            }),
    {
        list_add(&mut self.bash_command_allows, cmd);
    }

    /// Whether a specific shell command is always allowed.
    pub fn is_command_allowed(&self, cmd: &str) -> (r: bool)
        ensures
            r == self@.commands.contains(cmd@),
    {
        list_has(&self.bash_command_allows, cmd)
    }

    /// Forgets what the user has always allowed.
    pub fn reset_session(&mut self)
        ensures
            final(self)@ == (CheckerView {
                mode: old(self)@.mode,
                tools: Set::empty(),
                commands: Set::empty(),
            }),
    {
        self.session_allows = Vec::new();
        self.bash_command_allows = Vec::new();
        assert(texts(self.session_allows@).to_set() =~= Set::<Seq<char>>::empty());
        assert(texts(self.bash_command_allows@).to_set() =~= Set::<Seq<char>>::empty());
    }

    fn remembers(&self, tool_name: &str, input: &Json) -> (r: bool)
        ensures
            r == self@.remembered(tool_name@, input@),
    {
        if list_has(&self.session_allows, tool_name) {
            return true;
        }
        if text::same(tool_name, "Bash") {
            match input.text_at("command") {
                Some(cmd) => list_has(&self.bash_command_allows, cmd),
                None => false,
            }
        } else {
            false
        }
    }

    /// Whether an invocation can be decided on. It cannot where its command would have to
    /// be cut inside a character.
    pub fn can_check(&self, tool_name: &str, input: &Json, is_read_only: bool) -> (r: bool)
        ensures
            r == self@.answerable(tool_name@, input@, is_read_only),
    {
        let asks_about_command = match self.mode {
            PermissionMode::AcceptEdits => true,
            PermissionMode::Default => true,
            _ => false,
        };
        if is_read_only || !asks_about_command || !text::same(tool_name, "Bash")
            || self.remembers(tool_name, input) {
            return true;
        }
        let command = text_field(input, "command", "");
        proof {
            reveal_strlit("");
            assert(""@ =~= Seq::empty());
        }
        text::len_bytes(command) <= SHOWN_COMMAND_BYTES || command.is_char_boundary(
            SHOWN_COMMAND_BYTES,
        )
    }

    fn check_default_read(tool_name: &str, input: &Json) -> (r: PermissionResult)
        ensures
            r@ == CheckerView::default_read(tool_name@, input@),
    {
        if text::same(tool_name, "Read") {
            ask("read: ", text_field(input, "file_path", "?"))
        } else if text::same(tool_name, "Grep") {
            proof {
                reveal_strlit("");
                assert(""@ =~= Seq::empty());
            }
            let pattern = text_field(input, "pattern", "?");
            let path = text_field(input, "path", "");
            let mut message = "grep: \"".to_owned();
            message.append(pattern);
            message.append("\"");
            if !path.is_empty() {
                message.append(" in ");
                message.append(path);
            }
            PermissionResult::Ask { message, diff: None }
        } else if text::same(tool_name, "WebFetch") {
            ask("fetch: ", text_field(input, "url", "?"))
        } else {
            PermissionResult::Allow
        }
    }

    fn check_default_write(tool_name: &str, input: &Json) -> (r: PermissionResult)
        requires
            tool_name@ == "Bash"@ ==> showable(
                text_or(input@.at("command"@).text(), Seq::empty()),
            ),
        ensures
            r@ == CheckerView::default_write(tool_name@, input@),
    {
        proof {
            reveal_strlit("");
            assert(""@ =~= Seq::empty());
        }
        if text::same(tool_name, "Bash") {
            ask("bash: ", truncate(text_field(input, "command", ""), SHOWN_COMMAND_BYTES))
        } else if text::same(tool_name, "Write") {
            ask("write: ", text_field(input, "file_path", "?"))
        } else if text::same(tool_name, "Edit") {
            let path = text_field(input, "file_path", "?");
            let before = text_field(input, "old_string", "");
            let after = text_field(input, "new_string", "");
            let diff = if !before.is_empty() && !after.is_empty() {
                Some(generate_diff(before, after, path))
            } else {
                None
            };
            let mut message = "edit: ".to_owned();
            message.append(path);
            PermissionResult::Ask { message, diff }
        } else {
            PermissionResult::Ask { message: tool_name.to_owned(), diff: None }
        }
    }

    /// Decides on a tool invocation.
    pub fn check(&self, tool_name: &str, input: &Json, is_read_only: bool) -> (r: PermissionResult)
        requires
            self@.answerable(tool_name@, input@, is_read_only),
        ensures
            r@ == self@.verdict(tool_name@, input@, is_read_only),
    {
        if self.remembers(tool_name, input) {
            return PermissionResult::Allow;
        }
        match self.mode {
            PermissionMode::Bypass => PermissionResult::Allow,
            PermissionMode::Plan => if is_read_only {
                PermissionResult::Allow
            } else {
                PermissionResult::Deny("Plan mode: write operations are disabled".to_owned())
            },
            PermissionMode::AcceptEdits => if !is_read_only && text::same(tool_name, "Bash") {
                proof {
                    reveal_strlit("");
                    assert(""@ =~= Seq::empty());
                }
                let mut message = "Allow bash: ".to_owned();
                message.append(truncate(text_field(input, "command", ""), SHOWN_COMMAND_BYTES));
                message.append("?");
                PermissionResult::Ask { message, diff: None }
            } else {
                PermissionResult::Allow
            },
            PermissionMode::Default => if is_read_only {
                Self::check_default_read(tool_name, input)
            } else {
                Self::check_default_write(tool_name, input)
            },
        }
    }
}

/// What has been allowed once stays allowed: after "always allow" for a tool every
/// invocation of it is allowed, whatever the mode, and no other verdict changes.
pub proof fn law_always_allow(
    checker: CheckerView,
    tool: Seq<char>,
    name: Seq<char>,
    input: JsonView,
    is_read_only: bool,
)
    ensures
        ({
            let after = CheckerView { tools: checker.tools.insert(tool), ..checker };
            after.verdict(name, input, is_read_only) == if name == tool {
                ResultView::Allow
            } else {
                checker.verdict(name, input, is_read_only)
            }
        }),
{
}

/// After "always allow" for a shell command that very command is allowed, and no other
/// verdict changes.
pub proof fn law_always_allow_command(
    checker: CheckerView,
    command: Seq<char>,
    name: Seq<char>,
    input: JsonView,
    is_read_only: bool,
)
    ensures
        ({
            let after = CheckerView { commands: checker.commands.insert(command), ..checker };
            after.verdict(name, input, is_read_only) == if command_of(name, input) == Some(
                command,
            ) {
                ResultView::Allow
            } else {
                checker.verdict(name, input, is_read_only)
            }
        }),
{
}

/// Bypass mode allows everything.
pub proof fn law_bypass(
    checker: CheckerView,
    name: Seq<char>,
    input: JsonView,
    is_read_only: bool,
)
    requires
        checker.mode == PermissionMode::Bypass,
    ensures
        checker.verdict(name, input, is_read_only) == ResultView::Allow,
{
}

/// Plan mode never asks: it allows what only reads or was always allowed, and denies
/// everything else.
pub proof fn law_plan(checker: CheckerView, name: Seq<char>, input: JsonView, is_read_only: bool)
    requires
        checker.mode == PermissionMode::Plan,
    ensures
        checker.verdict(name, input, is_read_only) is Allow <==> is_read_only
            || checker.remembered(name, input),
        checker.verdict(name, input, is_read_only) is Deny <==> !is_read_only
            && !checker.remembered(name, input),
{
}

/// Accept-edits mode allows reads and file edits, and asks about shell commands that were
/// not always allowed.
pub proof fn law_accept_edits(
    checker: CheckerView,
    name: Seq<char>,
    input: JsonView,
    is_read_only: bool,
)
    requires
        checker.mode == PermissionMode::AcceptEdits,
    ensures
        checker.verdict(name, input, is_read_only) is Allow <==> is_read_only || name != "Bash"@
            || checker.remembered(name, input),
        checker.verdict(name, input, is_read_only) is Ask <==> !is_read_only && name == "Bash"@
            && !checker.remembered(name, input),
{
}

/// Default mode asks before every write that was not always allowed, and denies nothing.
pub proof fn law_default_asks_before_writes(checker: CheckerView, name: Seq<char>, input: JsonView)
    requires
        checker.mode == PermissionMode::Default,
        !checker.remembered(name, input),
    ensures
        checker.verdict(name, input, false) is Ask,
        !(checker.verdict(name, input, true) is Deny),
{
}

/// What was allowed in one session does not hold in the next: after a reset, default mode
/// asks about every write again, accept-edits mode about every shell command, and plan mode
/// denies every write.
pub proof fn law_reset_forgets(checker: CheckerView, name: Seq<char>, input: JsonView)
    ensures
        ({
            let after = CheckerView { tools: Set::empty(), commands: Set::empty(), ..checker };
            &&& checker.mode == PermissionMode::Default ==> after.verdict(name, input, false) is Ask
            &&& checker.mode == PermissionMode::AcceptEdits ==> after.verdict(
                "Bash"@,
                input,
                false,
            ) is Ask
            &&& checker.mode == PermissionMode::Plan ==> after.verdict(name, input, false) is Deny
        }),
{
}

} // verus!
