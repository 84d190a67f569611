//! Slash commands: their table, parser, completion and help.

use vstd::prelude::*;
use vstd::string::{StrSliceExecFns, StringExecFns};
use crate::api::error::str_option;
use crate::api::types::text_option;
use crate::config::{BindingView, ModelBinding, ResolvedModel, ResolvedView};
use crate::cost::summary;
use crate::order::{at_most, text_le};
use crate::query::Engine;
use crate::text;
use crate::text::{
    ascii_lowered, decimal, is_ascii, lowercase, lowercased, occurs, occurs_at, padded,
    parts_around, trimmed,
};

verus! {

/// A slash command. The parser, the help and the completion all read one table of these.
pub struct CommandSpec {
    /// The canonical name, with the leading slash.
    pub name: &'static str,
    /// Other names that are accepted, but not offered for completion.
    pub aliases: Vec<&'static str>,
    pub summary: &'static str,
    /// What stands for the argument, where the command takes one.
    pub arg: Option<&'static str>,
    /// Whether only the full-screen interface has the command.
    pub tui_only: bool,
}

/// A slash command as a mathematical object.
pub struct SpecView {
    pub name: Seq<char>,
    pub aliases: Seq<Seq<char>>,
    pub summary: Seq<char>,
    pub arg: Option<Seq<char>>,
    pub tui_only: bool,
}

impl View for CommandSpec {
    type V = SpecView;

    open spec fn view(&self) -> SpecView {
        SpecView {
            name: self.name@,
            aliases: self.aliases@.map_values(|a: &'static str| a@),
            summary: self.summary@,
            arg: str_option(self.arg),
            tui_only: self.tui_only,
        }
    }
}

/// Several slash commands.
pub open spec fn spec_views(specs: Seq<CommandSpec>) -> Seq<SpecView> {
    specs.map_values(|c: CommandSpec| c@)
}

/// A slash command of the table.
pub open spec fn command(
    name: Seq<char>,
    aliases: Seq<Seq<char>>,
    summary: Seq<char>,
    arg: Option<Seq<char>>,
    tui_only: bool,
) -> SpecView {
    SpecView { name, aliases, summary, arg, tui_only }
}

/// Every slash command, in the order in which help and completion show them.
pub open spec fn command_table() -> Seq<SpecView> {
    seq![
        command("/help"@, Seq::empty(), "Show this help"@, None, false),
        command("/cost"@, Seq::empty(), "Show token usage and cost"@, None, false),
        command("/context"@, Seq::empty(), "Show context use and compaction threshold"@, None, false),
        command("/compact"@, Seq::empty(), "Summarize conversation to free context"@, None, false),
        command("/diff"@, Seq::empty(), "Show the last turn's file changes"@, None, false),
        command("/undo-turn"@, Seq::empty(), "Safely undo the last turn's file changes"@, None, false),
        command("/image"@, Seq::empty(), "Attach an image to the next prompt"@, Some("path"@), false),
        command("/model"@, Seq::empty(), "Show configured models or switch profile"@, Some("profile"@), false),
        command("/theme"@, Seq::empty(), "Show or switch theme (dark, light, ansi)"@, Some("name"@), false),
        command("/resume"@, Seq::empty(), "List or resume past sessions"@, Some("id"@), false),
        command("/clear"@, Seq::empty(), "Clear screen"@, None, false),
        command("/home"@, Seq::empty(), "Return to the session picker"@, None, true),
        command("/exit"@, seq!["/quit"@], "Exit claux"@, None, false),
    ]
}

fn add_command(
    table: &mut Vec<CommandSpec>,
    name: &'static str,
    alias: Option<&'static str>,
    summary: &'static str,
    arg: Option<&'static str>,
    tui_only: bool,
)
    ensures
        spec_views(final(table)@) == spec_views(old(table)@).push(
            command(
                name@,
                match alias {
                    Some(a) => seq![a@],
                    None => Seq::empty(),
                },
                summary@,
                str_option(arg),
                tui_only,
            ),
        ),
{
    let mut aliases: Vec<&'static str> = Vec::new();
    match alias {
        Some(a) => aliases.push(a),
        None => {},
    }
    let spec = CommandSpec { name, aliases, summary, arg, tui_only };
    assert(spec@.aliases =~= match alias {
        Some(a) => seq![a@],
        None => Seq::empty(),
    });
    table.push(spec);
    assert(spec_views(table@) =~= spec_views(old(table)@).push(spec@));
}

/// Every slash command, in the order in which help and completion show them.
pub fn commands() -> (r: Vec<CommandSpec>)
    ensures
        spec_views(r@) == command_table(),
{
    let mut table: Vec<CommandSpec> = Vec::new();
    add_command(&mut table, "/help", None, "Show this help", None, false);
    add_command(&mut table, "/cost", None, "Show token usage and cost", None, false);
    add_command(&mut table, "/context", None, "Show context use and compaction threshold", None, false);
    add_command(&mut table, "/compact", None, "Summarize conversation to free context", None, false);
    add_command(&mut table, "/diff", None, "Show the last turn's file changes", None, false);
    add_command(&mut table, "/undo-turn", None, "Safely undo the last turn's file changes", None, false);
    add_command(&mut table, "/image", None, "Attach an image to the next prompt", Some("path"), false);
    add_command(&mut table, "/model", None, "Show configured models or switch profile", Some("profile"), false);
    add_command(&mut table, "/theme", None, "Show or switch theme (dark, light, ansi)", Some("name"), false);
    add_command(&mut table, "/resume", None, "List or resume past sessions", Some("id"), false);
    add_command(&mut table, "/clear", None, "Clear screen", None, false);
    add_command(&mut table, "/home", None, "Return to the session picker", None, true);
    add_command(&mut table, "/exit", Some("/quit"), "Exit claux", None, false);
    assert(spec_views(table@) =~= command_table());
    table
}

impl SpecView {
    /// The form in which a command is shown: its name and what stands for its argument.
    pub open spec fn usage_text(self) -> Seq<char> {
        match self.arg {
            Some(arg) => self.name + " ["@ + arg + "]"@,
            None => self.name,
        }
    }

    /// Whether a word is the name of the command or another name for it.
    pub open spec fn is_named(self, token: Seq<char>) -> bool {
        self.name == token || self.aliases.contains(token)
    }
}

impl CommandSpec {
    /// The form in which a command is shown: its name and what stands for its argument.
    pub fn usage(&self) -> (r: String)
        ensures
            r@ == self@.usage_text(),
    {
        let mut out = self.name.to_owned();
        match self.arg {
            Some(arg) => {
                out.append(" [");
                out.append(arg);
                out.append("]");
            },
            None => {},
        }
        out
    }

    /// Whether a word is the beginning of the canonical name. Other names are parsed but
    /// not completed.
    pub fn completes(&self, token: &str) -> (r: bool)
        ensures
            r == token@.is_prefix_of(self@.name),
    {
        text::starts_with(self.name, token)
    }

    /// Whether a word is the name of the command or another name for it.
    pub fn matches(&self, token: &str) -> (r: bool)
        ensures
            r == self@.is_named(token@),
    {
        if text::same(self.name, token) {
            return true;
        }
        let mut i: usize = 0;
        while i < self.aliases.len()
            invariant
                i <= self.aliases@.len(),
                forall|k: int| 0 <= k < i ==> #[trigger] self@.aliases[k] != token@,
            decreases self.aliases.len() - i,
        {
            if text::same(self.aliases[i], token) {
                assert(self@.aliases[i as int] == token@);
                return true;
            }
            i = i + 1;
        }
        false
    }
}

/// Which interface is asking. Some commands exist in one of them only.
#[derive(Debug, Clone, Copy, PartialEq, Eq, Structural)]
pub enum Surface {
    Tui,
    Repl,
}

/// Whether an interface has a command.
pub open spec fn shown(surface: Surface, spec: SpecView) -> bool {
    !spec.tui_only || surface == Surface::Tui
}

impl Surface {
    /// Whether the interface has a command.
    pub fn shows(self, spec: &CommandSpec) -> (r: bool)
        ensures
            r == shown(self, spec@),
    {
        !spec.tui_only || self == Surface::Tui
    }
}

/// The commands of an interface that a word is the beginning of, in the order of the
/// table.
pub open spec fn completions(token: Seq<char>, surface: Surface) -> Seq<SpecView> {
    if "/"@.is_prefix_of(token) {
        command_table().filter(
            |c: SpecView| shown(surface, c) && token.is_prefix_of(c.name),
        )
    } else {
        Seq::empty()
    }
}

/// The commands of an interface that a word is the beginning of, in the order of the
/// table. A bare slash is the beginning of all of them.
pub fn complete(token: &str, surface: Surface) -> (r: Vec<CommandSpec>)
    ensures
        spec_views(r@) == completions(token@, surface),
{
    let mut out: Vec<CommandSpec> = Vec::new();
    if !text::starts_with(token, "/") {
        assert(spec_views(out@) =~= Seq::empty());
        return out;
    }
    let mut table = commands();
    let ghost all = command_table();
    let ghost keep = |c: SpecView| shown(surface, c) && token@.is_prefix_of(c.name);
    let n = table.len();
    let mut i: usize = 0;
    proof {
        reveal(Seq::filter);
    }
    assert(spec_views(out@) =~= all.take(0).filter(keep));
    while i < n
        invariant
            i <= n,
            n == all.len(),
            table@.len() == n - i,
            spec_views(table@) == all.skip(i as int),
            keep == (|c: SpecView| shown(surface, c) && token@.is_prefix_of(c.name)),
            spec_views(out@) == all.take(i as int).filter(keep),
        decreases n - i,
    {
        let ghost left = spec_views(table@);
        let spec = table.remove(0);
        proof {
            reveal(Seq::filter);
            assert(left[0] == spec@);
            assert(spec_views(table@) =~= left.skip(1));
            assert(left.skip(1) =~= all.skip(i + 1));
            assert(all.take(i + 1).drop_last() =~= all.take(i as int));
            assert(all.take(i + 1).last() == spec@);
        }
        if surface.shows(&spec) && spec.completes(token) {
            let ghost before = spec_views(out@);
            let ghost view = spec@;
            out.push(spec);
            assert(spec_views(out@) =~= before.push(view));
        }
        i = i + 1;
    }
    assert(all.take(n as int) =~= all);
    out
}

/// What a command comes to.
pub enum CommandResult {
    /// Text for the user.
    Text(String),
    /// The end of the program.
    Exit,
    /// Work that needs the conversation.
    Async(AsyncCommand),
}

/// Work that needs the conversation.
pub enum AsyncCommand {
    Compact,
    Diff,
    UndoTurn,
    Image(String),
    Resume(Option<String>),
    Model(Option<String>),
    Theme(Option<String>),
}

/// What a command comes to, as a mathematical object.
pub enum CommandView {
    Text(Seq<char>),
    Exit,
    Async(AsyncView),
}

/// Work that needs the conversation, as a mathematical object.
pub enum AsyncView {
    Compact,
    Diff,
    UndoTurn,
    Image(Seq<char>),
    Resume(Option<Seq<char>>),
    Model(Option<Seq<char>>),
    Theme(Option<Seq<char>>),
}

impl View for AsyncCommand {
    type V = AsyncView;

    open spec fn view(&self) -> AsyncView {
        match self {
            AsyncCommand::Compact => AsyncView::Compact,
            AsyncCommand::Diff => AsyncView::Diff,
            AsyncCommand::UndoTurn => AsyncView::UndoTurn,
            AsyncCommand::Image(path) => AsyncView::Image(path@),
            AsyncCommand::Resume(id) => AsyncView::Resume(text_option(*id)),
            AsyncCommand::Model(model) => AsyncView::Model(text_option(*model)),
            AsyncCommand::Theme(theme) => AsyncView::Theme(text_option(*theme)),
        }
    }
}

impl View for CommandResult {
    type V = CommandView;

    open spec fn view(&self) -> CommandView {
        match self {
            CommandResult::Text(t) => CommandView::Text(t@),
            CommandResult::Exit => CommandView::Exit,
            CommandResult::Async(c) => CommandView::Async(c@),
        }
    }
}

/// The canonical name that the first matching command of a table gives a word.
pub open spec fn canonical(table: Seq<SpecView>, token: Seq<char>) -> Seq<char>
    decreases table.len(),
{
    if table.len() == 0 {
        token
    } else if table[0].is_named(token) {
        table[0].name
    } else {
        canonical(table.drop_first(), token)
    }
}

/// The arguments of a command, where there are any.
pub open spec fn argument(args: Seq<char>) -> Option<Seq<char>> {
    if args.len() == 0 {
        None
    } else {
        Some(args)
    }
}

/// What a command of a canonical name comes to.
pub open spec fn dispatched(name: Seq<char>, args: Seq<char>, surface: Surface) -> CommandView {
    if name == "/home"@ {
        CommandView::Text("/home is only available in the full-screen TUI (claux --tui)."@)
    } else if name == "/help"@ {
        CommandView::Text(help(surface))
    } else if name == "/exit"@ {
        CommandView::Exit
    } else if name == "/clear"@ {
        CommandView::Text("\x1b[2J\x1b[H"@)
    } else if name == "/compact"@ {
        CommandView::Async(AsyncView::Compact)
    } else if name == "/context"@ {
        CommandView::Text("__context__"@)
    } else if name == "/diff"@ {
        CommandView::Async(AsyncView::Diff)
    } else if name == "/undo-turn"@ {
        CommandView::Async(AsyncView::UndoTurn)
    } else if name == "/image"@ {
        if args.len() == 0 {
            CommandView::Text("Usage: /image <path>"@)
        } else {
            CommandView::Async(AsyncView::Image(args))
        }
    } else if name == "/resume"@ {
        CommandView::Async(AsyncView::Resume(argument(args)))
    } else if name == "/model"@ {
        CommandView::Async(AsyncView::Model(argument(args)))
    } else if name == "/theme"@ {
        CommandView::Async(AsyncView::Theme(argument(args)))
    } else if name == "/cost"@ {
        CommandView::Text("__cost__"@)
    } else {
        unknown_command(name)
    }
}

/// The answer to a command that there is not.
pub open spec fn unknown_command(name: Seq<char>) -> CommandView {
    CommandView::Text(
        "Unknown command: "@ + name + ". Type /help for available commands."@,
    )
}

/// What an input line comes to as a command; nothing where it does not begin with a slash.
pub open spec fn parsed(input: Seq<char>, surface: Surface) -> Option<CommandView> {
    let line = trimmed(input);
    if !"/"@.is_prefix_of(line) {
        None
    } else {
        let (word, args) = match parts_around(line, " "@) {
            Some(parts) => (parts.0, trimmed(parts.1)),
            None => (line, Seq::<char>::empty()),
        };
        Some(dispatched(canonical(command_table(), word), args, surface))
    }
}

fn canonical_name(word: &str) -> (r: String)
    ensures
        r@ == canonical(command_table(), word@),
{
    let table = commands();
    let ghost all = command_table();
    let mut i: usize = 0;
    assert(all.skip(0) =~= all);
    while i < table.len()
        invariant
            i <= table@.len(),
            all == command_table(),
            spec_views(table@) == all,
            canonical(all.skip(i as int), word@) == canonical(all, word@),
        decreases table.len() - i,
    {
        assert(all.skip(i as int)[0] == table@[i as int]@);
        assert(all.skip(i as int).drop_first() =~= all.skip(i + 1));
        if table[i].matches(word) {
            return table[i].name.to_owned();
        }
        i = i + 1;
    }
    word.to_owned()
}

fn argument_of(args: &str) -> (r: Option<String>)
    ensures
        text_option(r) == argument(args@),
{
    if args.unicode_len() == 0 {
        None
    } else {
        Some(args.to_owned())
    }
}

fn dispatch(name: &str, args: &str, surface: Surface) -> (r: CommandResult)
    ensures
        r@ == dispatched(name@, args@, surface),
{
    if text::same(name, "/home") {
        CommandResult::Text(
            "/home is only available in the full-screen TUI (claux --tui).".to_owned(),
        )
    } else if text::same(name, "/help") {
        CommandResult::Text(help_text(surface))
    } else if text::same(name, "/exit") {
        CommandResult::Exit
    } else if text::same(name, "/clear") {
        CommandResult::Text("\x1b[2J\x1b[H".to_owned())
    } else if text::same(name, "/compact") {
        CommandResult::Async(AsyncCommand::Compact)
    } else if text::same(name, "/context") {
        CommandResult::Text("__context__".to_owned())
    } else if text::same(name, "/diff") {
        CommandResult::Async(AsyncCommand::Diff)
    } else if text::same(name, "/undo-turn") {
        CommandResult::Async(AsyncCommand::UndoTurn)
    } else if text::same(name, "/image") {
        if args.unicode_len() == 0 {
            CommandResult::Text("Usage: /image <path>".to_owned())
        } else {
            CommandResult::Async(AsyncCommand::Image(args.to_owned()))
        }
    } else if text::same(name, "/resume") {
        CommandResult::Async(AsyncCommand::Resume(argument_of(args)))
    } else if text::same(name, "/model") {
        CommandResult::Async(AsyncCommand::Model(argument_of(args)))
    } else if text::same(name, "/theme") {
        CommandResult::Async(AsyncCommand::Theme(argument_of(args)))
    } else if text::same(name, "/cost") {
        CommandResult::Text("__cost__".to_owned())
    } else {
        let mut reply = "Unknown command: ".to_owned();
        reply.append(name);
        reply.append(". Type /help for available commands.");
        CommandResult::Text(reply)
    }
}

/// What an input line comes to as a command; nothing where it is no command.
pub fn parse_command(input: &str, surface: Surface) -> (r: Option<CommandResult>)
    ensures
        parsed(input@, surface) == match r {
            Some(c) => Some(c@),
            None => None,
        },
{
    let line = text::trim(input);
    if !text::starts_with(line, "/") {
        return None;
    }
    match text::split_once(line, " ") {
        Some(parts) => {
            let (word, rest) = parts;
            let name = canonical_name(word.as_str());
            Some(dispatch(name.as_str(), text::trim(rest.as_str()), surface))
        },
        None => {
            let name = canonical_name(line);
            proof {
                reveal_strlit("");
                assert(""@ =~= Seq::empty());
            }
            Some(dispatch(name.as_str(), "", surface))
        },
    }
}

/// The commands that an interface has.
pub open spec fn visible(surface: Surface) -> Seq<SpecView> {
    command_table().filter(|c: SpecView| shown(surface, c))
}

/// The width of the widest form of commands.
pub open spec fn usage_width(specs: Seq<SpecView>) -> nat
    decreases specs.len(),
{
    if specs.len() == 0 {
        0
    } else {
        let before = usage_width(specs.drop_last());
        let last = specs.last().usage_text().len();
        if last > before {
            last
        } else {
            before
        }
    }
}

/// The line of help on a command.
pub open spec fn help_line(spec: SpecView, width: nat) -> Seq<char> {
    "  "@ + padded(spec.usage_text(), width) + "  "@ + spec.summary + "\n"@
}

/// The lines of help on commands, behind what stands before them.
pub open spec fn help_lines(start: Seq<char>, specs: Seq<SpecView>, width: nat) -> Seq<char>
    decreases specs.len(),
{
    if specs.len() == 0 {
        start
    } else {
        help_lines(start, specs.drop_last(), width) + help_line(specs.last(), width)
    }
}

/// The help of an interface: the commands that it has, with their summaries, and its keys.
pub open spec fn help(surface: Surface) -> Seq<char> {
    let specs = visible(surface);
    help_lines("Available commands:\n"@, specs, usage_width(specs))
        + "\nKeyboard:\n  Tab       Accept completion\n  Ctrl+C    Cancel current request\n  Ctrl+D    Exit"@
}

/// The help of an interface.
pub fn help_text(surface: Surface) -> (r: String)
    ensures
        r@ == help(surface),
{
    let specs = visible_commands(surface);
    let ghost all = spec_views(specs@);
    let mut width: usize = 0;
    let mut i: usize = 0;
    while i < specs.len()
        invariant
            i <= specs@.len(),
            all == spec_views(specs@),
            width == usage_width(all.take(i as int)),
        decreases specs.len() - i,
    {
        let usage = specs[i].usage();
        let len = usage.as_str().unicode_len();
        assert(all.take(i + 1).drop_last() =~= all.take(i as int));
        if len > width {
            width = len;
        }
        i = i + 1;
    }
    assert(all.take(specs@.len() as int) =~= all);
    let mut out = "Available commands:\n".to_owned();
    let ghost start = out@;
    i = 0;
    while i < specs.len()
        invariant
            i <= specs@.len(),
            all == spec_views(specs@),
            start == "Available commands:\n"@,
            out@ == help_lines(start, all.take(i as int), width as nat),
        decreases specs.len() - i,
    {
        let usage = specs[i].usage();
        let ghost before = out@;
        assert(all.take(i + 1).drop_last() =~= all.take(i as int));
        out.append("  ");
        text::push_padded(&mut out, usage.as_str(), width);
        out.append("  ");
        out.append(specs[i].summary);
        out.append("\n");
        assert(out@ =~= before + help_line(specs@[i as int]@, width as nat));
        i = i + 1;
    }
    assert(all.take(specs@.len() as int) =~= all);
    out.append(
        "\nKeyboard:\n  Tab       Accept completion\n  Ctrl+C    Cancel current request\n  Ctrl+D    Exit",
    );
    out
}

fn visible_commands(surface: Surface) -> (r: Vec<CommandSpec>)
    ensures
        spec_views(r@) == visible(surface),
{
    proof {
        reveal_strlit("/");
        let all = command_table();
        let keep = |c: SpecView| shown(surface, c) && "/"@.is_prefix_of(c.name);
        let shown_only = |c: SpecView| shown(surface, c);
        lemma_names_begin_with_slash();
        lemma_same_filter(all, keep, shown_only);
        assert("/"@.is_prefix_of("/"@));
    }
    complete("/", surface)
}

proof fn lemma_same_filter(
    s: Seq<SpecView>,
    p: spec_fn(SpecView) -> bool,
    q: spec_fn(SpecView) -> bool,
)
    requires
        forall|i: int| 0 <= i < s.len() ==> p(#[trigger] s[i]) == q(s[i]),
    ensures
        s.filter(p) == s.filter(q),
    decreases s.len(),
{
    reveal(Seq::filter);
    if s.len() > 0 {
        assert forall|i: int| 0 <= i < s.drop_last().len() implies p(#[trigger] s.drop_last()[i])
            == q(s.drop_last()[i]) by {
            assert(s.drop_last()[i] == s[i]);
        }
        lemma_same_filter(s.drop_last(), p, q);
        assert(p(s[s.len() - 1]) == q(s[s.len() - 1]));
    }
}

proof fn lemma_names_begin_with_slash()
    ensures
        forall|i: int|
            0 <= i < command_table().len() ==> "/"@.is_prefix_of(
                (#[trigger] command_table()[i]).name,
            ),
{
    lemma_name_literals();
}

proof fn lemma_name_literals()
    ensures
        "/"@ == seq!['/'],
        "/help"@.len() == 5,
        "/help"@[0] == '/',
        "/help"@[1] == 'h',
        "/help"@[2] == 'e',
        "/cost"@.len() == 5,
        "/cost"@[0] == '/',
        "/cost"@[1] == 'c',
        "/context"@.len() == 8,
        "/context"@[0] == '/',
        "/context"@[4] == 't',
        "/compact"@.len() == 8,
        "/compact"@[0] == '/',
        "/compact"@[4] == 'p',
        "/diff"@.len() == 5,
        "/diff"@[0] == '/',
        "/diff"@[1] == 'd',
        "/undo-turn"@.len() == 10,
        "/undo-turn"@[0] == '/',
        "/image"@.len() == 6,
        "/image"@[0] == '/',
        "/image"@[1] == 'i',
        "/model"@.len() == 6,
        "/model"@[0] == '/',
        "/model"@[1] == 'm',
        "/theme"@.len() == 6,
        "/theme"@[0] == '/',
        "/theme"@[1] == 't',
        "/resume"@.len() == 7,
        "/resume"@[0] == '/',
        "/clear"@.len() == 6,
        "/clear"@[0] == '/',
        "/clear"@[1] == 'c',
        "/home"@.len() == 5,
        "/home"@[0] == '/',
        "/home"@[1] == 'h',
        "/home"@[2] == 'o',
        "/exit"@.len() == 5,
        "/exit"@[0] == '/',
        "/exit"@[1] == 'e',
        "/quit"@.len() == 5,
        "/quit"@[0] == '/',
        "/quit"@[1] == 'q',
{
    reveal_strlit("/");
    reveal_strlit("/help");
    reveal_strlit("/cost");
    reveal_strlit("/context");
    reveal_strlit("/compact");
    reveal_strlit("/diff");
    reveal_strlit("/undo-turn");
    reveal_strlit("/image");
    reveal_strlit("/model");
    reveal_strlit("/theme");
    reveal_strlit("/resume");
    reveal_strlit("/clear");
    reveal_strlit("/home");
    reveal_strlit("/exit");
    reveal_strlit("/quit");
    assert("/"@ =~= seq!['/']);
}

/// Every command of the table is one that the parser knows: its canonical name stands for
/// itself, and it is not answered as a command that there is not.
pub proof fn law_listed_commands_are_known(i: int, args: Seq<char>, surface: Surface)
    requires
        0 <= i < command_table().len(),
    ensures
        canonical(command_table(), command_table()[i].name) == command_table()[i].name,
        dispatched(command_table()[i].name, args, surface) != unknown_command(
            command_table()[i].name,
        ),
{
    lemma_name_literals();
    reveal_with_fuel(canonical, 15);
    let name = command_table()[i].name;
    reveal_strlit("Unknown command: ");
    reveal_strlit("/home is only available in the full-screen TUI (claux --tui).");
    reveal_strlit("\x1b[2J\x1b[H");
    reveal_strlit("__context__");
    reveal_strlit("__cost__");
    reveal_strlit("Usage: /image <path>");
    let reply = "Unknown command: "@ + name + ". Type /help for available commands."@;
    assert(reply[0] == 'U' && reply[1] == 'n');
    assert("/home is only available in the full-screen TUI (claux --tui)."@[0] == '/');
    assert("\x1b[2J\x1b[H"@[0] == '\x1b');
    assert("__context__"@[0] == '_');
    assert("__cost__"@[0] == '_');
    assert("Usage: /image <path>"@[1] == 's');
    let specs = visible(surface);
    let width = usage_width(specs);
    reveal_strlit("Available commands:\n");
    lemma_help_begins("Available commands:\n"@, specs, width);
    let start = "Available commands:\n"@;
    assert(start[0] == 'A');
    assert(help_lines(start, specs, width).subrange(0, start.len() as int)[0] == 'A');
}

proof fn lemma_help_begins(start: Seq<char>, specs: Seq<SpecView>, width: nat)
    ensures
        start.is_prefix_of(help_lines(start, specs, width)),
    decreases specs.len(),
{
    if specs.len() > 0 {
        lemma_help_begins(start, specs.drop_last(), width);
    }
}

/// The other name of a command is resolved to its canonical one.
pub proof fn law_alias_resolves(args: Seq<char>, surface: Surface)
    ensures
        canonical(command_table(), "/quit"@) == "/exit"@,
        dispatched(canonical(command_table(), "/quit"@), args, surface) == CommandView::Exit,
{
    lemma_name_literals();
    assert(command_table()[12].aliases[0] == "/quit"@);
    lemma_no_other_alias();
    reveal_with_fuel(canonical, 15);
}

proof fn lemma_no_other_alias()
    ensures
        forall|i: int| 0 <= i < 12 ==> (#[trigger] command_table()[i]).aliases.len() == 0,
{
}

/// A completion is offered for a command of the table that the interface has and that the
/// word is the beginning of; no other command is offered, so the line-based interface
/// never offers one that only the full-screen interface has.
pub proof fn law_completions(token: Seq<char>, surface: Surface, spec: SpecView)
    requires
        "/"@.is_prefix_of(token),
    ensures
        completions(token, surface).contains(spec) <==> command_table().contains(spec) && shown(
            surface,
            spec,
        ) && token.is_prefix_of(spec.name),
{
    let keep = |c: SpecView| shown(surface, c) && token.is_prefix_of(c.name);
    lemma_filter_contains(command_table(), keep, spec);
}

proof fn lemma_filter_contains(s: Seq<SpecView>, p: spec_fn(SpecView) -> bool, x: SpecView)
    ensures
        s.filter(p).contains(x) <==> s.contains(x) && p(x),
    decreases s.len(),
{
    reveal(Seq::filter);
    if s.len() > 0 {
        let init = s.drop_last();
        lemma_filter_contains(init, p, x);
        let before = init.filter(p);
        let after = s.filter(p);
        assert(s.contains(x) <==> init.contains(x) || x == s.last()) by {
            if init.contains(x) {
                let k = choose|k: int| 0 <= k < init.len() && init[k] == x;
                assert(s[k] == x);
            }
            if s.contains(x) {
                let k = choose|k: int| 0 <= k < s.len() && s[k] == x;
                if k < init.len() {
                    assert(init[k] == x);
                }
            }
            assert(s[s.len() - 1] == s.last());
        }
        if p(s.last()) {
            if after.contains(x) {
                let k = choose|k: int| 0 <= k < after.len() && after[k] == x;
                if k < before.len() {
                    assert(before[k] == x);
                }
            }
            if before.contains(x) {
                let k = choose|k: int| 0 <= k < before.len() && before[k] == x;
                assert(after[k] == x);
            }
            assert(after[after.len() - 1] == s.last());
        }
    } else {
        assert(s.filter(p) =~= Seq::empty());
    }
}

/// The help of an interface lists every command that it has, and no other.
pub proof fn law_help_lists_commands(i: int, surface: Surface)
    requires
        0 <= i < command_table().len(),
    ensures
        occurs(command_table()[i].name, help(surface)) <==> shown(surface, command_table()[i]),
{
    let spec = command_table()[i];
    let specs = visible(surface);
    let width = usage_width(specs);
    let start = "Available commands:\n"@;
    let keys = "\nKeyboard:\n  Tab       Accept completion\n  Ctrl+C    Cancel current request\n  Ctrl+D    Exit"@;
    lemma_filter_contains(command_table(), |c: SpecView| shown(surface, c), spec);
    assert(command_table().contains(spec));
    if shown(surface, spec) {
        let k = choose|k: int| 0 <= k < specs.len() && specs[k] == spec;
        lemma_line_listed(start, specs, width, k);
        lemma_occurs_before(spec.name, help_lines(start, specs, width), keys);
    } else {
        assert(spec.name == "/home"@);
        assert forall|k: int| 0 <= k < specs.len() implies without_home(
            (#[trigger] specs[k]).usage_text(),
        ) && without_home(specs[k].summary) by {
            lemma_filter_contains(
                command_table(),
                |c: SpecView| shown(surface, c),
                specs[k],
            );
            assert(specs.contains(specs[k]));
            let j = choose|j: int| 0 <= j < command_table().len() && command_table()[j] == specs[k];
            lemma_others_without_home(j);
        }
        lemma_ends_without_home();
        lemma_lines_without_home(start, specs, width);
        lemma_home_absent(help(surface));
    }
}

/// Whether every slash in a text is followed, in the text, by what does not begin like
/// `home`.
spec fn without_home(s: Seq<char>) -> bool {
    forall|i: int|
        0 <= i < s.len() && #[trigger] s[i] == '/' ==> i + 2 < s.len() && !(s[i + 1] == 'h' && s[i
            + 2] == 'o')
}

proof fn lemma_home_absent(s: Seq<char>)
    requires
        without_home(s),
    ensures
        !occurs("/home"@, s),
{
    reveal_strlit("/home");
    if occurs("/home"@, s) {
        let k = choose|k: int| occurs_at("/home"@, s, k);
        let found = s.subrange(k, k + 5);
        assert(found == "/home"@);
        assert(s[k] == found[0]);
        assert(s[k + 1] == found[1]);
        assert(s[k + 2] == found[2]);
    }
}

proof fn lemma_without_home_concat(a: Seq<char>, b: Seq<char>)
    requires
        without_home(a),
        without_home(b),
    ensures
        without_home(a + b),
{
    let s = a + b;
    assert forall|i: int| 0 <= i < s.len() && #[trigger] s[i] == '/' implies i + 2 < s.len() && !(
    s[i + 1] == 'h' && s[i + 2] == 'o') by {
        if i < a.len() {
            assert(a[i] == '/');
            assert(s[i + 1] == a[i + 1] && s[i + 2] == a[i + 2]);
        } else {
            assert(b[i - a.len()] == '/');
            assert(s[i + 1] == b[i - a.len() + 1] && s[i + 2] == b[i - a.len() + 2]);
        }
    }
}

proof fn lemma_ends_without_home()
    ensures
        without_home("Available commands:\n"@),
        without_home(
            "\nKeyboard:\n  Tab       Accept completion\n  Ctrl+C    Cancel current request\n  Ctrl+D    Exit"@,
        ),
        without_home("  "@),
        without_home("\n"@),
{
    reveal_strlit("Available commands:\n");
    reveal_strlit(
        "\nKeyboard:\n  Tab       Accept completion\n  Ctrl+C    Cancel current request\n  Ctrl+D    Exit",
    );
    reveal_strlit("  ");
    reveal_strlit("\n");
}

proof fn lemma_others_without_home(j: int)
    requires
        0 <= j < command_table().len(),
        !command_table()[j].tui_only,
    ensures
        without_home(command_table()[j].usage_text()),
        without_home(command_table()[j].summary),
{
    reveal_strlit("/help");
    reveal_strlit("/cost");
    reveal_strlit("/context");
    reveal_strlit("/compact");
    reveal_strlit("/diff");
    reveal_strlit("/undo-turn");
    reveal_strlit("/image");
    reveal_strlit("/model");
    reveal_strlit("/theme");
    reveal_strlit("/resume");
    reveal_strlit("/clear");
    reveal_strlit("/exit");
    reveal_strlit(" [");
    reveal_strlit("]");
    reveal_strlit("path");
    reveal_strlit("profile");
    reveal_strlit("name");
    reveal_strlit("id");
    let spec = command_table()[j];
    assert(without_home(spec.name));
    assert(without_home(" ["@));
    assert(without_home("]"@));
    if let Some(arg) = spec.arg {
        assert(without_home(arg));
        lemma_without_home_concat(spec.name, " ["@);
        lemma_without_home_concat(spec.name + " ["@, arg);
        lemma_without_home_concat(spec.name + " ["@ + arg, "]"@);
    }
    lemma_summary_without_home(j);
}

proof fn lemma_summary_without_home(j: int)
    requires
        0 <= j < command_table().len(),
    ensures
        without_home(command_table()[j].summary),
{
    reveal_strlit("Show this help");
    reveal_strlit("Show token usage and cost");
    reveal_strlit("Show context use and compaction threshold");
    reveal_strlit("Summarize conversation to free context");
    reveal_strlit("Show the last turn's file changes");
    reveal_strlit("Safely undo the last turn's file changes");
    reveal_strlit("Attach an image to the next prompt");
    reveal_strlit("Show configured models or switch profile");
    reveal_strlit("Show or switch theme (dark, light, ansi)");
    reveal_strlit("List or resume past sessions");
    reveal_strlit("Clear screen");
    reveal_strlit("Return to the session picker");
    reveal_strlit("Exit claux");
}

proof fn lemma_lines_without_home(start: Seq<char>, specs: Seq<SpecView>, width: nat)
    requires
        without_home(start),
        forall|k: int|
            0 <= k < specs.len() ==> without_home((#[trigger] specs[k]).usage_text())
                && without_home(specs[k].summary),
    ensures
        without_home(help_lines(start, specs, width)),
    decreases specs.len(),
{
    if specs.len() > 0 {
        let init = specs.drop_last();
        assert forall|k: int| 0 <= k < init.len() implies without_home(
            (#[trigger] init[k]).usage_text(),
        ) && without_home(init[k].summary) by {
            assert(init[k] == specs[k]);
        }
        lemma_lines_without_home(start, init, width);
        let spec = specs[specs.len() - 1];
        let usage = padded(spec.usage_text(), width);
        lemma_ends_without_home();
        if spec.usage_text().len() < width {
            let gap = text::spaces((width - spec.usage_text().len()) as nat);
            assert(without_home(gap));
            lemma_without_home_concat(spec.usage_text(), gap);
        }
        assert(without_home(usage));
        lemma_without_home_concat("  "@, usage);
        lemma_without_home_concat("  "@ + usage, "  "@);
        lemma_without_home_concat("  "@ + usage + "  "@, spec.summary);
        lemma_without_home_concat("  "@ + usage + "  "@ + spec.summary, "\n"@);
        lemma_without_home_concat(help_lines(start, init, width), help_line(spec, width));
    }
}

proof fn lemma_line_listed(start: Seq<char>, specs: Seq<SpecView>, width: nat, k: int)
    requires
        0 <= k < specs.len(),
    ensures
        occurs(specs[k].name, help_lines(start, specs, width)),
    decreases specs.len(),
{
    let name = specs[k].name;
    let before = help_lines(start, specs.drop_last(), width);
    let line = help_line(specs.last(), width);
    if k < specs.len() - 1 {
        lemma_line_listed(start, specs.drop_last(), width, k);
        lemma_occurs_before(name, before, line);
    } else {
        reveal_strlit("  ");
        let usage = padded(specs[k].usage_text(), width);
        assert(name.is_prefix_of(usage));
        assert(occurs_at(name, before + line, (before.len() + 2) as int)) by {
            assert((before + line).subrange(
                (before.len() + 2) as int,
                (before.len() + 2 + name.len()) as int,
            ) =~= name);
        }
    }
}

proof fn lemma_occurs_before(name: Seq<char>, a: Seq<char>, b: Seq<char>)
    requires
        occurs(name, a),
    ensures
        occurs(name, a + b),
{
    let k = choose|k: int| occurs_at(name, a, k);
    assert((a + b).subrange(k, k + name.len()) =~= a.subrange(k, k + name.len()));
    assert(occurs_at(name, a + b, k));
}

/// What a model is listed by: its provider and its name, without regard to case.
pub open spec fn choice_key(m: ResolvedView) -> (Seq<char>, Seq<char>) {
    (ascii_lowered(m.binding.provider_name), ascii_lowered(m.binding.display_name))
}

/// Whether one model may be listed before another.
pub open spec fn listed_before(a: ResolvedView, b: ResolvedView) -> bool {
    let (p, d) = choice_key(a);
    let (q, e) = choice_key(b);
    if p == q {
        text_le(d, e)
    } else {
        text_le(p, q)
    }
}

/// Models in order with one more, which comes behind those that may be listed before it.
pub open spec fn placed(models: Seq<ResolvedView>, m: ResolvedView) -> Seq<ResolvedView>
    decreases models.len(),
{
    if models.len() == 0 {
        seq![m]
    } else if listed_before(models.last(), m) {
        models.push(m)
    } else {
        placed(models.drop_last(), m).push(models.last())
    }
}

/// Models by provider and name; those that are alike keep their order.
pub open spec fn listing_order(models: Seq<ResolvedView>) -> Seq<ResolvedView>
    decreases models.len(),
{
    if models.len() == 0 {
        Seq::empty()
    } else {
        placed(listing_order(models.drop_last()), models.last())
    }
}

/// The line of a model, behind a heading where one is needed.
pub open spec fn model_line(heading: bool, marked: bool, b: BindingView) -> Seq<char> {
    let start = if heading {
        "\n\n"@ + b.provider_name + ":"@
    } else {
        Seq::empty()
    };
    let marker = if marked {
        " *"@
    } else {
        ""@
    };
    start + "\n  "@ + b.profile + marker + " — "@ + b.display_name + " ("@ + b.model + ")"@
}

/// The line of a model, behind a heading where its provider is another than that before;
/// the current model is marked.
pub open spec fn choice_line(
    provider: Option<Seq<char>>,
    current: Option<BindingView>,
    m: ResolvedView,
) -> Seq<char> {
    model_line(
        provider != Some(m.binding.provider_name),
        current == Some(m.binding),
        m.binding,
    )
}

/// The lines of models in order.
pub open spec fn choice_lines(current: Option<BindingView>, models: Seq<ResolvedView>) -> Seq<char>
    decreases models.len(),
{
    if models.len() == 0 {
        "Configured models:"@
    } else {
        let before = models.drop_last();
        let provider = if before.len() == 0 {
            None
        } else {
            Some(before.last().binding.provider_name)
        };
        choice_lines(current, before) + choice_line(provider, current, models.last())
    }
}

/// A list of the configured models under their providers, the current one marked.
pub open spec fn model_choices(current: Option<BindingView>, models: Seq<ResolvedView>) -> Seq<char> {
    choice_lines(current, listing_order(models)) + "\n\nUse /model <profile> to switch."@
}

fn may_be_listed_before(a: &ResolvedModel, b: &ResolvedModel) -> (r: bool)
    ensures
        r == listed_before(a@, b@),
{
    let p = text::to_ascii_lowercase(a.binding.provider_name.as_str());
    let q = text::to_ascii_lowercase(b.binding.provider_name.as_str());
    if text::same(p.as_str(), q.as_str()) {
        let d = text::to_ascii_lowercase(a.binding.display_name.as_str());
        let e = text::to_ascii_lowercase(b.binding.display_name.as_str());
        at_most(d.as_str(), e.as_str())
    } else {
        at_most(p.as_str(), q.as_str())
    }
}

/// The models at some places.
pub open spec fn models_at(models: Seq<ResolvedModel>, places: Seq<usize>) -> Seq<ResolvedView> {
    places.map_values(|k: usize| models[k as int]@)
}

proof fn lemma_placed_at(models: Seq<ResolvedView>, m: ResolvedView, at: int)
    requires
        0 <= at <= models.len(),
        at > 0 ==> listed_before(models[at - 1], m),
        forall|k: int| at <= k < models.len() ==> !listed_before(#[trigger] models[k], m),
    ensures
        placed(models, m) == models.insert(at, m),
    decreases models.len() - at,
{
    if at < models.len() {
        let init = models.drop_last();
        assert(!listed_before(models[models.len() - 1], m));
        assert forall|k: int| at <= k < init.len() implies !listed_before(#[trigger] init[k], m) by {
            assert(init[k] == models[k]);
        }
        lemma_placed_at(init, m, at);
        assert(models.insert(at, m) =~= init.insert(at, m).push(models.last()));
    } else {
        if at == 0 {
            assert(models.insert(0, m) =~= seq![m]);
        } else {
            assert(models.insert(at, m) =~= models.push(m));
        }
    }
}

fn order_models(models: &[ResolvedModel]) -> (r: Vec<usize>)
    ensures
        forall|k: int| 0 <= k < r@.len() ==> #[trigger] r@[k] < models@.len(),
        models_at(models@, r@) == listing_order(crate::config::resolved_views(models@)),
{
    let ghost all = crate::config::resolved_views(models@);
    let mut out: Vec<usize> = Vec::new();
    assert(models_at(models@, out@) =~= listing_order(all.take(0)));
    let mut i: usize = 0;
    while i < models.len()
        invariant
            i <= models@.len(),
            all == crate::config::resolved_views(models@),
            forall|k: int| 0 <= k < out@.len() ==> #[trigger] out@[k] < models@.len(),
            models_at(models@, out@) == listing_order(all.take(i as int)),
        decreases models.len() - i,
    {
        let ghost before = models_at(models@, out@);
        let ghost m = models@[i as int]@;
        let mut at: usize = out.len();
        while at > 0 && !may_be_listed_before(&models[out[at - 1]], &models[i])
            invariant
                at <= out@.len(),
                i < models@.len(),
                m == models@[i as int]@,
                forall|k: int| 0 <= k < out@.len() ==> #[trigger] out@[k] < models@.len(),
                before == models_at(models@, out@),
                forall|k: int| at <= k < before.len() ==> !listed_before(#[trigger] before[k], m),
            decreases at,
        {
            assert(before[at - 1] == models@[out@[at - 1] as int]@);
            at = at - 1;
        }
        proof {
            if at > 0 {
                assert(before[at - 1] == models@[out@[at - 1] as int]@);
            }
            lemma_placed_at(before, m, at as int);
            assert(all.take(i + 1).drop_last() =~= all.take(i as int));
            assert(all.take(i + 1).last() == m);
        }
        out.insert(at, i);
        assert(models_at(models@, out@) =~= before.insert(at as int, m));
        i = i + 1;
    }
    assert(all.take(models@.len() as int) =~= all);
    out
}

fn same_option(a: &Option<String>, b: &Option<String>) -> (r: bool)
    ensures
        r == (text_option(*a) == text_option(*b)),
{
    match (a, b) {
        (Some(x), Some(y)) => text::same(x.as_str(), y.as_str()),
        (None, None) => true,
        _ => false,
    }
}

/// Whether two bindings are equal.
pub fn same_binding(a: &ModelBinding, b: &ModelBinding) -> (r: bool)
    ensures
        r == (a@ == b@),
{
    text::same(a.profile.as_str(), b.profile.as_str()) && text::same(
        a.display_name.as_str(),
        b.display_name.as_str(),
    ) && text::same(a.provider.as_str(), b.provider.as_str()) && a.provider_kind == b.provider_kind
        && text::same(a.provider_name.as_str(), b.provider_name.as_str()) && text::same(
        a.model.as_str(),
        b.model.as_str(),
    ) && same_option(&a.base_url, &b.base_url) && a.protocol == b.protocol && text::same(
        a.api_key_env.as_str(),
        b.api_key_env.as_str(),
    ) && same_option(&a.reasoning_effort, &b.reasoning_effort) && a.prompt_caching
        == b.prompt_caching && a.allow_eof_without_finish_reason
        == b.allow_eof_without_finish_reason
}

fn push_model_line(out: &mut String, heading: bool, marked: bool, b: &ModelBinding)
    ensures
        final(out)@ == old(out)@ + model_line(heading, marked, b@),
{
    let mut line = String::new();
    if heading {
        line = "\n\n".to_owned();
        line.append(b.provider_name.as_str());
        line.append(":");
    }
    let marker = if marked {
        " *"
    } else {
        ""
    };
    line.append("\n  ");
    line.append(b.profile.as_str());
    line.append(marker);
    line.append(" — ");
    line.append(b.display_name.as_str());
    line.append(" (");
    line.append(b.model.as_str());
    line.append(")");
    out.append(line.as_str());
}

/// A list of the configured models under their providers, the current one marked.
pub fn format_model_choices(current: Option<&ModelBinding>, models: &[ResolvedModel]) -> (r: String)
    ensures
        r@ == model_choices(
            match current {
                Some(b) => Some(b@),
                None => None,
            },
            crate::config::resolved_views(models@),
        ),
{
    let order = order_models(models);
    let ghost all = models_at(models@, order@);
    let ghost here = match current {
        Some(b) => Some(b@),
        None => None,
    };
    let mut out = "Configured models:".to_owned();
    assert(all.take(0) =~= Seq::empty());
    let mut i: usize = 0;
    while i < order.len()
        invariant
            i <= order@.len(),
            all == models_at(models@, order@),
            forall|k: int| 0 <= k < order@.len() ==> #[trigger] order@[k] < models@.len(),
            here == (match current {
                Some(b) => Some(b@),
                None => None,
            }),
            out@ == choice_lines(here, all.take(i as int)),
        decreases order.len() - i,
    {
        let binding = &models[order[i]].binding;
        let ghost before = out@;
        let ghost init = all.take(i as int);
        let ghost provider = if init.len() == 0 {
            None
        } else {
            Some(init.last().binding.provider_name)
        };
        let same_provider = i > 0 && text::same(
            models[order[i - 1]].binding.provider_name.as_str(),
            binding.provider_name.as_str(),
        );
        assert(all.take(i + 1).drop_last() =~= init);
        assert(all[i as int] == models@[order@[i as int] as int]@);
        if i > 0 {
            assert(init.last() == models@[order@[i - 1] as int]@);
        }
        let marked = match current {
            Some(b) => same_binding(b, binding),
            None => false,
        };
        push_model_line(&mut out, !same_provider, marked, binding);
        assert(out@ == before + choice_line(provider, here, all[i as int]));
        i = i + 1;
    }
    assert(all.take(order@.len() as int) =~= all);
    out.append("\n\nUse /model <profile> to switch.");
    out
}

/// The list of models holds each configured model once and goes by provider and name.
pub proof fn law_models_listed_in_order(models: Seq<ResolvedView>)
    ensures
        listing_order(models).to_multiset() == models.to_multiset(),
        forall|i: int, j: int|
            0 <= i < j < models.len() ==> listed_before(
                #[trigger] listing_order(models)[i],
                #[trigger] listing_order(models)[j],
            ),
        listing_order(models).len() == models.len(),
    decreases models.len(),
{
    broadcast use vstd::seq_lib::group_to_multiset_ensures;

    if models.len() > 0 {
        let init = models.drop_last();
        law_models_listed_in_order(init);
        assert(models =~= init.push(models.last()));
        lemma_placed_in_order(listing_order(init), models.last());
    } else {
        assert(models =~= listing_order(models));
    }
}

/// The list of models does not depend on the order in which they are configured, where no
/// two of them have the same provider and name.
pub proof fn law_listing_ignores_order(
    current: Option<BindingView>,
    models: Seq<ResolvedView>,
    others: Seq<ResolvedView>,
)
    requires
        models.to_multiset() == others.to_multiset(),
        forall|i: int, j: int|
            0 <= i < j < models.len() ==> choice_key(#[trigger] models[i]) != choice_key(
                #[trigger] models[j],
            ),
    ensures
        model_choices(current, models) == model_choices(current, others),
{
    let s = listing_order(models);
    let t = listing_order(others);
    law_models_listed_in_order(models);
    law_models_listed_in_order(others);
    assert(models.no_duplicates()) by {
        assert forall|i: int, j: int| 0 <= i < models.len() && 0 <= j < models.len() && i
            != j implies models[i] != models[j] by {
            if i < j {
                assert(choice_key(models[i]) != choice_key(models[j]));
            } else {
                assert(choice_key(models[j]) != choice_key(models[i]));
            }
        }
    }
    models.lemma_multiset_has_no_duplicates();
    s.lemma_multiset_has_no_duplicates_conv();
    assert(keys_differ(s)) by {
        broadcast use vstd::seq_lib::group_to_multiset_ensures;

        assert forall|i: int, j: int| 0 <= i < j < s.len() implies choice_key(#[trigger] s[i])
            != choice_key(#[trigger] s[j]) by {
            assert(s.contains(s[i]) && s.contains(s[j]));
            assert(s.to_multiset().count(s[i]) > 0 && s.to_multiset().count(s[j]) > 0);
            assert(models.contains(s[i]) && models.contains(s[j]));
            let p = choose|p: int| 0 <= p < models.len() && models[p] == s[i];
            let q = choose|q: int| 0 <= q < models.len() && models[q] == s[j];
            assert(s[i] != s[j]);
            if p < q {
                assert(choice_key(models[p]) != choice_key(models[q]));
            } else {
                assert(choice_key(models[q]) != choice_key(models[p]));
            }
        }
    }
    lemma_listing_unique(s, t);
}

/// Each model of the list has one line, behind a heading where its provider is another than
/// that of the line before. The line is marked where the model is the current one, and only
/// there.
pub proof fn law_models_have_lines(
    current: Option<BindingView>,
    models: Seq<ResolvedView>,
    k: int,
)
    requires
        0 <= k < models.len(),
    ensures
        ({
            let ordered = listing_order(models);
            let b = ordered[k].binding;
            let heading = if k > 0 && ordered[k - 1].binding.provider_name == b.provider_name {
                Seq::empty()
            } else {
                "\n\n"@ + b.provider_name + ":"@
            };
            let marker = if current == Some(b) {
                " *"@
            } else {
                ""@
            };
            &&& choice_lines(current, ordered.take(k + 1)) == choice_lines(
                current,
                ordered.take(k),
            ) + (heading + "\n  "@ + b.profile + marker + " — "@ + b.display_name + " ("@
                + b.model + ")"@)
            &&& choice_lines(current, ordered.take(k + 1)).is_prefix_of(
                model_choices(current, models),
            )
        }),
{
    law_models_listed_in_order(models);
    let ordered = listing_order(models);
    assert(ordered.take(k + 1).drop_last() =~= ordered.take(k));
    if k > 0 {
        assert(ordered.take(k).last() == ordered[k - 1]);
    }
    lemma_lines_grow(current, ordered, k + 1);
}

proof fn lemma_lines_grow(current: Option<BindingView>, models: Seq<ResolvedView>, k: int)
    requires
        0 <= k <= models.len(),
    ensures
        choice_lines(current, models.take(k)).is_prefix_of(choice_lines(current, models)),
    decreases models.len() - k,
{
    if k < models.len() {
        lemma_lines_grow(current, models, k + 1);
        assert(models.take(k + 1).drop_last() =~= models.take(k));
        let less = choice_lines(current, models.take(k));
        let more = choice_lines(current, models.take(k + 1));
        assert(less.is_prefix_of(more));
        assert(less =~= choice_lines(current, models).subrange(0, less.len() as int));
    } else {
        assert(models.take(k) =~= models);
    }
}

spec fn keys_differ(models: Seq<ResolvedView>) -> bool {
    forall|i: int, j: int|
        0 <= i < j < models.len() ==> choice_key(#[trigger] models[i]) != choice_key(
            #[trigger] models[j],
        )
}

proof fn lemma_listed_antisymmetric(a: ResolvedView, b: ResolvedView)
    requires
        listed_before(a, b),
        listed_before(b, a),
    ensures
        choice_key(a) == choice_key(b),
{
    let (p, d) = choice_key(a);
    let (q, e) = choice_key(b);
    if p == q {
        crate::order::lemma_text_le_antisymmetric(d, e);
    } else {
        crate::order::lemma_text_le_antisymmetric(p, q);
    }
}

proof fn lemma_listing_unique(s: Seq<ResolvedView>, t: Seq<ResolvedView>)
    requires
        in_listing_order(s),
        in_listing_order(t),
        keys_differ(s),
        s.to_multiset() == t.to_multiset(),
    ensures
        s == t,
    decreases s.len(),
{
    broadcast use vstd::seq_lib::group_to_multiset_ensures;

    assert(s.to_multiset().len() == s.len());
    assert(t.to_multiset().len() == t.len());
    if s.len() > 0 {
        let n = s.len() - 1;
        assert(t.contains(t[n]));
        assert(s.contains(s[n]));
        assert(t.to_multiset().count(t[n]) > 0);
        assert(s.to_multiset().count(s[n]) > 0);
        assert(s.contains(t[n]));
        assert(t.contains(s[n]));
        let k = choose|k: int| 0 <= k < s.len() && s[k] == t[n];
        let m = choose|m: int| 0 <= m < t.len() && t[m] == s[n];
        if k < n {
            assert(listed_before(s[k], s[n]));
            if m < n {
                assert(listed_before(t[m], t[n]));
                lemma_listed_antisymmetric(s[n], t[n]);
            }
            assert(choice_key(s[k]) != choice_key(s[n]));
        }
        assert(s[n] == t[n]);
        let a = s.drop_last();
        let b = t.drop_last();
        assert(s =~= a.push(s[n]));
        assert(t =~= b.push(t[n]));
        assert(a.to_multiset() =~= b.to_multiset()) by {
            assert(s.to_multiset() == a.to_multiset().insert(s[n]));
            assert(t.to_multiset() == b.to_multiset().insert(t[n]));
            assert(a.to_multiset() =~= s.to_multiset().remove(s[n]));
            assert(b.to_multiset() =~= t.to_multiset().remove(t[n]));
        }
        assert forall|i: int, j: int| 0 <= i < j < a.len() implies listed_before(
            #[trigger] a[i],
            #[trigger] a[j],
        ) && choice_key(a[i]) != choice_key(a[j]) by {
            assert(listed_before(s[i], s[j]));
            assert(choice_key(s[i]) != choice_key(s[j]));
        }
        assert forall|i: int, j: int| 0 <= i < j < b.len() implies listed_before(
            #[trigger] b[i],
            #[trigger] b[j],
        ) by {
            assert(listed_before(t[i], t[j]));
        }
        lemma_listing_unique(a, b);
    } else {
        assert(s =~= t);
    }
}

spec fn in_listing_order(models: Seq<ResolvedView>) -> bool {
    forall|i: int, j: int|
        0 <= i < j < models.len() ==> listed_before(#[trigger] models[i], #[trigger] models[j])
}

proof fn lemma_listed_total(a: ResolvedView, b: ResolvedView)
    ensures
        listed_before(a, b) || listed_before(b, a),
{
    let (p, d) = choice_key(a);
    let (q, e) = choice_key(b);
    crate::order::lemma_text_le_total(p, q);
    crate::order::lemma_text_le_total(d, e);
}

proof fn lemma_listed_transitive(a: ResolvedView, b: ResolvedView, c: ResolvedView)
    requires
        listed_before(a, b),
        listed_before(b, c),
    ensures
        listed_before(a, c),
{
    let (p, d) = choice_key(a);
    let (q, e) = choice_key(b);
    let (s, f) = choice_key(c);
    if p == q && q == s {
        crate::order::lemma_text_le_transitive(d, e, f);
    } else if p != q && q != s {
        crate::order::lemma_text_le_transitive(p, q, s);
        if p == s {
            crate::order::lemma_text_le_antisymmetric(p, q);
        }
    }
}

proof fn lemma_placed_in_order(models: Seq<ResolvedView>, m: ResolvedView)
    requires
        in_listing_order(models),
    ensures
        in_listing_order(placed(models, m)),
        placed(models, m).to_multiset() == models.to_multiset().insert(m),
        placed(models, m).len() == models.len() + 1,
        forall|k: int|
            0 <= k < placed(models, m).len() ==> models.contains(#[trigger] placed(models, m)[k])
                || placed(models, m)[k] == m,
    decreases models.len(),
{
    broadcast use vstd::seq_lib::group_to_multiset_ensures;

    let out = placed(models, m);
    if models.len() == 0 {
        assert(out =~= models.push(m));
    } else if listed_before(models.last(), m) {
        assert forall|i: int, j: int| 0 <= i < j < out.len() implies listed_before(
            #[trigger] out[i],
            #[trigger] out[j],
        ) by {
            if j < models.len() {
                assert(listed_before(models[i], models[j]));
            } else if i < models.len() - 1 {
                assert(listed_before(models[i], models[models.len() - 1]));
                lemma_listed_transitive(models[i], models.last(), m);
            }
        }
        assert forall|k: int| 0 <= k < out.len() implies models.contains(#[trigger] out[k])
            || out[k] == m by {
            if k < models.len() {
                assert(models[k] == out[k]);
            }
        }
    } else {
        let init = models.drop_last();
        let last = models.last();
        lemma_listed_total(last, m);
        assert(in_listing_order(init)) by {
            assert forall|i: int, j: int| 0 <= i < j < init.len() implies listed_before(
                #[trigger] init[i],
                #[trigger] init[j],
            ) by {
                assert(listed_before(models[i], models[j]));
            }
        }
        lemma_placed_in_order(init, m);
        let inner = placed(init, m);
        assert(models =~= init.push(last));
        assert(out.to_multiset() =~= models.to_multiset().insert(m));
        assert forall|i: int, j: int| 0 <= i < j < out.len() implies listed_before(
            #[trigger] out[i],
            #[trigger] out[j],
        ) by {
            if j < inner.len() {
                assert(listed_before(inner[i], inner[j]));
            } else {
                assert(init.contains(inner[i]) || inner[i] == m);
                if init.contains(inner[i]) {
                    let k = choose|k: int| 0 <= k < init.len() && init[k] == inner[i];
                    assert(listed_before(models[k], models[models.len() - 1]));
                }
            }
        }
        assert forall|k: int| 0 <= k < out.len() implies models.contains(#[trigger] out[k])
            || out[k] == m by {
            if k < inner.len() {
                assert(init.contains(inner[k]) || inner[k] == m);
                if init.contains(inner[k]) {
                    let n = choose|n: int| 0 <= n < init.len() && init[n] == inner[k];
                    assert(models[n] == out[k]);
                }
            } else {
                assert(models[models.len() - 1] == out[k]);
            }
        }
    }
}

/// Whether a name in lowercase is that of a theme.
pub open spec fn is_theme(lowered: Seq<char>) -> bool {
    lowered == "dark"@ || lowered == "light"@ || lowered == "ansi"@ || lowered == "dracula"@
        || lowered == "nord"@ || lowered == "catppuccin"@
}

/// The answer to a request for a theme, given its name in lowercase.
pub open spec fn theme_answer(name: Seq<char>, lowered: Seq<char>) -> Seq<char> {
    if is_theme(lowered) {
        "Theme set to: "@ + name
    } else {
        "Unknown theme: "@ + name
            + "\n\nAvailable themes:\n- dark: gruvbox-inspired (default)\n- light: high-contrast for bright terminals\n- ansi: 16-color fallback\n- dracula: dark purple/violet theme\n- nord: arctic blue-gray theme\n- catppuccin: pastel mocha theme"@
    }
}

/// The answer to a request for a theme, given its name in lowercase.
pub fn answer_theme(name: &str, lowered: &str) -> (r: String)
    ensures
        r@ == theme_answer(name@, lowered@),
{
    let known = text::same(lowered, "dark") || text::same(lowered, "light") || text::same(
        lowered,
        "ansi",
    ) || text::same(lowered, "dracula") || text::same(lowered, "nord") || text::same(
        lowered,
        "catppuccin",
    );
    if known {
        let mut out = "Theme set to: ".to_owned();
        out.append(name);
        out
    } else {
        let mut out = "Unknown theme: ".to_owned();
        out.append(name);
        out.append(
            "\n\nAvailable themes:\n- dark: gruvbox-inspired (default)\n- light: high-contrast for bright terminals\n- ansi: 16-color fallback\n- dracula: dark purple/violet theme\n- nord: arctic blue-gray theme\n- catppuccin: pastel mocha theme",
        );
        out
    }
}

/// The answer to the command for themes.
pub fn execute_theme(theme_name: Option<&str>) -> (r: String)
    ensures
        r@ == match theme_name {
            Some(name) => theme_answer(name@, lowercased(name@)),
            None => "Current theme: dark\n\nAvailable themes:\n- dark: gruvbox-inspired (default)\n- light: high-contrast for bright terminals\n- ansi: 16-color fallback\n- dracula: dark purple/violet theme\n- nord: arctic blue-gray theme\n- catppuccin: pastel mocha theme\n\nUse /theme <name> to switch."@,
        },
        theme_name matches Some(name) ==> (is_ascii(name@) ==> r@ == theme_answer(
            name@,
            ascii_lowered(name@),
        )),
{
    match theme_name {
        Some(name) => {
            let lowered = lowercase(name);
            answer_theme(name, lowered.as_str())
        },
        None => "Current theme: dark\n\nAvailable themes:\n- dark: gruvbox-inspired (default)\n- light: high-contrast for bright terminals\n- ansi: 16-color fallback\n- dracula: dark purple/violet theme\n- nord: arctic blue-gray theme\n- catppuccin: pastel mocha theme\n\nUse /theme <name> to switch.".to_owned(),
    }
}

/// What a session file says of its session.
pub struct SessionDetails {
    pub id: String,
    pub model: String,
    pub messages: usize,
    pub cwd: String,
}

/// A session that can be resumed; without details where its file cannot be read.
pub struct SessionEntry {
    pub id: String,
    pub details: Option<SessionDetails>,
}

/// The line of a session.
pub open spec fn session_line(entry: SessionEntry) -> Seq<char> {
    match entry.details {
        Some(d) => "  \x1b[33m"@ + d.id@ + "\x1b[0m  "@ + d.model@ + "  "@ + decimal(
            d.messages as nat,
        ) + " msgs  "@ + d.cwd@,
        None => "  \x1b[33m"@ + entry.id@ + "\x1b[0m  (error reading)"@,
    }
}

/// The lines of sessions, one below the other.
pub open spec fn session_lines(entries: Seq<SessionEntry>) -> Seq<char>
    decreases entries.len(),
{
    if entries.len() == 0 {
        "Recent sessions:\n"@
    } else if entries.len() == 1 {
        session_lines(entries.drop_last()) + session_line(entries.last())
    } else {
        session_lines(entries.drop_last()) + "\n"@ + session_line(entries.last())
    }
}

/// The sessions that are listed: the first ten.
pub open spec fn first_ten(entries: Seq<SessionEntry>) -> Seq<SessionEntry> {
    if entries.len() > 10 {
        entries.take(10)
    } else {
        entries
    }
}

/// A list of sessions to resume.
pub open spec fn session_list(entries: Seq<SessionEntry>) -> Seq<char> {
    if entries.len() == 0 {
        "No sessions found."@
    } else {
        session_lines(first_ten(entries)) + "\n\nUse /resume <id> to resume a session."@
    }
}

fn push_session(out: &mut String, entry: &SessionEntry)
    ensures
        final(out)@ == old(out)@ + session_line(*entry),
{
    out.append("  \x1b[33m");
    match &entry.details {
        Some(d) => {
            out.append(d.id.as_str());
            out.append("\x1b[0m  ");
            out.append(d.model.as_str());
            out.append("  ");
            text::push_decimal(out, d.messages as u64);
            out.append(" msgs  ");
            out.append(d.cwd.as_str());
        },
        None => {
            out.append(entry.id.as_str());
            out.append("\x1b[0m  (error reading)");
        },
    }
    assert(out@ =~= old(out)@ + session_line(*entry));
}

/// A list of sessions to resume.
pub fn list_resumable(entries: &[SessionEntry]) -> (r: String)
    ensures
        r@ == session_list(entries@),
{
    if entries.len() == 0 {
        return "No sessions found.".to_owned();
    }
    let n: usize = if entries.len() > 10 {
        10
    } else {
        entries.len()
    };
    let ghost listed = first_ten(entries@);
    let mut out = "Recent sessions:\n".to_owned();
    assert(listed.take(0) =~= Seq::empty());
    let mut i: usize = 0;
    while i < n
        invariant
            i <= n,
            n == listed.len(),
            n <= entries@.len(),
            listed == first_ten(entries@),
            out@ == session_lines(listed.take(i as int)),
        decreases n - i,
    {
        assert(listed.take(i + 1).drop_last() =~= listed.take(i as int));
        assert(listed[i as int] == entries@[i as int]);
        if i > 0 {
            out.append("\n");
        }
        push_session(&mut out, &entries[i]);
        i = i + 1;
    }
    assert(listed.take(n as int) =~= listed);
    out.append("\n\nUse /resume <id> to resume a session.");
    out
}

/// Why a command is refused here: sessions and models are switched by the interface that
/// owns them.
pub open spec fn refusal_of(command: AsyncView) -> Option<Seq<char>> {
    match command {
        AsyncView::Resume(Some(id)) => Some(
            "session switching for /resume "@ + id + " must be handled by the session browser"@,
        ),
        AsyncView::Model(_) => Some(
            "model switching must be resolved through a configured model profile"@,
        ),
        _ => None,
    }
}

/// Why a command is refused here.
pub fn refusal(command: &AsyncCommand) -> (r: Option<String>)
    ensures
        text_option(r) == refusal_of(command@),
{
    match command {
        AsyncCommand::Resume(Some(id)) => {
            let mut e = "session switching for /resume ".to_owned();
            e.append(id.as_str());
            e.append(" must be handled by the session browser");
            Some(e)
        },
        AsyncCommand::Model(_) => Some(
            "model switching must be resolved through a configured model profile".to_owned(),
        ),
        _ => None,
    }
}

/// The usage and cost of a session, in words. The amount is the shown cost in dollars,
/// written with its decimals.
pub fn format_cost(engine: &Engine, amount: &str) -> (r: String)
    ensures
        r@ == summary(engine@.cost, amount@),
{
    engine.cost().format_summary(amount)
}

/// The answer to an image that was attached.
pub fn image_attached(path: &str, queued: usize) -> (r: String)
    ensures
        r@ == "Attached "@ + path@ + " for the next prompt ("@ + decimal(queued as nat)
            + " queued)."@,
{
    let mut out = "Attached ".to_owned();
    out.append(path);
    out.append(" for the next prompt (");
    text::push_decimal(&mut out, queued as u64);
    out.append(" queued).");
    out
}

} // verus!
