//! The line-based interface: what input lines mean and how events are shown.

use vstd::prelude::*;
use vstd::string::{StrSliceExecFns, StringExecFns};
use crate::api::types::{
    block_views, message_views, text_option, BlockView, ContentBlock, ContentView, Message,
    MessageContent, MessageView,
};
use crate::commands::{
    parse_command, parsed, AsyncCommand, AsyncView, CommandResult, CommandView, Surface,
};
use crate::json::{Json, JsonView};
use crate::permissions::{command_of, PermissionResponse, ResponseView};
use crate::query::{StreamEvent, UiView};
use crate::text;
use crate::text::{
    ascii_lowered, decimal, is_ascii, line_texts, lowercase, lowercased, sanitize_terminal_text,
    sanitized, texts, trimmed,
};

verus! {

/// What an input line asks for.
pub enum LineAction {
    /// Nothing.
    Ignore,
    /// A turn with this message.
    Prompt(String),
    /// Text for the user.
    Show(String),
    /// The usage and cost of the session.
    Cost,
    /// The use of the context window.
    Context,
    /// The end of the program.
    Exit,
    /// Another session.
    Resume(String),
    /// A list of the configured models.
    ListModels,
    /// Another model.
    SwitchModel(String),
    /// Another command.
    Run(AsyncCommand),
}

/// What an input line asks for, as a mathematical object.
pub enum ActionView {
    Ignore,
    Prompt(Seq<char>),
    Show(Seq<char>),
    Cost,
    Context,
    Exit,
    Resume(Seq<char>),
    ListModels,
    SwitchModel(Seq<char>),
    Run(AsyncView),
}

impl View for LineAction {
    type V = ActionView;

    open spec fn view(&self) -> ActionView {
        match self {
            LineAction::Ignore => ActionView::Ignore,
            LineAction::Prompt(s) => ActionView::Prompt(s@),
            LineAction::Show(s) => ActionView::Show(s@),
            LineAction::Cost => ActionView::Cost,
            LineAction::Context => ActionView::Context,
            LineAction::Exit => ActionView::Exit,
            LineAction::Resume(s) => ActionView::Resume(s@),
            LineAction::ListModels => ActionView::ListModels,
            LineAction::SwitchModel(s) => ActionView::SwitchModel(s@),
            LineAction::Run(c) => ActionView::Run(c@),
        }
    }
}

/// What a command asks for.
pub open spec fn command_action(command: CommandView) -> ActionView {
    match command {
        CommandView::Text(t) => if t == "__cost__"@ {
            ActionView::Cost
        } else if t == "__context__"@ {
            ActionView::Context
        } else {
            ActionView::Show(t)
        },
        CommandView::Exit => ActionView::Exit,
        CommandView::Async(AsyncView::Resume(Some(id))) => ActionView::Resume(id),
        CommandView::Async(AsyncView::Model(None)) => ActionView::ListModels,
        CommandView::Async(AsyncView::Model(Some(model))) => ActionView::SwitchModel(model),
        CommandView::Async(other) => ActionView::Run(other),
    }
}

/// What an input line asks for: a blank one for nothing, a slash command for what the
/// command does, and any other for a turn.
pub open spec fn line_action(line: Seq<char>) -> ActionView {
    let input = trimmed(line);
    if input.len() == 0 {
        ActionView::Ignore
    } else {
        match parsed(input, Surface::Repl) {
            Some(command) => command_action(command),
            None => ActionView::Prompt(input),
        }
    }
}

/// What an input line asks for.
pub fn read_input(line: &str) -> (r: LineAction)
    ensures
        r@ == line_action(line@),
{
    let input = text::trim(line);
    if input.unicode_len() == 0 {
        return LineAction::Ignore;
    }
    match parse_command(input, Surface::Repl) {
        Some(CommandResult::Text(t)) => if text::same(t.as_str(), "__cost__") {
            LineAction::Cost
        } else if text::same(t.as_str(), "__context__") {
            LineAction::Context
        } else {
            LineAction::Show(t)
        },
        Some(CommandResult::Exit) => LineAction::Exit,
        Some(CommandResult::Async(command)) => match command {
            AsyncCommand::Resume(Some(id)) => LineAction::Resume(id),
            AsyncCommand::Model(None) => LineAction::ListModels,
            AsyncCommand::Model(Some(model)) => LineAction::SwitchModel(model),
            other => LineAction::Run(other),
        },
        None => LineAction::Prompt(input.to_owned()),
    }
}

/// The steering message that a line typed during a turn stands for.
pub fn steering_line(line: &str) -> (r: Option<String>)
    ensures
        text_option(r) == if trimmed(line@).len() == 0 {
            None
        } else {
            Some(trimmed(line@))
        },
{
    let message = text::trim(line);
    if message.unicode_len() == 0 {
        None
    } else {
        Some(message.to_owned())
    }
}

/// What an answer in lowercase to a permission prompt means.
pub open spec fn permission_answer(
    tool_name: Seq<char>,
    input: JsonView,
    answer: Seq<char>,
) -> ResponseView {
    if answer == "y"@ || answer == "yes"@ || answer == ""@ {
        ResponseView::Allow
    } else if answer == "a"@ || answer == "always"@ {
        match command_of(tool_name, input) {
            Some(command) => ResponseView::AlwaysAllowCommand(command),
            None => ResponseView::AlwaysAllow,
        }
    } else {
        ResponseView::Deny
    }
}

/// What an answer in lowercase to a permission prompt means: yes and an empty answer
/// allow, always allows from then on, and anything else denies.
pub fn interpret_answer(tool_name: &str, input: &Json, answer: &str) -> (r: PermissionResponse)
    ensures
        r@ == permission_answer(tool_name@, input@, answer@),
{
    if text::same(answer, "y") || text::same(answer, "yes") || text::same(answer, "") {
        PermissionResponse::Allow
    } else if text::same(answer, "a") || text::same(answer, "always") {
        PermissionResponse::always_allow_for(tool_name, input)
    } else {
        PermissionResponse::Deny
    }
}

/// What a line means as an answer to a permission prompt.
pub fn parse_permission_response(tool_name: &str, input: &Json, line: &str) -> (r:
    PermissionResponse)
    ensures
        r@ == permission_answer(tool_name@, input@, lowercased(trimmed(line@))),
        is_ascii(trimmed(line@)) ==> r@ == permission_answer(
            tool_name@,
            input@,
            ascii_lowered(trimmed(line@)),
        ),
{
    let answer = lowercase(text::trim(line));
    interpret_answer(tool_name, input, answer.as_str())
}

/// The choices that a permission prompt offers.
pub open spec fn choices_of(tool_name: Seq<char>) -> Seq<char> {
    if tool_name == "Bash"@ {
        "(y)es / (n)o / (a)lways this command"@
    } else {
        "(y)es / (n)o / (a)lways"@
    }
}

/// The question of a permission prompt.
pub open spec fn permission_question(tool_name: Seq<char>, summary: Seq<char>) -> Seq<char> {
    "\n  \x1b[33m⚡ "@ + sanitized(summary) + "\x1b[0m  \x1b[2m"@ + choices_of(tool_name)
        + "\x1b[0m"@
}

/// A permission prompt.
pub open spec fn permission_prompt(tool_name: Seq<char>, summary: Seq<char>) -> Seq<char> {
    permission_question(tool_name, summary) + " "@
}

/// Lines, each set in by two spaces.
pub open spec fn set_in(lines: Seq<Seq<char>>) -> Seq<char>
    decreases lines.len(),
{
    if lines.len() == 0 {
        Seq::empty()
    } else {
        set_in(lines.drop_last()) + "  "@ + lines.last() + "\n"@
    }
}

/// A permission prompt with a preview of the change.
pub open spec fn permission_prompt_with_diff(
    tool_name: Seq<char>,
    summary: Seq<char>,
    diff: Seq<char>,
) -> Seq<char> {
    permission_question(tool_name, summary) + "\n\n  \x1b[2m--- Diff Preview ---\x1b[0m\n"@
        + set_in(line_texts(sanitized(diff))) + "  \x1b[2m--- End Diff ---\x1b[0m\n\n  Allow? "@
}

fn question(tool_name: &str, summary: &str) -> (r: String)
    ensures
        r@ == permission_question(tool_name@, summary@),
{
    let choices = if text::same(tool_name, "Bash") {
        "(y)es / (n)o / (a)lways this command"
    } else {
        "(y)es / (n)o / (a)lways"
    };
    let shown = sanitize_terminal_text(summary);
    let mut out = "\n  \x1b[33m⚡ ".to_owned();
    out.append(shown.as_str());
    out.append("\x1b[0m  \x1b[2m");
    out.append(choices);
    out.append("\x1b[0m");
    out
}

/// A permission prompt.
pub fn print_permission_prompt(tool_name: &str, summary: &str) -> (r: String)
    ensures
        r@ == permission_prompt(tool_name@, summary@),
{
    let mut out = question(tool_name, summary);
    out.append(" ");
    out
}

fn indented(lines: &Vec<String>) -> (r: String)
    ensures
        r@ == set_in(texts(lines@)),
{
    let ghost all = texts(lines@);
    let mut out = String::new();
    assert(all.take(0) =~= Seq::empty());
    let mut i: usize = 0;
    while i < lines.len()
        invariant
            i <= lines@.len(),
            all == texts(lines@),
            out@ == set_in(all.take(i as int)),
        decreases lines.len() - i,
    {
        assert(all.take(i + 1).drop_last() =~= all.take(i as int));
        out.append("  ");
        out.append(lines[i].as_str());
        out.append("\n");
        i = i + 1;
    }
    assert(all.take(lines@.len() as int) =~= all);
    out
}

/// A permission prompt with a preview of the change.
pub fn print_permission_prompt_with_diff(tool_name: &str, summary: &str, diff: &str) -> (r: String)
    ensures
        r@ == permission_prompt_with_diff(tool_name@, summary@, diff@),
{
    let shown = sanitize_terminal_text(diff);
    let lines = text::lines(shown.as_str());
    let preview = indented(&lines);
    let mut out = question(tool_name, summary);
    out.append("\n\n  \x1b[2m--- Diff Preview ---\x1b[0m\n");
    out.append(preview.as_str());
    out.append("  \x1b[2m--- End Diff ---\x1b[0m\n\n  Allow? ");
    out
}

/// What is on the screen during a turn, as far as the next event depends on it.
#[derive(Debug, Clone, Copy, PartialEq, Eq, Structural)]
pub struct Screen {
    /// A tool is named at the end of the current line.
    pub in_tool: bool,
    /// The model has not answered yet.
    pub first_text: bool,
}

/// What is written for an event.
pub struct Written {
    /// To standard output.
    pub out: String,
    /// To standard error.
    pub err: String,
}

/// What is written for an event, as a mathematical object.
pub struct WrittenView {
    pub out: Seq<char>,
    pub err: Seq<char>,
}

impl View for Written {
    type V = WrittenView;

    open spec fn view(&self) -> WrittenView {
        WrittenView { out: self.out@, err: self.err@ }
    }
}

impl Screen {
    /// The line feed that ends the line in which a tool is named.
    pub open spec fn line_end(self) -> Seq<char> {
        if self.in_tool {
            "\n"@
        } else {
            ""@
        }
    }

    /// What stands before the first text of a response.
    pub open spec fn heading(self, model: Seq<char>) -> Seq<char> {
        if self.first_text {
            "\r\x1b[2m● "@ + model + " \x1b[0m"@
        } else {
            ""@
        }
    }

    /// The screen after an event.
    pub open spec fn after(self, event: UiView) -> Screen {
        match event {
            UiView::ToolStart { .. } => Screen { in_tool: true, ..self },
            UiView::Retry(_) => Screen { in_tool: false, first_text: true },
            UiView::Text(_) => Screen { in_tool: false, first_text: false },
            UiView::Error(_) => self,
            UiView::Done => self,
            _ => Screen { in_tool: false, ..self },
        }
    }

    /// What is written to standard output for an event.
    pub open spec fn output(self, event: UiView, model: Seq<char>) -> Seq<char> {
        match event {
            UiView::Notice(n) => self.line_end() + "\n  \x1b[2m["@ + n + "]\x1b[0m\n"@,
            UiView::Retry(n) => self.line_end() + "\n  \x1b[2m[discarding rejected response: "@ + n
                + "]\x1b[0m\n"@,
            UiView::SteeringSent(t) => self.line_end() + "\n  \x1b[2m↳ steering sent: "@ + t
                + "\x1b[0m\n"@,
            UiView::Interrupted => self.line_end() + "\n  \x1b[33m⏹ interrupted\x1b[0m\n\n"@,
            UiView::Text(t) => self.line_end() + self.heading(model) + sanitized(t),
            UiView::ToolStart { name, summary } => "\n  \x1b[2m["@ + sanitized(name) + "]\x1b[0m "@
                + sanitized(summary) + " "@,
            UiView::ToolResult { is_error } => if is_error {
                "\x1b[31m✗\x1b[0m"@
            } else {
                "\x1b[32m✓\x1b[0m"@
            },
            UiView::PermissionRequest { tool_name, summary, diff, input } => self.line_end()
                + match diff {
                Some(d) => permission_prompt_with_diff(tool_name, summary, d),
                None => permission_prompt(tool_name, summary),
            },
            UiView::Error(_) => ""@,
            UiView::Done => "\n\n"@,
        }
    }

    /// What is written for an event.
    pub open spec fn written(self, event: UiView, model: Seq<char>) -> WrittenView {
        WrittenView {
            out: self.output(event, model),
            err: match event {
                UiView::Error(e) => "\n\x1b[31mError: "@ + sanitized(e) + "\x1b[0m\n"@,
                _ => ""@,
            },
        }
    }

    /// The screen at the beginning of a turn.
    pub fn new() -> (r: Screen)
        ensures
            r == (Screen { in_tool: false, first_text: true }),
    {
        Screen { in_tool: false, first_text: true }
    }

    fn end_line(&self) -> (r: String)
        ensures
            r@ == self.line_end(),
    {
        if self.in_tool {
            "\n".to_owned()
        } else {
            "".to_owned()
        }
    }

    fn event_output(&self, event: &StreamEvent, model: &str) -> (r: String)
        ensures
            r@ == self.output(event@, model@),
    {
        match event {
            StreamEvent::Notice(n) => {
                let mut out = self.end_line();
                out.append("\n  \x1b[2m[");
                out.append(n.as_str());
                out.append("]\x1b[0m\n");
                out
            },
            StreamEvent::Retry(n) => {
                let mut out = self.end_line();
                out.append("\n  \x1b[2m[discarding rejected response: ");
                out.append(n.as_str());
                out.append("]\x1b[0m\n");
                out
            },
            StreamEvent::SteeringSent(t) => {
                let mut out = self.end_line();
                out.append("\n  \x1b[2m↳ steering sent: ");
                out.append(t.as_str());
                out.append("\x1b[0m\n");
                out
            },
            StreamEvent::Interrupted => {
                let mut out = self.end_line();
                out.append("\n  \x1b[33m⏹ interrupted\x1b[0m\n\n");
                out
            },
            StreamEvent::Text(t) => {
                let mut out = self.end_line();
                let heading = if self.first_text {
                    let mut h = "\r\x1b[2m● ".to_owned();
                    h.append(model);
                    h.append(" \x1b[0m");
                    h
                } else {
                    "".to_owned()
                };
                out.append(heading.as_str());
                let shown = sanitize_terminal_text(t.as_str());
                out.append(shown.as_str());
                out
            },
            StreamEvent::ToolStart { name, summary } => {
                let shown_name = sanitize_terminal_text(name.as_str());
                let shown_summary = sanitize_terminal_text(summary.as_str());
                let mut out = "\n  \x1b[2m[".to_owned();
                out.append(shown_name.as_str());
                out.append("]\x1b[0m ");
                out.append(shown_summary.as_str());
                out.append(" ");
                out
            },
            StreamEvent::ToolResult { is_error } => if *is_error {
                "\x1b[31m✗\x1b[0m".to_owned()
            } else {
                "\x1b[32m✓\x1b[0m".to_owned()
            },
            StreamEvent::PermissionRequest { tool_name, summary, diff, .. } => {
                let mut out = self.end_line();
                let prompt = match diff {
                    Some(d) => print_permission_prompt_with_diff(
                        tool_name.as_str(),
                        summary.as_str(),
                        d.as_str(),
                    ),
                    None => print_permission_prompt(tool_name.as_str(), summary.as_str()),
                };
                out.append(prompt.as_str());
                out
            },
            StreamEvent::Error(_) => "".to_owned(),
            StreamEvent::Done => "\n\n".to_owned(),
        }
    }

    /// Takes an event: what is written for it.
    pub fn show(&mut self, event: &StreamEvent, model: &str) -> (r: Written)
        ensures
            *final(self) == old(self).after(event@),
            r@ == old(self).written(event@, model@),
    {
        let out = self.event_output(event, model);
        let err = match event {
            StreamEvent::Error(e) => {
                let shown = sanitize_terminal_text(e.as_str());
                let mut text = "\n\x1b[31mError: ".to_owned();
                text.append(shown.as_str());
                text.append("\x1b[0m\n");
                text
            },
            _ => "".to_owned(),
        };
        match event {
            StreamEvent::ToolStart { .. } => {
                self.in_tool = true;
            },
            StreamEvent::Retry(_) => {
                self.in_tool = false;
                self.first_text = true;
            },
            StreamEvent::Text(_) => {
                self.in_tool = false;
                self.first_text = false;
            },
            StreamEvent::Error(_) => {},
            StreamEvent::Done => {},
            _ => {
                self.in_tool = false;
            },
        }
        Written { out, err }
    }
}

/// The line of a replay for what the model said.
pub open spec fn said(model: Seq<char>, t: Seq<char>) -> Seq<char> {
    "\x1b[2m● "@ + model + "\x1b[0m "@ + sanitized(t) + "\n"@
}

/// The line of a replay for a content block. Tool results are left out: they are context
/// for the model, not for the reader.
pub open spec fn replayed_block(model: Seq<char>, block: BlockView) -> Seq<char> {
    match block {
        BlockView::Text { text } => said(model, text),
        BlockView::Image { source } => "  \x1b[2m[attached "@ + source.media_type
            + " image]\x1b[0m\n"@,
        BlockView::Reasoning { .. } => ""@,
        BlockView::ToolUse { name, .. } => "  \x1b[2m["@ + sanitized(name) + "] ✓\x1b[0m\n"@,
        BlockView::ToolResult { .. } => ""@,
    }
}

/// The lines of a replay for content blocks.
pub open spec fn replayed_blocks(model: Seq<char>, blocks: Seq<BlockView>) -> Seq<char>
    decreases blocks.len(),
{
    if blocks.len() == 0 {
        Seq::empty()
    } else {
        replayed_blocks(model, blocks.drop_last()) + replayed_block(model, blocks.last())
    }
}

/// The lines of a replay for a message.
pub open spec fn replayed_message(model: Seq<char>, message: MessageView) -> Seq<char> {
    match message.content {
        ContentView::Text(t) => if message.role == "user"@ {
            "\x1b[1;34m>\x1b[0m "@ + sanitized(t) + "\n"@
        } else if message.role == "assistant"@ {
            said(model, t)
        } else {
            Seq::empty()
        },
        ContentView::Blocks(blocks) => if message.role == "assistant"@ {
            replayed_blocks(model, blocks)
        } else {
            Seq::empty()
        },
    }
}

/// The lines of a replay for messages, behind what stands before them.
pub open spec fn replayed_messages(
    start: Seq<char>,
    model: Seq<char>,
    messages: Seq<MessageView>,
) -> Seq<char>
    decreases messages.len(),
{
    if messages.len() == 0 {
        start
    } else {
        replayed_messages(start, model, messages.drop_last()) + replayed_message(
            model,
            messages.last(),
        )
    }
}

/// How many messages are left out of a replay.
pub open spec fn left_out(messages: nat, keep: nat) -> nat {
    if messages > keep {
        (messages - keep) as nat
    } else {
        0
    }
}

/// A replay of the end of a conversation.
pub open spec fn replay(messages: Seq<MessageView>, model: Seq<char>, keep: nat) -> Seq<char> {
    let skipped = left_out(messages.len(), keep);
    let start = if skipped > 0 {
        "  \x1b[2m… "@ + decimal(skipped)
            + " earlier messages not shown (full history is in context)\x1b[0m\n"@
    } else {
        Seq::empty()
    };
    replayed_messages(start, model, messages.skip(skipped as int)) + "\n"@
}

fn what_was_said(model: &str, t: &str) -> (r: String)
    ensures
        r@ == said(model@, t@),
{
    let shown = sanitize_terminal_text(t);
    let mut out = "\x1b[2m● ".to_owned();
    out.append(model);
    out.append("\x1b[0m ");
    out.append(shown.as_str());
    out.append("\n");
    out
}

fn replay_block(model: &str, block: &ContentBlock) -> (r: String)
    ensures
        r@ == replayed_block(model@, block@),
{
    match block {
        ContentBlock::Text { text } => what_was_said(model, text.as_str()),
        ContentBlock::Image { source } => {
            let mut out = "  \x1b[2m[attached ".to_owned();
            out.append(source.media_type.as_str());
            out.append(" image]\x1b[0m\n");
            out
        },
        ContentBlock::Reasoning { .. } => "".to_owned(),
        ContentBlock::ToolUse { name, .. } => {
            let shown = sanitize_terminal_text(name.as_str());
            let mut out = "  \x1b[2m[".to_owned();
            out.append(shown.as_str());
            out.append("] ✓\x1b[0m\n");
            out
        },
        ContentBlock::ToolResult { .. } => "".to_owned(),
    }
}

fn replay_blocks(model: &str, blocks: &Vec<ContentBlock>) -> (r: String)
    ensures
        r@ == replayed_blocks(model@, block_views(blocks@)),
{
    let ghost all = block_views(blocks@);
    let mut out = String::new();
    assert(all.take(0) =~= Seq::empty());
    let mut i: usize = 0;
    while i < blocks.len()
        invariant
            i <= blocks@.len(),
            all == block_views(blocks@),
            out@ == replayed_blocks(model@, all.take(i as int)),
        decreases blocks.len() - i,
    {
        assert(all.take(i + 1).drop_last() =~= all.take(i as int));
        let line = replay_block(model, &blocks[i]);
        out.append(line.as_str());
        i = i + 1;
    }
    assert(all.take(blocks@.len() as int) =~= all);
    out
}

fn replay_message(model: &str, message: &Message) -> (r: String)
    ensures
        r@ == replayed_message(model@, message@),
{
    match &message.content {
        MessageContent::Text(t) => if text::same(message.role.as_str(), "user") {
            let shown = sanitize_terminal_text(t.as_str());
            let mut out = "\x1b[1;34m>\x1b[0m ".to_owned();
            out.append(shown.as_str());
            out.append("\n");
            out
        } else if text::same(message.role.as_str(), "assistant") {
            what_was_said(model, t.as_str())
        } else {
            String::new()
        },
        MessageContent::Blocks(blocks) => if text::same(message.role.as_str(), "assistant") {
            replay_blocks(model, blocks)
        } else {
            String::new()
        },
    }
}

/// A replay of the end of a conversation: what the user and the model said and the tools
/// that were used. Tool results are left out.
pub fn replay_transcript(messages: &[Message], model: &str, keep: usize) -> (r: String)
    ensures
        r@ == replay(message_views(messages@), model@, keep as nat),
{
    let skipped: usize = if messages.len() > keep {
        messages.len() - keep
    } else {
        0
    };
    let mut out = String::new();
    if skipped > 0 {
        out = "  \x1b[2m… ".to_owned();
        text::push_decimal(&mut out, skipped as u64);
        out.append(" earlier messages not shown (full history is in context)\x1b[0m\n");
    }
    let ghost start = out@;
    let ghost shown = message_views(messages@).skip(skipped as int);
    assert(shown.take(0) =~= Seq::empty());
    let mut i: usize = skipped;
    while i < messages.len()
        invariant
            skipped <= i <= messages@.len(),
            shown == message_views(messages@).skip(skipped as int),
            out@ == replayed_messages(start, model@, shown.take(i - skipped)),
        decreases messages.len() - i,
    {
        assert(shown.take(i - skipped + 1).drop_last() =~= shown.take(i - skipped));
        assert(shown[i - skipped] == messages@[i as int]@);
        let lines = replay_message(model, &messages[i]);
        out.append(lines.as_str());
        i = i + 1;
    }
    assert(shown.take(messages@.len() - skipped) =~= shown);
    out.append("\n");
    out
}

/// Tool results never show in a replay: messages that differ only in what tools gave back
/// are replayed alike.
pub proof fn law_replay_hides_results(
    model: Seq<char>,
    a: Seq<BlockView>,
    b: Seq<BlockView>,
)
    requires
        a.len() == b.len(),
        forall|i: int|
            #![trigger a[i]]
            0 <= i < a.len() ==> a[i] == b[i] || (a[i] is ToolResult && b[i] is ToolResult),
    ensures
        replayed_blocks(model, a) == replayed_blocks(model, b),
    decreases a.len(),
{
    if a.len() > 0 {
        let p = a.drop_last();
        let q = b.drop_last();
        assert forall|i: int|
            #![trigger p[i]]
            0 <= i < p.len() implies p[i] == q[i] || (p[i] is ToolResult && q[i] is ToolResult) by {
            assert(p[i] == a[i]);
        }
        law_replay_hides_results(model, p, q);
        assert(a[a.len() - 1] == a.last());
    }
}

} // verus!
