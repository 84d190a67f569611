//! The line-based interface from its first prompt to its end: what lines, interrupts and
//! the events of a turn lead to. Reading, writing and running turns is done outside.

use vstd::prelude::*;
use vstd::string::StringExecFns;
use crate::api::types::text_option;
use crate::cost::{summary, CostTracker};
use crate::json::{Json, JsonView};
use crate::permissions::{PermissionResponse, ResponseView};
use crate::query::{StreamEvent, UiView};
use crate::repl::{
    line_action, parse_permission_response, permission_answer, read_input, steering_line,
    ActionView, LineAction, Screen,
};
use crate::text;
use crate::text::{decimal, lowercased, trimmed};

verus! {

/// What stands before the user's input.
pub const PROMPT: &'static str = "\x1b[1;34m>\x1b[0m ";

/// What is shown when a turn begins, until the model answers.
pub const THINKING: &'static str = "\n\x1b[1;32m❯\x1b[0m \n  \x1b[2mthinking...\x1b[0m";

/// What is shown for a first interrupt at the prompt.
pub const PRESS_AGAIN: &'static str =
    "\n  \x1b[2m(press Ctrl+C again to exit)\x1b[0m\n\x1b[1;34m>\x1b[0m ";

/// What is shown for a first interrupt during a turn.
pub const INTERRUPTING: &'static str =
    "\n  \x1b[2m(interrupting... press Ctrl+C again quickly to exit claux)\x1b[0m\n";

/// What is shown when a turn is given up.
pub const ABANDONED: &'static str = "\n\x1b[2mTurn abandoned; exiting.\x1b[0m\n";

/// What the interface waits for.
#[derive(Debug, Clone, Copy, PartialEq, Eq, Structural)]
pub enum ReplPhase {
    /// A line of input.
    Prompting,
    /// The events of a turn; lines steer it.
    InTurn,
    /// The answer to a permission prompt.
    Answering,
    /// Nothing: it is over.
    Over,
}

/// What happened.
pub enum ReplInput {
    /// The user typed a line.
    Line(String),
    /// There is no more input.
    EndOfInput,
    /// The user interrupted; `again` says that this follows shortly on another interrupt.
    Interrupt { again: bool },
    /// An event of the turn.
    Event(StreamEvent),
    /// The turn ended, with an error where it failed.
    TurnEnded(Option<String>),
    /// Every event of the turn has been seen.
    EventsOver,
}

/// What happened, as a mathematical object.
pub enum HappenedView {
    Line(Seq<char>),
    EndOfInput,
    Interrupt { again: bool },
    Event(UiView),
    TurnEnded(Option<Seq<char>>),
    EventsOver,
}

impl View for ReplInput {
    type V = HappenedView;

    open spec fn view(&self) -> HappenedView {
        match self {
            ReplInput::Line(line) => HappenedView::Line(line@),
            ReplInput::EndOfInput => HappenedView::EndOfInput,
            ReplInput::Interrupt { again } => HappenedView::Interrupt { again: *again },
            ReplInput::Event(event) => HappenedView::Event(event@),
            ReplInput::TurnEnded(error) => HappenedView::TurnEnded(text_option(*error)),
            ReplInput::EventsOver => HappenedView::EventsOver,
        }
    }
}

/// What is to be done.
pub enum ReplAction {
    /// Nothing.
    Wait,
    /// Run a turn with this message.
    StartTurn(String),
    /// Queue this message for the model.
    Queue(String),
    /// Cancel the turn.
    CancelTurn,
    /// Answer the permission prompt.
    Answer(PermissionResponse),
    /// Do what a command asks for, then show the prompt.
    Do(LineAction),
    /// Save the conversation.
    Save,
    /// Save the conversation and end the program.
    SaveAndQuit,
    /// End the program.
    Quit,
}

/// What is to be done, as a mathematical object.
pub enum ReplToDo {
    Wait,
    StartTurn(Seq<char>),
    Queue(Seq<char>),
    CancelTurn,
    Answer(ResponseView),
    Do(ActionView),
    Save,
    SaveAndQuit,
    Quit,
}

impl View for ReplAction {
    type V = ReplToDo;

    open spec fn view(&self) -> ReplToDo {
        match self {
            ReplAction::Wait => ReplToDo::Wait,
            ReplAction::StartTurn(message) => ReplToDo::StartTurn(message@),
            ReplAction::Queue(message) => ReplToDo::Queue(message@),
            ReplAction::CancelTurn => ReplToDo::CancelTurn,
            ReplAction::Answer(response) => ReplToDo::Answer(response@),
            ReplAction::Do(action) => ReplToDo::Do(action@),
            ReplAction::Save => ReplToDo::Save,
            ReplAction::SaveAndQuit => ReplToDo::SaveAndQuit,
            ReplAction::Quit => ReplToDo::Quit,
        }
    }
}

/// What is written, and then done.
pub struct Reaction {
    /// To standard error, first.
    pub err: String,
    /// To standard output.
    pub out: String,
    pub action: ReplAction,
}

/// What is written and done, as a mathematical object.
pub struct ReactionView {
    pub err: Seq<char>,
    pub out: Seq<char>,
    pub todo: ReplToDo,
}

impl View for Reaction {
    type V = ReactionView;

    open spec fn view(&self) -> ReactionView {
        ReactionView { err: self.err@, out: self.out@, todo: self.action@ }
    }
}

/// The line-based interface.
pub struct Repl {
    phase: ReplPhase,
    screen: Screen,
    asked_tool: String,
    asked_input: Json,
    ended: bool,
    failure: Option<String>,
}

/// The line-based interface, as a mathematical object.
pub struct ReplView {
    pub phase: ReplPhase,
    pub screen: Screen,
    /// The tool that the user was last asked about.
    pub asked_tool: Seq<char>,
    /// The input of that tool.
    pub asked_input: JsonView,
    /// Whether the turn has ended, though not all of its events may have been seen.
    pub ended: bool,
    /// Why the turn failed.
    pub failure: Option<Seq<char>>,
}

impl View for Repl {
    type V = ReplView;

    closed spec fn view(&self) -> ReplView {
        ReplView {
            phase: self.phase,
            screen: self.screen,
            asked_tool: self.asked_tool@,
            asked_input: self.asked_input@,
            ended: self.ended,
            failure: text_option(self.failure),
        }
    }
}

impl ReplView {
    /// Whether this can happen now. A line that is typed when a turn has ended waits for
    /// the prompt; an interrupt waits for the answer to a permission prompt.
    pub open spec fn awaits(self, input: HappenedView) -> bool {
        match self.phase {
            ReplPhase::Prompting => input is Line || input is EndOfInput || input is Interrupt,
            ReplPhase::InTurn => match input {
                HappenedView::Line(_) => !self.ended,
                HappenedView::TurnEnded(_) => !self.ended,
                HappenedView::EndOfInput => false,
                _ => true,
            },
            ReplPhase::Answering => input is Line || input is EndOfInput,
            ReplPhase::Over => false,
        }
    }

    /// The interface in a turn that begins.
    pub open spec fn in_new_turn(self) -> ReplView {
        ReplView {
            phase: ReplPhase::InTurn,
            screen: Screen { in_tool: false, first_text: true },
            ended: false,
            failure: None,
            ..self
        }
    }

    /// The interface after something happened.
    pub open spec fn after(self, input: HappenedView) -> ReplView {
        match (self.phase, input) {
            (ReplPhase::Prompting, HappenedView::Line(line)) => match line_action(line) {
                ActionView::Prompt(_) => self.in_new_turn(),
                ActionView::Exit => ReplView { phase: ReplPhase::Over, ..self },
                _ => self,
            },
            (ReplPhase::Prompting, HappenedView::EndOfInput) => ReplView {
                phase: ReplPhase::Over,
                ..self
            },
            (ReplPhase::Prompting, HappenedView::Interrupt { again }) => if again {
                ReplView { phase: ReplPhase::Over, ..self }
            } else {
                self
            },
            (ReplPhase::InTurn, HappenedView::Event(event)) => {
                let shown = ReplView { screen: self.screen.after(event), ..self };
                match event {
                    UiView::PermissionRequest { tool_name, input, .. } => ReplView {
                        phase: ReplPhase::Answering,
                        asked_tool: tool_name,
                        asked_input: input,
                        ..shown
                    },
                    _ => shown,
                }
            },
            (ReplPhase::InTurn, HappenedView::Interrupt { again }) => if again {
                ReplView { phase: ReplPhase::Over, ..self }
            } else {
                self
            },
            (ReplPhase::InTurn, HappenedView::TurnEnded(failure)) => ReplView {
                ended: true,
                failure,
                ..self
            },
            (ReplPhase::InTurn, HappenedView::EventsOver) => ReplView {
                phase: ReplPhase::Prompting,
                ..self
            },
            (ReplPhase::Answering, _) => ReplView { phase: ReplPhase::InTurn, ..self },
            _ => self,
        }
    }

    /// What is shown for a turn that failed.
    pub open spec fn failure_text(self) -> Seq<char> {
        match self.failure {
            Some(error) => "\n\x1b[31mError: "@ + error + "\x1b[0m\n\n"@,
            None => ""@,
        }
    }

    /// What is written and done when something happened.
    pub open spec fn reaction(self, input: HappenedView, model: Seq<char>) -> ReactionView {
        let quiet = ReactionView { err: ""@, out: ""@, todo: ReplToDo::Wait };
        match (self.phase, input) {
            (ReplPhase::Prompting, HappenedView::Line(line)) => match line_action(line) {
                ActionView::Prompt(message) => ReactionView {
                    out: THINKING@,
                    todo: ReplToDo::StartTurn(message),
                    ..quiet
                },
                ActionView::Exit => ReactionView { todo: ReplToDo::Quit, ..quiet },
                ActionView::Ignore => ReactionView { out: PROMPT@, ..quiet },
                action => ReactionView { todo: ReplToDo::Do(action), ..quiet },
            },
            (ReplPhase::Prompting, HappenedView::EndOfInput) => ReactionView {
                todo: ReplToDo::Quit,
                ..quiet
            },
            (ReplPhase::Prompting, HappenedView::Interrupt { again }) => if again {
                ReactionView { todo: ReplToDo::Quit, ..quiet }
            } else {
                ReactionView { out: PRESS_AGAIN@, ..quiet }
            },
            (ReplPhase::InTurn, HappenedView::Line(line)) => if trimmed(line).len() == 0 {
                quiet
            } else {
                ReactionView {
                    out: "\n  \x1b[2m↳ queued for the model: "@ + trimmed(line) + "\x1b[0m\n"@,
                    todo: ReplToDo::Queue(trimmed(line)),
                    ..quiet
                }
            },
            (ReplPhase::InTurn, HappenedView::Event(event)) => {
                let written = self.screen.written(event, model);
                ReactionView { err: written.err, out: written.out, ..quiet }
            },
            (ReplPhase::InTurn, HappenedView::Interrupt { again }) => if again {
                ReactionView {
                    err: self.failure_text(),
                    out: ABANDONED@,
                    todo: ReplToDo::SaveAndQuit,
                }
            } else {
                ReactionView { out: INTERRUPTING@, todo: ReplToDo::CancelTurn, ..quiet }
            },
            (ReplPhase::InTurn, HappenedView::EventsOver) => ReactionView {
                err: self.failure_text(),
                out: PROMPT@,
                todo: ReplToDo::Save,
            },
            (ReplPhase::Answering, HappenedView::Line(line)) => ReactionView {
                todo: ReplToDo::Answer(
                    permission_answer(
                        self.asked_tool,
                        self.asked_input,
                        lowercased(trimmed(line)),
                    ),
                ),
                ..quiet
            },
            (ReplPhase::Answering, _) => ReactionView {
                todo: ReplToDo::Answer(
                    permission_answer(
                        self.asked_tool,
                        self.asked_input,
                        lowercased(trimmed(""@)),
                    ),
                ),
                ..quiet
            },
            _ => quiet,
        }
    }
}

fn wait() -> (r: Reaction)
    ensures
        r@ == (ReactionView { err: ""@, out: ""@, todo: ReplToDo::Wait }),
{
    Reaction { err: "".to_owned(), out: "".to_owned(), action: ReplAction::Wait }
}

fn act(action: ReplAction) -> (r: Reaction)
    ensures
        r@ == (ReactionView { err: ""@, out: ""@, todo: action@ }),
{
    Reaction { err: "".to_owned(), out: "".to_owned(), action }
}

fn say(out: &str, action: ReplAction) -> (r: Reaction)
    ensures
        r@ == (ReactionView { err: ""@, out: out@, todo: action@ }),
{
    Reaction { err: "".to_owned(), out: out.to_owned(), action }
}

impl Repl {
    /// The interface at its first prompt.
    pub fn new() -> (r: Repl)
        ensures
            r@.phase == ReplPhase::Prompting,
            r@.screen == (Screen { in_tool: false, first_text: true }),
            !r@.ended,
            r@.failure is None,
    {
        Repl {
            phase: ReplPhase::Prompting,
            screen: Screen::new(),
            asked_tool: String::new(),
            asked_input: Json::Null,
            ended: false,
            failure: None,
        }
    }

    /// What the interface waits for.
    pub fn phase(&self) -> (r: ReplPhase)
        ensures
            r == self@.phase,
    {
        self.phase
    }

    /// Whether the turn that runs has ended.
    pub fn turn_ended(&self) -> (r: bool)
        ensures
            r == self@.ended,
    {
        self.ended
    }

    fn failed(&self) -> (r: String)
        ensures
            r@ == self@.failure_text(),
    {
        match &self.failure {
            Some(error) => {
                let mut out = "\n\x1b[31mError: ".to_owned();
                out.append(error.as_str());
                out.append("\x1b[0m\n\n");
                out
            },
            None => "".to_owned(),
        }
    }

    fn at_prompt(&mut self, line: &str) -> (r: Reaction)
        requires
            old(self)@.phase == ReplPhase::Prompting,
        ensures
            final(self)@ == old(self)@.after(HappenedView::Line(line@)),
            forall|model: Seq<char>|
                r@ == #[trigger] old(self)@.reaction(HappenedView::Line(line@), model),
    {
        match read_input(line) {
            LineAction::Prompt(message) => {
                self.phase = ReplPhase::InTurn;
                self.screen = Screen::new();
                self.ended = false;
                self.failure = None;
                say(THINKING, ReplAction::StartTurn(message))
            },
            LineAction::Exit => {
                self.phase = ReplPhase::Over;
                act(ReplAction::Quit)
            },
            LineAction::Ignore => say(PROMPT, ReplAction::Wait),
            action => act(ReplAction::Do(action)),
        }
    }

    fn in_turn(&mut self, input: ReplInput, model: &str) -> (r: Reaction)
        requires
            old(self)@.phase == ReplPhase::InTurn,
            old(self)@.awaits(input@),
        ensures
            final(self)@ == old(self)@.after(input@),
            r@ == old(self)@.reaction(input@, model@),
    {
        match input {
            ReplInput::Line(line) => match steering_line(line.as_str()) {
                Some(message) => {
                    let mut out = "\n  \x1b[2m↳ queued for the model: ".to_owned();
                    out.append(message.as_str());
                    out.append("\x1b[0m\n");
                    Reaction { err: "".to_owned(), out, action: ReplAction::Queue(message) }
                },
                None => wait(),
            },
            ReplInput::EndOfInput => wait(),
            ReplInput::Interrupt { again } => if again {
                let err = self.failed();
                self.phase = ReplPhase::Over;
                Reaction { err, out: ABANDONED.to_owned(), action: ReplAction::SaveAndQuit }
            } else {
                say(INTERRUPTING, ReplAction::CancelTurn)
            },
            ReplInput::Event(event) => {
                let written = self.screen.show(&event, model);
                match event {
                    StreamEvent::PermissionRequest { tool_name, input, .. } => {
                        self.phase = ReplPhase::Answering;
                        self.asked_tool = tool_name;
                        self.asked_input = input;
                    },
                    _ => {},
                }
                Reaction { err: written.err, out: written.out, action: ReplAction::Wait }
            },
            ReplInput::TurnEnded(failure) => {
                self.ended = true;
                self.failure = failure;
                wait()
            },
            ReplInput::EventsOver => {
                let err = self.failed();
                self.phase = ReplPhase::Prompting;
                Reaction { err, out: PROMPT.to_owned(), action: ReplAction::Save }
            },
        }
    }

    /// Takes what happened: what is written and done for it. `model` is the name of the
    /// model that answers.
    pub fn take(&mut self, input: ReplInput, model: &str) -> (r: Reaction)
        requires
            old(self)@.awaits(input@),
        ensures
            final(self)@ == old(self)@.after(input@),
            r@ == old(self)@.reaction(input@, model@),
    {
        match self.phase {
            ReplPhase::Prompting => match input {
                ReplInput::Line(line) => {
                    let ghost before = self@;
                    let r = self.at_prompt(line.as_str());
                    assert(r@ == before.reaction(HappenedView::Line(line@), model@));
                    r
                },
                ReplInput::Interrupt { again: false } => say(PRESS_AGAIN, ReplAction::Wait),
                _ => {
                    self.phase = ReplPhase::Over;
                    act(ReplAction::Quit)
                },
            },
            ReplPhase::InTurn => self.in_turn(input, model),
            ReplPhase::Answering => {
                let line = match input {
                    ReplInput::Line(line) => line,
                    _ => "".to_owned(),
                };
                self.phase = ReplPhase::InTurn;
                act(
                    ReplAction::Answer(
                        parse_permission_response(
                            self.asked_tool.as_str(),
                            &self.asked_input,
                            line.as_str(),
                        ),
                    ),
                )
            },
            ReplPhase::Over => wait(),
        }
    }
}

/// What is shown when the interface starts.
pub open spec fn greeting_text(version: Seq<char>, model: Seq<char>) -> Seq<char> {
    "\x1b[1;36mclaux\x1b[0m v"@ + version + "\nModel: \x1b[33m"@ + model
        + "\x1b[0m\nType /help for commands, Ctrl+D (or double Ctrl+C) to exit.\n\x1b[2mWhile claux is working, type a message and press Enter to steer it.\x1b[0m\n\n"@
}

/// What is shown when the interface starts.
pub fn greeting(version: &str, model: &str) -> (r: String)
    ensures
        r@ == greeting_text(version@, model@),
{
    let mut out = "\x1b[1;36mclaux\x1b[0m v".to_owned();
    out.append(version);
    out.append("\nModel: \x1b[33m");
    out.append(model);
    out.append(
        "\x1b[0m\nType /help for commands, Ctrl+D (or double Ctrl+C) to exit.\n\x1b[2mWhile claux is working, type a message and press Enter to steer it.\x1b[0m\n\n",
    );
    out
}

/// What is shown when the interface ends. The amount is the shown cost in dollars, written
/// with its decimals.
pub fn farewell(cost: &CostTracker, amount: &str) -> (r: String)
    ensures
        r@ == "\n"@ + summary(*cost, amount@) + "\nGoodbye!\n"@,
{
    let total = cost.format_summary(amount);
    let mut out = "\n".to_owned();
    out.append(total.as_str());
    out.append("\nGoodbye!\n");
    out
}

/// What is shown when another session is taken up.
pub fn resumed_line(id: &str, messages: usize) -> (r: String)
    ensures
        r@ == "Resumed session \x1b[33m"@ + id@ + "\x1b[0m ("@ + decimal(messages as nat)
            + " messages)\n"@,
{
    let mut out = "Resumed session \x1b[33m".to_owned();
    out.append(id);
    out.append("\x1b[0m (");
    text::push_decimal(&mut out, messages as u64);
    out.append(" messages)\n");
    out
}

/// What is shown when another model is used.
pub fn model_set_line(display_name: &str, provider_name: &str) -> (r: String)
    ensures
        r@ == "Model set to \x1b[33m"@ + display_name@ + "\x1b[0m via "@ + provider_name@ + "\n"@,
{
    let mut out = "Model set to \x1b[33m".to_owned();
    out.append(display_name);
    out.append("\x1b[0m via ");
    out.append(provider_name);
    out.append("\n");
    out
}

/// A permission prompt is answered by the next line and by nothing else: no line that is
/// typed then steers the turn, starts another or runs a command, and an interrupt waits.
pub proof fn law_prompt_takes_the_next_line(r: ReplView, input: HappenedView, model: Seq<char>)
    requires
        r.phase == ReplPhase::Answering,
        r.awaits(input),
    ensures
        input is Line || input is EndOfInput,
        r.reaction(input, model).todo is Answer,
        r.after(input).phase == ReplPhase::InTurn,
{
}

/// Lines that are typed while a turn runs are messages for the model, whatever they say:
/// each that is not blank is queued as it was typed, but for the blanks around it, and
/// the turn goes on.
pub proof fn law_lines_steer(r: ReplView, line: Seq<char>, model: Seq<char>)
    requires
        r.phase == ReplPhase::InTurn,
        trimmed(line).len() > 0,
    ensures
        r.reaction(HappenedView::Line(line), model).todo == ReplToDo::Queue(trimmed(line)),
        r.after(HappenedView::Line(line)) == r,
{
}

/// One interrupt never ends the program: at the prompt it only warns, and during a turn
/// it cancels the turn.
pub proof fn law_one_interrupt_warns(r: ReplView, model: Seq<char>)
    requires
        r.phase == ReplPhase::Prompting || r.phase == ReplPhase::InTurn,
    ensures
        r.after(HappenedView::Interrupt { again: false }) == r,
        r.reaction(HappenedView::Interrupt { again: false }, model).todo == if r.phase
            == ReplPhase::InTurn {
            ReplToDo::CancelTurn
        } else {
            ReplToDo::Wait
        },
{
}

/// What a turn did is saved: the interface leaves a turn only by saving the conversation.
pub proof fn law_turns_are_saved(r: ReplView, input: HappenedView, model: Seq<char>)
    requires
        r.phase == ReplPhase::InTurn,
        r.awaits(input),
        r.after(input).phase == ReplPhase::Prompting || r.after(input).phase == ReplPhase::Over,
    ensures
        r.reaction(input, model).todo is Save || r.reaction(input, model).todo is SaveAndQuit,
{
}

} // verus!
