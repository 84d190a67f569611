//! A turn from beginning to end: which step follows which. What a step waits for (a
//! response, the output of tools, a compaction) is done outside and handed back.

use vstd::prelude::*;
use crate::api::error::{ApiFailure, ApiFailureKind, FailureView};
use crate::api::stream::{ApiEvent, EventView};
use crate::api::types::{
    block_views, blocks_of, user_text, BlockView, ContentBlock, Message, MessageView,
};
use crate::batch::{
    law_one_result_each, law_turn_keeps_pairs, lemma_reasoning_has_no_ids, reasoning_only,
    result_blocks,
};
use crate::compact::{law_snip_keeps_pairs, snip_point, snipped};
use crate::pairing::{
    lemma_open_after_concat, lemma_open_after_push, message_blocks, nothing_open, open_after_all,
    paired, result_ids, use_ids,
};
use crate::query::{
    after_event, after_failed_request, end_events, law_reasoning_only, recorded, settled,
    steering_events, steering_messages, summarized, tool_call_views, ui_views, Engine, EngineView,
    Outcome, OutputView, StepView, StreamEvent, ToolCall, Turn, TurnStep, TurnView, UiView,
};
use crate::text::texts;

verus! {

/// What a turn waits for.
#[derive(Debug, Clone, Copy, PartialEq, Eq, Structural)]
pub enum Phase {
    /// The steering messages that go into the next request.
    Draining,
    /// The response to a request.
    Listening,
    /// A shorter conversation.
    Compacting,
    /// The results of tools.
    RunningTools,
    /// Nothing: it is over.
    Over,
}

/// What a turn waited for.
pub enum TurnInput {
    /// The steering messages that waited, and whether the turn was cancelled.
    Drained { steering: Vec<String>, cancelled: bool },
    /// The request failed before any response came.
    RequestFailed { failure: ApiFailure, cancelled: bool },
    /// An event of the response, with the summary of a tool call and the charge that was
    /// reported for usage.
    Event { event: ApiEvent, summary: String, charge: Option<u128> },
    /// The stream of the response ended without saying that it is complete.
    StreamEnded,
    /// The turn was cancelled while the response came.
    Cancelled,
    /// The conversation was compacted, unless that failed.
    Compacted(Option<ApiFailure>),
    /// The results of the tools, and whether they were interrupted.
    ToolsDone { results: Vec<ContentBlock>, interrupted: bool },
}

/// What a turn waited for, as a mathematical object.
pub enum InputView {
    Drained { steering: Seq<Seq<char>>, cancelled: bool },
    RequestFailed { failure: FailureView, cancelled: bool },
    Event { event: EventView, summary: Seq<char>, charge: Option<u128> },
    StreamEnded,
    Cancelled,
    Compacted(Option<FailureView>),
    ToolsDone { results: Seq<BlockView>, interrupted: bool },
}

impl View for TurnInput {
    type V = InputView;

    open spec fn view(&self) -> InputView {
        match self {
            TurnInput::Drained { steering, cancelled } => InputView::Drained {
                steering: texts(steering@),
                cancelled: *cancelled,
            },
            TurnInput::RequestFailed { failure, cancelled } => InputView::RequestFailed {
                failure: failure@,
                cancelled: *cancelled,
            },
            TurnInput::Event { event, summary, charge } => InputView::Event {
                event: event@,
                summary: summary@,
                charge: *charge,
            },
            TurnInput::StreamEnded => InputView::StreamEnded,
            TurnInput::Cancelled => InputView::Cancelled,
            TurnInput::Compacted(failure) => InputView::Compacted(
                match failure {
                    Some(f) => Some(f@),
                    None => None,
                },
            ),
            TurnInput::ToolsDone { results, interrupted } => InputView::ToolsDone {
                results: block_views(results@),
                interrupted: *interrupted,
            },
        }
    }
}

/// What is to be done for a turn.
pub enum TurnAction {
    /// Take the steering messages that wait.
    Drain,
    /// Send a request with this system prompt.
    Send(String),
    /// Wait for the response.
    Listen,
    /// Compact the conversation.
    Compact,
    /// Run the tools that the response calls.
    RunTools,
    /// Nothing: the turn is over.
    Finish,
    /// Nothing: the turn has failed.
    Fail(ApiFailure),
}

/// What is to be done for a turn, as a mathematical object.
pub enum ToDo {
    Drain,
    Send(Seq<char>),
    Listen,
    Compact,
    RunTools,
    Finish,
    Fail(FailureView),
}

impl View for TurnAction {
    type V = ToDo;

    open spec fn view(&self) -> ToDo {
        match self {
            TurnAction::Drain => ToDo::Drain,
            TurnAction::Send(prompt) => ToDo::Send(prompt@),
            TurnAction::Listen => ToDo::Listen,
            TurnAction::Compact => ToDo::Compact,
            TurnAction::RunTools => ToDo::RunTools,
            TurnAction::Finish => ToDo::Finish,
            TurnAction::Fail(failure) => ToDo::Fail(failure@),
        }
    }
}

/// A turn that runs.
pub struct TurnLoop {
    turn: Turn,
    phase: Phase,
}

/// A turn that runs, as a mathematical object.
pub struct LoopView {
    pub turn: TurnView,
    pub phase: Phase,
}

impl View for TurnLoop {
    type V = LoopView;

    closed spec fn view(&self) -> LoopView {
        LoopView { turn: self.turn@, phase: self.phase }
    }
}

/// What a step of a turn leads to.
pub struct Stepped {
    pub engine: EngineView,
    pub turn: LoopView,
    pub events: Seq<UiView>,
    pub todo: ToDo,
}

/// Whether a turn waits for such an input.
pub open spec fn awaits(phase: Phase, input: InputView) -> bool {
    match input {
        InputView::Drained { .. } => phase == Phase::Draining,
        InputView::RequestFailed { .. } => phase == Phase::Listening,
        InputView::Event { .. } => phase == Phase::Listening,
        InputView::StreamEnded => phase == Phase::Listening,
        InputView::Cancelled => phase == Phase::Listening,
        InputView::Compacted(_) => phase == Phase::Compacting,
        InputView::ToolsDone { .. } => phase == Phase::RunningTools,
    }
}

/// Where a step leads, and what is to be done then.
pub open spec fn led_to(step: StepView) -> (Phase, ToDo) {
    match step {
        StepView::Listen => (Phase::Listening, ToDo::Listen),
        StepView::Request => (Phase::Draining, ToDo::Drain),
        StepView::CompactAndRequest => (Phase::Compacting, ToDo::Compact),
        StepView::Complete => (Phase::RunningTools, ToDo::RunTools),
        StepView::Stop => (Phase::Over, ToDo::Finish),
        StepView::Fail(failure) => (Phase::Over, ToDo::Fail(failure)),
    }
}

/// A step after which nothing of the conversation changed.
pub open spec fn same_conversation(engine: EngineView, outcome: Outcome) -> Stepped {
    let (phase, todo) = led_to(outcome.step);
    Stepped {
        engine: EngineView { max_tokens: outcome.max_tokens, ..engine },
        turn: LoopView { turn: outcome.turn, phase },
        events: outcome.events,
        todo,
    }
}

/// The end of a response, which was cut off or is complete.
pub open spec fn response_over(engine: EngineView, turn: TurnView, interrupted: bool) -> Stepped {
    let over = interrupted || turn.tool_uses.len() == 0;
    Stepped {
        engine: EngineView { messages: recorded(engine.messages, turn, interrupted), ..engine },
        turn: LoopView {
            turn: settled(turn),
            phase: if over {
                Phase::Over
            } else {
                Phase::RunningTools
            },
        },
        events: end_events(turn, interrupted),
        todo: if over {
            ToDo::Finish
        } else {
            ToDo::RunTools
        },
    }
}

/// The next request, unless the turn was cancelled.
pub open spec fn request_ready(
    engine: EngineView,
    turn: TurnView,
    steering: Seq<Seq<char>>,
    cancelled: bool,
) -> Stepped {
    let after = EngineView {
        messages: engine.messages + steering_messages(steering),
        ..engine
    };
    if cancelled {
        Stepped {
            engine: after,
            turn: LoopView { turn: turn.awaiting(), phase: Phase::Over },
            events: steering_events(steering).push(UiView::Interrupted),
            todo: ToDo::Finish,
        }
    } else {
        Stepped {
            engine: after,
            turn: LoopView { turn: turn.awaiting(), phase: Phase::Listening },
            events: steering_events(steering),
            todo: ToDo::Send(
                match turn.retry_prompt {
                    Some(prompt) => engine.system_prompt + "\n\n"@ + prompt,
                    None => engine.system_prompt,
                },
            ),
        }
    }
}

/// What an input leads to.
pub open spec fn stepped(engine: EngineView, l: LoopView, input: InputView) -> Stepped {
    match input {
        InputView::Drained { steering, cancelled } => request_ready(
            engine,
            l.turn,
            steering,
            cancelled,
        ),
        InputView::RequestFailed { failure, cancelled } => same_conversation(
            engine,
            after_failed_request(l.turn, engine.max_tokens, failure, cancelled),
        ),
        InputView::Event { event, summary, charge } => match event {
            EventView::Done => response_over(engine, l.turn, false),
            EventView::Usage(usage) => Stepped {
                engine: EngineView { cost: engine.cost.after(usage, charge), ..engine },
                turn: l,
                events: Seq::empty(),
                todo: ToDo::Listen,
            },
            _ => same_conversation(engine, after_event(l.turn, engine.max_tokens, event, summary)),
        },
        InputView::StreamEnded => {
            let message = "API stream ended without completion"@;
            Stepped {
                engine,
                turn: LoopView { turn: l.turn, phase: Phase::Over },
                events: seq![UiView::Error(message)],
                todo: ToDo::Fail(FailureView { kind: ApiFailureKind::Other, message }),
            }
        },
        InputView::Cancelled => response_over(engine, l.turn, true),
        InputView::Compacted(failed) => match failed {
            Some(failure) => Stepped {
                engine,
                turn: LoopView { turn: l.turn, phase: Phase::Over },
                events: Seq::empty(),
                todo: ToDo::Fail(failure),
            },
            None => Stepped {
                engine,
                turn: LoopView { turn: l.turn, phase: Phase::Draining },
                events: Seq::empty(),
                todo: ToDo::Drain,
            },
        },
        InputView::ToolsDone { results, interrupted } => Stepped {
            engine: EngineView {
                messages: engine.messages.push(blocks_of("user"@, results)),
                ..engine
            },
            turn: LoopView {
                turn: l.turn,
                phase: if interrupted {
                    Phase::Over
                } else {
                    Phase::Draining
                },
            },
            events: if interrupted {
                seq![UiView::Interrupted]
            } else {
                Seq::empty()
            },
            todo: if interrupted {
                ToDo::Finish
            } else {
                ToDo::Drain
            },
        },
    }
}

impl TurnLoop {
    /// A turn with the user's message. `compacted` says that the conversation was
    /// compacted to make room for it. The steering messages that wait come first.
    pub fn begin(engine: &mut Engine, message: Message, compacted: bool) -> (r: (
        TurnLoop,
        Vec<StreamEvent>,
    ))
        ensures
            r.0@ == (LoopView { turn: TurnView::start(), phase: Phase::Draining }),
            ui_views(r.1@) == if compacted {
                seq![UiView::Notice("conversation auto-compacted to free context"@)]
            } else {
                Seq::empty()
            },
            final(engine)@ == (EngineView {
                messages: old(engine)@.messages.push(message@),
                ..old(engine)@
            }),
    {
        let (turn, events) = engine.begin_turn(message, compacted);
        (TurnLoop { turn, phase: Phase::Draining }, events)
    }

    /// What the turn waits for.
    pub fn phase(&self) -> (r: Phase)
        ensures
            r == self@.phase,
    {
        self.phase
    }

    /// The tool calls of the last response.
    pub fn tool_uses(&self) -> (r: &Vec<ToolCall>)
        ensures
            tool_call_views(r@) == self@.turn.tool_uses,
    {
        self.turn.tool_uses()
    }

    fn go(&mut self, step: TurnStep) -> (r: TurnAction)
        ensures
            final(self)@.turn == old(self)@.turn,
            (final(self)@.phase, r@) == led_to(step@),
    {
        match step {
            TurnStep::Listen => {
                self.phase = Phase::Listening;
                TurnAction::Listen
            },
            TurnStep::Request => {
                self.phase = Phase::Draining;
                TurnAction::Drain
            },
            TurnStep::CompactAndRequest => {
                self.phase = Phase::Compacting;
                TurnAction::Compact
            },
            TurnStep::Complete => {
                self.phase = Phase::RunningTools;
                TurnAction::RunTools
            },
            TurnStep::Stop => {
                self.phase = Phase::Over;
                TurnAction::Finish
            },
            TurnStep::Fail(failure) => {
                self.phase = Phase::Over;
                TurnAction::Fail(failure)
            },
        }
    }

    /// Takes what the turn waited for: the events for the user, and what is to be done
    /// next.
    pub fn advance(&mut self, engine: &mut Engine, input: TurnInput) -> (r: (
        Vec<StreamEvent>,
        TurnAction,
    ))
        requires
            awaits(old(self)@.phase, input@),
            input@ matches InputView::Event { event: EventView::Usage(usage), charge, .. }
                ==> old(engine)@.cost.has_room(usage, charge),
        ensures
            ({
                let step = stepped(old(engine)@, old(self)@, input@);
                &&& final(engine)@ == step.engine
                &&& final(self)@ == step.turn
                &&& ui_views(r.0@) == step.events
                &&& r.1@ == step.todo
            }),
    {
        match input {
            TurnInput::Drained { steering, cancelled } => {
                let (events, prompt) = engine.next_request(&mut self.turn, &steering, cancelled);
                match prompt {
                    Some(prompt) => {
                        self.phase = Phase::Listening;
                        (events, TurnAction::Send(prompt))
                    },
                    None => {
                        self.phase = Phase::Over;
                        (events, TurnAction::Finish)
                    },
                }
            },
            TurnInput::RequestFailed { failure, cancelled } => {
                let (events, step) = engine.request_failed(&mut self.turn, &failure, cancelled);
                let action = self.go(step);
                (events, action)
            },
            TurnInput::Event { event, summary, charge } => {
                match event {
                    ApiEvent::Done => {
                        let (events, step) = engine.complete_response(&mut self.turn, false);
                        let action = self.go(step);
                        (events, action)
                    },
                    other => {
                        let (events, step) = engine.take_event(
                            &mut self.turn,
                            other,
                            summary.as_str(),
                            charge,
                        );
                        let action = self.go(step);
                        (events, action)
                    },
                }
            },
            TurnInput::StreamEnded => {
                let (events, step) = engine.stream_ended();
                let action = self.go(step);
                (events, action)
            },
            TurnInput::Cancelled => {
                let (events, step) = engine.complete_response(&mut self.turn, true);
                let action = self.go(step);
                (events, action)
            },
            TurnInput::Compacted(failed) => {
                let none: Vec<StreamEvent> = Vec::new();
                assert(ui_views(none@) =~= Seq::empty());
                match failed {
                    Some(failure) => {
                        self.phase = Phase::Over;
                        (none, TurnAction::Fail(failure))
                    },
                    None => {
                        self.phase = Phase::Draining;
                        (none, TurnAction::Drain)
                    },
                }
            },
            TurnInput::ToolsDone { results, interrupted } => {
                let (events, step) = engine.finish_batch(results, interrupted);
                let action = self.go(step);
                (events, action)
            },
        }
    }
}

/// The ids of the tool calls of a turn.
pub open spec fn call_ids(turn: TurnView) -> Seq<Seq<char>> {
    Seq::new(turn.tool_uses.len(), |i: int| turn.tool_uses[i].id)
}

/// Whether results answer the tool calls of a turn, and nothing else.
pub open spec fn answers(results: Seq<BlockView>, turn: TurnView) -> bool {
    &&& result_ids(results).len() > 0
    &&& result_ids(results).to_set() == call_ids(turn).to_set()
    &&& use_ids(results).len() == 0
}

/// What holds of a turn and its conversation between any two steps: the conversation is
/// valid, but for the tool calls of the turn while their tools run.
pub open spec fn sound(messages: Seq<MessageView>, l: LoopView) -> bool {
    &&& reasoning_only(l.turn)
    &&& match l.phase {
        Phase::RunningTools => {
            &&& l.turn.tool_uses.len() > 0
            &&& open_after_all(nothing_open(), messages) == Some(call_ids(l.turn).to_set())
        },
        _ => paired(messages),
    }
}

proof fn lemma_texts_leave_nothing_open(steering: Seq<Seq<char>>)
    ensures
        paired(steering_messages(steering)),
    decreases steering.len(),
{
    let all = steering_messages(steering);
    if steering.len() > 0 {
        lemma_texts_leave_nothing_open(steering.drop_last());
        assert(all.drop_last() =~= steering_messages(steering.drop_last()));
        let last = user_text(steering.last());
        assert(message_blocks(last) =~= Seq::empty());
        assert(use_ids(message_blocks(last)).to_set() =~= Set::<Seq<char>>::empty());
    }
}

/// A batch of tools answers the calls of its turn.
pub proof fn law_batch_answers(turn: TurnView, outputs: Seq<Option<OutputView>>)
    requires
        turn.tool_uses.len() > 0,
        outputs.len() == turn.tool_uses.len(),
    ensures
        answers(result_blocks(turn.tool_uses, outputs), turn),
{
    law_one_result_each(turn.tool_uses, outputs);
    assert(result_ids(result_blocks(turn.tool_uses, outputs)) =~= call_ids(turn));
}

/// A turn begins soundly in a valid conversation, where the user's message calls and
/// answers no tool.
pub proof fn law_turn_begins_soundly(messages: Seq<MessageView>, message: MessageView)
    requires
        paired(messages),
        use_ids(message_blocks(message)).len() == 0,
        result_ids(message_blocks(message)).len() == 0,
    ensures
        sound(
            messages.push(message),
            LoopView { turn: TurnView::start(), phase: Phase::Draining },
        ),
{
    lemma_open_after_push(messages, message);
    assert(use_ids(message_blocks(message)).to_set() =~= Set::<Seq<char>>::empty());
}

/// Every step of a turn keeps it sound, whatever the provider, the tools and the user do;
/// and no request is ever sent with a conversation that is not valid.
pub proof fn law_steps_stay_sound(engine: EngineView, l: LoopView, input: InputView)
    requires
        sound(engine.messages, l),
        awaits(l.phase, input),
        input matches InputView::ToolsDone { results, .. } ==> answers(results, l.turn),
    ensures
        ({
            let step = stepped(engine, l, input);
            &&& sound(step.engine.messages, step.turn)
            &&& step.todo is Send ==> paired(step.engine.messages)
        }),
{
    let messages = engine.messages;
    match input {
        InputView::Drained { steering, cancelled } => {
            lemma_texts_leave_nothing_open(steering);
            lemma_open_after_concat(nothing_open(), messages, steering_messages(steering));
        },
        InputView::RequestFailed { failure, cancelled } => {},
        InputView::Event { event, summary, charge } => match event {
            EventView::Done => {
                lemma_response_over(messages, l.turn);
            },
            EventView::Usage(usage) => {},
            _ => {
                law_reasoning_only(l.turn, engine.max_tokens, event, summary);
            },
        },
        InputView::StreamEnded => {},
        InputView::Cancelled => {
            lemma_response_over(messages, l.turn);
        },
        InputView::Compacted(failed) => {},
        InputView::ToolsDone { results, interrupted } => {
            lemma_open_after_push(messages, blocks_of("user"@, results));
        },
    }
}

proof fn lemma_response_over(messages: Seq<MessageView>, turn: TurnView)
    requires
        paired(messages),
        reasoning_only(turn),
    ensures
        paired(recorded(messages, turn, true)),
        turn.tool_uses.len() == 0 ==> paired(recorded(messages, turn, false)),
        turn.tool_uses.len() > 0 ==> open_after_all(
            nothing_open(),
            recorded(messages, turn, false),
        ) == Some(call_ids(turn).to_set()),
{
    let outputs = Seq::new(turn.tool_uses.len(), |i: int| None::<OutputView>);
    law_turn_keeps_pairs(messages, turn, outputs);
    lemma_reasoning_has_no_ids(turn);
    assert(use_ids(turn.blocks()) == call_ids(turn));
    if turn.tool_uses.len() > 0 {
        assert(turn.blocks().len() > 0);
        lemma_open_after_push(messages, blocks_of("assistant"@, turn.blocks()));
    }
}

/// Compaction leaves a valid conversation valid, whether old messages are snipped or the
/// conversation is summarized.
pub proof fn law_compaction_keeps_pairs(messages: Seq<MessageView>, summary: Seq<char>)
    requires
        paired(messages),
    ensures
        snip_point(messages, 10) matches Some(at) ==> paired(snipped(messages, at)),
        paired(summarized(summary)),
{
    if snip_point(messages, 10) is Some {
        law_snip_keeps_pairs(messages, 10);
    }
    let out = summarized(summary);
    let none = Seq::<MessageView>::empty();
    lemma_open_after_push(none, out[0]);
    lemma_open_after_push(none.push(out[0]), out[1]);
    assert(out =~= none.push(out[0]).push(out[1]));
    assert(message_blocks(out[0]) =~= Seq::empty());
    assert(message_blocks(out[1]) =~= Seq::empty());
    assert(use_ids(Seq::<BlockView>::empty()).to_set() =~= Set::<Seq<char>>::empty());
}

/// Something that happens in a turn: it takes what it waited for, or the conversation is
/// replaced by a shorter one that it asked for.
pub enum Happening {
    Step(InputView),
    Shortened(Seq<MessageView>),
}

/// Whether a conversation is what compaction makes of another.
pub open spec fn is_shortened(from: Seq<MessageView>, to: Seq<MessageView>) -> bool {
    ||| (snip_point(from, 10) matches Some(at) && to == snipped(from, at))
    ||| (exists|summary: Seq<char>| to == #[trigger] summarized(summary))
}

/// Whether something can happen in a turn.
pub open spec fn can_happen(engine: EngineView, l: LoopView, h: Happening) -> bool {
    match h {
        Happening::Step(input) => awaits(l.phase, input) && (
        input matches InputView::ToolsDone { results, .. } ==> answers(results, l.turn)),
        Happening::Shortened(messages) => l.phase == Phase::Compacting && is_shortened(
            engine.messages,
            messages,
        ),
    }
}

/// The engine and the turn after something happened.
pub open spec fn after_happening(engine: EngineView, l: LoopView, h: Happening) -> (
    EngineView,
    LoopView,
) {
    match h {
        Happening::Step(input) => {
            let step = stepped(engine, l, input);
            (step.engine, step.turn)
        },
        Happening::Shortened(messages) => (EngineView { messages, ..engine }, l),
    }
}

/// The engine and the turn after things happened in turn.
pub open spec fn reached(engine: EngineView, l: LoopView, hs: Seq<Happening>) -> (
    EngineView,
    LoopView,
)
    decreases hs.len(),
{
    if hs.len() == 0 {
        (engine, l)
    } else {
        let (e, m) = reached(engine, l, hs.drop_last());
        after_happening(e, m, hs.last())
    }
}

/// Whether things can happen in turn.
pub open spec fn can_all_happen(engine: EngineView, l: LoopView, hs: Seq<Happening>) -> bool
    decreases hs.len(),
{
    hs.len() == 0 || {
        let (e, m) = reached(engine, l, hs.drop_last());
        can_all_happen(engine, l, hs.drop_last()) && can_happen(e, m, hs.last())
    }
}

/// However a turn goes, from its beginning in a valid conversation to any point in it, it is
/// sound; so when it is over, its conversation is valid again.
pub proof fn law_turn_leaves_a_valid_conversation(
    engine: EngineView,
    message: MessageView,
    hs: Seq<Happening>,
)
    requires
        paired(engine.messages),
        use_ids(message_blocks(message)).len() == 0,
        result_ids(message_blocks(message)).len() == 0,
        ({
            let begun = EngineView { messages: engine.messages.push(message), ..engine };
            can_all_happen(
                begun,
                LoopView { turn: TurnView::start(), phase: Phase::Draining },
                hs,
            )
        }),
    ensures
        ({
            let begun = EngineView { messages: engine.messages.push(message), ..engine };
            let (e, l) = reached(
                begun,
                LoopView { turn: TurnView::start(), phase: Phase::Draining },
                hs,
            );
            &&& sound(e.messages, l)
            &&& l.phase == Phase::Over ==> paired(e.messages)
        }),
    decreases hs.len(),
{
    let begun = EngineView { messages: engine.messages.push(message), ..engine };
    let start = LoopView { turn: TurnView::start(), phase: Phase::Draining };
    if hs.len() == 0 {
        law_turn_begins_soundly(engine.messages, message);
    } else {
        law_turn_leaves_a_valid_conversation(engine, message, hs.drop_last());
        let (e, l) = reached(begun, start, hs.drop_last());
        match hs.last() {
            Happening::Step(input) => {
                law_steps_stay_sound(e, l, input);
            },
            Happening::Shortened(messages) => {
                law_compaction_keeps_pairs(e.messages, Seq::empty());
                if exists|summary: Seq<char>| messages == #[trigger] summarized(summary) {
                    let summary = choose|summary: Seq<char>|
                        messages == #[trigger] summarized(summary);
                    law_compaction_keeps_pairs(e.messages, summary);
                }
            },
        }
    }
}

} // verus!
