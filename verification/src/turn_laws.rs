//! What a turn keeps of what is said and done in it.

use vstd::prelude::*;
use crate::api::error::{ApiFailureKind, FailureView};
use crate::api::stream::EventView;
use crate::api::types::{image_blocks, BlockView, ContentView, ImageView, MessageView};
use crate::batch::{reasoning_only, result_blocks, result_events};
use crate::compact::kept_output;
use crate::content::{
    answers_in, calls_in, images_in, lemma_in_concat, lemma_in_push, lemma_only_answers,
    lemma_only_calls, lemma_only_thoughts, lemma_together_push, put_together, texts_in,
    thoughts_in, AnswerView, ThoughtView,
};
use crate::config::HookTrigger;
use crate::cost::CostTracker;
use crate::pairing::message_blocks;
use crate::query::{
    final_text, hook_of, retry_prompt, use_blocks, EngineView, OutputView, ToolCallView, TurnView,
    UiView, INTERRUPTED_BY_USER,
};
use crate::text::{cut, occurs, occurs_at};
use crate::turn_loop::{awaits, stepped, InputView, LoopView, Phase, Stepped, ToDo};

verus! {

/// The texts among the events of a response, in order.
pub open spec fn texts_heard(events: Seq<EventView>) -> Seq<Seq<char>>
    decreases events.len(),
{
    if events.len() == 0 {
        Seq::empty()
    } else {
        let before = texts_heard(events.drop_last());
        match events.last() {
            EventView::Text(text) => before.push(text),
            _ => before,
        }
    }
}

/// The tool calls among the events of a response, in order.
pub open spec fn calls_heard(events: Seq<EventView>) -> Seq<ToolCallView>
    decreases events.len(),
{
    if events.len() == 0 {
        Seq::empty()
    } else {
        let before = calls_heard(events.drop_last());
        match events.last() {
            EventView::ToolUse { id, name, input } => before.push(ToolCallView { id, name, input }),
            _ => before,
        }
    }
}

/// The reasoning among the events of a response, in order.
pub open spec fn thoughts_heard(events: Seq<EventView>) -> Seq<ThoughtView>
    decreases events.len(),
{
    if events.len() == 0 {
        Seq::empty()
    } else {
        let before = thoughts_heard(events.drop_last());
        match events.last() {
            EventView::Reasoning { text, details } => before.push(ThoughtView { text, details }),
            _ => before,
        }
    }
}

/// The texts that the user is shown, in order.
pub open spec fn texts_shown(events: Seq<UiView>) -> Seq<Seq<char>>
    decreases events.len(),
{
    if events.len() == 0 {
        Seq::empty()
    } else {
        let before = texts_shown(events.drop_last());
        match events.last() {
            UiView::Text(text) => before.push(text),
            _ => before,
        }
    }
}

/// The names of the tools that the user is shown as called, in order.
pub open spec fn tools_shown(events: Seq<UiView>) -> Seq<Seq<char>>
    decreases events.len(),
{
    if events.len() == 0 {
        Seq::empty()
    } else {
        let before = tools_shown(events.drop_last());
        match events.last() {
            UiView::ToolStart { name, summary } => before.push(name),
            _ => before,
        }
    }
}

/// Whether an input is an event of a response that neither ends it nor fails.
pub open spec fn is_heard(input: InputView) -> bool {
    match input {
        InputView::Event { event, summary, charge } => !(event is Done) && !(event is Error),
        _ => false,
    }
}

/// The events that inputs hand in.
pub open spec fn events_of(inputs: Seq<InputView>) -> Seq<EventView> {
    Seq::new(inputs.len(), |i: int| inputs[i]->event)
}

/// Where a turn gets with inputs in turn, and all that the user is shown on the way.
pub open spec fn played(engine: EngineView, l: LoopView, inputs: Seq<InputView>) -> Stepped
    decreases inputs.len(),
{
    if inputs.len() == 0 {
        Stepped { engine, turn: l, events: Seq::empty(), todo: ToDo::Listen }
    } else {
        let before = played(engine, l, inputs.drop_last());
        let last = stepped(before.engine, before.turn, inputs.last());
        Stepped { events: before.events + last.events, ..last }
    }
}

/// The costs after the usage that inputs report.
pub open spec fn costs_after(cost: CostTracker, inputs: Seq<InputView>) -> CostTracker
    decreases inputs.len(),
{
    if inputs.len() == 0 {
        cost
    } else {
        let before = costs_after(cost, inputs.drop_last());
        match inputs.last() {
            InputView::Event { event: EventView::Usage(usage), summary, charge } => before.after(
                usage,
                charge,
            ),
            _ => before,
        }
    }
}

proof fn lemma_heard_push(events: Seq<EventView>, event: EventView)
    ensures
        texts_heard(events.push(event)) == (match event {
            EventView::Text(text) => texts_heard(events).push(text),
            _ => texts_heard(events),
        }),
        calls_heard(events.push(event)) == (match event {
            EventView::ToolUse { id, name, input } => calls_heard(events).push(
                ToolCallView { id, name, input },
            ),
            _ => calls_heard(events),
        }),
        thoughts_heard(events.push(event)) == (match event {
            EventView::Reasoning { text, details } => thoughts_heard(events).push(
                ThoughtView { text, details },
            ),
            _ => thoughts_heard(events),
        }),
{
    assert(events.push(event).drop_last() =~= events);
}

proof fn lemma_shown_push(events: Seq<UiView>, event: UiView)
    ensures
        texts_shown(events.push(event)) == (match event {
            UiView::Text(text) => texts_shown(events).push(text),
            _ => texts_shown(events),
        }),
        tools_shown(events.push(event)) == (match event {
            UiView::ToolStart { name, summary } => tools_shown(events).push(name),
            _ => tools_shown(events),
        }),
{
    assert(events.push(event).drop_last() =~= events);
}

/// The names of tool calls.
pub open spec fn names_of(calls: Seq<ToolCallView>) -> Seq<Seq<char>> {
    Seq::new(calls.len(), |i: int| calls[i].name)
}

/// While a response comes, the turn gathers its texts, its tool calls and its reasoning, each
/// in order, and shows the user the texts and the tools that are called; the conversation
/// and the settings stay as they are, but for what the session used.
pub proof fn law_response_gathered(engine: EngineView, l: LoopView, inputs: Seq<InputView>)
    requires
        l.phase == Phase::Listening,
        l.turn == l.turn.awaiting(),
        forall|i: int| 0 <= i < inputs.len() ==> is_heard(#[trigger] inputs[i]),
    ensures
        ({
            let events = events_of(inputs);
            let after = played(engine, l, inputs);
            &&& after.todo is Listen
            &&& after.turn.phase == Phase::Listening
            &&& after.turn.turn.text == put_together(texts_heard(events))
            &&& after.turn.turn.tool_uses == calls_heard(events)
            &&& thoughts_in(after.turn.turn.reasoning) == thoughts_heard(events)
            &&& reasoning_only(after.turn.turn)
            &&& texts_shown(after.events) == texts_heard(events)
            &&& tools_shown(after.events) == names_of(calls_heard(events))
            &&& forall|i: int|
                0 <= i < after.events.len() ==> (#[trigger] after.events[i]) is Text
                    || after.events[i] is ToolStart
            &&& after.engine == (EngineView { cost: costs_after(engine.cost, inputs), ..engine })
        }),
    decreases inputs.len(),
{
    let events = events_of(inputs);
    let after = played(engine, l, inputs);
    if inputs.len() == 0 {
        assert(l.turn.reasoning =~= Seq::empty());
        assert(l.turn.tool_uses =~= Seq::empty());
        assert(after.engine =~= EngineView { cost: engine.cost, ..engine });
    } else {
        let init = inputs.drop_last();
        assert forall|i: int| 0 <= i < init.len() implies is_heard(#[trigger] init[i]) by {
            assert(init[i] == inputs[i]);
        }
        law_response_gathered(engine, l, init);
        let before = played(engine, l, init);
        let last = stepped(before.engine, before.turn, inputs.last());
        assert(is_heard(inputs[inputs.len() - 1]));
        let event = inputs.last()->event;
        assert(events =~= events_of(init).push(event));
        lemma_heard_push(events_of(init), event);
        assert(after.events == before.events + last.events);
        assert(before.events + Seq::<UiView>::empty() =~= before.events);
        match event {
            EventView::Text(text) => {
                assert(after.events =~= before.events.push(UiView::Text(text)));
                lemma_shown_push(before.events, UiView::Text(text));
                lemma_together_push(texts_heard(events_of(init)), text);
            },
            EventView::Reasoning { text, details } => {
                lemma_in_push(before.turn.turn.reasoning, BlockView::Reasoning { text, details });
                assert(after.events =~= before.events);
            },
            EventView::ToolUse { id, name, input } => {
                let shown = UiView::ToolStart { name, summary: inputs.last()->summary };
                assert(after.events =~= before.events.push(shown));
                lemma_shown_push(before.events, shown);
                assert(names_of(calls_heard(events)) =~= names_of(
                    calls_heard(events_of(init)),
                ).push(name));
            },
            _ => {
                assert(after.events =~= before.events);
            },
        }
    }
}

/// Whether anything came in a response: text, a tool call or reasoning.
pub open spec fn something_came(events: Seq<EventView>) -> bool {
    put_together(texts_heard(events)).len() > 0 || calls_heard(events).len() > 0 || thoughts_heard(
        events,
    ).len() > 0
}

/// Whether a message is the assistant's, and holds what came in a response and nothing else:
/// its reasoning first, then all of its text in one block, and then its tool calls.
pub open spec fn holds_response(message: MessageView, events: Seq<EventView>) -> bool {
    let blocks = message_blocks(message);
    let thoughts = thoughts_heard(events);
    let calls = calls_heard(events);
    &&& message.role == "assistant"@
    &&& message.content is Blocks
    &&& put_together(texts_in(blocks)) == put_together(texts_heard(events))
    &&& texts_in(blocks).len() <= 1
    &&& calls_in(blocks) == calls
    &&& thoughts_in(blocks) == thoughts
    &&& answers_in(blocks).len() == 0
    &&& images_in(blocks).len() == 0
    &&& forall|i: int| 0 <= i < thoughts.len() ==> (#[trigger] blocks[i]) is Reasoning
    &&& forall|i: int|
        blocks.len() - calls.len() <= i < blocks.len() ==> (#[trigger] blocks[i]) is ToolUse
}

/// Whether a message is the user's, and answers each tool call as interrupted, in order, and
/// holds nothing else.
pub open spec fn answers_as_interrupted(message: MessageView, calls: Seq<ToolCallView>) -> bool {
    let blocks = message_blocks(message);
    &&& message.role == "user"@
    &&& message.content is Blocks
    &&& blocks.len() == calls.len()
    &&& answers_in(blocks).len() == calls.len()
    &&& forall|i: int|
        0 <= i < calls.len() ==> (#[trigger] answers_in(blocks)[i]) == (AnswerView {
            id: calls[i].id,
            content: INTERRUPTED_BY_USER@,
            is_error: Some(true),
        })
}

proof fn lemma_blocks_of_response(turn: TurnView)
    requires
        reasoning_only(turn),
    ensures
        ({
            let blocks = turn.blocks();
            let n = turn.reasoning.len();
            &&& put_together(texts_in(blocks)) == turn.text
            &&& texts_in(blocks).len() <= 1
            &&& calls_in(blocks) == turn.tool_uses
            &&& thoughts_in(blocks) == thoughts_in(turn.reasoning)
            &&& thoughts_in(blocks).len() == n
            &&& answers_in(blocks).len() == 0
            &&& images_in(blocks).len() == 0
            &&& blocks.len() > 0 <==> (turn.text.len() > 0 || turn.tool_uses.len() > 0 || n > 0)
            &&& forall|i: int| 0 <= i < n ==> (#[trigger] blocks[i]) is Reasoning
            &&& forall|i: int|
                blocks.len() - turn.tool_uses.len() <= i < blocks.len() ==> (
                #[trigger] blocks[i]) is ToolUse
        }),
{
    let blocks = turn.blocks();
    let n = turn.reasoning.len();
    let uses = use_blocks(turn.tool_uses);
    let spoken = blocks.take(blocks.len() - uses.len());
    assert(blocks =~= spoken + uses);
    lemma_in_concat(spoken, uses);
    lemma_only_calls(uses);
    lemma_only_thoughts(turn.reasoning);
    let text = BlockView::Text { text: turn.text };
    lemma_in_push(turn.reasoning, text);
    lemma_together_push(Seq::empty(), turn.text);
    if turn.text.len() > 0 {
        assert(spoken =~= turn.reasoning.push(text));
        assert(texts_in(spoken) =~= Seq::empty().push(turn.text));
        assert(put_together(texts_in(spoken)) =~= turn.text);
    } else {
        assert(spoken =~= turn.reasoning);
        assert(turn.text =~= Seq::empty());
    }
    assert(texts_in(blocks) =~= texts_in(spoken));
    assert(calls_in(uses) =~= turn.tool_uses);
    assert(calls_in(blocks) =~= turn.tool_uses);
    assert(thoughts_in(blocks) =~= thoughts_in(turn.reasoning));
    assert forall|i: int| 0 <= i < n implies (#[trigger] blocks[i]) is Reasoning by {
        assert(blocks[i] == turn.reasoning[i]);
    }
    assert forall|i: int| spoken.len() <= i < blocks.len() implies (
    #[trigger] blocks[i]) is ToolUse by {
        assert(blocks[i] == uses[i - spoken.len()]);
    }
}

/// A request goes out with the steering messages at the end of the conversation, each as a
/// message of the user, with the system prompt in front of any correction; nothing of an
/// earlier response is left in the turn.
pub proof fn law_request_goes_out(engine: EngineView, l: LoopView, steering: Seq<Seq<char>>)
    requires
        l.phase == Phase::Draining,
    ensures
        ({
            let input = InputView::Drained { steering, cancelled: false };
            let after = stepped(engine, l, input);
            let n = engine.messages.len();
            &&& awaits(l.phase, input)
            &&& after.turn.phase == Phase::Listening
            &&& after.turn.turn.text.len() == 0
            &&& after.turn.turn.tool_uses.len() == 0
            &&& after.turn.turn.reasoning.len() == 0
            &&& after.turn.turn == after.turn.turn.awaiting()
            &&& after.turn.turn.recovery_attempts == l.turn.recovery_attempts
            &&& after.turn.turn.malformed_tool_retries == l.turn.malformed_tool_retries
            &&& after.turn.turn.retry_prompt == l.turn.retry_prompt
            &&& after.engine.messages.len() == n + steering.len()
            &&& after.engine.messages.take(n as int) == engine.messages
            &&& forall|i: int|
                0 <= i < steering.len() ==> {
                    &&& (#[trigger] after.engine.messages[n + i]).role == "user"@
                    &&& after.engine.messages[n + i].content == ContentView::Text(steering[i])
                }
            &&& after.engine == (EngineView { messages: after.engine.messages, ..engine })
            &&& after.events.len() == steering.len()
            &&& forall|i: int|
                0 <= i < steering.len() ==> (#[trigger] after.events[i]) == UiView::SteeringSent(
                    steering[i],
                )
            &&& after.todo matches ToDo::Send(prompt)
            &&& engine.system_prompt.is_prefix_of(prompt)
            &&& l.turn.retry_prompt is None ==> prompt == engine.system_prompt
            &&& l.turn.retry_prompt matches Some(more) ==> more.is_suffix_of(prompt) && prompt.len()
                > engine.system_prompt.len() + more.len()
        }),
{
    reveal_strlit("\n\n");
    assert("\n\n"@.len() == 2);
    let after = stepped(engine, l, InputView::Drained { steering, cancelled: false });
    let n = engine.messages.len();
    assert(after.engine.messages.take(n as int) =~= engine.messages);
}

/// What came in a response is in the conversation afterwards, whether the response also
/// calls tools or not and whether it is complete or was cut off: one message of the
/// assistant holds all of its text, its reasoning and its tool calls. Where nothing came,
/// nothing is recorded. What was said before stays. The tools that it calls are the ones
/// that run; where it was cut off, each is answered as interrupted instead.
pub proof fn law_response_recorded(
    engine: EngineView,
    l: LoopView,
    inputs: Seq<InputView>,
    end: InputView,
)
    requires
        l.phase == Phase::Listening,
        l.turn == l.turn.awaiting(),
        forall|i: int| 0 <= i < inputs.len() ==> is_heard(#[trigger] inputs[i]),
        end is Cancelled || (end is Event && end->event is Done),
    ensures
        ({
            let events = events_of(inputs);
            let calls = calls_heard(events);
            let last = played(engine, l, inputs);
            let over = stepped(last.engine, last.turn, end);
            let before = engine.messages;
            let after = over.engine.messages;
            let cut_off = end is Cancelled;
            let n = before.len();
            let spoken: nat = if something_came(events) {
                1
            } else {
                0
            };
            let answered: nat = if cut_off && calls.len() > 0 {
                1
            } else {
                0
            };
            &&& awaits(last.turn.phase, end)
            &&& after.len() == n + spoken + answered
            &&& after.take(n as int) == before
            &&& something_came(events) ==> holds_response(after[n as int], events)
            &&& cut_off && calls.len() > 0 ==> answers_as_interrupted(after[n as int + 1], calls)
            &&& over.engine == (EngineView {
                messages: after,
                cost: costs_after(engine.cost, inputs),
                ..engine
            })
            &&& over.turn.turn.tool_uses == calls
            &&& over.turn.turn.retry_prompt is None
            &&& over.turn.turn.malformed_tool_retries == 0
            &&& over.turn.turn.recovery_attempts == last.turn.turn.recovery_attempts
            &&& if cut_off {
                &&& over.turn.phase == Phase::Over
                &&& over.todo is Finish
                &&& over.events.len() == calls.len() + 1
                &&& over.events.last() is Interrupted
                &&& forall|i: int|
                    0 <= i < calls.len() ==> (#[trigger] over.events[i]) == (UiView::ToolResult {
                        is_error: true,
                    })
            } else if calls.len() == 0 {
                &&& over.turn.phase == Phase::Over
                &&& over.todo is Finish
                &&& over.events.len() == 1
                &&& over.events[0] is Done
            } else {
                &&& over.turn.phase == Phase::RunningTools
                &&& over.todo is RunTools
                &&& over.events.len() == 0
            }
        }),
{
    let events = events_of(inputs);
    law_response_gathered(engine, l, inputs);
    let last = played(engine, l, inputs);
    let over = stepped(last.engine, last.turn, end);
    let turn = last.turn.turn;
    lemma_blocks_of_response(turn);
    let n = engine.messages.len();
    assert(over.engine.messages.take(n as int) =~= engine.messages);
    if end is Cancelled && turn.tool_uses.len() > 0 {
        lemma_only_answers(message_blocks(over.engine.messages.last()));
    }
}

/// The results of the tools are in the conversation afterwards: one message of the user
/// holds one result for each call, in order, with what is kept of the output of that call
/// and a mark where it is an error. The next request follows, unless the tools were
/// interrupted.
pub proof fn law_results_recorded(
    engine: EngineView,
    l: LoopView,
    outputs: Seq<Option<OutputView>>,
    interrupted: bool,
)
    requires
        l.phase == Phase::RunningTools,
        outputs.len() == l.turn.tool_uses.len(),
        forall|i: int| 0 <= i < outputs.len() ==> (#[trigger] outputs[i]) is Some,
    ensures
        ({
            let calls = l.turn.tool_uses;
            let results = result_blocks(calls, outputs);
            let input = InputView::ToolsDone { results, interrupted };
            let over = stepped(engine, l, input);
            let after = over.engine.messages;
            let n = engine.messages.len();
            let answers = answers_in(message_blocks(after[n as int]));
            &&& awaits(l.phase, input)
            &&& after.len() == n + 1
            &&& after.take(n as int) == engine.messages
            &&& after[n as int].role == "user"@
            &&& message_blocks(after[n as int]).len() == calls.len()
            &&& answers.len() == calls.len()
            &&& forall|i: int|
                0 <= i < calls.len() ==> {
                    let output = outputs[i]->Some_0;
                    &&& (#[trigger] answers[i]).id == calls[i].id
                    &&& answers[i].content == kept_output(output.content)
                    &&& answers[i].is_error == Some(true) <==> output.is_error
                    &&& answers[i].is_error is None <==> !output.is_error
                }
            &&& over.engine == (EngineView { messages: after, ..engine })
            &&& over.turn.turn == l.turn
            &&& if interrupted {
                &&& over.turn.phase == Phase::Over
                &&& over.todo is Finish
                &&& over.events.len() == 1
                &&& over.events[0] is Interrupted
            } else {
                &&& over.turn.phase == Phase::Draining
                &&& over.todo is Drain
                &&& over.events.len() == 0
            }
        }),
{
    let results = result_blocks(l.turn.tool_uses, outputs);
    let over = stepped(engine, l, InputView::ToolsDone { results, interrupted });
    assert(over.engine.messages.take(engine.messages.len() as int) =~= engine.messages);
    lemma_only_answers(results);
    assert forall|i: int| 0 <= i < l.turn.tool_uses.len() implies {
        let output = outputs[i]->Some_0;
        &&& (#[trigger] answers_in(results)[i]).id == l.turn.tool_uses[i].id
        &&& answers_in(results)[i].content == kept_output(output.content)
        &&& answers_in(results)[i].is_error == Some(true) <==> output.is_error
        &&& answers_in(results)[i].is_error is None <==> !output.is_error
    } by {
        assert(results[i] is ToolResult);
    }
}

/// The failure that an input reports.
pub open spec fn failure_of(input: InputView) -> Option<FailureView> {
    match input {
        InputView::Event { event: EventView::Error(failure), summary, charge } => Some(failure),
        InputView::RequestFailed { failure, cancelled } => Some(failure),
        _ => None,
    }
}

/// A response that fails, a request that fails, a stream that breaks off and a compaction
/// leave the conversation as it was; whatever had come of the response is not recorded. The
/// turn goes on with another request, after a compaction or not, or it is over.
pub proof fn law_failure_records_nothing(engine: EngineView, l: LoopView, input: InputView)
    requires
        awaits(l.phase, input),
        failure_of(input) is Some || input is StreamEnded || input is Compacted,
    ensures
        ({
            let over = stepped(engine, l, input);
            &&& over.engine == (EngineView { max_tokens: over.engine.max_tokens, ..engine })
            &&& over.engine.max_tokens != engine.max_tokens ==> failure_of(input) is Some
                && failure_of(input)->Some_0.kind == ApiFailureKind::OutputLimitExceeded
            &&& over.todo is Finish || over.todo is Fail || over.todo is Drain
                || over.todo is Compact
            &&& over.todo is Fail || over.todo is Finish <==> over.turn.phase == Phase::Over
            &&& over.todo is Drain <==> over.turn.phase == Phase::Draining
            &&& over.todo is Compact <==> over.turn.phase == Phase::Compacting
            &&& input is StreamEnded ==> over.todo is Fail
            &&& input matches InputView::Compacted(failed) ==> match failed {
                Some(failure) => over.todo == ToDo::Fail(failure),
                None => over.todo is Drain,
            }
        }),
{
}

/// What is done about a failure of a response or a request goes by its class. A context that
/// is too long is compacted, at most three times in a turn; an output limit that was too low
/// is doubled, up to its bound; a response with malformed tool arguments is asked for once
/// more, with the error in front of the model, and only where none of its tool calls has
/// surfaced. Anything else ends the turn, and the user is told what went wrong.
pub proof fn law_recovery_by_class(engine: EngineView, l: LoopView, input: InputView)
    requires
        awaits(l.phase, input),
        failure_of(input) is Some,
        !(input matches InputView::RequestFailed { failure, cancelled } && cancelled),
    ensures
        ({
            let failure = failure_of(input)->Some_0;
            let over = stepped(engine, l, input);
            let turn = over.turn.turn;
            let surfaced = input is Event && l.turn.tool_uses.len() > 0;
            let recovered = match failure.kind {
                ApiFailureKind::ContextExceeded => l.turn.recovery_attempts < 3,
                ApiFailureKind::OutputLimitExceeded => engine.max_tokens < 64000,
                ApiFailureKind::MalformedToolArguments => l.turn.malformed_tool_retries == 0
                    && !surfaced,
                ApiFailureKind::Other => false,
            };
            &&& over.todo is Fail <==> !recovered
            &&& recovered && failure.kind == ApiFailureKind::ContextExceeded ==> {
                &&& over.todo is Compact
                &&& turn == (TurnView { recovery_attempts: turn.recovery_attempts, ..l.turn })
                &&& turn.recovery_attempts == l.turn.recovery_attempts + 1
                &&& over.events.len() == 1
                &&& over.events[0] is Notice
            }
            &&& recovered && failure.kind == ApiFailureKind::OutputLimitExceeded ==> {
                &&& over.todo is Drain
                &&& turn == l.turn
                &&& over.engine.max_tokens <= 64000
                &&& over.engine.max_tokens == 64000 || over.engine.max_tokens == 2
                    * engine.max_tokens
                &&& 2 * engine.max_tokens >= over.engine.max_tokens
                &&& over.events.len() == 0
            }
            &&& recovered && failure.kind == ApiFailureKind::MalformedToolArguments ==> {
                &&& over.todo is Drain
                &&& turn.malformed_tool_retries == 1
                &&& turn.recovery_attempts == l.turn.recovery_attempts
                &&& turn.retry_prompt matches Some(prompt)
                &&& occurs(cut(failure.message, 512), prompt)
                &&& over.events.len() == 1
                &&& over.events[0] is Retry
            }
            &&& over.todo matches ToDo::Fail(reported) ==> {
                &&& reported.kind == failure.kind
                &&& failure.message.is_suffix_of(reported.message)
                &&& reported.message == failure.message <==> input is RequestFailed
                &&& turn == l.turn
                &&& over.events.len() == 1
                &&& over.events[0] == UiView::Error(failure.message)
            }
        }),
{
    let failure = failure_of(input)->Some_0;
    let before = "Your previous response was rejected before any tools executed because one or more tool calls contained invalid JSON arguments ("@;
    let told = retry_prompt(failure.message);
    let part = cut(failure.message, 512);
    assert(told.subrange(before.len() as int, (before.len() + part.len()) as int) =~= part);
    assert(occurs_at(part, told, before.len() as int));
    let message = "API error: "@ + failure.message;
    reveal_strlit("API error: ");
    assert("API error: "@.len() > 0);
    assert(message.subrange(message.len() - failure.message.len(), message.len() as int)
        =~= failure.message);
}

/// Where the user cancels before a response has come, nothing of a response is recorded and the
/// turn is over without a failure. What the user said in the meantime stays in the
/// conversation, as if the request had gone out.
pub proof fn law_cancelled_before_response(
    engine: EngineView,
    l: LoopView,
    steering: Seq<Seq<char>>,
    failure: FailureView,
)
    ensures
        ({
            let after = stepped(engine, l, InputView::Drained { steering, cancelled: true });
            let sent = stepped(engine, l, InputView::Drained { steering, cancelled: false });
            &&& after.engine == sent.engine
            &&& after.turn.turn == sent.turn.turn
            &&& after.turn.phase == Phase::Over
            &&& after.todo is Finish
            &&& after.events.len() == sent.events.len() + 1
            &&& after.events.drop_last() == sent.events
            &&& after.events.last() is Interrupted
        }),
        ({
            let after = stepped(engine, l, InputView::RequestFailed { failure, cancelled: true });
            &&& after.engine == engine
            &&& after.turn.turn == l.turn
            &&& after.turn.phase == Phase::Over
            &&& after.todo is Finish
            &&& after.events.len() == 1
            &&& after.events[0] is Interrupted
        }),
{
    let after = stepped(engine, l, InputView::Drained { steering, cancelled: true });
    let sent = stepped(engine, l, InputView::Drained { steering, cancelled: false });
    assert(after.events.drop_last() =~= sent.events);
}

/// A stream that ends before its response is complete is a failure: the turn is over, and the
/// user is shown the message that the failure carries.
pub proof fn law_stream_broken_off(engine: EngineView, l: LoopView)
    ensures
        ({
            let after = stepped(engine, l, InputView::StreamEnded);
            &&& after.engine == engine
            &&& after.turn.turn == l.turn
            &&& after.turn.phase == Phase::Over
            &&& after.todo matches ToDo::Fail(failure)
            &&& failure.kind == ApiFailureKind::Other
            &&& failure.message.len() > 0
            &&& after.events.len() == 1
            &&& after.events[0] == UiView::Error(failure.message)
        }),
{
    reveal_strlit("API stream ended without completion");
    assert("API stream ended without completion"@.len() > 0);
}

/// The events that report the results of a batch are as many as its calls, in order, and each
/// tells whether the call of its place ended in an error.
pub proof fn law_results_reported(outputs: Seq<Option<OutputView>>)
    ensures
        result_events(outputs).len() == outputs.len(),
        forall|i: int|
            0 <= i < outputs.len() && outputs[i] is Some ==> (#[trigger] result_events(outputs)[i])
                == (UiView::ToolResult { is_error: outputs[i]->Some_0.is_error }),
{
}

/// A message of the user that shows images holds its text first, and behind it the images, in
/// order, and nothing else.
pub proof fn law_images_shown(text: Seq<char>, images: Seq<ImageView>)
    ensures
        image_blocks(text, images).len() == images.len() + 1,
        image_blocks(text, images)[0] == (BlockView::Text { text }),
        images_in(image_blocks(text, images)) == images,
    decreases images.len(),
{
    let blocks = image_blocks(text, images);
    if images.len() == 0 {
        assert(blocks =~= Seq::empty().push(BlockView::Text { text }));
        lemma_in_push(Seq::empty(), BlockView::Text { text });
        assert(images =~= Seq::empty());
    } else {
        let init = images.drop_last();
        law_images_shown(text, init);
        let last = BlockView::Image { source: images.last() };
        assert(blocks =~= image_blocks(text, init).push(last));
        lemma_in_push(image_blocks(text, init), last);
        assert(init.push(images.last()) =~= images);
    }
}

proof fn lemma_final_concat(a: Seq<UiView>, b: Seq<UiView>)
    ensures
        (exists|i: int| 0 <= i < b.len() && (#[trigger] b[i]) is Retry) ==> final_text(a + b)
            == final_text(b),
        (forall|i: int| 0 <= i < b.len() ==> !((#[trigger] b[i]) is Retry)) ==> final_text(a + b)
            == final_text(a) + put_together(texts_shown(b)),
    decreases b.len(),
{
    if b.len() == 0 {
        assert(a + b =~= a);
        assert(final_text(a) + put_together(texts_shown(b)) =~= final_text(a));
    } else {
        let init = b.drop_last();
        lemma_final_concat(a, init);
        assert((a + b).drop_last() =~= a + init);
        assert((a + b).last() == b.last());
        assert(b[b.len() - 1] == b.last());
        assert forall|i: int| 0 <= i < init.len() implies #[trigger] init[i] == b[i] by {}
        if exists|i: int| 0 <= i < b.len() && (#[trigger] b[i]) is Retry {
            if !(b.last() is Retry) {
                let i = choose|i: int| 0 <= i < b.len() && (#[trigger] b[i]) is Retry;
                assert(init[i] is Retry);
            }
        } else {
            assert forall|i: int| 0 <= i < init.len() implies !((#[trigger] init[i]) is Retry) by {
                assert(!(b[i] is Retry));
            }
            if let UiView::Text(text) = b.last() {
                lemma_together_push(texts_shown(init), text);
                assert(final_text(a) + put_together(texts_shown(init)) + text =~= final_text(a)
                    + put_together(texts_shown(b)));
            }
        }
    }
}

/// The final text of a turn is all text that the user was shown, put together; but where an
/// attempt was rejected, only what came behind the last rejection.
pub proof fn law_final_text_shown(before: Seq<UiView>, events: Seq<UiView>, reason: Seq<char>)
    requires
        forall|i: int| 0 <= i < events.len() ==> !((#[trigger] events[i]) is Retry),
    ensures
        final_text(events) == put_together(texts_shown(events)),
        final_text(before.push(UiView::Retry(reason)) + events) == put_together(
            texts_shown(events),
        ),
{
    let none = Seq::<UiView>::empty();
    lemma_final_concat(none, events);
    assert(none + events =~= events);
    assert(final_text(none) + put_together(texts_shown(events)) =~= put_together(
        texts_shown(events),
    ));
    let rejected = before.push(UiView::Retry(reason));
    lemma_final_concat(rejected, events);
    assert(rejected.last() is Retry);
    assert(final_text(rejected) =~= Seq::empty());
    assert(final_text(rejected) + put_together(texts_shown(events)) =~= put_together(
        texts_shown(events),
    ));
}

/// A hook is set off when a tool is called, when it has its result and when the user is asked,
/// each its own, and by nothing else.
pub proof fn law_hooks(event: UiView)
    ensures
        hook_of(event) == Some(HookTrigger::OnToolStart) <==> event is ToolStart,
        hook_of(event) == Some(HookTrigger::OnToolComplete) <==> event is ToolResult,
        hook_of(event) == Some(HookTrigger::OnPermissionRequest) <==> event is PermissionRequest,
        hook_of(event) is None <==> !(event is ToolStart) && !(event is ToolResult) && !(
        event is PermissionRequest),
{
}

/// A turn that begins has everything before it: nothing is gathered yet, and each of the
/// failures that can be recovered from is recovered from, whatever its message.
pub proof fn law_fresh_turn_recovers(engine: EngineView, failure: FailureView, summary: Seq<char>)
    requires
        engine.max_tokens < 64000,
        failure.kind != ApiFailureKind::Other,
    ensures
        ({
            let l = LoopView { turn: TurnView::start(), phase: Phase::Listening };
            let event = EventView::Error(failure);
            let streamed = stepped(
                engine,
                l,
                InputView::Event { event, summary, charge: None },
            );
            let refused = stepped(
                engine,
                l,
                InputView::RequestFailed { failure, cancelled: false },
            );
            &&& l.turn == l.turn.awaiting()
            &&& l.turn.text.len() == 0 && l.turn.tool_uses.len() == 0 && l.turn.reasoning.len()
                == 0
            &&& l.turn.retry_prompt is None
            &&& streamed.todo is Drain || streamed.todo is Compact
            &&& refused.todo is Drain || refused.todo is Compact
            &&& failure.kind == ApiFailureKind::ContextExceeded ==> streamed.todo is Compact
                && refused.todo is Compact && streamed.turn.turn.recovery_attempts == 1
        }),
{
    let l = LoopView { turn: TurnView::start(), phase: Phase::Listening };
    let event = EventView::Error(failure);
    law_recovery_by_class(engine, l, InputView::Event { event, summary, charge: None });
    law_recovery_by_class(engine, l, InputView::RequestFailed { failure, cancelled: false });
}

} // verus!
