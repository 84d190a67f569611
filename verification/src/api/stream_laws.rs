//! What a provider's event stream is read as.

use vstd::prelude::*;
use crate::api::error::{event_failure, ApiFailureKind};
use crate::api::stream::{
    anthropic_event, bad_tool_arguments, AnthropicState, AnthropicStep, EventView, StatusView,
};
use crate::api::types::UsageView;
use crate::content::{lemma_together_push, put_together};
use crate::json::{parsed_json, JsonView};
use crate::query::ToolCallView;
use crate::text::occurs;
use crate::text_laws::lemma_between;
use crate::turn_laws::{calls_heard, texts_heard, thoughts_heard};

verus! {

/// What events of Anthropic's stream lead to: they are read in order, up to the first one
/// that ends the reading.
pub open spec fn anthropic_run(
    s: AnthropicState,
    events: Seq<JsonView>,
    model: Seq<char>,
) -> AnthropicStep
    decreases events.len(),
{
    if events.len() == 0 {
        AnthropicStep { state: s, events: Seq::empty(), status: StatusView::Going }
    } else {
        let before = anthropic_run(s, events.drop_last(), model);
        if before.status is Going {
            let last = anthropic_event(before.state, events.last(), model);
            AnthropicStep { events: before.events + last.events, ..last }
        } else {
            before
        }
    }
}

/// Whether an event is of that type.
pub open spec fn is_type(event: JsonView, name: Seq<char>) -> bool {
    event.at("type"@) == JsonView::Text(name)
}

/// The piece of text that an event of Anthropic's stream brings.
pub open spec fn text_brought(event: JsonView) -> Option<Seq<char>> {
    let delta = event.at("delta"@);
    if is_type(event, "content_block_delta"@) && is_type(delta, "text_delta"@) {
        delta.at("text"@).text()
    } else {
        None
    }
}

/// The piece of tool arguments that an event of Anthropic's stream brings.
pub open spec fn arguments_brought(event: JsonView) -> Option<Seq<char>> {
    let delta = event.at("delta"@);
    if is_type(event, "content_block_delta"@) && is_type(delta, "input_json_delta"@) {
        delta.at("partial_json"@).text()
    } else {
        None
    }
}

/// The pieces of text that events bring, in order.
pub open spec fn texts_brought(events: Seq<JsonView>) -> Seq<Seq<char>>
    decreases events.len(),
{
    if events.len() == 0 {
        Seq::empty()
    } else {
        match text_brought(events.last()) {
            Some(text) => texts_brought(events.drop_last()).push(text),
            None => texts_brought(events.drop_last()),
        }
    }
}

/// The pieces of tool arguments that events bring, in order.
pub open spec fn pieces_brought(events: Seq<JsonView>) -> Seq<Seq<char>>
    decreases events.len(),
{
    if events.len() == 0 {
        Seq::empty()
    } else {
        match arguments_brought(events.last()) {
            Some(piece) => pieces_brought(events.drop_last()).push(piece),
            None => pieces_brought(events.drop_last()),
        }
    }
}

/// Whether an event stands within a content block: it neither begins nor ends one, nor ends
/// the stream.
pub open spec fn is_within(event: JsonView) -> bool {
    !is_type(event, "content_block_start"@) && !is_type(event, "content_block_stop"@) && !is_type(
        event,
        "message_stop"@,
    ) && !is_type(event, "error"@)
}

/// Whether an event begins the block of a tool call with that id and that name.
pub open spec fn begins_call(event: JsonView, id: Seq<char>, name: Seq<char>) -> bool {
    let block = event.at("content_block"@);
    &&& is_type(event, "content_block_start"@)
    &&& is_type(block, "tool_use"@)
    &&& block.at("id"@) == JsonView::Text(id)
    &&& block.at("name"@) == JsonView::Text(name)
}

proof fn lemma_types()
    ensures
        "message_start"@.len() == 13,
        "message_delta"@.len() == 13,
        "message_start"@[8] == 's',
        "message_delta"@[8] == 'd',
        "content_block_start"@.len() == 19,
        "content_block_delta"@.len() == 19,
        "content_block_start"@[14] == 's',
        "content_block_delta"@[14] == 'd',
        "content_block_stop"@.len() == 18,
        "message_stop"@.len() == 12,
        "error"@.len() == 5,
        "text_delta"@.len() == 10,
        "input_json_delta"@.len() == 16,
        "tool_use"@.len() == 8,
{
    reveal_strlit("message_start");
    reveal_strlit("message_delta");
    reveal_strlit("content_block_start");
    reveal_strlit("content_block_delta");
    reveal_strlit("content_block_stop");
    reveal_strlit("message_stop");
    reveal_strlit("error");
    reveal_strlit("text_delta");
    reveal_strlit("input_json_delta");
    reveal_strlit("tool_use");
}

/// Whatever pieces the arguments of a tool call are cut into makes no difference: two pieces
/// in turn lead to the state that the two at once lead to, and nothing is handed out yet.
pub proof fn law_anthropic_pieces(
    s: AnthropicState,
    first: JsonView,
    second: JsonView,
    both: JsonView,
    model: Seq<char>,
)
    requires
        arguments_brought(first) is Some,
        arguments_brought(second) is Some,
        arguments_brought(both) == Some(
            arguments_brought(first)->Some_0 + arguments_brought(second)->Some_0,
        ),
    ensures
        ({
            let one = anthropic_event(s, first, model);
            let two = anthropic_event(one.state, second, model);
            let whole = anthropic_event(s, both, model);
            &&& two.state == whole.state
            &&& one.status is Going && two.status is Going && whole.status is Going
            &&& one.events.len() == 0 && two.events.len() == 0 && whole.events.len() == 0
        }),
{
    lemma_types();
    let p = arguments_brought(first)->Some_0;
    let q = arguments_brought(second)->Some_0;
    assert(s.tool_input + p + q =~= s.tool_input + (p + q));
}

proof fn lemma_step_within(s: AnthropicState, event: JsonView, model: Seq<char>)
    requires
        is_within(event),
    ensures
        ({
            let step = anthropic_event(s, event, model);
            &&& step.status is Going
            &&& step.state.tool_id == s.tool_id
            &&& step.state.tool_name == s.tool_name
            &&& step.state.initial_input == s.initial_input
            &&& step.state.tool_input == match arguments_brought(event) {
                Some(piece) => s.tool_input + piece,
                None => s.tool_input,
            }
            &&& step.events == match text_brought(event) {
                Some(text) => seq![EventView::Text(text)],
                None => Seq::empty(),
            }
        }),
{
    lemma_types();
}

proof fn lemma_run_within(s: AnthropicState, events: Seq<JsonView>, model: Seq<char>)
    requires
        forall|i: int| 0 <= i < events.len() ==> is_within(#[trigger] events[i]),
    ensures
        ({
            let after = anthropic_run(s, events, model);
            &&& after.status is Going
            &&& after.state.tool_id == s.tool_id
            &&& after.state.tool_name == s.tool_name
            &&& after.state.initial_input == s.initial_input
            &&& after.state.tool_input == s.tool_input + put_together(pieces_brought(events))
            &&& after.events.len() == texts_brought(events).len()
            &&& forall|i: int|
                0 <= i < after.events.len() ==> (#[trigger] after.events[i]) == EventView::Text(
                    texts_brought(events)[i],
                )
        }),
    decreases events.len(),
{
    if events.len() > 0 {
        let init = events.drop_last();
        assert forall|i: int| 0 <= i < init.len() implies is_within(#[trigger] init[i]) by {
            assert(init[i] == events[i]);
        }
        lemma_run_within(s, init, model);
        let before = anthropic_run(s, init, model);
        let last = events.last();
        assert(is_within(events[events.len() - 1]));
        lemma_step_within(before.state, last, model);
        if let Some(piece) = arguments_brought(last) {
            lemma_together_push(pieces_brought(init), piece);
            assert(s.tool_input + put_together(pieces_brought(init)) + piece =~= s.tool_input
                + put_together(pieces_brought(events)));
        }
    } else {
        assert(s.tool_input + put_together(pieces_brought(events)) =~= s.tool_input);
    }
}

proof fn lemma_run_concat(
    s: AnthropicState,
    a: Seq<JsonView>,
    b: Seq<JsonView>,
    model: Seq<char>,
)
    requires
        anthropic_run(s, a, model).status is Going,
    ensures
        ({
            let first = anthropic_run(s, a, model);
            let second = anthropic_run(first.state, b, model);
            let whole = anthropic_run(s, a + b, model);
            &&& whole.state == second.state
            &&& whole.status == second.status
            &&& whole.events == first.events + second.events
        }),
    decreases b.len(),
{
    let first = anthropic_run(s, a, model);
    if b.len() == 0 {
        assert(a + b =~= a);
        assert(first.events + Seq::<EventView>::empty() =~= first.events);
    } else {
        lemma_run_concat(s, a, b.drop_last(), model);
        assert((a + b).drop_last() =~= a + b.drop_last());
        let second = anthropic_run(first.state, b.drop_last(), model);
        let last = anthropic_event(second.state, b.last(), model);
        assert(first.events + second.events + last.events =~= first.events + (second.events
            + last.events));
    }
}

proof fn lemma_run_one(s: AnthropicState, event: JsonView, model: Seq<char>)
    ensures
        ({
            let step = anthropic_event(s, event, model);
            let run = anthropic_run(s, seq![event], model);
            &&& run.state == step.state
            &&& run.status == step.status
            &&& run.events == step.events
        }),
{
    assert(seq![event].drop_last() =~= Seq::empty());
    reveal_with_fuel(anthropic_run, 2);
    let step = anthropic_event(s, event, model);
    assert(Seq::<EventView>::empty() + step.events =~= step.events);
}

proof fn lemma_call_told(name: Seq<char>, id: Seq<char>)
    ensures
        occurs(name, bad_tool_arguments(name, id)),
        occurs(id, bad_tool_arguments(name, id)),
{
    let a = "invalid arguments for Anthropic tool call "@;
    let whole = bad_tool_arguments(name, id);
    lemma_between(a, name, " ("@ + id + ")"@);
    assert(whole =~= a + name + (" ("@ + id + ")"@));
    lemma_between(a + name + " ("@, id, ")"@);
}

/// A tool call is handed out when its block ends, with the id and the name that its block
/// began with. Its input is the JSON value of the pieces of its arguments put together,
/// whatever else comes between them; without any piece it is what the block began with, or
/// an empty object. The reading fails where the pieces are no JSON. Nothing but texts is
/// handed out before, and nothing is left of the call behind.
pub proof fn law_anthropic_call(
    s: AnthropicState,
    start: JsonView,
    within: Seq<JsonView>,
    stop: JsonView,
    id: Seq<char>,
    name: Seq<char>,
    model: Seq<char>,
)
    requires
        begins_call(start, id, name),
        name.len() > 0,
        forall|i: int| 0 <= i < within.len() ==> is_within(#[trigger] within[i]),
        is_type(stop, "content_block_stop"@),
    ensures
        ({
            let arguments = put_together(pieces_brought(within));
            let texts = texts_brought(within);
            let n = texts.len() as int;
            let after = anthropic_run(s, seq![start] + within + seq![stop], model);
            let given = start.at("content_block"@).get("input"@);
            let input = if arguments.len() > 0 {
                parsed_json(arguments)->Ok_0
            } else if given is Some {
                given->Some_0
            } else {
                JsonView::Object(Map::empty())
            };
            &&& after.events.len() >= n
            &&& forall|i: int|
                0 <= i < n ==> (#[trigger] after.events[i]) == EventView::Text(texts[i])
            &&& if arguments.len() > 0 && parsed_json(arguments) is Err {
                &&& after.events.len() == n
                &&& after.status matches StatusView::Failed(failure)
                &&& failure.kind == ApiFailureKind::Other
                &&& occurs(name, failure.message)
                &&& occurs(id, failure.message)
            } else {
                &&& after.status is Going
                &&& after.events.len() == n + 1
                &&& after.events[n] == (EventView::ToolUse { id, name, input })
                &&& after.state.tool_name.len() == 0
                &&& after.state.tool_id.len() == 0
                &&& after.state.tool_input.len() == 0
                &&& after.state.initial_input is None
            }
        }),
{
    lemma_types();
    let begun = anthropic_event(s, start, model);
    lemma_run_one(s, start, model);
    lemma_run_concat(s, seq![start], within, model);
    lemma_run_within(begun.state, within, model);
    let gathered = anthropic_run(begun.state, within, model);
    assert(begun.state.tool_input + put_together(pieces_brought(within)) =~= put_together(
        pieces_brought(within),
    ));
    lemma_run_concat(s, seq![start] + within, seq![stop], model);
    lemma_run_one(gathered.state, stop, model);
    let so_far = anthropic_run(s, seq![start] + within, model);
    assert(so_far.events =~= gathered.events);
    lemma_call_told(name, id);
}

proof fn lemma_heard_none(events: Seq<EventView>)
    requires
        events.len() == 0,
    ensures
        texts_heard(events).len() == 0,
        calls_heard(events).len() == 0,
        thoughts_heard(events).len() == 0,
{
}

/// What is heard in events after events.
pub proof fn lemma_heard_concat(a: Seq<EventView>, b: Seq<EventView>)
    ensures
        texts_heard(a + b) == texts_heard(a) + texts_heard(b),
        calls_heard(a + b) == calls_heard(a) + calls_heard(b),
        thoughts_heard(a + b) == thoughts_heard(a) + thoughts_heard(b),
    decreases b.len(),
{
    if b.len() == 0 {
        assert(a + b =~= a);
    } else {
        lemma_heard_concat(a, b.drop_last());
        assert((a + b).drop_last() =~= a + b.drop_last());
    }
    assert(texts_heard(a + b) =~= texts_heard(a) + texts_heard(b));
    assert(calls_heard(a + b) =~= calls_heard(a) + calls_heard(b));
    assert(thoughts_heard(a + b) =~= thoughts_heard(a) + thoughts_heard(b));
}

/// What is heard in one event.
pub proof fn lemma_heard_one(event: EventView)
    ensures
        texts_heard(seq![event]) == (match event {
            EventView::Text(text) => seq![text],
            _ => Seq::empty(),
        }),
        calls_heard(seq![event]) == (match event {
            EventView::ToolUse { id, name, input } => seq![ToolCallView { id, name, input }],
            _ => Seq::empty(),
        }),
        thoughts_heard(seq![event]) == (match event {
            EventView::Reasoning { text, details } => seq![
                crate::content::ThoughtView { text, details },
            ],
            _ => Seq::empty(),
        }),
{
    assert(seq![event].drop_last() =~= Seq::empty());
    reveal_with_fuel(texts_heard, 2);
    reveal_with_fuel(calls_heard, 2);
    reveal_with_fuel(thoughts_heard, 2);
    match event {
        EventView::Text(text) => {
            assert(texts_heard(seq![event]) =~= seq![text]);
        },
        EventView::ToolUse { id, name, input } => {
            assert(calls_heard(seq![event]) =~= seq![ToolCallView { id, name, input }]);
        },
        EventView::Reasoning { text, details } => {
            assert(thoughts_heard(seq![event]) =~= seq![
                crate::content::ThoughtView { text, details },
            ]);
        },
        _ => {},
    }
}

/// However Anthropic's stream goes, as long as it goes on, the texts that are handed out are
/// those that came, in order and unchanged; and reading never says that it is done.
pub proof fn law_anthropic_texts(s: AnthropicState, events: Seq<JsonView>, model: Seq<char>)
    requires
        anthropic_run(s, events, model).status is Going,
    ensures
        ({
            let after = anthropic_run(s, events, model);
            &&& texts_heard(after.events) == texts_brought(events)
            &&& thoughts_heard(after.events).len() == 0
            &&& forall|i: int|
                0 <= i < after.events.len() ==> (#[trigger] after.events[i]) is Text
                    || after.events[i] is ToolUse
        }),
    decreases events.len(),
{
    if events.len() > 0 {
        let init = events.drop_last();
        law_anthropic_texts(s, init, model);
        let before = anthropic_run(s, init, model);
        let event = events.last();
        let step = anthropic_event(before.state, event, model);
        lemma_types();
        lemma_heard_concat(before.events, step.events);
        if step.events.len() > 0 {
            assert(step.events =~= seq![step.events[0]]);
            lemma_heard_one(step.events[0]);
        } else {
            lemma_heard_none(step.events);
        }
        match text_brought(event) {
            Some(text) => {
                assert(texts_heard(step.events) == seq![text]);
                assert(texts_brought(init) + seq![text] =~= texts_brought(init).push(text));
            },
            None => {
                assert(texts_heard(step.events) =~= Seq::empty());
                assert(texts_brought(init) + Seq::<Seq<char>>::empty() =~= texts_brought(init));
            },
        }
    }
}

/// A count in a field, where it is one.
pub open spec fn counts_as(value: JsonView, key: Seq<char>, count: u32) -> bool {
    match value.at(key).uint() {
        Some(n) => n <= u32::MAX ==> count == n,
        None => true,
    }
}

/// The usage of a response is counted where its message begins, its output again where the
/// message changes, and by no other event; it is handed out when the message ends, and only
/// then is the response done. An error of the stream is handed out and ends it.
pub proof fn law_anthropic_usage(s: AnthropicState, event: JsonView, model: Seq<char>)
    ensures
        ({
            let step = anthropic_event(s, event, model);
            let begun = event.at("message"@).at("usage"@);
            let changed = event.at("usage"@);
            let used = step.state.usage();
            &&& is_type(event, "message_start"@) && event.at("message"@).get("usage"@) is Some ==> {
                &&& counts_as(begun, "input_tokens"@, used.input_tokens)
                &&& counts_as(begun, "output_tokens"@, used.output_tokens)
                &&& counts_as(begun, "cache_read_input_tokens"@, used.cache_read_tokens)
                &&& counts_as(begun, "cache_creation_input_tokens"@, used.cache_creation_tokens)
                &&& begun.at("input_tokens"@).uint() is None ==> used.input_tokens == 0
                &&& begun.at("output_tokens"@).uint() is None ==> used.output_tokens == 0
                &&& begun.at("cache_read_input_tokens"@).uint() is None ==> used.cache_read_tokens
                    == 0
                &&& begun.at("cache_creation_input_tokens"@).uint() is None
                    ==> used.cache_creation_tokens == 0
            }
            &&& is_type(event, "message_start"@) && event.at("message"@).get("usage"@) is None
                ==> used == s.usage()
            &&& is_type(event, "message_delta"@) ==> {
                &&& counts_as(changed, "output_tokens"@, used.output_tokens)
                &&& changed.at("output_tokens"@).uint() is None ==> used == s.usage()
                &&& used == (UsageView { output_tokens: used.output_tokens, ..s.usage() })
            }
            &&& !is_type(event, "message_start"@) && !is_type(event, "message_delta"@) ==> used
                == s.usage()
            &&& is_type(event, "message_stop"@) ==> {
                &&& step.status is Finished
                &&& step.events.len() == 2
                &&& step.events[0] == EventView::Usage(s.usage())
                &&& step.events[1] is Done
            }
            &&& is_type(event, "error"@) ==> {
                &&& step.status is Finished
                &&& step.events.len() == 1
                &&& step.events[0] == EventView::Error(event_failure(event, "anthropic"@, model))
            }
            &&& !is_type(event, "message_stop"@) && !is_type(event, "error"@) ==> {
                &&& !(step.status is Finished)
                &&& forall|i: int|
                    0 <= i < step.events.len() ==> !((#[trigger] step.events[i]) is Done)
                        && !(step.events[i] is Error) && !(step.events[i] is Usage)
            }
        }),
{
    lemma_types();
    let step = anthropic_event(s, event, model);
    if is_type(event, "message_delta"@) {
        let kept = s.output_tokens as u64;
        assert(kept as u32 == s.output_tokens);
    }
}

/// A stream that begins has counted nothing and has no tool call open.
pub proof fn law_fresh_stream(stop: JsonView, model: Seq<char>)
    requires
        is_type(stop, "content_block_stop"@),
    ensures
        ({
            let s = AnthropicState::initial();
            let used = s.usage();
            &&& used.input_tokens == 0 && used.output_tokens == 0
            &&& used.cache_read_tokens == 0 && used.cache_creation_tokens == 0
            &&& used.cost_reports.len() == 0
            &&& anthropic_event(s, stop, model).events.len() == 0
            &&& anthropic_event(s, stop, model).state == s
        }),
{
    lemma_types();
}

} // verus!
