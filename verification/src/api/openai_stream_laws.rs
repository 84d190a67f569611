//! What an event stream in one of the OpenAI formats is read as.

use vstd::prelude::*;
use crate::api::diagnostics::DiagnosticsView;
use crate::api::error::{event_failure, ApiFailureKind, FailureView};
use crate::api::openai_responses::{after_event, translated, CursorView, ResponsesState};
use crate::api::openai_stream::{
    bad_arguments, chat_event, choice_step, choices_step, drained, in_order, items_or_none,
    law_calls_in_order, lemma_call_piece_at, new_call, piece_index, text_events, with_call_pieces,
    with_piece, CallView, ChatState, ChatStep,
};
use crate::api::reasoning::{
    continues, disagree_in, merged_detail, payload_field, with_fragment, with_fragments,
    with_payload,
};
use crate::api::stream::{EventView, StatusView};
use crate::api::stream_laws::{
    counts_as, is_type, lemma_heard_concat, lemma_heard_one,
};
use crate::content::{lemma_together_concat, lemma_together_push, put_together, ThoughtView};
use crate::json::{json_equal, parsed_json, JsonView};
use crate::query::ToolCallView;
use crate::text::occurs;
use crate::text_laws::lemma_between;
use crate::turn_laws::{calls_heard, texts_heard, thoughts_heard};

verus! {

/// The index of the tool call that a piece belongs to.
pub open spec fn index_given(piece: JsonView) -> u32 {
    match piece.at("index"@).uint() {
        Some(n) => n as u32,
        None => 0,
    }
}

/// The pieces that belong to the tool call of an index, in order.
pub open spec fn pieces_for(pieces: Seq<JsonView>, index: u32) -> Seq<JsonView>
    decreases pieces.len(),
{
    if pieces.len() == 0 {
        Seq::empty()
    } else {
        let before = pieces_for(pieces.drop_last(), index);
        if index_given(pieces.last()) == index {
            before.push(pieces.last())
        } else {
            before
        }
    }
}

/// The arguments that pieces bring, put together.
pub open spec fn arguments_given(pieces: Seq<JsonView>) -> Seq<char>
    decreases pieces.len(),
{
    if pieces.len() == 0 {
        Seq::empty()
    } else {
        match pieces.last().at("function"@).at("arguments"@).text() {
            Some(more) => arguments_given(pieces.drop_last()) + more,
            None => arguments_given(pieces.drop_last()),
        }
    }
}

/// The last id that pieces bring.
pub open spec fn id_given(pieces: Seq<JsonView>) -> Seq<char>
    decreases pieces.len(),
{
    if pieces.len() == 0 {
        Seq::empty()
    } else {
        match pieces.last().at("id"@).text() {
            Some(id) => id,
            None => id_given(pieces.drop_last()),
        }
    }
}

/// The last name that pieces bring.
pub open spec fn name_given(pieces: Seq<JsonView>) -> Seq<char>
    decreases pieces.len(),
{
    if pieces.len() == 0 {
        Seq::empty()
    } else {
        match pieces.last().at("function"@).at("name"@).text() {
            Some(name) => name,
            None => name_given(pieces.drop_last()),
        }
    }
}

/// Whether calls are what pieces make up: one call for each index that a piece has, in the
/// order of the indices, with its last id, its last name, and its arguments put together.
pub open spec fn are_made_of(calls: Seq<CallView>, pieces: Seq<JsonView>) -> bool {
    &&& in_order(calls)
    &&& forall|i: int|
        0 <= i < calls.len() ==> {
            let own = pieces_for(pieces, (#[trigger] calls[i]).index);
            &&& own.len() > 0
            &&& calls[i].id == id_given(own)
            &&& calls[i].name == name_given(own)
            &&& calls[i].arguments == arguments_given(own)
        }
    &&& forall|index: u32|
        #![trigger pieces_for(pieces, index)]
        pieces_for(pieces, index).len() > 0 ==> exists|i: int|
            0 <= i < calls.len() && (#[trigger] calls[i]).index == index
}

spec fn place_for(calls: Seq<CallView>, index: int) -> int
    decreases calls.len(),
{
    if calls.len() == 0 {
        0
    } else if calls[0].index < index {
        1 + place_for(calls.drop_first(), index)
    } else {
        0
    }
}

proof fn lemma_place_for(calls: Seq<CallView>, index: int)
    ensures
        0 <= place_for(calls, index) <= calls.len(),
        forall|k: int| 0 <= k < place_for(calls, index) ==> (#[trigger] calls[k]).index < index,
        place_for(calls, index) < calls.len() ==> calls[place_for(calls, index)].index >= index,
    decreases calls.len(),
{
    if calls.len() > 0 && calls[0].index < index {
        let tail = calls.drop_first();
        lemma_place_for(tail, index);
        assert forall|k: int| 0 <= k < place_for(calls, index) implies (#[trigger] calls[k]).index
            < index by {
            if k > 0 {
                assert(tail[k - 1] == calls[k]);
            }
        }
    }
}

/// Whatever pieces tool calls are cut into and in whatever order they come, the calls are
/// what the pieces make up.
pub proof fn law_chat_pieces(pieces: Seq<JsonView>)
    ensures
        are_made_of(with_call_pieces(Seq::empty(), pieces), pieces),
    decreases pieces.len(),
{
    if pieces.len() == 0 {
        assert forall|index: u32|
            #![trigger pieces_for(pieces, index)]
            pieces_for(pieces, index).len() > 0 implies exists|i: int|
            0 <= i < 0 && (#[trigger] Seq::<CallView>::empty()[i]).index == index by {}
    } else {
        let init = pieces.drop_last();
        let piece = pieces.last();
        let index = index_given(piece);
        assert(piece_index(piece) == index);
        law_chat_pieces(init);
        let before = with_call_pieces(Seq::empty(), init);
        let after = with_call_pieces(Seq::empty(), pieces);
        law_calls_in_order(before, piece);
        let at = place_for(before, index as int);
        lemma_place_for(before, index as int);
        lemma_call_piece_at(before, piece, at);
        let own = pieces_for(init, index);
        assert(own.push(piece).drop_last() =~= own);
        let found = at < before.len() && before[at].index == index;
        if !found && own.len() > 0 {
            let i = choose|i: int| 0 <= i < before.len() && (#[trigger] before[i]).index == index;
            if i < at {
                assert(before[i].index < index);
            } else if i > at {
                assert(before[at].index < before[i].index);
            }
            assert(false);
        }
        if !found {
            assert(own =~= Seq::empty());
        }
        assert forall|i: int| 0 <= i < after.len() implies {
            let mine = pieces_for(pieces, (#[trigger] after[i]).index);
            &&& mine.len() > 0
            &&& after[i].id == id_given(mine)
            &&& after[i].name == name_given(mine)
            &&& after[i].arguments == arguments_given(mine)
        } by {
            if i == at {
                let mine = own.push(piece);
                assert(pieces_for(pieces, index) == mine);
                assert(mine.last() == piece);
                if found {
                    assert(after[i] == with_piece(before[at], piece));
                    assert(pieces_for(init, before[at].index) == own);
                } else {
                    assert(after[i] == with_piece(new_call(index), piece));
                    assert(id_given(own) =~= Seq::empty());
                    assert(name_given(own) =~= Seq::empty());
                    assert(arguments_given(own) =~= Seq::empty());
                }
                assert(after[i].index == index);
            } else {
                let k = if found || i < at {
                    i
                } else {
                    i - 1
                };
                assert(after[i] == before[k]);
                assert(before[k].index != index) by {
                    if k < at {
                        assert(before[k].index < index);
                    } else if k > at {
                        assert(before[at].index < before[k].index);
                    }
                }
                assert(pieces_for(pieces, before[k].index) == pieces_for(init, before[k].index));
            }
        }
        assert forall|other: u32|
            #![trigger pieces_for(pieces, other)]
            pieces_for(pieces, other).len() > 0 implies exists|i: int|
            0 <= i < after.len() && (#[trigger] after[i]).index == other by {
            if other == index {
                assert(after[at].index == other);
            } else {
                assert(pieces_for(init, other).len() > 0);
                let k = choose|k: int|
                    0 <= k < before.len() && (#[trigger] before[k]).index == other;
                if found || k < at {
                    assert(after[k] == before[k]);
                } else {
                    assert(after[k + 1] == before[k]);
                }
            }
        }
    }
}

proof fn lemma_call_told(call: CallView, error: Seq<char>)
    ensures
        occurs(call.name, bad_arguments(call, error)),
        occurs(call.id, bad_arguments(call, error)),
{
    let a = "invalid arguments for tool call "@;
    let whole = bad_arguments(call, error);
    lemma_between(a, call.name, " ("@ + call.id + "): "@ + error);
    assert(whole =~= a + call.name + (" ("@ + call.id + "): "@ + error));
    lemma_between(a + call.name + " ("@, call.id, "): "@ + error);
    assert(whole =~= a + call.name + " ("@ + call.id + ("): "@ + error));
}

/// Calls are handed out one by one, in order, each with its id, its name and the JSON value of
/// its arguments; where the arguments of one are no JSON, none is handed out, and the failure
/// is that of malformed arguments.
pub proof fn law_chat_calls_drained(calls: Seq<CallView>)
    ensures
        drained(calls) is Err <==> exists|i: int|
            0 <= i < calls.len() && parsed_json((#[trigger] calls[i]).arguments) is Err,
        drained(calls) matches Err(failure) ==> {
            &&& failure.kind == ApiFailureKind::MalformedToolArguments
            &&& exists|i: int|
                {
                    &&& 0 <= i < calls.len()
                    &&& parsed_json((#[trigger] calls[i]).arguments) is Err
                    &&& occurs(calls[i].name, failure.message)
                    &&& occurs(calls[i].id, failure.message)
                    &&& forall|k: int|
                        0 <= k < i ==> parsed_json((#[trigger] calls[k]).arguments) is Ok
                }
        },
        drained(calls) matches Ok(events) ==> {
            &&& events.len() == calls.len()
            &&& forall|i: int|
                0 <= i < calls.len() ==> (#[trigger] events[i]) == (EventView::ToolUse {
                    id: calls[i].id,
                    name: calls[i].name,
                    input: parsed_json(calls[i].arguments)->Ok_0,
                })
        },
    decreases calls.len(),
{
    if calls.len() > 0 {
        let init = calls.drop_last();
        law_chat_calls_drained(init);
        assert(calls[calls.len() - 1] == calls.last());
        if let Err(failure) = drained(init) {
            let i = choose|i: int|
                {
                    &&& 0 <= i < init.len()
                    &&& parsed_json((#[trigger] init[i]).arguments) is Err
                    &&& occurs(init[i].name, failure.message)
                    &&& occurs(init[i].id, failure.message)
                    &&& forall|k: int|
                        0 <= k < i ==> parsed_json((#[trigger] init[k]).arguments) is Ok
                };
            assert(parsed_json(calls[i].arguments) is Err);
            assert forall|k: int| 0 <= k < i implies parsed_json(
                (#[trigger] calls[k]).arguments,
            ) is Ok by {
                assert(init[k] == calls[k]);
            }
        } else if let Err(error) = parsed_json(calls.last().arguments) {
            lemma_call_told(calls.last(), error);
            assert forall|k: int| 0 <= k < calls.len() - 1 implies parsed_json(
                (#[trigger] calls[k]).arguments,
            ) is Ok by {
                assert(init[k] == calls[k]);
                if parsed_json(init[k].arguments) is Err {
                    assert(drained(init) is Err);
                }
            }
        }
        if exists|i: int|
            0 <= i < calls.len() && parsed_json((#[trigger] calls[i]).arguments) is Err {
            let i = choose|i: int|
                0 <= i < calls.len() && parsed_json((#[trigger] calls[i]).arguments) is Err;
            if i < init.len() {
                assert(parsed_json(init[i].arguments) is Err);
            }
        }
        if let Ok(events) = drained(calls) {
            assert forall|i: int| 0 <= i < calls.len() implies (#[trigger] events[i]) == (
            EventView::ToolUse {
                id: calls[i].id,
                name: calls[i].name,
                input: parsed_json(calls[i].arguments)->Ok_0,
            }) by {
                if i < init.len() {
                    assert(init[i] == calls[i]);
                }
            }
        }
    }
}

/// The tool calls that complete calls ask for.
pub open spec fn asked_for(calls: Seq<CallView>) -> Seq<ToolCallView> {
    Seq::new(
        calls.len(),
        |i: int|
            ToolCallView {
                id: calls[i].id,
                name: calls[i].name,
                input: parsed_json(calls[i].arguments)->Ok_0,
            },
    )
}

proof fn lemma_calls_only(events: Seq<EventView>, calls: Seq<ToolCallView>)
    requires
        events.len() == calls.len(),
        forall|i: int|
            0 <= i < calls.len() ==> (#[trigger] events[i]) == (EventView::ToolUse {
                id: calls[i].id,
                name: calls[i].name,
                input: calls[i].input,
            }),
    ensures
        calls_heard(events) == calls,
        texts_heard(events).len() == 0,
        thoughts_heard(events).len() == 0,
    decreases events.len(),
{
    if events.len() > 0 {
        let init = calls.drop_last();
        assert forall|i: int| 0 <= i < init.len() implies (#[trigger] events.drop_last()[i]) == (
        EventView::ToolUse { id: init[i].id, name: init[i].name, input: init[i].input }) by {
            assert(events.drop_last()[i] == events[i]);
        }
        lemma_calls_only(events.drop_last(), init);
        assert(events.last() == events[events.len() - 1]);
        assert(calls =~= init.push(calls.last()));
    } else {
        assert(calls =~= Seq::empty());
    }
}

proof fn lemma_drained_heard(calls: Seq<CallView>)
    requires
        drained(calls) is Ok,
    ensures
        calls_heard(drained(calls)->Ok_0) == asked_for(calls),
        texts_heard(drained(calls)->Ok_0).len() == 0,
        thoughts_heard(drained(calls)->Ok_0).len() == 0,
{
    law_chat_calls_drained(calls);
    lemma_calls_only(drained(calls)->Ok_0, asked_for(calls));
}

/// The text that a delta brings, where it brings some.
pub open spec fn content_of(delta: JsonView) -> Seq<char> {
    match delta.at("content"@).text() {
        Some(content) => content,
        None => Seq::empty(),
    }
}

/// The text of reasoning that a delta brings: in one field, or else in the other.
pub open spec fn thought_of(delta: JsonView) -> Seq<char> {
    let field = match delta.get("reasoning"@) {
        Some(value) => value,
        None => delta.at("reasoning_content"@),
    };
    match field.text() {
        Some(text) => text,
        None => Seq::empty(),
    }
}

/// The items of a list in a field.
pub open spec fn list_at(value: JsonView, key: Seq<char>) -> Seq<JsonView> {
    match value.at(key) {
        JsonView::Array(items) => items,
        _ => Seq::empty(),
    }
}

/// The reasoning gathered, as one piece, where there is any.
pub open spec fn gathered_thought(text: Seq<char>, details: Seq<JsonView>) -> Seq<ThoughtView> {
    if text.len() == 0 && details.len() == 0 {
        Seq::empty()
    } else {
        seq![
            ThoughtView {
                text: if text.len() > 0 {
                    Some(text)
                } else {
                    None
                },
                details,
            },
        ]
    }
}

proof fn lemma_no_events()
    ensures
        texts_heard(Seq::empty()).len() == 0,
        calls_heard(Seq::empty()).len() == 0,
        thoughts_heard(Seq::empty()).len() == 0,
{
}

proof fn lemma_text_events(delta: JsonView)
    ensures
        put_together(texts_heard(text_events(delta))) == content_of(delta),
        calls_heard(text_events(delta)).len() == 0,
        thoughts_heard(text_events(delta)).len() == 0,
        text_events(delta).len() <= 1,
{
    lemma_no_events();
    let content = content_of(delta);
    lemma_together_push(Seq::empty(), content);
    if content.len() > 0 {
        lemma_heard_one(EventView::Text(content));
        assert(seq![content] =~= Seq::empty().push(content));
        assert(Seq::<char>::empty() + content =~= content);
    } else {
        assert(content =~= Seq::empty());
    }
}

proof fn lemma_reasoning_events(s: ChatState)
    ensures
        thoughts_heard(s.reasoning_events()) == gathered_thought(
            s.reasoning_text,
            s.reasoning_details,
        ),
        texts_heard(s.reasoning_events()).len() == 0,
        calls_heard(s.reasoning_events()).len() == 0,
{
    lemma_no_events();
    if s.reasoning_events().len() > 0 {
        assert(s.reasoning_events() =~= seq![s.reasoning_events()[0]]);
        lemma_heard_one(s.reasoning_events()[0]);
    } else {
        assert(s.reasoning_events() =~= Seq::empty());
        assert(gathered_thought(s.reasoning_text, s.reasoning_details) =~= Seq::empty());
    }
}

/// A choice that goes on hands out the text that it brings. Its reasoning is gathered behind
/// what came before, and so are its pieces of tool calls; nothing else changes.
pub proof fn law_chat_goes_on(s: ChatState, choice: JsonView)
    requires
        choice.get("delta"@) is Some,
        choice.at("finish_reason"@).text() is None,
    ensures
        ({
            let delta = choice.at("delta"@);
            let step = choice_step(s, choice);
            &&& step.status is Going
            &&& put_together(texts_heard(step.events)) == content_of(delta)
            &&& calls_heard(step.events).len() == 0
            &&& thoughts_heard(step.events).len() == 0
            &&& step.events.len() <= 1
            &&& step.state.calls == with_call_pieces(s.calls, list_at(delta, "tool_calls"@))
            &&& step.state.reasoning_text == s.reasoning_text + thought_of(delta)
            &&& step.state.reasoning_details == with_fragments(
                s.reasoning_details,
                list_at(delta, "reasoning_details"@),
            )
            &&& step.state == (ChatState {
                calls: step.state.calls,
                reasoning_text: step.state.reasoning_text,
                reasoning_details: step.state.reasoning_details,
                ..s
            })
        }),
{
    let delta = choice.at("delta"@);
    lemma_text_events(delta);
}

/// A choice that ends hands out the text that it brings and all reasoning gathered, once, and
/// nothing of it is left. Where it ends in tool calls, all of them are handed out, or the
/// reading fails; where it stops, reading goes on; a limit that was reached, a filter and
/// anything else is an error that ends the stream.
pub proof fn law_chat_ends(s: ChatState, choice: JsonView, reason: Seq<char>)
    requires
        choice.get("delta"@) is Some,
        choice.at("finish_reason"@) == JsonView::Text(reason),
    ensures
        ({
            let delta = choice.at("delta"@);
            let step = choice_step(s, choice);
            let calls = with_call_pieces(s.calls, list_at(delta, "tool_calls"@));
            let text = s.reasoning_text + thought_of(delta);
            let details = with_fragments(
                s.reasoning_details,
                list_at(delta, "reasoning_details"@),
            );
            &&& put_together(texts_heard(step.events)) == content_of(delta)
            &&& content_of(delta).len() > 0 ==> step.events[0] is Text
            &&& thoughts_heard(step.events) == gathered_thought(text, details)
            &&& step.state.reasoning_text.len() == 0
            &&& step.state.reasoning_details.len() == 0
            &&& step.state.saw_finish_reason
            &&& reason == "tool_calls"@ && drained(calls) is Ok ==> {
                &&& step.status is Going
                &&& calls_heard(step.events) == asked_for(calls)
                &&& step.state.calls.len() == 0
                &&& calls.len() > 0 ==> step.events.last() is ToolUse
            }
            &&& reason == "tool_calls"@ && drained(calls) is Err ==> {
                &&& step.status matches StatusView::Failed(failure)
                &&& failure.kind == ApiFailureKind::MalformedToolArguments
                &&& calls_heard(step.events).len() == 0
            }
            &&& reason == "stop"@ ==> {
                &&& step.status is Going
                &&& calls_heard(step.events).len() == 0
                &&& step.state.calls == calls
            }
            &&& reason != "tool_calls"@ && reason != "stop"@ ==> {
                &&& step.status is Finished
                &&& calls_heard(step.events).len() == 0
                &&& step.events.len() > 0
                &&& step.events.last() matches EventView::Error(failure)
                &&& failure.kind == if reason == "length"@ {
                    ApiFailureKind::OutputLimitExceeded
                } else {
                    ApiFailureKind::Other
                }
                &&& reason != "length"@ && reason != "content_filter"@ ==> reason.is_suffix_of(
                    failure.message,
                )
            }
        }),
{
    reveal_strlit("tool_calls");
    reveal_strlit("stop");
    reveal_strlit("length");
    assert("tool_calls"@.len() == 10);
    assert("stop"@.len() == 4);
    assert("length"@.len() == 6);
    let delta = choice.at("delta"@);
    let next = s.gathered(delta);
    let before = text_events(delta);
    lemma_text_events(delta);
    lemma_reasoning_events(next);
    let thought = next.reasoning_events();
    lemma_heard_concat(before, thought);
    let events = before + thought;
    let step = choice_step(s, choice);
    assert(texts_heard(events) =~= texts_heard(before));
    assert(thoughts_heard(events) =~= thoughts_heard(thought));
    assert(calls_heard(events) =~= Seq::empty());
    law_chat_calls_drained(next.calls);
    if reason == "tool_calls"@ {
        if drained(next.calls) is Ok {
            let uses = drained(next.calls)->Ok_0;
            lemma_drained_heard(next.calls);
            lemma_heard_concat(events, uses);
            assert(texts_heard(step.events) =~= texts_heard(events));
            assert(thoughts_heard(step.events) =~= thoughts_heard(events));
            assert(calls_heard(step.events) =~= asked_for(next.calls));
        }
    } else if reason != "stop"@ {
        let unknown = "unsupported OpenAI finish reason: "@ + reason;
        assert(unknown.subrange(unknown.len() - reason.len(), unknown.len() as int) =~= reason);
        let failure = step.events.last();
        assert(step.events =~= events + seq![failure]);
        lemma_heard_one(failure);
        lemma_heard_concat(events, seq![failure]);
        assert(texts_heard(step.events) =~= texts_heard(events));
        assert(thoughts_heard(step.events) =~= thoughts_heard(events));
        assert(calls_heard(step.events) =~= Seq::empty());
    }
}

/// Whether an event of the stream is one choice that goes on, and no error.
pub open spec fn is_one_choice(event: JsonView) -> bool {
    &&& !(event.at("error"@) is Object)
    &&& event.at("choices"@) matches JsonView::Array(choices)
    &&& choices.len() == 1
    &&& choices[0].get("delta"@) is Some
    &&& choices[0].at("finish_reason"@).text() is None
}

/// The delta of an event of one choice.
pub open spec fn delta_of(event: JsonView) -> JsonView {
    list_at(event, "choices"@)[0].at("delta"@)
}

/// What events of the stream lead to: they are read in order, up to the first one that ends
/// the reading.
pub open spec fn chat_run(
    s: ChatState,
    events: Seq<JsonView>,
    provider: Seq<char>,
    model: Seq<char>,
) -> ChatStep
    decreases events.len(),
{
    if events.len() == 0 {
        ChatStep { state: s, events: Seq::empty(), status: StatusView::Going }
    } else {
        let before = chat_run(s, events.drop_last(), provider, model);
        if before.status is Going {
            let last = chat_event(before.state, events.last(), provider, model);
            ChatStep { events: before.events + last.events, ..last }
        } else {
            before
        }
    }
}

/// The pieces of tool calls that events bring, in order.
pub open spec fn call_pieces(events: Seq<JsonView>) -> Seq<JsonView>
    decreases events.len(),
{
    if events.len() == 0 {
        Seq::empty()
    } else {
        call_pieces(events.drop_last()) + list_at(delta_of(events.last()), "tool_calls"@)
    }
}

/// The texts that events bring, in order.
pub open spec fn contents_of(events: Seq<JsonView>) -> Seq<Seq<char>> {
    Seq::new(events.len(), |i: int| content_of(delta_of(events[i])))
}

/// The texts of reasoning that events bring, in order.
pub open spec fn thoughts_of(events: Seq<JsonView>) -> Seq<Seq<char>> {
    Seq::new(events.len(), |i: int| thought_of(delta_of(events[i])))
}

proof fn lemma_pieces_concat(calls: Seq<CallView>, a: Seq<JsonView>, b: Seq<JsonView>)
    ensures
        with_call_pieces(calls, a + b) == with_call_pieces(with_call_pieces(calls, a), b),
    decreases b.len(),
{
    if b.len() == 0 {
        assert(a + b =~= a);
    } else {
        lemma_pieces_concat(calls, a, b.drop_last());
        assert((a + b).drop_last() =~= a + b.drop_last());
    }
}

/// While a response comes, its texts are handed out, in order and unchanged; its reasoning and
/// its tool calls are gathered, the calls as their pieces make them up.
pub proof fn law_chat_response(
    s: ChatState,
    events: Seq<JsonView>,
    provider: Seq<char>,
    model: Seq<char>,
)
    requires
        s.calls.len() == 0,
        s.reasoning_text.len() == 0,
        forall|i: int| 0 <= i < events.len() ==> is_one_choice(#[trigger] events[i]),
    ensures
        ({
            let after = chat_run(s, events, provider, model);
            &&& after.status is Going
            &&& put_together(texts_heard(after.events)) == put_together(contents_of(events))
            &&& calls_heard(after.events).len() == 0
            &&& thoughts_heard(after.events).len() == 0
            &&& after.state.calls == with_call_pieces(Seq::empty(), call_pieces(events))
            &&& are_made_of(after.state.calls, call_pieces(events))
            &&& after.state.reasoning_text == put_together(thoughts_of(events))
            &&& after.state.saw_finish_reason == s.saw_finish_reason
        }),
    decreases events.len(),
{
    law_chat_pieces(call_pieces(events));
    if events.len() == 0 {
        assert(s.calls =~= Seq::empty());
        assert(s.reasoning_text =~= Seq::empty());
    } else {
        let init = events.drop_last();
        let event = events.last();
        assert forall|i: int| 0 <= i < init.len() implies is_one_choice(#[trigger] init[i]) by {
            assert(init[i] == events[i]);
        }
        assert(is_one_choice(events[events.len() - 1]));
        law_chat_response(s, init, provider, model);
        let before = chat_run(s, init, provider, model);
        let after = chat_run(s, events, provider, model);
        let choices = list_at(event, "choices"@);
        let delta = delta_of(event);
        assert(choices[0].at("delta"@) == delta);
        let counted = before.state.counted(event);
        let step = choice_step(counted, choices[0]);
        law_chat_goes_on(counted, choices[0]);
        assert(items_or_none(event.at("choices"@)) == choices);
        assert(choices.drop_first() =~= Seq::empty());
        let rest = choices_step(step.state, choices.drop_first());
        assert(rest.events =~= Seq::empty());
        assert(step.events + rest.events =~= step.events);
        let last = chat_event(before.state, event, provider, model);
        assert(last.events == step.events);
        assert(last.state == step.state);
        lemma_heard_concat(before.events, last.events);
        lemma_together_concat(texts_heard(before.events), texts_heard(last.events));
        assert(contents_of(events) =~= contents_of(init).push(content_of(delta)));
        lemma_together_push(contents_of(init), content_of(delta));
        assert(thoughts_of(events) =~= thoughts_of(init).push(thought_of(delta)));
        lemma_together_push(thoughts_of(init), thought_of(delta));
        lemma_pieces_concat(
            Seq::empty(),
            call_pieces(init),
            list_at(delta, "tool_calls"@),
        );
    }
}

/// A stream that is complete hands out the reasoning and the tool calls that were gathered,
/// then its usage, and last of all that it is done; or, where the arguments of a call are no
/// JSON, it fails.
pub proof fn law_chat_completes(s: ChatState)
    ensures
        ({
            let step = s.completed();
            &&& thoughts_heard(step.events) == gathered_thought(
                s.reasoning_text,
                s.reasoning_details,
            )
            &&& texts_heard(step.events).len() == 0
            &&& step.state.reasoning_text.len() == 0
            &&& step.state.reasoning_details.len() == 0
            &&& thoughts_heard(step.events).len() > 0 ==> step.events[0] is Reasoning
            &&& drained(s.calls) is Ok ==> {
                &&& step.status is Finished
                &&& step.state.calls.len() == 0
                &&& calls_heard(step.events) == asked_for(s.calls)
                &&& step.events.len() >= 2
                &&& step.events[step.events.len() - 2] == EventView::Usage(s.usage())
                &&& step.events.last() is Done
            }
            &&& drained(s.calls) is Err ==> {
                &&& step.status matches StatusView::Failed(failure)
                &&& failure.kind == ApiFailureKind::MalformedToolArguments
                &&& calls_heard(step.events).len() == 0
            }
        }),
{
    let step = s.completed();
    let thought = s.reasoning_events();
    lemma_reasoning_events(s);
    law_chat_calls_drained(s.calls);
    if drained(s.calls) is Ok {
        let uses = drained(s.calls)->Ok_0;
        let usage = EventView::Usage(s.usage());
        let end = seq![usage, EventView::Done];
        lemma_drained_heard(s.calls);
        lemma_heard_concat(thought, uses);
        lemma_heard_concat(thought + uses, end);
        assert(end =~= seq![usage] + seq![EventView::Done]);
        lemma_heard_concat(seq![usage], seq![EventView::Done]);
        lemma_heard_one(usage);
        lemma_heard_one(EventView::Done);
        assert(texts_heard(step.events) =~= Seq::empty());
        assert(thoughts_heard(step.events) =~= thoughts_heard(thought));
        assert(calls_heard(step.events) =~= asked_for(s.calls));
    }
}

/// The token classes of usage are exclusive and add up to the count of the input, where that
/// takes in the cached tokens; the output and the charges are as reported.
pub proof fn law_usage_classes(s: ChatState)
    ensures
        ({
            let usage = s.usage();
            &&& usage.output_tokens == s.output_tokens
            &&& usage.cache_read_tokens == s.cache_read_tokens
            &&& usage.cache_creation_tokens == s.cache_creation_tokens
            &&& usage.cost_reports == s.cost_reports
            &&& s.input_tokens >= s.cache_read_tokens + s.cache_creation_tokens
                ==> usage.input_tokens + usage.cache_read_tokens + usage.cache_creation_tokens
                == s.input_tokens
            &&& s.input_tokens < s.cache_read_tokens + s.cache_creation_tokens
                ==> usage.input_tokens == 0
        }),
{
}

/// The counts of an event's usage take the place of those before, and what it does not count
/// stays; charges that are reported are kept, in order.
pub proof fn law_chat_usage(s: ChatState, event: JsonView)
    ensures
        ({
            let after = s.counted(event);
            let usage = event.at("usage"@);
            let details = usage.at("prompt_tokens_details"@);
            &&& counts_as(usage, "prompt_tokens"@, after.input_tokens)
            &&& counts_as(usage, "completion_tokens"@, after.output_tokens)
            &&& counts_as(details, "cached_tokens"@, after.cache_read_tokens)
            &&& counts_as(details, "cache_write_tokens"@, after.cache_creation_tokens)
            &&& usage.at("prompt_tokens"@).uint() is None ==> after.input_tokens == s.input_tokens
            &&& usage.at("completion_tokens"@).uint() is None ==> after.output_tokens
                == s.output_tokens
            &&& details.at("cached_tokens"@).uint() is None ==> after.cache_read_tokens
                == s.cache_read_tokens
            &&& details.at("cache_write_tokens"@).uint() is None ==> after.cache_creation_tokens
                == s.cache_creation_tokens
            &&& s.cost_reports.is_prefix_of(after.cost_reports)
            &&& event.get("cost"@) is None && usage.get("cost"@) is None ==> after.cost_reports
                == s.cost_reports
            &&& event.get("cost"@) is Some && usage.get("cost"@) is None ==> after.cost_reports
                == s.cost_reports.push(event.at("cost"@))
            &&& usage.get("cost"@) is Some ==> after.cost_reports.last() == usage.at("cost"@)
            &&& usage.get("cost"@) is Some && event.get("cost"@) is None
                ==> after.cost_reports.drop_last() == s.cost_reports
            &&& usage.get("cost"@) is Some && event.get("cost"@) is Some
                ==> after.cost_reports.drop_last() == s.cost_reports.push(event.at("cost"@))
            &&& after.diagnostics == s.diagnostics
            &&& after.calls == s.calls
            &&& after.reasoning_text == s.reasoning_text
            &&& after.reasoning_details == s.reasoning_details
            &&& after.saw_finish_reason == s.saw_finish_reason
        }),
{
    let a = s.input_tokens as u64;
    let b = s.output_tokens as u64;
    let c = s.cache_read_tokens as u64;
    let d = s.cache_creation_tokens as u64;
    let after = s.counted(event);
    if event.at("usage"@).get("cost"@) is Some {
        if event.get("cost"@) is None {
            assert(after.cost_reports.drop_last() =~= s.cost_reports);
        } else {
            assert(after.cost_reports.drop_last() =~= s.cost_reports.push(event.at("cost"@)));
        }
    }
    assert(a as u32 == s.input_tokens);
    assert(b as u32 == s.output_tokens);
    assert(c as u32 == s.cache_read_tokens);
    assert(d as u32 == s.cache_creation_tokens);
}

/// The payload of a reasoning detail: its text, its encrypted data or its summary.
pub open spec fn payload_of(detail: JsonView) -> Seq<char> {
    let field = if is_type(detail, "reasoning.text"@) {
        detail.at("text"@)
    } else if is_type(detail, "reasoning.encrypted"@) {
        detail.at("data"@)
    } else if is_type(detail, "reasoning.summary"@) {
        detail.at("summary"@)
    } else {
        JsonView::Null
    };
    match field.text() {
        Some(text) => text,
        None => Seq::empty(),
    }
}

/// The payloads of reasoning details, in order.
pub open spec fn payloads_of(details: Seq<JsonView>) -> Seq<Seq<char>> {
    Seq::new(details.len(), |i: int| payload_of(details[i]))
}

proof fn lemma_payload_names()
    ensures
        "reasoning.text"@.len() == 14,
        "reasoning.encrypted"@.len() == 19,
        "reasoning.summary"@.len() == 17,
        "text"@ != "type"@,
        "data"@ != "type"@,
        "summary"@ != "type"@,
{
    reveal_strlit("reasoning.text");
    reveal_strlit("reasoning.encrypted");
    reveal_strlit("reasoning.summary");
    reveal_strlit("text");
    reveal_strlit("data");
    reveal_strlit("summary");
    reveal_strlit("type");
    assert("type"@.len() == 4);
    assert("text"@[1] == 'e');
    assert("type"@[1] == 'y');
    assert("data"@[0] == 'd');
    assert("type"@[0] == 't');
    assert("summary"@.len() == 7);
}

proof fn lemma_merged(current: JsonView, incoming: JsonView)
    requires
        continues(current, incoming),
    ensures
        payload_of(merged_detail(current, incoming)) == payload_of(current) + payload_of(incoming),
        merged_detail(current, incoming).at("type"@) == current.at("type"@),
{
    lemma_payload_names();
    let kind = current.at("type"@).text()->Some_0;
    let payload = payload_field(kind)->Some_0;
    let c = current->Object_0;
    let i = incoming->Object_0;
    let joined = with_payload(c, i, payload);
    let merged = merged_detail(current, incoming);
    assert(payload != "type"@);
    assert(current.at("type"@) == JsonView::Text(kind));
    assert(incoming.at("type"@) == JsonView::Text(kind));
    assert(joined.contains_key("type"@) && joined["type"@] == c["type"@]);
    assert(merged.at("type"@) == JsonView::Text(kind));
    assert(merged.get(payload) == JsonView::Object(joined).get(payload));
    assert(payload_of(merged) =~= payload_of(current) + payload_of(incoming));
}

/// The field that holds the payload of a reasoning detail.
pub open spec fn payload_key(detail: JsonView) -> Option<Seq<char>> {
    if is_type(detail, "reasoning.text"@) {
        Some("text"@)
    } else if is_type(detail, "reasoning.encrypted"@) {
        Some("data"@)
    } else if is_type(detail, "reasoning.summary"@) {
        Some("summary"@)
    } else {
        None
    }
}

/// Whether a detail has a field that is not null.
pub open spec fn has(detail: JsonView, key: Seq<char>) -> bool {
    detail.at(key) != JsonView::Null
}

/// Whether a fragment is of the same identity as a detail: both are objects of the same known
/// type, and every field but the payload that both have is equal.
pub open spec fn same_identity(detail: JsonView, fragment: JsonView) -> bool {
    &&& detail is Object
    &&& fragment is Object
    &&& payload_key(detail) is Some
    &&& fragment.at("type"@) == detail.at("type"@)
    &&& forall|key: Seq<char>|
        #![trigger detail.at(key)]
        #![trigger fragment.at(key)]
        key != payload_key(detail)->Some_0 && has(detail, key) && has(fragment, key) ==> json_equal(
            detail.at(key),
            fragment.at(key),
        )
}

proof fn lemma_continues(detail: JsonView, fragment: JsonView)
    ensures
        continues(detail, fragment) <==> same_identity(detail, fragment),
{
    lemma_payload_names();
    if detail is Object && fragment is Object {
        let c = detail->Object_0;
        let i = fragment->Object_0;
        if continues(detail, fragment) {
            assert forall|key: Seq<char>|
                #![trigger detail.at(key)]
                #![trigger fragment.at(key)]
                key != payload_key(detail)->Some_0 && has(detail, key) && has(
                    fragment,
                    key,
                ) implies json_equal(detail.at(key), fragment.at(key)) by {
                assert(!disagree_in(c, i, key));
            }
        }
        if same_identity(detail, fragment) {
            assert forall|key: Seq<char>| key != payload_key(detail)->Some_0 implies !#[trigger]
                disagree_in(c, i, key) by {
                if disagree_in(c, i, key) {
                    assert(detail.at(key) == c[key]);
                    assert(fragment.at(key) == i[key]);
                    assert(has(detail, key) && has(fragment, key));
                }
            }
        }
    }
}

/// However reasoning details are cut into fragments, no payload is lost: the payloads of the
/// details put together are those before and that of the fragment. A fragment of the same
/// identity as the last detail goes into it, which keeps its fields and gets those that it
/// lacks; any other becomes a detail of its own.
pub proof fn law_fragments(details: Seq<JsonView>, fragment: JsonView)
    ensures
        ({
            let after = with_fragment(details, fragment);
            &&& put_together(payloads_of(after)) == put_together(payloads_of(details)) + payload_of(
                fragment,
            )
            &&& after.len() == details.len() || after == details.push(fragment)
            &&& after.len() == details.len() <==> details.len() > 0 && same_identity(
                details.last(),
                fragment,
            )
            &&& after.len() == details.len() ==> {
                &&& after.drop_last() == details.drop_last()
                &&& after.last().at("type"@) == details.last().at("type"@)
                &&& forall|key: Seq<char>|
                    #![trigger after.last().at(key)]
                    key != payload_key(details.last())->Some_0 ==> after.last().at(key) == if has(
                        details.last(),
                        key,
                    ) {
                        details.last().at(key)
                    } else {
                        fragment.at(key)
                    }
            }
        }),
{
    let after = with_fragment(details, fragment);
    if details.len() > 0 {
        lemma_continues(details.last(), fragment);
    }
    lemma_together_push(payloads_of(details), payload_of(fragment));
    assert(payloads_of(details.push(fragment)) =~= payloads_of(details).push(payload_of(fragment)));
    if details.len() > 0 && continues(details.last(), fragment) {
        let init = details.drop_last();
        let merged = merged_detail(details.last(), fragment);
        lemma_merged(details.last(), fragment);
        lemma_payload_names();
        assert(payload_key(details.last()) == payload_field(
            details.last().at("type"@).text()->Some_0,
        ));
        assert(payloads_of(after) =~= payloads_of(init).push(payload_of(merged)));
        lemma_together_push(payloads_of(init), payload_of(merged));
        assert(payloads_of(details) =~= payloads_of(init).push(payload_of(details.last())));
        lemma_together_push(payloads_of(init), payload_of(details.last()));
        assert(put_together(payloads_of(init)) + payload_of(details.last()) + payload_of(fragment)
            =~= put_together(payloads_of(init)) + payload_of(merged));
        assert(after.drop_last() =~= init);
    }
}

proof fn lemma_response_types()
    ensures
        "response.output_text.delta"@.len() == 26,
        "response.output_item.done"@.len() == 25,
        "response.completed"@.len() == 18,
        "response.failed"@.len() == 15,
        "response.incomplete"@.len() == 19,
        "error"@.len() == 5,
        "response.error"@.len() == 14,
{
    reveal_strlit("response.output_text.delta");
    reveal_strlit("response.output_item.done");
    reveal_strlit("response.completed");
    reveal_strlit("response.failed");
    reveal_strlit("response.incomplete");
    reveal_strlit("error");
    reveal_strlit("response.error");
}

/// What an event of the Responses API is read as. A piece of text is handed out unchanged. A
/// function call that is done is handed out with its id, its name and the JSON value of its
/// arguments, or as an error where one of them is missing or the arguments are no JSON. A
/// response that is completed hands out its usage, and then that it is done; no other event
/// does.
pub proof fn law_responses_event(event: JsonView, provider: Seq<char>, model: Seq<char>)
    ensures
        ({
            let events = translated(event, provider, model);
            let item = event.at("item"@);
            let call = is_type(event, "response.output_item.done"@) && is_type(
                item,
                "function_call"@,
            );
            &&& is_type(event, "response.output_text.delta"@) ==> events.len() == (if event.at(
                "delta"@,
            ) is Text {
                1nat
            } else {
                0nat
            })
            &&& is_type(event, "response.output_text.delta"@) && event.at("delta"@) is Text
                ==> events[0] == EventView::Text(event.at("delta"@)->Text_0)
            &&& call ==> {
                let arguments = item.at("arguments"@);
                let readable = item.at("call_id"@) is Text && item.at("name"@) is Text
                    && arguments is Text && parsed_json(arguments->Text_0) is Ok;
                &&& events.len() == 1
                &&& readable ==> events[0] == (EventView::ToolUse {
                    id: item.at("call_id"@)->Text_0,
                    name: item.at("name"@)->Text_0,
                    input: parsed_json(arguments->Text_0)->Ok_0,
                })
                &&& !readable ==> events[0] is Error
                &&& !readable && item.at("call_id"@) is Text && item.at("name"@) is Text ==> occurs(
                    item.at("name"@)->Text_0,
                    events[0]->Error_0.message,
                )
            }
            &&& is_type(event, "response.failed"@) || is_type(event, "response.incomplete"@)
                || is_type(event, "response.error"@) || is_type(event, "error"@) ==> {
                &&& events.len() == 1
                &&& events[0] == EventView::Error(event_failure(event, provider, model))
            }
            &&& !call && !is_type(event, "response.failed"@) && !is_type(
                event,
                "response.incomplete"@,
            ) && !is_type(event, "response.error"@) && !is_type(event, "error"@) ==> forall|i: int|
                0 <= i < events.len() ==> !((#[trigger] events[i]) is Error)
            &&& is_type(event, "response.completed"@) ==> {
                let usage = event.at("response"@).at("usage"@);
                let details = usage.at("input_tokens_details"@);
                &&& events.len() == 2
                &&& events[1] is Done
                &&& events[0] matches EventView::Usage(used)
                &&& counts_as(usage, "input_tokens"@, used.input_tokens)
                &&& counts_as(usage, "output_tokens"@, used.output_tokens)
                &&& counts_as(details, "cached_tokens"@, used.cache_read_tokens)
                &&& counts_as(details, "cache_write_tokens"@, used.cache_creation_tokens)
                &&& usage.at("input_tokens"@).uint() is None ==> used.input_tokens == 0
                &&& usage.at("output_tokens"@).uint() is None ==> used.output_tokens == 0
                &&& details.at("cached_tokens"@).uint() is None ==> used.cache_read_tokens == 0
                &&& details.at("cache_write_tokens"@).uint() is None ==> used.cache_creation_tokens
                    == 0
                &&& usage.at("cost"@) is Number ==> used.cost_reports == seq![usage.at("cost"@)]
                &&& !(usage.at("cost"@) is Number) ==> used.cost_reports.len() == 0
            }
            &&& !is_type(event, "response.completed"@) ==> forall|i: int|
                0 <= i < events.len() ==> !((#[trigger] events[i]) is Done)
                    && !(events[i] is Usage)
            &&& !is_type(event, "response.output_text.delta"@) ==> forall|i: int|
                0 <= i < events.len() ==> !((#[trigger] events[i]) is Text)
            &&& !call ==> forall|i: int|
                0 <= i < events.len() ==> !((#[trigger] events[i]) is ToolUse)
        }),
{
    lemma_response_types();
    if let JsonView::Text(name) = event.at("item"@).at("name"@) {
        lemma_between("OpenAI function "@, name, " returned invalid arguments"@);
    }
}

/// A response that is completed is one that the next request can go on from, with the messages
/// that were sent, where it has an id; no other event changes where the next request goes on
/// from, nor completes the response.
pub proof fn law_responses_cursor(s: ResponsesState, event: JsonView, sent: nat)
    ensures
        ({
            let after = after_event(s, event, sent);
            let id = event.at("response"@).at("id"@);
            &&& !is_type(event, "response.completed"@) ==> after == s
            &&& is_type(event, "response.completed"@) ==> {
                &&& after.completed
                &&& id is Text ==> after.cursor == (CursorView {
                    response_id: Some(id->Text_0),
                    sent_message_count: sent,
                })
                &&& !(id is Text) ==> after.cursor == s.cursor
            }
        }),
{
}

/// A failure of the stream keeps its class and its message; behind the message stands what is
/// known of the stream. What was read before it is handed out all the same.
pub proof fn law_failure_explained(s: ChatState, events: Seq<EventView>, failure: FailureView)
    ensures
        ({
            let step = s.failed(events, failure);
            &&& step.state == s
            &&& step.events == events
            &&& step.status matches StatusView::Failed(told)
            &&& told.kind == failure.kind
            &&& failure.message.is_prefix_of(told.message)
            &&& s.diagnostics.rendered().is_suffix_of(told.message)
        }),
{
    let more = s.diagnostics.rendered();
    let told = failure.message + "; "@ + more;
    assert(told.subrange(told.len() - more.len(), told.len() as int) =~= more);
    assert(told.subrange(0, failure.message.len() as int) =~= failure.message);
}

/// An error that the provider sends ends the stream, whatever else the event holds, and is
/// handed out as the only event.
pub proof fn law_chat_error(
    s: ChatState,
    event: JsonView,
    provider: Seq<char>,
    model: Seq<char>,
)
    requires
        event.at("error"@) is Object,
    ensures
        ({
            let step = chat_event(s, event, provider, model);
            &&& step.state == s
            &&& step.status is Finished
            &&& step.events.len() == 1
            &&& step.events[0] == EventView::Error(event_failure(event, provider, model))
        }),
{
}

/// The contents of the deltas of choices.
pub open spec fn contents_in(choices: Seq<JsonView>) -> Seq<Seq<char>> {
    Seq::new(choices.len(), |i: int| content_of(choices[i].at("delta"@)))
}

/// The pieces of tool calls in choices, in order.
pub open spec fn pieces_in(choices: Seq<JsonView>) -> Seq<JsonView>
    decreases choices.len(),
{
    if choices.len() == 0 {
        Seq::empty()
    } else {
        list_at(choices[0].at("delta"@), "tool_calls"@) + pieces_in(choices.drop_first())
    }
}

/// Where an event has several choices, all of them are read, in order: nothing of their texts
/// and their tool calls is lost. A choice without a delta brings nothing.
pub proof fn law_chat_choices(s: ChatState, choices: Seq<JsonView>)
    requires
        forall|i: int|
            0 <= i < choices.len() ==> (#[trigger] choices[i]).at("finish_reason"@).text() is None,
    ensures
        ({
            let step = choices_step(s, choices);
            &&& step.status is Going
            &&& put_together(texts_heard(step.events)) == put_together(contents_in(choices))
            &&& calls_heard(step.events).len() == 0
            &&& step.state.calls == with_call_pieces(s.calls, pieces_in(choices))
        }),
    decreases choices.len(),
{
    if choices.len() == 0 {
        lemma_no_events();
        assert(contents_in(choices) =~= Seq::empty());
        assert(texts_heard(choices_step(s, choices).events) =~= Seq::empty());
    } else {
        let rest = choices.drop_first();
        let delta = choices[0].at("delta"@);
        let first = choice_step(s, choices[0]);
        if choices[0].get("delta"@) is Some {
            law_chat_goes_on(s, choices[0]);
        } else {
            lemma_no_events();
            assert(delta == JsonView::Null);
            assert(texts_heard(first.events) =~= Seq::empty());
            assert(content_of(delta) =~= Seq::empty());
            assert(put_together(texts_heard(first.events)) =~= content_of(delta));
            assert(list_at(delta, "tool_calls"@) =~= Seq::empty());
        }
        assert forall|i: int| 0 <= i < rest.len() implies (#[trigger] rest[i]).at(
            "finish_reason"@,
        ).text() is None by {
            assert(rest[i] == choices[i + 1]);
        }
        law_chat_choices(first.state, rest);
        let others = choices_step(first.state, rest);
        lemma_heard_concat(first.events, others.events);
        lemma_together_concat(texts_heard(first.events), texts_heard(others.events));
        let one = Seq::empty().push(content_of(delta));
        lemma_together_push(Seq::empty(), content_of(delta));
        assert(put_together(one) =~= content_of(delta));
        assert(contents_in(choices) =~= one + contents_in(rest));
        lemma_together_concat(one, contents_in(rest));
        lemma_pieces_concat(s.calls, list_at(delta, "tool_calls"@), pieces_in(rest));
    }
}

/// A stream that begins has nothing gathered and nothing counted, and has seen no end.
pub proof fn law_fresh_chat(diagnostics: DiagnosticsView)
    ensures
        ({
            let s = ChatState::initial(diagnostics);
            let used = s.usage();
            &&& s.calls.len() == 0
            &&& s.reasoning_text.len() == 0 && s.reasoning_details.len() == 0
            &&& !s.saw_finish_reason
            &&& s.diagnostics == diagnostics
            &&& used.input_tokens == 0 && used.output_tokens == 0
            &&& used.cache_read_tokens == 0 && used.cache_creation_tokens == 0
            &&& used.cost_reports.len() == 0
        }),
{
}

} // verus!
