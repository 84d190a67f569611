//! How the lines of an event stream are told apart and read.

use vstd::prelude::*;
use vstd::utf8::{decode_utf8, valid_utf8};
use crate::api::diagnostics::lossy_text;
use crate::api::lines::{law_chunks, line_texts, split_lines};
use crate::api::openai_responses::{
    after_event, response_data, response_line, response_lines, translated, without_returns,
    ResponsesState,
};
use crate::api::openai_stream::{
    chat_bytes, chat_end, chat_event, chat_line, chat_lines, drained, ChatState,
};
use crate::api::openai_stream_laws::{
    asked_for, content_of, delta_of, gathered_thought, is_one_choice, law_chat_completes,
    law_chat_response, chat_run,
};
use crate::api::stream::{
    anthropic_bytes, anthropic_line, anthropic_lines, data_of_line, lemma_lines_in_turn,
    AnthropicState, EventView, StatusView,
};
use crate::api::stream_laws::{anthropic_run, is_type};
use crate::content::put_together;
use crate::json::{parsed_json, JsonView};
use crate::text::{is_space, trimmed, trimmed_end, trimmed_start};
use crate::turn_laws::{calls_heard, texts_heard, thoughts_heard};

verus! {

proof fn lemma_no_line(line: Seq<u8>)
    requires
        !line.contains(10),
    ensures
        split_lines(line) == (Seq::<Seq<u8>>::empty(), line),
    decreases line.len(),
{
    if line.len() > 0 {
        let init = line.drop_last();
        assert(line.contains(line[line.len() - 1]));
        assert forall|i: int| 0 <= i < init.len() implies init[i] != 10 by {
            assert(line.contains(line[i]));
        }
        lemma_no_line(init);
        assert(init.push(line.last()) =~= line);
    } else {
        assert(line =~= Seq::empty());
    }
}

/// A line ends with a line feed, or with a carriage return and a line feed; what ends it is no
/// part of it, and everything else is. What follows no line feed is no line yet.
pub proof fn law_lines(line: Seq<u8>, more: Seq<u8>)
    requires
        !line.contains(10),
    ensures
        split_lines(line) == (Seq::<Seq<u8>>::empty(), line),
        ({
            let all = split_lines(line.push(13).push(10) + more);
            all.0 == seq![line] + split_lines(more).0 && all.1 == split_lines(more).1
        }),
        line.len() == 0 || line.last() != 13 ==> ({
            let all = split_lines(line.push(10) + more);
            all.0 == seq![line] + split_lines(more).0 && all.1 == split_lines(more).1
        }),
{
    lemma_no_line(line);
    let returned = line.push(13);
    assert forall|i: int| 0 <= i < returned.len() implies returned[i] != 10 by {
        if i < line.len() {
            assert(line.contains(line[i]));
        }
    }
    lemma_no_line(returned);
    assert(returned.push(10).drop_last() =~= returned);
    assert(returned.drop_last() =~= line);
    law_chunks(returned.push(10), more);
    assert(Seq::<u8>::empty() + more =~= more);
    assert(Seq::<Seq<u8>>::empty().push(line) =~= seq![line]);
    assert(line.push(10).drop_last() =~= line);
    law_chunks(line.push(10), more);
}

proof fn lemma_trimmed(s: Seq<char>)
    requires
        s.len() > 0,
        !is_space(s[0]),
        !is_space(s.last()),
    ensures
        trimmed(s) == s,
{
}

/// The payload of a line is what follows `data: ` in it, whatever that is; a line that begins
/// with anything else has none.
pub proof fn law_data_line(payload: Seq<char>, other: Seq<char>)
    requires
        payload.len() > 0,
        !is_space(payload.last()),
        other.len() > 0,
        !is_space(other[0]),
        other[0] != 'd',
    ensures
        data_of_line("data: "@ + payload) == Some(payload),
        data_of_line(other) is None,
{
    reveal_strlit("data: ");
    let line = "data: "@ + payload;
    assert("data: "@.len() == 6);
    assert("data: "@[0] == 'd');
    assert(line[0] == 'd');
    assert(line.last() == payload.last());
    lemma_trimmed(line);
    assert("data: "@.is_prefix_of(line));
    assert(line.skip(6) =~= payload);
    lemma_end_keeps_start(other);
    assert(trimmed_start(other) == other);
}

proof fn lemma_end_keeps_start(s: Seq<char>)
    requires
        s.len() > 0,
        !is_space(s[0]),
    ensures
        trimmed_end(s).len() > 0,
        trimmed_end(s)[0] == s[0],
    decreases s.len(),
{
    if is_space(s.last()) {
        lemma_end_keeps_start(s.drop_last());
    }
}

/// Whether a line brings nothing, or an event in JSON.
pub open spec fn is_plain(line: Seq<char>) -> bool {
    data_of_line(line) matches Some(data) ==> data != "[DONE]"@ && parsed_json(data) is Ok
}

/// The events that lines bring, in order.
pub open spec fn events_in(lines: Seq<Seq<char>>) -> Seq<JsonView>
    decreases lines.len(),
{
    if lines.len() == 0 {
        Seq::empty()
    } else {
        let before = events_in(lines.drop_last());
        match data_of_line(lines.last()) {
            Some(data) => before.push(parsed_json(data)->Ok_0),
            None => before,
        }
    }
}

proof fn lemma_ended(s: AnthropicState, a: Seq<Seq<char>>, b: Seq<Seq<char>>, model: Seq<char>)
    requires
        !(anthropic_lines(s, a, model).status is Going),
    ensures
        anthropic_lines(s, a + b, model) == anthropic_lines(s, a, model),
    decreases a.len(),
{
    let first = anthropic_line(s, a[0], model);
    assert((a + b)[0] == a[0]);
    assert((a + b).drop_first() =~= a.drop_first() + b);
    if first.status is Going {
        lemma_ended(first.state, a.drop_first(), b, model);
    }
}

/// Lines of Anthropic's stream lead to what the events that they bring lead to, in order; lines
/// that bring none make no difference.
pub proof fn law_anthropic_lines(s: AnthropicState, lines: Seq<Seq<char>>, model: Seq<char>)
    requires
        forall|i: int| 0 <= i < lines.len() ==> is_plain(#[trigger] lines[i]),
    ensures
        ({
            let read = anthropic_lines(s, lines, model);
            let run = anthropic_run(s, events_in(lines), model);
            &&& read.state == run.state
            &&& read.status == run.status
            &&& read.events == run.events
        }),
    decreases lines.len(),
{
    if lines.len() > 0 {
        let init = lines.drop_last();
        let line = lines.last();
        assert forall|i: int| 0 <= i < init.len() implies is_plain(#[trigger] init[i]) by {
            assert(init[i] == lines[i]);
        }
        assert(is_plain(lines[lines.len() - 1]));
        law_anthropic_lines(s, init, model);
        assert(lines =~= init + seq![line]);
        let before = anthropic_lines(s, init, model);
        let run = anthropic_run(s, events_in(init), model);
        if let Some(data) = data_of_line(line) {
            let event = parsed_json(data)->Ok_0;
            assert(events_in(init).push(event).drop_last() =~= events_in(init));
        }
        if before.status is Going {
            lemma_lines_in_turn(s, init, seq![line], model);
            let step = anthropic_line(before.state, line, model);
            assert(seq![line].drop_first() =~= Seq::empty());
            reveal_with_fuel(anthropic_lines, 2);
            assert(step.events + Seq::<EventView>::empty() =~= step.events);
            assert(before.events + Seq::<EventView>::empty() =~= before.events);
        } else {
            lemma_ended(s, init, seq![line], model);
        }
    }
}

/// The marker at the end of Anthropic's stream completes it with the usage counted so far; a
/// line whose payload is no JSON fails and brings nothing.
pub proof fn law_anthropic_last_line(s: AnthropicState, line: Seq<char>, model: Seq<char>)
    requires
        data_of_line(line) is Some,
        !is_plain(line),
    ensures
        ({
            let step = anthropic_line(s, line, model);
            &&& data_of_line(line) == Some("[DONE]"@) ==> {
                &&& step.status is Finished
                &&& step.events.len() == 2
                &&& step.events[0] == EventView::Usage(s.usage())
                &&& step.events[1] is Done
            }
            &&& data_of_line(line) != Some("[DONE]"@) ==> step.status is Failed
                && step.events.len() == 0
        }),
{
}

/// What a line of a chat completions stream leads to: one without a payload to nothing; the
/// marker at the end to everything that is left, with the usage, and that it is done; one
/// whose payload is no JSON to a failure; and one with a choice that goes on to the text that
/// it brings.
pub proof fn law_chat_line(
    s: ChatState,
    line: Seq<char>,
    provider: Seq<char>,
    model: Seq<char>,
)
    ensures
        ({
            let step = chat_line(s, line, provider, model);
            match data_of_line(line) {
                None => step.status is Going && step.events.len() == 0 && step.state == s,
                Some(data) => {
                    &&& data == "[DONE]"@ || parsed_json(data) is Err ==> step.state.diagnostics
                        == s.diagnostics.with_frame(data)
                    &&& data == "[DONE]"@ && drained(s.calls) is Ok ==> {
                        &&& step.status is Finished
                        &&& calls_heard(step.events) == asked_for(s.calls)
                        &&& step.events.len() >= 2
                        &&& step.events[step.events.len() - 2] == EventView::Usage(s.usage())
                        &&& step.events.last() is Done
                    }
                    &&& data == "[DONE]"@ && drained(s.calls) is Err ==> step.status is Failed
                    &&& data != "[DONE]"@ && parsed_json(data) is Err ==> step.status is Failed
                        && step.events.len() == 0
                    &&& data != "[DONE]"@ && parsed_json(data) is Ok ==> step == chat_event(
                        ChatState { diagnostics: s.diagnostics.with_frame(data), ..s },
                        parsed_json(data)->Ok_0,
                        provider,
                        model,
                    )
                    &&& data == "[DONE]"@ ==> thoughts_heard(step.events) == gathered_thought(
                        s.reasoning_text,
                        s.reasoning_details,
                    )
                    &&& data != "[DONE]"@ && parsed_json(data) is Ok && is_one_choice(
                        parsed_json(data)->Ok_0,
                    ) && s.calls.len() == 0 && s.reasoning_text.len() == 0 ==> {
                        &&& step.status is Going
                        &&& put_together(texts_heard(step.events)) == content_of(
                            delta_of(parsed_json(data)->Ok_0),
                        )
                        &&& calls_heard(step.events).len() == 0
                    }
                },
            }
        }),
{
    match data_of_line(line) {
        None => {},
        Some(data) => {
            let noted = ChatState { diagnostics: s.diagnostics.with_frame(data), ..s };
            law_chat_completes(noted);
            if data != "[DONE]"@ && parsed_json(data) is Ok && is_one_choice(
                parsed_json(data)->Ok_0,
            ) && s.calls.len() == 0 && s.reasoning_text.len() == 0 {
                let event = parsed_json(data)->Ok_0;
                law_chat_response(noted, seq![event], provider, model);
                assert(seq![event].drop_last() =~= Seq::empty());
                reveal_with_fuel(chat_run, 2);
                let step = chat_event(noted, event, provider, model);
                assert(Seq::<EventView>::empty() + step.events =~= step.events);
                lemma_one_content(event);
            }
        },
    }
}

proof fn lemma_one_content(event: JsonView)
    ensures
        put_together(crate::api::openai_stream_laws::contents_of(seq![event])) == content_of(
            delta_of(event),
        ),
{
    let contents = crate::api::openai_stream_laws::contents_of(seq![event]);
    assert(contents =~= Seq::empty().push(content_of(delta_of(event))));
    crate::content::lemma_together_push(Seq::empty(), content_of(delta_of(event)));
    assert(put_together(contents) =~= content_of(delta_of(event)));
}

/// A chat completions stream that ends is a success only between two lines and, unless the
/// provider may do without, after a finish reason: then everything that is left is handed
/// out, with the usage, and that it is done. Else nothing is handed out, and it fails.
pub proof fn law_chat_stream_ends(s: ChatState, pending: Seq<u8>, allow_eof: bool)
    ensures
        ({
            let step = chat_end(s, pending, allow_eof);
            let whole = pending.len() == 0 && (s.saw_finish_reason || allow_eof);
            &&& !whole ==> step.status is Failed && step.events.len() == 0
            &&& !whole ==> step.state.diagnostics.rendered().is_suffix_of(
                step.status->Failed_0.message,
            )
            &&& step.state.diagnostics == s.diagnostics.with_tail(pending)
            &&& whole && drained(s.calls) is Err ==> step.status is Failed
            &&& whole ==> thoughts_heard(step.events) == gathered_thought(
                s.reasoning_text,
                s.reasoning_details,
            )
            &&& whole && drained(s.calls) is Ok ==> {
                &&& step.status is Finished
                &&& calls_heard(step.events) == asked_for(s.calls)
                &&& step.events.len() >= 2
                &&& step.events[step.events.len() - 2] == EventView::Usage(s.usage())
                &&& step.events.last() is Done
            }
        }),
{
    let noted = ChatState { diagnostics: s.diagnostics.with_tail(pending), ..s };
    law_chat_completes(noted);
    let step = chat_end(s, pending, allow_eof);
    if let StatusView::Failed(told) = step.status {
        let known = noted.diagnostics.rendered();
        let message = told.message;
        assert(message.subrange(message.len() - known.len(), message.len() as int) =~= known);
    }
    if pending.len() == 0 {
        assert(pending =~= Seq::empty());
        assert(valid_utf8(pending));
    }
}

/// What a line of a Responses stream leads to: one that brings an event to what the event is
/// read as, and any other to nothing. Only an error ends the reading.
pub proof fn law_response_line(
    s: ResponsesState,
    line: Seq<u8>,
    sent: nat,
    provider: Seq<char>,
    model: Seq<char>,
)
    ensures
        ({
            let step = response_line(s, line, sent, provider, model);
            let event = parsed_json(response_data(line)->Some_0)->Ok_0;
            let brings = response_data(line) is Some && response_data(line) != Some("[DONE]"@)
                && parsed_json(response_data(line)->Some_0) is Ok;
            let ends = is_type(event, "response.failed"@) || is_type(event, "response.incomplete"@)
                || is_type(event, "response.error"@) || is_type(event, "error"@);
            &&& !brings ==> step.status is Going && step.events.len() == 0 && step.state == s
            &&& brings ==> {
                &&& step.events == translated(event, provider, model)
                &&& step.state == after_event(s, event, sent)
                &&& step.status is Finished <==> ends
                &&& step.status is Going <==> !ends
                &&& ends ==> step.events.len() == 1 && step.events[0] is Error
            }
        }),
{
    reveal_strlit("response.output_text.delta");
    reveal_strlit("response.output_item.done");
    reveal_strlit("response.completed");
    reveal_strlit("response.failed");
    reveal_strlit("response.incomplete");
    reveal_strlit("error");
    reveal_strlit("response.error");
    assert("response.output_text.delta"@.len() == 26);
    assert("response.output_item.done"@.len() == 25);
    assert("response.completed"@.len() == 18);
    assert("response.failed"@.len() == 15);
    assert("response.incomplete"@.len() == 19);
    assert("error"@.len() == 5);
    assert("response.error"@.len() == 14);
}

/// A line that ends in the bytes of a stream is read as its text, without the line break; where
/// it is no text the stream fails, and nothing of the bytes is handed out.
pub proof fn law_line_read(
    s: AnthropicState,
    c: ChatState,
    line: Seq<u8>,
    provider: Seq<char>,
    model: Seq<char>,
)
    requires
        !line.contains(10),
        line.len() == 0 || line.last() != 13,
    ensures
        ({
            let step = anthropic_bytes(s, line.push(10), model);
            let chat = chat_bytes(c, line.push(10), provider, model);
            let read = anthropic_line(s, decode_utf8(line), model);
            let chat_read = chat_line(c, decode_utf8(line), provider, model);
            &&& valid_utf8(line) ==> {
                &&& step.state == read.state
                &&& step.status == read.status
                &&& step.events == read.events
                &&& chat.state == chat_read.state
                &&& chat.status == chat_read.status
                &&& chat.events == chat_read.events
            }
            &&& !valid_utf8(line) ==> {
                &&& step.status is Failed
                &&& step.events.len() == 0
                &&& chat.status is Failed
                &&& chat.events.len() == 0
            }
        }),
{
    law_lines(line, Seq::empty());
    assert(line.push(10) + Seq::<u8>::empty() =~= line.push(10));
    let lines = split_lines(line.push(10)).0;
    assert(lines =~= seq![line]);
    assert(lines[0] == line);
    if valid_utf8(line) {
        assert forall|i: int| 0 <= i < lines.len() implies valid_utf8(#[trigger] lines[i]) by {}
        let texts = line_texts(lines);
        assert(texts.drop_first() =~= Seq::empty());
        let read = anthropic_line(s, texts[0], model);
        let chat_read = chat_line(c, texts[0], provider, model);
        assert(read.events + Seq::<EventView>::empty() =~= read.events);
        assert(chat_read.events + Seq::<EventView>::empty() =~= chat_read.events);
        reveal_with_fuel(anthropic_lines, 2);
        reveal_with_fuel(chat_lines, 2);
    }
}

/// The data of a line in the Responses format is what stands behind its field name, with or
/// without a space in between; carriage returns at its end make no difference, and a line of
/// another field has none.
pub proof fn law_response_data(line: Seq<u8>, payload: Seq<char>)
    requires
        line.len() == 0 || line.last() != 13,
        payload.len() > 0,
        !is_space(payload[0]),
    ensures
        lossy_text(line) == "data:"@ + payload ==> response_data(line) == Some(payload),
        lossy_text(line) == "data: "@ + payload ==> response_data(line) == Some(payload),
        lossy_text(line).len() > 0 && lossy_text(line)[0] != 'd' ==> response_data(line) is None,
        response_data(line.push(13)) == response_data(line),
        response_data(line.push(13).push(13)) == response_data(line),
{
    reveal_strlit("data:");
    reveal_strlit("data: ");
    assert("data:"@.len() == 5 && "data:"@[0] == 'd');
    let text = lossy_text(line);
    assert(without_returns(line) =~= line);
    assert(line.push(13).drop_last() =~= line);
    assert(line.push(13).push(13).drop_last() =~= line.push(13));
    assert(without_returns(line.push(13)) =~= line);
    assert(without_returns(line.push(13).push(13)) =~= line);
    assert(trimmed_start(payload) =~= payload);
    if text == "data:"@ + payload {
        assert(text.subrange(0, 5) =~= "data:"@);
        assert(text.skip(5) =~= payload);
    }
    if text == "data: "@ + payload {
        assert(text.subrange(0, 5) =~= "data:"@);
        let behind = text.skip(5);
        assert(behind =~= seq![' '] + payload);
        assert(is_space(' '));
        assert(behind.drop_first() =~= payload);
        assert(trimmed_start(behind) =~= payload);
    }
    if text.len() > 0 && text[0] != 'd' && "data:"@.is_prefix_of(text) {
        assert(text.subrange(0, 5)[0] == text[0]);
    }
}

/// A single line is read as that line, and what follows a line that ends the reading is not
/// read.
pub proof fn law_response_lines(
    s: ResponsesState,
    line: Seq<u8>,
    more: Seq<Seq<u8>>,
    sent: nat,
    provider: Seq<char>,
    model: Seq<char>,
)
    ensures
        ({
            let step = response_line(s, line, sent, provider, model);
            let alone = response_lines(s, seq![line], sent, provider, model);
            let all = response_lines(s, seq![line] + more, sent, provider, model);
            &&& alone.state == step.state
            &&& alone.status == step.status
            &&& alone.events == step.events
            &&& !(step.status is Going) ==> all == alone
            &&& step.events.is_prefix_of(all.events)
        }),
{
    let step = response_line(s, line, sent, provider, model);
    let one = seq![line];
    assert(one[0] == line && (one + more)[0] == line);
    assert(one.drop_first() =~= Seq::empty());
    assert((one + more).drop_first() =~= more);
    reveal_with_fuel(response_lines, 2);
    assert(step.events + Seq::<EventView>::empty() =~= step.events);
    let all = response_lines(s, one + more, sent, provider, model);
    assert(all.events.subrange(0, step.events.len() as int) =~= step.events);
}

} // verus!
