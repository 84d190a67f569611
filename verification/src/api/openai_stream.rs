//! The reader of the chat completions event stream.

use vstd::prelude::*;
use vstd::string::StringExecFns;
use vstd::utf8::valid_utf8;
use crate::api::diagnostics::{DiagnosticsView, OpenAIStreamDiagnostics};
use crate::api::error::{
    event_failure, first_of, stream_error, ApiFailure, ApiFailureKind, FailureView,
};
use crate::api::lines::{
    all_text, first_bad_line, law_chunks, line_texts, split_lines, Utf8LineDecoder,
};
use crate::api::reasoning::{append_reasoning_detail_chunk, with_fragments};
use crate::api::stream::{
    count_or, data_of_line, event_views, line_data, push_event, text_or_empty, ApiEvent, EventView,
    ReadStatus, StatusView,
};
use crate::api::types::{duplicate_json_list, openai_usage, Usage, UsageView};
use crate::json::{json_views, parsed_json, Json, JsonView};
use crate::text;
use crate::text::{texts, utf8_error};

verus! {

/// A tool call of which pieces have been received.
pub struct CallView {
    pub index: u32,
    pub id: Seq<char>,
    pub name: Seq<char>,
    pub arguments: Seq<char>,
}

/// A call of which nothing but the index is known.
pub open spec fn new_call(index: u32) -> CallView {
    CallView { index, id: Seq::empty(), name: Seq::empty(), arguments: Seq::empty() }
}

/// A call after one more piece of it.
pub open spec fn with_piece(call: CallView, piece: JsonView) -> CallView {
    let function = piece.at("function"@);
    CallView {
        index: call.index,
        id: match piece.at("id"@).text() {
            Some(id) => id,
            None => call.id,
        },
        name: match function.at("name"@).text() {
            Some(name) => name,
            None => call.name,
        },
        arguments: match function.at("arguments"@).text() {
            Some(more) => call.arguments + more,
            None => call.arguments,
        },
    }
}

/// The index of the call that a piece belongs to.
pub open spec fn piece_index(piece: JsonView) -> u32 {
    count_or(piece.at("index"@).uint(), 0)
}

/// The calls, in the order of their indices, after one more piece.
pub open spec fn with_call_piece(calls: Seq<CallView>, piece: JsonView) -> Seq<CallView>
    decreases calls.len(),
{
    let index = piece_index(piece);
    if calls.len() == 0 {
        seq![with_piece(new_call(index), piece)]
    } else if calls[0].index < index {
        seq![calls[0]] + with_call_piece(calls.drop_first(), piece)
    } else if calls[0].index == index {
        seq![with_piece(calls[0], piece)] + calls.drop_first()
    } else {
        seq![with_piece(new_call(index), piece)] + calls
    }
}

/// The calls after more pieces.
pub open spec fn with_call_pieces(calls: Seq<CallView>, pieces: Seq<JsonView>) -> Seq<CallView>
    decreases pieces.len(),
{
    if pieces.len() == 0 {
        calls
    } else {
        with_call_piece(with_call_pieces(calls, pieces.drop_last()), pieces.last())
    }
}

/// Whether calls stand in the order of their indices, each index once.
pub open spec fn in_order(calls: Seq<CallView>) -> bool {
    forall|i: int, j: int|
        0 <= i < j < calls.len() ==> (#[trigger] calls[i]).index < (#[trigger] calls[j]).index
}

/// The message for tool arguments that are no JSON.
pub open spec fn bad_arguments(call: CallView, error: Seq<char>) -> Seq<char> {
    "invalid arguments for tool call "@ + call.name + " ("@ + call.id + "): "@ + error
}

/// The tool uses that complete calls ask for: all of them, or the failure of the first
/// one whose arguments are no JSON.
pub open spec fn drained(calls: Seq<CallView>) -> Result<Seq<EventView>, FailureView>
    decreases calls.len(),
{
    if calls.len() == 0 {
        Ok(Seq::empty())
    } else {
        match drained(calls.drop_last()) {
            Err(failure) => Err(failure),
            Ok(events) => match parsed_json(calls.last().arguments) {
                Ok(input) => Ok(
                    events.push(
                        EventView::ToolUse { id: calls.last().id, name: calls.last().name, input },
                    ),
                ),
                Err(error) => Err(
                    FailureView {
                        kind: ApiFailureKind::MalformedToolArguments,
                        message: bad_arguments(calls.last(), error),
                    },
                ),
            },
        }
    }
}

/// What the reader of a chat completions stream has gathered.
pub struct ChatState {
    pub calls: Seq<CallView>,
    pub input_tokens: u32,
    pub output_tokens: u32,
    pub cache_read_tokens: u32,
    pub cache_creation_tokens: u32,
    pub cost_reports: Seq<JsonView>,
    pub saw_finish_reason: bool,
    pub reasoning_text: Seq<char>,
    pub reasoning_details: Seq<JsonView>,
    pub diagnostics: DiagnosticsView,
}

/// What the reading of some input leads to.
pub struct ChatStep {
    pub state: ChatState,
    pub events: Seq<EventView>,
    pub status: StatusView,
}

impl ChatState {
    /// Nothing has been received but the head of the response.
    pub open spec fn initial(diagnostics: DiagnosticsView) -> ChatState {
        ChatState {
            calls: Seq::empty(),
            input_tokens: 0,
            output_tokens: 0,
            cache_read_tokens: 0,
            cache_creation_tokens: 0,
            cost_reports: Seq::empty(),
            saw_finish_reason: false,
            reasoning_text: Seq::empty(),
            reasoning_details: Seq::empty(),
            diagnostics,
        }
    }

    /// The usage counted so far.
    pub open spec fn usage(self) -> UsageView {
        openai_usage(
            self.input_tokens,
            self.output_tokens,
            self.cache_read_tokens,
            self.cache_creation_tokens,
            self.cost_reports,
        )
    }

    /// The events are handed out and reading goes on.
    pub open spec fn going(self, events: Seq<EventView>) -> ChatStep {
        ChatStep { state: self, events, status: StatusView::Going }
    }

    /// The events are handed out and the stream has ended.
    pub open spec fn finished(self, events: Seq<EventView>) -> ChatStep {
        ChatStep { state: self, events, status: StatusView::Finished }
    }

    /// The events are handed out and the stream cannot be read on.
    pub open spec fn failed(self, events: Seq<EventView>, failure: FailureView) -> ChatStep {
        ChatStep {
            state: self,
            events,
            status: StatusView::Failed(
                FailureView {
                    kind: failure.kind,
                    message: failure.message + "; "@ + self.diagnostics.rendered(),
                },
            ),
        }
    }

    /// The stream cannot be read on, for a reason that has no class of its own.
    pub open spec fn broken(self, events: Seq<EventView>, message: Seq<char>) -> ChatStep {
        self.failed(events, FailureView { kind: ApiFailureKind::Other, message })
    }

    /// The reasoning gathered so far, as the event that hands it out.
    pub open spec fn reasoning_events(self) -> Seq<EventView> {
        if self.reasoning_text.len() == 0 && self.reasoning_details.len() == 0 {
            Seq::empty()
        } else {
            seq![
                EventView::Reasoning {
                    text: if self.reasoning_text.len() > 0 {
                        Some(self.reasoning_text)
                    } else {
                        None
                    },
                    details: self.reasoning_details,
                },
            ]
        }
    }

    /// The state after the reasoning was handed out.
    pub open spec fn without_reasoning(self) -> ChatState {
        ChatState { reasoning_text: Seq::empty(), reasoning_details: Seq::empty(), ..self }
    }

    /// The end of a complete stream: reasoning, tool uses, usage, and that it is done.
    pub open spec fn completed(self) -> ChatStep {
        let reasoning = self.reasoning_events();
        let rest = self.without_reasoning();
        match drained(self.calls) {
            Ok(uses) => ChatState { calls: Seq::empty(), ..rest }.finished(
                reasoning + uses + seq![EventView::Usage(self.usage()), EventView::Done],
            ),
            Err(failure) => rest.failed(reasoning, failure),
        }
    }

    /// The state after the usage and cost fields of an event.
    pub open spec fn counted(self, event: JsonView) -> ChatState {
        let costed = match event.get("cost"@) {
            Some(cost) => ChatState { cost_reports: self.cost_reports.push(cost), ..self },
            None => self,
        };
        match event.get("usage"@) {
            None => costed,
            Some(usage) => {
                let details = usage.at("prompt_tokens_details"@);
                ChatState {
                    input_tokens: count_or(
                        usage.at("prompt_tokens"@).uint(),
                        self.input_tokens as u64,
                    ),
                    output_tokens: count_or(
                        usage.at("completion_tokens"@).uint(),
                        self.output_tokens as u64,
                    ),
                    cache_read_tokens: count_or(
                        details.at("cached_tokens"@).uint(),
                        self.cache_read_tokens as u64,
                    ),
                    cache_creation_tokens: count_or(
                        details.at("cache_write_tokens"@).uint(),
                        self.cache_creation_tokens as u64,
                    ),
                    cost_reports: match usage.get("cost"@) {
                        Some(cost) => costed.cost_reports.push(cost),
                        None => costed.cost_reports,
                    },
                    ..costed
                }
            },
        }
    }

    /// The state after the reasoning and tool call fields of a delta.
    pub open spec fn gathered(self, delta: JsonView) -> ChatState {
        let thought = match first_of(delta.get("reasoning"@), delta.get("reasoning_content"@)) {
            Some(v) => text_or_empty(v.text()),
            None => Seq::empty(),
        };
        ChatState {
            reasoning_text: self.reasoning_text + thought,
            reasoning_details: with_fragments(
                self.reasoning_details,
                items_or_none(delta.at("reasoning_details"@)),
            ),
            calls: with_call_pieces(self.calls, items_or_none(delta.at("tool_calls"@))),
            ..self
        }
    }
}

/// The items of an array, or none.
pub open spec fn items_or_none(v: JsonView) -> Seq<JsonView> {
    match v.items() {
        Some(items) => items,
        None => Seq::empty(),
    }
}

/// The text event of a delta.
pub open spec fn text_events(delta: JsonView) -> Seq<EventView> {
    match delta.at("content"@).text() {
        Some(content) => if content.len() > 0 {
            seq![EventView::Text(content)]
        } else {
            Seq::empty()
        },
        None => Seq::empty(),
    }
}

/// What the finish reason of a choice leads to, after the events that came before it.
pub open spec fn finish_step(s: ChatState, before: Seq<EventView>, reason: Seq<char>) -> ChatStep {
    let events = before + s.reasoning_events();
    let rest = ChatState { saw_finish_reason: true, ..s.without_reasoning() };
    if reason == "tool_calls"@ {
        match drained(s.calls) {
            Ok(uses) => ChatState { calls: Seq::empty(), ..rest }.going(events + uses),
            Err(failure) => rest.failed(events, failure),
        }
    } else if reason == "stop"@ {
        rest.going(events)
    } else {
        let failure = if reason == "length"@ {
            FailureView {
                kind: ApiFailureKind::OutputLimitExceeded,
                message: "response reached its output token limit"@,
            }
        } else if reason == "content_filter"@ {
            FailureView {
                kind: ApiFailureKind::Other,
                message: "response blocked by provider content filter"@,
            }
        } else {
            FailureView {
                kind: ApiFailureKind::Other,
                message: "unsupported OpenAI finish reason: "@ + reason,
            }
        };
        rest.finished(events.push(EventView::Error(failure)))
    }
}

/// What one choice of an event leads to.
pub open spec fn choice_step(s: ChatState, choice: JsonView) -> ChatStep {
    match choice.get("delta"@) {
        None => s.going(Seq::empty()),
        Some(delta) => {
            let next = s.gathered(delta);
            match choice.at("finish_reason"@).text() {
                None => next.going(text_events(delta)),
                Some(reason) => finish_step(next, text_events(delta), reason),
            }
        },
    }
}

/// What the choices of an event lead to: they are read in order, up to the first one
/// that ends the reading.
pub open spec fn choices_step(s: ChatState, choices: Seq<JsonView>) -> ChatStep
    decreases choices.len(),
{
    if choices.len() == 0 {
        s.going(Seq::empty())
    } else {
        let first = choice_step(s, choices[0]);
        if first.status is Going {
            let others = choices_step(first.state, choices.drop_first());
            ChatStep { events: first.events + others.events, ..others }
        } else {
            first
        }
    }
}

/// What one event of the stream leads to.
pub open spec fn chat_event(
    s: ChatState,
    event: JsonView,
    provider: Seq<char>,
    model: Seq<char>,
) -> ChatStep {
    if event.at("error"@) is Object {
        s.finished(seq![EventView::Error(event_failure(event, provider, model))])
    } else {
        choices_step(s.counted(event), items_or_none(event.at("choices"@)))
    }
}

/// What one line of the stream leads to.
pub open spec fn chat_line(
    s: ChatState,
    line: Seq<char>,
    provider: Seq<char>,
    model: Seq<char>,
) -> ChatStep {
    match data_of_line(line) {
        None => s.going(Seq::empty()),
        Some(data) => {
            let recorded = ChatState { diagnostics: s.diagnostics.with_frame(data), ..s };
            if data == "[DONE]"@ {
                recorded.completed()
            } else {
                match parsed_json(data) {
                    Ok(event) => chat_event(recorded, event, provider, model),
                    Err(error) => recorded.broken(
                        Seq::empty(),
                        "invalid JSON in OpenAI SSE event: "@ + error,
                    ),
                }
            }
        },
    }
}

/// What lines of the stream lead to: they are read in order, up to the first one that
/// ends the reading.
pub open spec fn chat_lines(
    s: ChatState,
    lines: Seq<Seq<char>>,
    provider: Seq<char>,
    model: Seq<char>,
) -> ChatStep
    decreases lines.len(),
{
    if lines.len() == 0 {
        s.going(Seq::empty())
    } else {
        let first = chat_line(s, lines[0], provider, model);
        if first.status is Going {
            let others = chat_lines(first.state, lines.drop_first(), provider, model);
            ChatStep { events: first.events + others.events, ..others }
        } else {
            first
        }
    }
}

/// What the bytes received so far lead to. Lines that are no UTF-8 fail as a whole.
pub open spec fn chat_bytes(
    s: ChatState,
    bytes: Seq<u8>,
    provider: Seq<char>,
    model: Seq<char>,
) -> ChatStep {
    let lines = split_lines(bytes).0;
    if all_text(lines) {
        chat_lines(s, line_texts(lines), provider, model)
    } else {
        s.broken(Seq::empty(), utf8_error(first_bad_line(lines)))
    }
}

/// What the end of the stream leads to. It is a success only between two lines and,
/// unless the provider may do without, after a finish reason.
pub open spec fn chat_end(s: ChatState, pending: Seq<u8>, allow_eof: bool) -> ChatStep {
    let recorded = ChatState { diagnostics: s.diagnostics.with_tail(pending), ..s };
    if !valid_utf8(pending) {
        recorded.broken(Seq::empty(), utf8_error(pending))
    } else if pending.len() > 0 {
        recorded.broken(Seq::empty(), "stream ended in the middle of an SSE frame"@)
    } else if !s.saw_finish_reason && !allow_eof {
        recorded.broken(
            Seq::empty(),
            "stream ended before a finish reason or [DONE] marker"@,
        )
    } else {
        recorded.completed()
    }
}

/// A tool call of which pieces have been received.
pub struct PendingCall {
    pub index: u32,
    pub id: String,
    pub name: String,
    pub arguments: String,
}

impl View for PendingCall {
    type V = CallView;

    open spec fn view(&self) -> CallView {
        CallView {
            index: self.index,
            id: self.id@,
            name: self.name@,
            arguments: self.arguments@,
        }
    }
}

/// The views of a list of calls.
pub open spec fn call_views(calls: Seq<PendingCall>) -> Seq<CallView> {
    Seq::new(calls.len(), |i: int| calls[i]@)
}

fn low32(n: u64) -> (r: u32)
    ensures
        r == n as u32,
{
    #[verifier::truncate]
    (n as u32)
}

fn count_field(value: &Json, key: &str, default: u32) -> (r: u32)
    ensures
        r == count_or(value@.at(key@).uint(), default as u64),
{
    match value.uint_at(key) {
        Some(n) => low32(n),
        None => low32(default as u64),
    }
}

fn take_piece(call: &mut PendingCall, piece: &Json)
    ensures
        final(call)@ == with_piece(old(call)@, piece@),
{
    match piece.text_at("id") {
        Some(id) => {
            call.id = id.to_owned();
        },
        None => {},
    }
    match piece.get("function") {
        Some(function) => {
            match function.text_at("name") {
                Some(name) => {
                    call.name = name.to_owned();
                },
                None => {},
            }
            match function.text_at("arguments") {
                Some(more) => {
                    call.arguments.append(more);
                },
                None => {},
            }
        },
        None => {},
    }
}

/// Where a piece goes among calls.
pub proof fn lemma_call_piece_at(calls: Seq<CallView>, piece: JsonView, at: int)
    requires
        0 <= at <= calls.len(),
        forall|k: int| 0 <= k < at ==> (#[trigger] calls[k]).index < piece_index(piece),
        at < calls.len() ==> calls[at].index >= piece_index(piece),
    ensures
        with_call_piece(calls, piece) == if at < calls.len() && calls[at].index == piece_index(
            piece,
        ) {
            calls.update(at, with_piece(calls[at], piece))
        } else {
            calls.insert(at, with_piece(new_call(piece_index(piece)), piece))
        },
    decreases at,
{
    let index = piece_index(piece);
    if at == 0 {
        if calls.len() > 0 && calls[0].index == index {
            assert(with_call_piece(calls, piece) =~= calls.update(0, with_piece(calls[0], piece)));
        } else {
            assert(with_call_piece(calls, piece) =~= calls.insert(
                0,
                with_piece(new_call(index), piece),
            ));
        }
    } else {
        let tail = calls.drop_first();
        assert(calls[0].index < index);
        assert forall|k: int| 0 <= k < at - 1 implies (#[trigger] tail[k]).index < index by {
            assert(tail[k] == calls[k + 1]);
        }
        lemma_call_piece_at(tail, piece, at - 1);
        if at < calls.len() && calls[at].index == index {
            assert(seq![calls[0]] + tail.update(at - 1, with_piece(tail[at - 1], piece))
                =~= calls.update(at, with_piece(calls[at], piece)));
        } else {
            let fresh = with_piece(new_call(index), piece);
            assert(seq![calls[0]] + tail.insert(at - 1, fresh) =~= calls.insert(at, fresh));
        }
    }
}

fn take_call_piece(calls: &mut Vec<PendingCall>, piece: &Json)
    ensures
        call_views(final(calls)@) == with_call_piece(call_views(old(calls)@), piece@),
{
    let index = count_field(piece, "index", 0);
    let ghost before = call_views(calls@);
    let mut at: usize = 0;
    while at < calls.len() && calls[at].index < index
        invariant
            at <= calls@.len(),
            index == piece_index(piece@),
            before == call_views(calls@),
            forall|k: int| 0 <= k < at ==> (#[trigger] before[k]).index < piece_index(piece@),
        decreases calls.len() - at,
    {
        assert(before[at as int].index == calls@[at as int].index);
        at = at + 1;
    }
    if at < calls.len() {
        assert(before[at as int].index == calls@[at as int].index);
    }
    proof {
        lemma_call_piece_at(before, piece@, at as int);
    }
    if at < calls.len() && calls[at].index == index {
        take_piece(&mut calls[at], piece);
        assert(call_views(calls@) =~= with_call_piece(before, piece@));
    } else {
        let mut fresh = PendingCall {
            index,
            id: String::new(),
            name: String::new(),
            arguments: String::new(),
        };
        take_piece(&mut fresh, piece);
        calls.insert(at, fresh);
        assert(call_views(calls@) =~= with_call_piece(before, piece@));
    }
}

fn take_call_pieces(calls: &mut Vec<PendingCall>, pieces: &Vec<Json>)
    ensures
        call_views(final(calls)@) == with_call_pieces(call_views(old(calls)@), json_views(pieces@)),
{
    let mut i: usize = 0;
    while i < pieces.len()
        invariant
            i <= pieces@.len(),
            call_views(calls@) == with_call_pieces(
                call_views(old(calls)@),
                json_views(pieces@).take(i as int),
            ),
        decreases pieces.len() - i,
    {
        let ghost part = json_views(pieces@).take(i + 1);
        assert(part.drop_last() =~= json_views(pieces@).take(i as int));
        assert(part.last() == pieces@[i as int]@);
        take_call_piece(calls, &pieces[i]);
        i = i + 1;
    }
    assert(json_views(pieces@).take(pieces@.len() as int) =~= json_views(pieces@));
}

proof fn lemma_drained_failure(calls: Seq<CallView>, n: int)
    requires
        0 <= n <= calls.len(),
        drained(calls.take(n)) is Err,
    ensures
        drained(calls) == drained(calls.take(n)),
    decreases calls.len() - n,
{
    if n == calls.len() {
        assert(calls.take(n) =~= calls);
    } else {
        assert(calls.take(n + 1).drop_last() =~= calls.take(n));
        lemma_drained_failure(calls, n + 1);
    }
}

/// The tool uses that complete calls ask for, in the order of their indices.
pub fn drain_tool_calls(calls: &Vec<PendingCall>) -> (r: Result<Vec<ApiEvent>, ApiFailure>)
    ensures
        r is Ok <==> drained(call_views(calls@)) is Ok,
        r matches Ok(events) ==> drained(call_views(calls@)) == Ok::<Seq<EventView>, FailureView>(
            event_views(events@),
        ),
        r matches Err(failure) ==> drained(call_views(calls@)) == Err::<
            Seq<EventView>,
            FailureView,
        >(failure@),
{
    let ghost all = call_views(calls@);
    let mut events: Vec<ApiEvent> = Vec::new();
    assert(event_views(events@) =~= Seq::empty());
    let mut i: usize = 0;
    while i < calls.len()
        invariant
            i <= calls@.len(),
            all == call_views(calls@),
            drained(all.take(i as int)) == Ok::<Seq<EventView>, FailureView>(event_views(events@)),
        decreases calls.len() - i,
    {
        let ghost part = all.take(i + 1);
        assert(part.drop_last() =~= all.take(i as int));
        assert(part.last() == calls@[i as int]@);
        match Json::parse(calls[i].arguments.as_str()) {
            Ok(input) => {
                push_event(
                    &mut events,
                    ApiEvent::ToolUse {
                        id: calls[i].id.clone(),
                        name: calls[i].name.clone(),
                        input,
                    },
                );
            },
            Err(error) => {
                let mut message = "invalid arguments for tool call ".to_owned();
                message.append(calls[i].name.as_str());
                message.append(" (");
                message.append(calls[i].id.as_str());
                message.append("): ");
                message.append(error.as_str());
                proof {
                    lemma_drained_failure(all, i + 1);
                }
                return Err(ApiFailure::malformed_tool_arguments(message));
            },
        }
        i = i + 1;
    }
    assert(all.take(calls@.len() as int) =~= all);
    Ok(events)
}

/// Reads a chat completions event stream.
pub struct OpenAIReader {
    lines: Utf8LineDecoder,
    calls: Vec<PendingCall>,
    input_tokens: u32,
    output_tokens: u32,
    cache_read_tokens: u32,
    cache_creation_tokens: u32,
    cost_reports: Vec<Json>,
    saw_finish_reason: bool,
    reasoning_text: String,
    reasoning_details: Vec<Json>,
    diagnostics: OpenAIStreamDiagnostics,
}

fn append_events(events: &mut Vec<ApiEvent>, more: Vec<ApiEvent>)
    ensures
        event_views(final(events)@) == event_views(old(events)@) + event_views(more@),
{
    let mut rest = more;
    events.append(&mut rest);
    assert(event_views(events@) =~= event_views(old(events)@) + event_views(more@));
}

impl OpenAIReader {
    /// What the reader has gathered.
    pub closed spec fn state(&self) -> ChatState {
        ChatState {
            calls: call_views(self.calls@),
            input_tokens: self.input_tokens,
            output_tokens: self.output_tokens,
            cache_read_tokens: self.cache_read_tokens,
            cache_creation_tokens: self.cache_creation_tokens,
            cost_reports: json_views(self.cost_reports@),
            saw_finish_reason: self.saw_finish_reason,
            reasoning_text: self.reasoning_text@,
            reasoning_details: json_views(self.reasoning_details@),
            diagnostics: self.diagnostics@,
        }
    }

    /// The bytes after the last complete line.
    pub closed spec fn pending(&self) -> Seq<u8> {
        self.lines@
    }

    /// A reader that has received nothing but the head of the response.
    pub fn new(diagnostics: OpenAIStreamDiagnostics) -> (r: OpenAIReader)
        ensures
            r.state() == ChatState::initial(diagnostics@),
            r.pending() == Seq::<u8>::empty(),
    {
        let r = OpenAIReader {
            lines: Utf8LineDecoder::default(),
            calls: Vec::new(),
            input_tokens: 0,
            output_tokens: 0,
            cache_read_tokens: 0,
            cache_creation_tokens: 0,
            cost_reports: Vec::new(),
            saw_finish_reason: false,
            reasoning_text: String::new(),
            reasoning_details: Vec::new(),
            diagnostics,
        };
        assert(call_views(r.calls@) =~= Seq::empty());
        assert(json_views(r.cost_reports@) =~= Seq::empty());
        assert(json_views(r.reasoning_details@) =~= Seq::empty());
        r
    }

    fn failed(&self, failure: ApiFailure) -> (r: ReadStatus)
        ensures
            r@ == self.state().failed(Seq::empty(), failure@).status,
    {
        let mut message = failure.message;
        message.append("; ");
        message.append(self.diagnostics.render().as_str());
        ReadStatus::Failed(ApiFailure { kind: failure.kind, message })
    }

    /// Hands out the reasoning gathered so far.
    fn take_reasoning_event(&mut self, events: &mut Vec<ApiEvent>)
        ensures
            final(self).state() == old(self).state().without_reasoning(),
            final(self).pending() == old(self).pending(),
            event_views(final(events)@) == event_views(old(events)@)
                + old(self).state().reasoning_events(),
    {
        if self.reasoning_text.as_str().is_empty() && self.reasoning_details.len() == 0 {
            assert(event_views(events@) =~= event_views(old(events)@) + Seq::empty());
            assert(self.reasoning_text@ =~= Seq::empty());
            assert(json_views(self.reasoning_details@) =~= Seq::empty());
            return ;
        }
        let text = if self.reasoning_text.as_str().is_empty() {
            None
        } else {
            Some(self.reasoning_text.clone())
        };
        let details = duplicate_json_list(&self.reasoning_details);
        self.reasoning_text = String::new();
        self.reasoning_details = Vec::new();
        assert(json_views(self.reasoning_details@) =~= Seq::empty());
        push_event(events, ApiEvent::Reasoning { text, details });
        assert(event_views(events@) =~= event_views(old(events)@)
            + old(self).state().reasoning_events());
    }

    /// Hands out what is left at the end of a complete stream.
    fn complete(&mut self, events: &mut Vec<ApiEvent>) -> (r: ReadStatus)
        ensures
            ({
                let step = old(self).state().completed();
                &&& final(self).state() == step.state
                &&& event_views(final(events)@) == event_views(old(events)@) + step.events
                &&& r@ == step.status
            }),
            final(self).pending() == old(self).pending(),
    {
        let ghost start = event_views(events@);
        self.take_reasoning_event(events);
        match drain_tool_calls(&self.calls) {
            Ok(uses) => {
                self.calls = Vec::new();
                assert(call_views(self.calls@) =~= Seq::empty());
                append_events(events, uses);
                push_event(
                    events,
                    ApiEvent::Usage(
                        Usage::from_openai_totals(
                            self.input_tokens,
                            self.output_tokens,
                            self.cache_read_tokens,
                            self.cache_creation_tokens,
                            duplicate_json_list(&self.cost_reports),
                        ),
                    ),
                );
                push_event(events, ApiEvent::Done);
                assert(event_views(events@) =~= start + old(self).state().completed().events);
                ReadStatus::Finished
            },
            Err(failure) => self.failed(failure),
        }
    }

    fn count(&mut self, event: &Json)
        ensures
            final(self).state() == old(self).state().counted(event@),
            final(self).pending() == old(self).pending(),
    {
        match event.get("cost") {
            Some(cost) => {
                crate::api::openai_compat::push_json(&mut self.cost_reports, cost.duplicate());
            },
            None => {},
        }
        match event.get("usage") {
            Some(usage) => {
                self.input_tokens = count_field(usage, "prompt_tokens", self.input_tokens);
                self.output_tokens = count_field(usage, "completion_tokens", self.output_tokens);
                let null = Json::Null;
                let details = match usage.get("prompt_tokens_details") {
                    Some(d) => d,
                    None => &null,
                };
                self.cache_read_tokens = count_field(
                    details,
                    "cached_tokens",
                    self.cache_read_tokens,
                );
                self.cache_creation_tokens = count_field(
                    details,
                    "cache_write_tokens",
                    self.cache_creation_tokens,
                );
                match usage.get("cost") {
                    Some(cost) => {
                        crate::api::openai_compat::push_json(
                            &mut self.cost_reports,
                            cost.duplicate(),
                        );
                    },
                    None => {},
                }
            },
            None => {},
        }
    }

    fn gather(&mut self, delta: &Json)
        ensures
            final(self).state() == old(self).state().gathered(delta@),
            final(self).pending() == old(self).pending(),
    {
        let thought = match delta.get("reasoning") {
            Some(v) => Some(v),
            None => delta.get("reasoning_content"),
        };
        assert(self.reasoning_text@ + Seq::empty() =~= self.reasoning_text@);
        match thought {
            Some(v) => match v.as_str() {
                Some(t) => {
                    self.reasoning_text.append(t);
                },
                None => {},
            },
            None => {},
        }
        match delta.get("reasoning_details") {
            Some(Json::Array(items)) => {
                append_reasoning_detail_chunk(&mut self.reasoning_details, items);
            },
            _ => {},
        }
        match delta.get("tool_calls") {
            Some(Json::Array(items)) => {
                take_call_pieces(&mut self.calls, items);
            },
            _ => {},
        }
    }

    fn finish(&mut self, reason: &str, events: &mut Vec<ApiEvent>) -> (r: ReadStatus)
        ensures
            ({
                let step = finish_step(old(self).state(), event_views(old(events)@), reason@);
                &&& final(self).state() == step.state
                &&& event_views(final(events)@) == step.events
                &&& r@ == step.status
            }),
            final(self).pending() == old(self).pending(),
    {
        self.saw_finish_reason = true;
        self.take_reasoning_event(events);
        if text::same(reason, "tool_calls") {
            match drain_tool_calls(&self.calls) {
                Ok(uses) => {
                    self.calls = Vec::new();
                    assert(call_views(self.calls@) =~= Seq::empty());
                    append_events(events, uses);
                    ReadStatus::Going
                },
                Err(failure) => self.failed(failure),
            }
        } else if text::same(reason, "stop") {
            ReadStatus::Going
        } else if text::same(reason, "length") {
            push_event(
                events,
                ApiEvent::Error(
                    ApiFailure::output_limit_exceeded(
                        "response reached its output token limit".to_owned(),
                    ),
                ),
            );
            ReadStatus::Finished
        } else if text::same(reason, "content_filter") {
            push_event(
                events,
                ApiEvent::Error(
                    ApiFailure::other("response blocked by provider content filter".to_owned()),
                ),
            );
            ReadStatus::Finished
        } else {
            let mut message = "unsupported OpenAI finish reason: ".to_owned();
            message.append(reason);
            push_event(events, ApiEvent::Error(ApiFailure::other(message)));
            ReadStatus::Finished
        }
    }

    fn take_choice(&mut self, choice: &Json, events: &mut Vec<ApiEvent>) -> (r: ReadStatus)
        ensures
            ({
                let step = choice_step(old(self).state(), choice@);
                &&& final(self).state() == step.state
                &&& event_views(final(events)@) == event_views(old(events)@) + step.events
                &&& r@ == step.status
            }),
            final(self).pending() == old(self).pending(),
    {
        let ghost before = event_views(events@);
        assert(before + Seq::empty() =~= before);
        let delta = match choice.get("delta") {
            Some(d) => d,
            None => return ReadStatus::Going,
        };
        match delta.text_at("content") {
            Some(content) => if !content.is_empty() {
                push_event(events, ApiEvent::Text(content.to_owned()));
            },
            None => {},
        }
        assert(event_views(events@) =~= before + text_events(delta@));
        self.gather(delta);
        let ghost gathered = self.state();
        match choice.text_at("finish_reason") {
            None => ReadStatus::Going,
            Some(reason) => {
                let status = self.finish(reason, events);
                proof {
                    lemma_finish_after(gathered, before, text_events(delta@), reason@);
                }
                status
            },
        }
    }

    fn take_choices(&mut self, choices: &Vec<Json>, events: &mut Vec<ApiEvent>) -> (r: ReadStatus)
        ensures
            ({
                let step = choices_step(old(self).state(), json_views(choices@));
                &&& final(self).state() == step.state
                &&& event_views(final(events)@) == event_views(old(events)@) + step.events
                &&& r@ == step.status
            }),
            final(self).pending() == old(self).pending(),
    {
        let ghost all = json_views(choices@);
        let ghost whole = choices_step(self.state(), all);
        let ghost start = event_views(events@);
        let mut i: usize = 0;
        assert(all.skip(0) =~= all);
        while i < choices.len()
            invariant
                i <= choices@.len(),
                all == json_views(choices@),
                start == event_views(old(events)@),
                whole == choices_step(old(self).state(), all),
                self.pending() == old(self).pending(),
                ({
                    let others = choices_step(self.state(), all.skip(i as int));
                    &&& whole.state == others.state
                    &&& whole.status == others.status
                    &&& start + whole.events == event_views(events@) + others.events
                }),
            decreases choices.len() - i,
        {
            let ghost before = event_views(events@);
            let ghost here = self.state();
            let status = self.take_choice(&choices[i], events);
            proof {
                let tail = all.skip(i as int);
                assert(tail[0] == choices@[i as int]@);
                assert(tail.drop_first() =~= all.skip(i + 1));
                let first = choice_step(here, tail[0]);
                let others = choices_step(first.state, tail.drop_first());
                assert(before + (first.events + others.events) =~= (before + first.events)
                    + others.events);
            }
            match status {
                ReadStatus::Going => {},
                _ => {
                    return status;
                },
            }
            i = i + 1;
        }
        assert(event_views(events@) + Seq::<EventView>::empty() =~= event_views(events@));
        ReadStatus::Going
    }

    /// Takes in one event of the stream.
    pub fn take_event(
        &mut self,
        event: &Json,
        provider: &str,
        model: &str,
        events: &mut Vec<ApiEvent>,
    ) -> (r: ReadStatus)
        ensures
            ({
                let step = chat_event(old(self).state(), event@, provider@, model@);
                &&& final(self).state() == step.state
                &&& event_views(final(events)@) == event_views(old(events)@) + step.events
                &&& r@ == step.status
            }),
            final(self).pending() == old(self).pending(),
    {
        let ghost before = event_views(events@);
        match event.get("error") {
            Some(Json::Object(_)) => {
                let failure = stream_error(event, provider, model);
                push_event(events, ApiEvent::Error(failure));
                assert(event_views(events@) =~= before + seq![EventView::Error(failure@)]);
                return ReadStatus::Finished;
            },
            _ => {},
        }
        self.count(event);
        match event.get("choices") {
            Some(Json::Array(choices)) => self.take_choices(choices, events),
            _ => {
                assert(before + Seq::empty() =~= before);
                ReadStatus::Going
            },
        }
    }

    /// Takes in one line of the stream.
    pub fn take_line(
        &mut self,
        line: &str,
        provider: &str,
        model: &str,
        events: &mut Vec<ApiEvent>,
    ) -> (r: ReadStatus)
        ensures
            ({
                let step = chat_line(old(self).state(), line@, provider@, model@);
                &&& final(self).state() == step.state
                &&& event_views(final(events)@) == event_views(old(events)@) + step.events
                &&& r@ == step.status
            }),
            final(self).pending() == old(self).pending(),
    {
        assert(event_views(events@) =~= event_views(old(events)@) + Seq::empty());
        match line_data(line) {
            None => ReadStatus::Going,
            Some(data) => {
                self.diagnostics.record_frame(data);
                if text::same(data, "[DONE]") {
                    self.complete(events)
                } else {
                    match Json::parse(data) {
                        Ok(event) => self.take_event(&event, provider, model, events),
                        Err(error) => {
                            let mut message = "invalid JSON in OpenAI SSE event: ".to_owned();
                            message.append(error.as_str());
                            self.failed(ApiFailure::other(message))
                        },
                    }
                }
            },
        }
    }

    /// Takes in a chunk of the stream and hands out the events that it completes.
    pub fn read_openai_sse_body(&mut self, chunk: &[u8], provider: &str, model: &str) -> (r: (
        Vec<ApiEvent>,
        ReadStatus,
    ))
        ensures
            ({
                let bytes = old(self).pending() + chunk@;
                let step = chat_bytes(old(self).state(), bytes, provider@, model@);
                &&& final(self).state() == step.state
                &&& event_views(r.0@) == step.events
                &&& r.1@ == step.status
                &&& all_text(split_lines(bytes).0) ==> final(self).pending() == split_lines(
                    bytes,
                ).1
            }),
    {
        let mut events: Vec<ApiEvent> = Vec::new();
        assert(event_views(events@) =~= Seq::empty());
        let ghost start = self.state();
        match self.lines.push(chunk) {
            Err(e) => {
                let status = self.failed(ApiFailure::other(e));
                (events, status)
            },
            Ok(lines) => {
                let ghost all = texts(lines@);
                let ghost whole = chat_lines(start, all, provider@, model@);
                let ghost left = self.pending();
                let mut i: usize = 0;
                assert(all.skip(0) =~= all);
                assert(Seq::<EventView>::empty() + whole.events =~= whole.events);
                while i < lines.len()
                    invariant
                        i <= lines@.len(),
                        all == texts(lines@),
                        self.pending() == left,
                        ({
                            let others = chat_lines(
                                self.state(),
                                all.skip(i as int),
                                provider@,
                                model@,
                            );
                            &&& whole.state == others.state
                            &&& whole.status == others.status
                            &&& whole.events == event_views(events@) + others.events
                        }),
                        whole == chat_lines(start, all, provider@, model@),
                        start == old(self).state(),
                        all == line_texts(split_lines(old(self).pending() + chunk@).0),
                        all_text(split_lines(old(self).pending() + chunk@).0),
                        left == split_lines(old(self).pending() + chunk@).1,
                    decreases lines.len() - i,
                {
                    let ghost before = event_views(events@);
                    let ghost here = self.state();
                    let status = self.take_line(lines[i].as_str(), provider, model, &mut events);
                    proof {
                        let tail = all.skip(i as int);
                        assert(tail[0] == lines@[i as int]@);
                        assert(tail.drop_first() =~= all.skip(i + 1));
                        let first = chat_line(here, tail[0], provider@, model@);
                        let others = chat_lines(
                            first.state,
                            tail.drop_first(),
                            provider@,
                            model@,
                        );
                        assert(before + (first.events + others.events) =~= (before + first.events)
                            + others.events);
                    }
                    match status {
                        ReadStatus::Going => {},
                        _ => {
                            return (events, status);
                        },
                    }
                    i = i + 1;
                }
                assert(event_views(events@) + Seq::<EventView>::empty() =~= event_views(events@));
                (events, ReadStatus::Going)
            },
        }
    }

    /// Takes in the end of the stream.
    pub fn end_of_stream(&mut self, allow_eof_without_finish_reason: bool) -> (r: (
        Vec<ApiEvent>,
        ReadStatus,
    ))
        ensures
            ({
                let step = chat_end(
                    old(self).state(),
                    old(self).pending(),
                    allow_eof_without_finish_reason,
                );
                &&& final(self).state() == step.state
                &&& event_views(r.0@) == step.events
                &&& r.1@ == step.status
            }),
    {
        let mut events: Vec<ApiEvent> = Vec::new();
        assert(event_views(events@) =~= Seq::empty());
        self.diagnostics.record_partial_tail(self.lines.pending_bytes());
        match self.lines.finish() {
            Err(e) => {
                let status = self.failed(ApiFailure::other(e));
                return (events, status);
            },
            Ok(()) => {},
        }
        if self.lines.pending_bytes().len() > 0 {
            let status = self.failed(
                ApiFailure::other("stream ended in the middle of an SSE frame".to_owned()),
            );
            return (events, status);
        }
        if !self.saw_finish_reason && !allow_eof_without_finish_reason {
            let status = self.failed(
                ApiFailure::other(
                    "stream ended before a finish reason or [DONE] marker".to_owned(),
                ),
            );
            return (events, status);
        }
        let status = self.complete(&mut events);
        proof {
            let step = chat_end(
                old(self).state(),
                old(self).pending(),
                allow_eof_without_finish_reason,
            );
            assert(Seq::<EventView>::empty() + step.events =~= step.events);
        }
        (events, status)
    }
}

proof fn lemma_finish_after(
    s: ChatState,
    sent: Seq<EventView>,
    before: Seq<EventView>,
    reason: Seq<char>,
)
    ensures
        ({
            let whole = finish_step(s, sent + before, reason);
            let part = finish_step(s, before, reason);
            &&& whole.state == part.state
            &&& whole.status == part.status
            &&& whole.events == sent + part.events
        }),
{
    let whole = finish_step(s, sent + before, reason);
    let part = finish_step(s, before, reason);
    assert(sent + (before + s.reasoning_events()) =~= (sent + before) + s.reasoning_events());
    assert(whole.events =~= sent + part.events);
}

proof fn lemma_lines_in_turn(
    s: ChatState,
    a: Seq<Seq<char>>,
    b: Seq<Seq<char>>,
    provider: Seq<char>,
    model: Seq<char>,
)
    requires
        chat_lines(s, a, provider, model).status is Going,
    ensures
        ({
            let first = chat_lines(s, a, provider, model);
            let second = chat_lines(first.state, b, provider, model);
            chat_lines(s, a + b, provider, model) == (ChatStep {
                events: first.events + second.events,
                ..second
            })
        }),
    decreases a.len(),
{
    if a.len() == 0 {
        assert(a + b =~= b);
        let second = chat_lines(s, b, provider, model);
        assert(Seq::<EventView>::empty() + second.events =~= second.events);
    } else {
        let one = chat_line(s, a[0], provider, model);
        lemma_lines_in_turn(one.state, a.drop_first(), b, provider, model);
        assert((a + b).drop_first() =~= a.drop_first() + b);
        assert((a + b)[0] == a[0]);
        let first = chat_lines(one.state, a.drop_first(), provider, model);
        let second = chat_lines(first.state, b, provider, model);
        assert(one.events + (first.events + second.events) =~= (one.events + first.events)
            + second.events);
    }
}

/// Where a chat completions stream is cut into chunks makes no difference: as long as
/// its lines are UTF-8 and it has not ended, two chunks in turn lead to the events, the
/// state and the status that the two at once lead to.
pub proof fn law_chat_chunks(
    s: ChatState,
    a: Seq<u8>,
    b: Seq<u8>,
    provider: Seq<char>,
    model: Seq<char>,
)
    requires
        all_text(split_lines(a + b).0),
        chat_bytes(s, a, provider, model).status is Going,
    ensures
        ({
            let first = chat_bytes(s, a, provider, model);
            let second = chat_bytes(first.state, split_lines(a).1 + b, provider, model);
            chat_bytes(s, a + b, provider, model) == (ChatStep {
                events: first.events + second.events,
                ..second
            })
        }),
{
    law_chunks(a, b);
    let lines_a = split_lines(a).0;
    let lines_b = split_lines(split_lines(a).1 + b).0;
    let all = split_lines(a + b).0;
    assert forall|i: int| 0 <= i < lines_a.len() implies valid_utf8(#[trigger] lines_a[i]) by {
        assert(all[i] == lines_a[i]);
    }
    assert forall|i: int| 0 <= i < lines_b.len() implies valid_utf8(#[trigger] lines_b[i]) by {
        assert(all[lines_a.len() + i] == lines_b[i]);
    }
    assert(line_texts(all) =~= line_texts(lines_a) + line_texts(lines_b));
    lemma_lines_in_turn(s, line_texts(lines_a), line_texts(lines_b), provider, model);
}

/// Pieces of tool calls may arrive in any order of their indices: the calls always
/// stand in the order of their indices, each index once.
pub proof fn law_calls_in_order(calls: Seq<CallView>, piece: JsonView)
    requires
        in_order(calls),
    ensures
        in_order(with_call_piece(calls, piece)),
    decreases calls.len(),
{
    let index = piece_index(piece);
    let at = first_at_or_above(calls, index as int);
    lemma_first_at_or_above(calls, index as int);
    lemma_call_piece_at(calls, piece, at);
    let after = with_call_piece(calls, piece);
    assert forall|i: int, j: int| 0 <= i < j < after.len() implies (#[trigger] after[i]).index < (
    #[trigger] after[j]).index by {
        if at < calls.len() && calls[at].index == index {
            assert(after[i].index == calls[i].index);
            assert(after[j].index == calls[j].index);
        } else {
            if at < calls.len() {
                assert(index < calls[at].index);
            }
            if i < at {
                assert(after[i] == calls[i]);
            }
            if i > at {
                assert(after[i] == calls[i - 1]);
            }
            if j < at {
                assert(after[j] == calls[j]);
            }
            if j > at {
                assert(after[j] == calls[j - 1]);
                assert(calls[at].index <= calls[j - 1].index);
            }
        }
    }
}

spec fn first_at_or_above(calls: Seq<CallView>, index: int) -> int
    decreases calls.len(),
{
    if calls.len() == 0 {
        0
    } else if calls[0].index < index {
        1 + first_at_or_above(calls.drop_first(), index)
    } else {
        0
    }
}

proof fn lemma_first_at_or_above(calls: Seq<CallView>, index: int)
    ensures
        0 <= first_at_or_above(calls, index) <= calls.len(),
        forall|k: int|
            0 <= k < first_at_or_above(calls, index) ==> (#[trigger] calls[k]).index < index,
        first_at_or_above(calls, index) < calls.len() ==> calls[first_at_or_above(
            calls,
            index,
        )].index >= index,
    decreases calls.len(),
{
    if calls.len() > 0 && calls[0].index < index {
        let tail = calls.drop_first();
        lemma_first_at_or_above(tail, index);
        assert forall|k: int| 0 <= k < first_at_or_above(calls, index) implies (
        #[trigger] calls[k]).index < index by {
            if k > 0 {
                assert(tail[k - 1] == calls[k]);
            }
        }
    }
}

} // verus!
